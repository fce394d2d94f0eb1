use showbits::backlog::{
    name_before, sort_names, Backlog, BacklogAction, BacklogEvent, BacklogOutcome,
};
use showbits::buffer::Buffer;
use showbits::color::{black, white, Rgba};
use showbits::persistent_printer::{
    Action, DeviceError, Event, Outcome, PersistentPrinter, QueueError,
};
use showbits::printer::{
    encode_chunk, encode_raster, feed_commands, get_horizontal_byte_starting_at, pixel_to_bit,
    print_image_commands, EncodingError, PrinterCommand, CHUNK_HEIGHT, WIDTH,
};
use showbits::spool::Stamp;
use showbits::vec2::Vec2;

fn striped(width: i32, height: i32) -> Buffer<Rgba> {
    let mut image = Buffer::new(Vec2::new(width, height), white());
    for y in 0..height {
        for x in 0..width {
            if (x + 2 * y) % 3 == 0 {
                image.set(Vec2::new(x, y), black());
            }
        }
    }
    image
}

#[test]
fn pixel_is_mark_below_the_middle() {
    assert!(pixel_to_bit(black()));
    assert!(!pixel_to_bit(white()));
    assert!(pixel_to_bit(Rgba::new(127, 127, 128, 255)));
    assert!(!pixel_to_bit(Rgba::new(127, 128, 128, 255)));
    assert!(pixel_to_bit(Rgba::new(255, 127, 0, 0)));
    assert!(!pixel_to_bit(Rgba::new(255, 128, 0, 255)));
}

#[test]
fn byte_has_leftmost_pixel_in_highest_bit() {
    let mut image = Buffer::new(Vec2::new(16, 2), white());
    image.set(Vec2::new(0, 0), black());
    image.set(Vec2::new(7, 0), black());
    image.set(Vec2::new(9, 1), black());
    assert_eq!(get_horizontal_byte_starting_at(&image, 0, 0), 0b1000_0001);
    assert_eq!(get_horizontal_byte_starting_at(&image, 8, 0), 0);
    assert_eq!(get_horizontal_byte_starting_at(&image, 8, 1), 0b0100_0000);
    assert_eq!(get_horizontal_byte_starting_at(&image, 3, 0), 0b0000_1000);
}

#[test]
fn chunk_has_header_and_rows() {
    let mut image = Buffer::new(Vec2::new(16, 3), white());
    image.set(Vec2::new(0, 1), black());
    image.set(Vec2::new(15, 2), black());
    let command = encode_chunk(&image, 1, 2);
    assert_eq!(command, vec![0x1d, b'v', b'0', 0, 2, 0, 2, 0, 0x80, 0x00, 0x00, 0x01]);
}

#[test]
fn raster_is_cut_into_chunks_that_hold_the_image() {
    let image = striped(24, 7);
    let chunks = encode_raster(&image, 3).unwrap();
    assert_eq!(chunks.len(), 3);
    let heights: Vec<usize> = chunks.iter().map(|c| c[6] as usize + 256 * c[7] as usize).collect();
    assert_eq!(heights, vec![3, 3, 1]);
    let mut payload = 0;
    for (i, chunk) in chunks.iter().enumerate() {
        assert_eq!(&chunk[..6], &[0x1d, b'v', b'0', 0, 3, 0]);
        assert_eq!(chunk.len(), 8 + 3 * heights[i]);
        payload += chunk.len() - 8;
    }
    assert_eq!(payload, 3 * 7);
    for y in 0..7usize {
        for x in 0..24usize {
            let byte = chunks[y / 3][8 + (y % 3) * 3 + x / 8];
            let bit = byte & (0x80 >> (x % 8)) != 0;
            let pixel = *image.at(Vec2::new(x as i32, y as i32)).unwrap();
            assert_eq!(bit, pixel == black(), "at {x}, {y}");
        }
    }
}

#[test]
fn raster_height_needs_two_bytes() {
    let image = Buffer::new(Vec2::new(8, 300), black());
    let chunks = encode_raster(&image, 1023).unwrap();
    assert_eq!(chunks.len(), 1);
    assert_eq!(&chunks[0][..8], &[0x1d, b'v', b'0', 0, 1, 0, 44, 1]);
    assert!(chunks[0][8..].iter().all(|b| *b == 0xff));
    let empty = Buffer::new(Vec2::new(8, 0), black());
    assert_eq!(encode_raster(&empty, 1023).unwrap().len(), 0);
}

#[test]
fn raster_rejects_bad_sizes() {
    let odd = Buffer::new(Vec2::new(12, 2), white());
    assert_eq!(encode_raster(&odd, 4), Err(EncodingError::WidthNotMultipleOfEight));
    let image = Buffer::new(Vec2::new(8, 2), white());
    assert_eq!(encode_raster(&image, 0), Err(EncodingError::BadChunkHeight));
    assert_eq!(encode_raster(&image, 0x10000), Err(EncodingError::BadChunkHeight));
    let wide = Buffer::new(Vec2::new(8 * 0x10000, 0), white());
    assert_eq!(encode_raster(&wide, 4), Err(EncodingError::TooWide));
    assert_eq!(print_image_commands(&image), Err(EncodingError::WidthMismatch));
}

#[test]
fn print_commands_frame_the_chunks() {
    assert_eq!(WIDTH, 384);
    assert_eq!(CHUNK_HEIGHT, 1023);
    let image = striped(384, 1025);
    let commands = print_image_commands(&image).unwrap();
    assert_eq!(commands.len(), 4);
    assert_eq!(commands[0], PrinterCommand::Init);
    assert_eq!(commands[3], PrinterCommand::Print);
    let chunks = encode_raster(&image, 1023).unwrap();
    assert_eq!(commands[1], PrinterCommand::Custom(chunks[0].clone()));
    assert_eq!(commands[2], PrinterCommand::Custom(chunks[1].clone()));
    assert_eq!(chunks[0].len(), 8 + 48 * 1023);
    assert_eq!(chunks[1].len(), 8 + 48 * 2);
    assert_eq!(
        feed_commands(),
        vec![PrinterCommand::Init, PrinterCommand::Feeds(3), PrinterCommand::Print]
    );
}

fn printer() -> PersistentPrinter {
    PersistentPrinter::new(Some("/dev/usb/lp0".to_string()), None, "queue".to_string())
}

#[test]
fn failing_device_spools_once() {
    let mut printer = printer();
    assert!(!printer.is_connected());
    assert_eq!(printer.queue_dir(), "queue");
    let image = striped(384, 5);
    let mut job = printer.print_image(striped(384, 5));
    let mut spooled = 0;
    let mut action = job.action();
    let mut seen = vec![];
    let outcome = loop {
        seen.push(action);
        let event = match action {
            Action::Transmit => Event::TransmitFailed(DeviceError::WriteFailed),
            Action::Reconnect => Event::Reconnected,
            Action::Spool => {
                spooled += 1;
                assert_eq!(job.get_image().size(), image.size());
                for y in 0..5 {
                    for x in 0..384 {
                        let p = Vec2::new(x, y);
                        assert_eq!(job.get_image().at(p), image.at(p));
                    }
                }
                Event::SpoolWritten
            }
            Action::Done(outcome) => break outcome,
        };
        action = job.step(&mut printer, event);
    };
    assert_eq!(outcome, Outcome::Spooled);
    assert_eq!(spooled, 1);
    assert_eq!(
        seen,
        vec![Action::Reconnect, Action::Transmit, Action::Spool, Action::Done(Outcome::Spooled)]
    );
    assert!(!printer.is_connected());
    assert_eq!(job.step(&mut printer, Event::TransmitOk), Action::Done(Outcome::Spooled));
}

#[test]
fn healthy_device_prints_at_once() {
    let mut printer = printer();
    let mut job = printer.print_image(striped(384, 2));
    assert_eq!(job.action(), Action::Reconnect);
    assert_eq!(job.step(&mut printer, Event::SpoolWritten), Action::Reconnect);
    assert_eq!(job.step(&mut printer, Event::Reconnected), Action::Transmit);
    assert!(printer.is_connected());
    assert_eq!(job.get_commands(), &print_image_commands(&striped(384, 2)).unwrap());
    assert_eq!(job.step(&mut printer, Event::TransmitOk), Action::Done(Outcome::Delivered));

    let mut second = printer.print_image(striped(384, 2));
    assert_eq!(second.action(), Action::Transmit);
    assert_eq!(second.step(&mut printer, Event::TransmitFailed(DeviceError::WriteFailed)), Action::Reconnect);
    assert!(!printer.is_connected());
    assert_eq!(second.step(&mut printer, Event::ReconnectFailed), Action::Spool);
    assert_eq!(
        second.step(&mut printer, Event::SpoolFailed),
        Action::Done(Outcome::Failed(QueueError::SpoolWrite))
    );
}

#[test]
fn wrong_width_is_spooled_and_never_sent() {
    for connected in [false, true] {
        let mut printer = printer();
        if connected {
            let mut first = printer.print_image(striped(384, 1));
            first.step(&mut printer, Event::Reconnected);
            first.step(&mut printer, Event::TransmitOk);
        }
        assert_eq!(printer.is_connected(), connected);
        let mut job = printer.print_image(striped(8, 2));
        assert_eq!(job.action(), Action::Spool);
        assert!(job.get_commands().is_empty());
        assert_eq!(job.get_image().size(), Vec2::new(8, 2));
        assert_eq!(job.step(&mut printer, Event::TransmitOk), Action::Spool);
        assert_eq!(job.step(&mut printer, Event::SpoolWritten), Action::Done(Outcome::Spooled));
        assert_eq!(printer.is_connected(), connected);
        let mut lost = printer.print_image(striped(8, 2));
        assert_eq!(
            lost.step(&mut printer, Event::SpoolFailed),
            Action::Done(Outcome::Failed(QueueError::SpoolWrite))
        );
    }
}

#[test]
fn names_are_sorted_by_bytes() {
    let names = vec!["b.png", "a.png", "10.png", "9.png", "a", "", "\u{e9}.png", "a.png"];
    let sorted = sort_names(names.iter().map(|s| s.to_string()).collect());
    let mut expected: Vec<String> = names.iter().map(|s| s.to_string()).collect();
    expected.sort();
    assert_eq!(sorted, expected);
    assert!(name_before(&"a".to_string(), &"a".to_string()));
    assert!(name_before(&"a".to_string(), &"ab".to_string()));
    assert!(!name_before(&"b".to_string(), &"ab".to_string()));
}

#[test]
fn backlog_drains_in_order() {
    let mut printer = printer();
    let names = vec!["3.png".to_string(), "1.png".to_string(), "2.png".to_string()];
    let mut backlog = printer.print_backlog(names, false);
    let mut log = vec![];
    let mut action = backlog.action();
    let outcome = loop {
        let event = match action {
            BacklogAction::Load => {
                log.push(format!("load {}", backlog.current().unwrap()));
                BacklogEvent::Loaded(striped(384, 3))
            }
            BacklogAction::Reconnect => {
                log.push("reconnect".to_string());
                BacklogEvent::Reconnected
            }
            BacklogAction::Transmit => {
                assert_eq!(
                    backlog.get_commands(),
                    &print_image_commands(&striped(384, 3)).unwrap()
                );
                log.push(format!("send {}", backlog.current().unwrap()));
                BacklogEvent::TransmitOk
            }
            BacklogAction::Remove => {
                log.push(format!("remove {}", backlog.current().unwrap()));
                BacklogEvent::Removed
            }
            BacklogAction::Done(outcome) => break outcome,
        };
        action = backlog.step(&mut printer, event);
    };
    assert_eq!(outcome, BacklogOutcome::Drained);
    assert_eq!(backlog.current(), None);
    assert_eq!(
        log,
        vec![
            "load 1.png",
            "reconnect",
            "send 1.png",
            "remove 1.png",
            "load 2.png",
            "send 2.png",
            "remove 2.png",
            "load 3.png",
            "send 3.png",
            "remove 3.png",
        ]
    );
}

#[test]
fn backlog_stops_at_first_failure() {
    let mut printer = printer();
    let names = vec!["b".to_string(), "a".to_string()];
    let mut backlog = Backlog::start(names, false);
    assert_eq!(backlog.action(), BacklogAction::Load);
    assert_eq!(backlog.step(&mut printer, BacklogEvent::Loaded(striped(384, 1))), BacklogAction::Reconnect);
    assert_eq!(backlog.step(&mut printer, BacklogEvent::Reconnected), BacklogAction::Transmit);
    assert_eq!(backlog.step(&mut printer, BacklogEvent::TransmitOk), BacklogAction::Remove);
    assert_eq!(backlog.step(&mut printer, BacklogEvent::Removed), BacklogAction::Load);
    assert_eq!(backlog.current(), Some(&"b".to_string()));
    assert_eq!(backlog.step(&mut printer, BacklogEvent::Loaded(striped(384, 1))), BacklogAction::Transmit);
    assert_eq!(backlog.step(&mut printer, BacklogEvent::TransmitFailed(DeviceError::Unavailable)), BacklogAction::Reconnect);
    assert_eq!(
        backlog.step(&mut printer, BacklogEvent::ReconnectFailed),
        BacklogAction::Done(BacklogOutcome::Stopped)
    );
    assert_eq!(
        backlog.step(&mut printer, BacklogEvent::Removed),
        BacklogAction::Done(BacklogOutcome::Stopped)
    );
    assert!(!printer.is_connected());
}

#[test]
fn backlog_failures_and_shortcuts() {
    let mut printer = printer();
    let skipped = Backlog::start(vec!["a".to_string()], true);
    assert_eq!(skipped.action(), BacklogAction::Done(BacklogOutcome::Skipped));
    let empty = Backlog::start(vec![], false);
    assert_eq!(empty.action(), BacklogAction::Done(BacklogOutcome::Drained));

    let mut unreadable = Backlog::start(vec!["a".to_string()], false);
    assert_eq!(
        unreadable.step(&mut printer, BacklogEvent::LoadFailed),
        BacklogAction::Done(BacklogOutcome::Failed(QueueError::SpoolRead))
    );
    let mut narrow = Backlog::start(vec!["a".to_string()], false);
    assert_eq!(
        narrow.step(&mut printer, BacklogEvent::Loaded(striped(8, 1))),
        BacklogAction::Done(BacklogOutcome::Stopped)
    );
    assert_eq!(narrow.current(), None);
    let mut stuck = Backlog::start(vec!["a".to_string()], false);
    stuck.step(&mut printer, BacklogEvent::Loaded(striped(384, 1)));
    stuck.step(&mut printer, BacklogEvent::Reconnected);
    stuck.step(&mut printer, BacklogEvent::TransmitOk);
    assert_eq!(
        stuck.step(&mut printer, BacklogEvent::RemoveFailed),
        BacklogAction::Done(BacklogOutcome::Failed(QueueError::SpoolRemove))
    );
}

#[test]
fn spool_names_have_fixed_width_and_sort_by_time() {
    assert_eq!(Stamp::new(0, 0).file_name(), "00000000000000000000.png");
    assert_eq!(Stamp::new(1718810565, 123456789).file_name(), "01718810565123456789.png");
    assert_eq!(Stamp::new(-5, 17).file_name(), "00000000000000000000.png");
    assert_eq!(Stamp::new(7, -1).file_name(), "00000000007000000000.png");
    assert_eq!(Stamp::new(7, 2_000_000_000).file_name(), "00000000007999999999.png");
    assert_eq!(Stamp::new(i64::MAX, 5).file_name(), "99999999999000000005.png");
    let early = Stamp::new(9, 999_999_999);
    let late = Stamp::new(10, 0);
    assert!(early.is_before(late));
    assert!(!late.is_before(early));
    assert!(early.file_name() < late.file_name());
    assert_eq!(early.later(), Some(late));
    assert_eq!(Stamp::new(99_999_999_999, 999_999_999).later(), None);
}

#[test]
fn spool_stamps_strictly_increase() {
    let mut printer = printer();
    let now = Stamp::new(100, 5);
    let a = printer.spool_stamp(now).unwrap();
    let b = printer.spool_stamp(now).unwrap();
    let c = printer.spool_stamp(Stamp::new(99, 0)).unwrap();
    let d = printer.spool_stamp(Stamp::new(200, 0)).unwrap();
    assert_eq!(a, now);
    assert_eq!(b, Stamp::new(100, 6));
    assert_eq!(c, Stamp::new(100, 7));
    assert_eq!(d, Stamp::new(200, 0));
    let names = vec![a.file_name(), b.file_name(), c.file_name(), d.file_name()];
    let mut sorted = names.clone();
    sorted.sort();
    assert_eq!(names, sorted);
    assert_eq!(sort_names(vec![names[3].clone(), names[1].clone(), names[0].clone(), names[2].clone()]), names);
    let mut last = PersistentPrinter::new(None, None, "q".to_string());
    let end = Stamp::new(99_999_999_999, 999_999_999);
    assert_eq!(last.spool_stamp(end), Some(end));
    assert_eq!(last.spool_stamp(end), None);
}
