//! Delivery that survives a printer that is switched off.
//!
//! Nothing here touches the printer or the disk. A job says what has to be
//! done next, whoever runs it does that and reports how it went, and the job
//! answers with the next thing to do. An image that cannot be sent is
//! written to the spool; the backlog sends what is in the spool, oldest
//! first.

use vstd::prelude::*;
use crate::backlog::{ascending, backlog_start, Backlog};
use crate::buffer::Buffer;
use crate::spool::{lemma_next_after, next_after, Stamp, MAX_SECONDS, NANOS_PER_SECOND};
use crate::color::Rgba;
use crate::printer::{
    print_commands, print_image_commands, CommandView, PrinterCommand, WIDTH,
};

verus! {

/// Why a job ended without the image being printed or spooled.
#[derive(Clone, Copy, Debug, PartialEq, Eq, Structural)]
pub enum QueueError {
    /// The image could not be written to the spool.
    SpoolWrite,
    /// A spooled image could not be read.
    SpoolRead,
    /// A printed image could not be removed from the spool.
    SpoolRemove,
}

/// How printing an image ended.
#[derive(Clone, Copy, Debug, PartialEq, Eq, Structural)]
pub enum Outcome {
    /// The printer has the image.
    Delivered,
    /// The spool has the image.
    Spooled,
    Failed(QueueError),
}

/// What has to be done next for an image.
#[derive(Clone, Copy, Debug, PartialEq, Eq, Structural)]
pub enum Action {
    /// Send the job's commands through the open device.
    Transmit,
    /// Open the device again.
    Reconnect,
    /// Write the job's image to the spool under a new name.
    Spool,
    /// Nothing: the job has ended.
    Done(Outcome),
}

/// Why the device did not take what was sent.
#[derive(Clone, Copy, Debug, PartialEq, Eq, Structural)]
pub enum DeviceError {
    /// The device is not open.
    Unavailable,
    /// Writing to the device failed.
    WriteFailed,
}

/// How the last action went.
#[derive(Clone, Copy, Debug, PartialEq, Eq, Structural)]
pub enum Event {
    TransmitOk,
    TransmitFailed(DeviceError),
    Reconnected,
    ReconnectFailed,
    SpoolWritten,
    SpoolFailed,
}

/// Where a job stands.
#[derive(Clone, Copy, Debug, PartialEq, Eq, Structural)]
pub enum Stage {
    FirstTry,
    Reconnecting,
    SecondTry,
    Spooling,
    Finished(Outcome),
}

/// What a job at this stage waits for.
pub open spec fn action_of(stage: Stage) -> Action {
    match stage {
        Stage::FirstTry => Action::Transmit,
        Stage::Reconnecting => Action::Reconnect,
        Stage::SecondTry => Action::Transmit,
        Stage::Spooling => Action::Spool,
        Stage::Finished(outcome) => Action::Done(outcome),
    }
}

/// Whether the event reports on the action.
pub open spec fn answers(action: Action, event: Event) -> bool {
    match action {
        Action::Transmit => event == Event::TransmitOk || event is TransmitFailed,
        Action::Reconnect => event == Event::Reconnected || event == Event::ReconnectFailed,
        Action::Spool => event == Event::SpoolWritten || event == Event::SpoolFailed,
        Action::Done(_) => false,
    }
}

/// The stage after an event. One failure leads to a second try on a newly
/// opened device, a second failure to the spool. An event that does not
/// report on what the job waits for changes nothing.
pub open spec fn next_stage(stage: Stage, event: Event) -> Stage {
    match (stage, event) {
        (Stage::FirstTry, Event::TransmitOk) => Stage::Finished(Outcome::Delivered),
        (Stage::FirstTry, Event::TransmitFailed(_)) => Stage::Reconnecting,
        (Stage::Reconnecting, Event::Reconnected) => Stage::SecondTry,
        (Stage::Reconnecting, Event::ReconnectFailed) => Stage::Spooling,
        (Stage::SecondTry, Event::TransmitOk) => Stage::Finished(Outcome::Delivered),
        (Stage::SecondTry, Event::TransmitFailed(_)) => Stage::Spooling,
        (Stage::Spooling, Event::SpoolWritten) => Stage::Finished(Outcome::Spooled),
        (Stage::Spooling, Event::SpoolFailed) => Stage::Finished(
            Outcome::Failed(QueueError::SpoolWrite),
        ),
        _ => stage,
    }
}

/// Whether the device is open after an event.
pub open spec fn connected_after(connected: bool, event: Event) -> bool {
    match event {
        Event::TransmitFailed(_) => false,
        Event::ReconnectFailed => false,
        Event::Reconnected => true,
        _ => connected,
    }
}

/// The stage at which printing starts: with the device if it is open, else
/// with opening it. An image that the printer cannot take, because it is
/// not as wide as the printable area, goes straight to the spool.
pub open spec fn first_stage(connected: bool, printable: bool) -> Stage {
    if !printable {
        Stage::Spooling
    } else if connected {
        Stage::FirstTry
    } else {
        Stage::Reconnecting
    }
}

/// The stage after a run of events.
pub open spec fn run(stage: Stage, events: Seq<Event>) -> Stage
    decreases events.len(),
{
    if events.len() == 0 {
        stage
    } else {
        run(next_stage(stage, events[0]), events.drop_first())
    }
}

/// How often a run of events writes to the spool.
pub open spec fn spool_writes(stage: Stage, events: Seq<Event>) -> nat
    decreases events.len(),
{
    if events.len() == 0 {
        0
    } else {
        let here: nat = if stage == Stage::Spooling && events[0] == Event::SpoolWritten {
            1
        } else {
            0
        };
        here + spool_writes(next_stage(stage, events[0]), events.drop_first())
    }
}

/// Whether every event of the run reports on what the job waits for then.
pub open spec fn well_answered(stage: Stage, events: Seq<Event>) -> bool
    decreases events.len(),
{
    if events.len() == 0 {
        true
    } else {
        answers(action_of(stage), events[0]) && well_answered(
            next_stage(stage, events[0]),
            events.drop_first(),
        )
    }
}

/// With a device that fails every time, and a spool that takes the image,
/// a job that has ended has spooled the image, and has written it once.
pub proof fn lemma_failing_device_spools_once(stage: Stage, events: Seq<Event>)
    requires
        !(stage is Finished),
        well_answered(stage, events),
        forall|i: int|
            0 <= i < events.len() ==> events[i] != Event::TransmitOk && events[i]
                != Event::SpoolFailed,
        run(stage, events) is Finished,
    ensures
        run(stage, events) == Stage::Finished(Outcome::Spooled),
        spool_writes(stage, events) == 1,
    decreases events.len(),
{
    if events.len() > 0 {
        let next = next_stage(stage, events[0]);
        let rest = events.drop_first();
        assert forall|i: int| 0 <= i < rest.len() implies rest[i] != Event::TransmitOk && rest[i]
            != Event::SpoolFailed by {
            assert(rest[i] == events[i + 1]);
        }
        if next is Finished {
            assert(stage == Stage::Spooling && events[0] == Event::SpoolWritten);
            assert(well_answered(next, rest));
            assert(rest.len() == 0) by {
                if rest.len() > 0 {
                    assert(!answers(action_of(next), rest[0]));
                }
            }
            assert(run(next, rest) == next);
            assert(spool_writes(next, rest) == 0);
        } else {
            lemma_failing_device_spools_once(next, rest);
        }
    }
}

/// A job ends after at most four events that report on what it waits for,
/// and whatever happens, it ends with the image delivered, spooled, or with
/// a spool that could not be written.
pub proof fn lemma_job_ends(connected: bool, printable: bool, events: Seq<Event>)
    requires
        well_answered(first_stage(connected, printable), events),
    ensures
        events.len() <= 4,
        events.len() == 4 ==> run(first_stage(connected, printable), events) is Finished,
        run(first_stage(connected, printable), events) is Finished ==> run(
            first_stage(connected, printable),
            events,
        ) == Stage::Finished(Outcome::Delivered) || run(first_stage(connected, printable), events)
            == Stage::Finished(Outcome::Spooled) || run(first_stage(connected, printable), events)
            == Stage::Finished(Outcome::Failed(QueueError::SpoolWrite)),
{
    reveal_with_fuel(well_answered, 6);
    reveal_with_fuel(run, 6);
    let s0 = first_stage(connected, printable);
    if events.len() > 0 {
        let e1 = events.drop_first();
        if e1.len() > 0 {
            let e2 = e1.drop_first();
            if e2.len() > 0 {
                let e3 = e2.drop_first();
                if e3.len() > 0 {
                    let e4 = e3.drop_first();
                    if e4.len() > 0 {
                    }
                }
            }
        }
    }
}

/// What is known of the printer between jobs.
pub struct PersistentPrinter {
    printer_file: Option<String>,
    export_file: Option<String>,
    queue_dir: String,
    connected: bool,
    last_spooled: Option<Stamp>,
}

impl PersistentPrinter {
    /// Whether the device is open.
    pub closed spec fn connected(&self) -> bool {
        self.connected
    }

    /// The path of the printer's device file, if there is a printer.
    pub closed spec fn spec_printer_file(&self) -> Option<String> {
        self.printer_file
    }

    /// The path to which every printed image is also written, if any.
    pub closed spec fn spec_export_file(&self) -> Option<String> {
        self.export_file
    }

    /// The directory of the spool.
    pub closed spec fn spec_queue_dir(&self) -> String {
        self.queue_dir
    }

    /// The time after which the last spooled file is named, if any has
    /// been spooled.
    pub closed spec fn last_spooled(&self) -> Option<Stamp> {
        self.last_spooled
    }

    /// A printer whose device is not open yet.
    pub fn new(printer_file: Option<String>, export_file: Option<String>, queue_dir: String) -> (p:
        PersistentPrinter)
        ensures
            !p.connected(),
            p.last_spooled().is_none(),
            p.spec_printer_file() == printer_file,
            p.spec_export_file() == export_file,
            p.spec_queue_dir() == queue_dir,
    {
        PersistentPrinter {
            printer_file,
            export_file,
            queue_dir,
            connected: false,
            last_spooled: None,
        }
    }

    pub fn printer_file(&self) -> (path: &Option<String>)
        ensures
            *path == self.spec_printer_file(),
    {
        &self.printer_file
    }

    pub fn export_file(&self) -> (path: &Option<String>)
        ensures
            *path == self.spec_export_file(),
    {
        &self.export_file
    }

    pub fn queue_dir(&self) -> (path: &String)
        ensures
            *path == self.spec_queue_dir(),
    {
        &self.queue_dir
    }

    pub fn is_connected(&self) -> (connected: bool)
        ensures
            connected == self.connected(),
    {
        self.connected
    }

    /// The time after which the next spooled file is named: now, or where
    /// the clock has not moved on since the last file, one nanosecond after
    /// that file. So every file gets a name that sorts behind the names of
    /// the files before it. There is no such time when the last file has
    /// the last name there is.
    pub fn spool_stamp(&mut self, now: Stamp) -> (stamp: Option<Stamp>)
        ensures
            stamp == (match old(self).last_spooled() {
                None => Some(now),
                Some(last) => if last.value() < now.value() {
                    Some(now)
                } else if last.value() < MAX_SECONDS * NANOS_PER_SECOND + NANOS_PER_SECOND - 1 {
                    Some(next_after(last))
                } else {
                    None
                },
            }),
            stamp.is_some() ==> stamp.unwrap().wf() && final(self).last_spooled() == stamp,
            stamp.is_none() ==> final(self).last_spooled() == old(self).last_spooled(),
            stamp.is_some() && old(self).last_spooled().is_some() ==> old(
                self,
            ).last_spooled().unwrap().value() < stamp.unwrap().value(),
            final(self).connected() == old(self).connected(),
            final(self).spec_printer_file() == old(self).spec_printer_file(),
            final(self).spec_export_file() == old(self).spec_export_file(),
            final(self).spec_queue_dir() == old(self).spec_queue_dir(),
    {
        proof {
            use_type_invariant(&now);
        }
        let stamp = match self.last_spooled {
            None => Some(now),
            Some(last) => {
                if last.is_before(now) {
                    Some(now)
                } else {
                    let next = last.later();
                    proof {
                        if next.is_some() {
                            lemma_next_after(last, next.unwrap());
                        }
                    }
                    next
                }
            },
        };
        if stamp.is_some() {
            self.last_spooled = stamp;
        }
        stamp
    }

    /// Takes note of whether the device is open.
    pub(crate) fn set_connected(&mut self, connected: bool)
        ensures
            final(self).connected() == connected,
            final(self).last_spooled() == old(self).last_spooled(),
            final(self).spec_printer_file() == old(self).spec_printer_file(),
            final(self).spec_export_file() == old(self).spec_export_file(),
            final(self).spec_queue_dir() == old(self).spec_queue_dir(),
    {
        self.connected = connected;
    }

    /// Starts a run through the spool, given the names of the files in it
    /// and whether the printer's device file is missing.
    pub fn print_backlog(&self, names: Vec<String>, device_missing: bool) -> (backlog: Backlog)
        ensures
            ascending(backlog.files()),
            backlog.files().to_multiset() == names@.to_multiset(),
            backlog.state(self.connected()) == backlog_start(
                names@.len() as int,
                device_missing,
                self.connected(),
            ),
    {
        Backlog::start(names, device_missing)
    }

    /// Starts printing an image: first straight away, after a failure once
    /// more on a newly opened device, and after a second failure into the
    /// spool. An image that is not as wide as the printable area is never
    /// sent: it goes straight to the spool.
    pub fn print_image(&self, image: Buffer<Rgba>) -> (job: PrintJob)
        ensures
            job.image() == image,
            job.stage() == first_stage(self.connected(), image.spec_size().x == WIDTH),
            image.spec_size().x == WIDTH ==> job.commands() == print_commands(image),
            image.spec_size().x != WIDTH ==> job.commands() == Seq::<CommandView>::empty(),
    {
        match print_image_commands(&image) {
            Ok(commands) => {
                let stage = if self.connected {
                    Stage::FirstTry
                } else {
                    Stage::Reconnecting
                };
                proof {
                    assert(commands@.map_values(|c: PrinterCommand| c@) =~= print_commands(image));
                }
                PrintJob { image, commands, stage }
            },
            Err(_) => {
                let commands: Vec<PrinterCommand> = Vec::new();
                proof {
                    assert(commands@.map_values(|c: PrinterCommand| c@)
                        =~= Seq::<CommandView>::empty());
                }
                PrintJob { image, commands, stage: Stage::Spooling }
            },
        }
    }
}

/// An image on its way to the printer or to the spool.
pub struct PrintJob {
    image: Buffer<Rgba>,
    commands: Vec<PrinterCommand>,
    stage: Stage,
}

impl PrintJob {
    /// The image to print.
    pub closed spec fn image(&self) -> Buffer<Rgba> {
        self.image
    }

    /// The commands that print it.
    pub closed spec fn commands(&self) -> Seq<CommandView> {
        self.commands@.map_values(|c: PrinterCommand| c@)
    }

    pub closed spec fn stage(&self) -> Stage {
        self.stage
    }

    /// The image, to be written to the spool.
    pub fn get_image(&self) -> (image: &Buffer<Rgba>)
        ensures
            *image == self.image(),
    {
        &self.image
    }

    /// The commands, to be sent to the device.
    pub fn get_commands(&self) -> (commands: &Vec<PrinterCommand>)
        ensures
            commands@.map_values(|c: PrinterCommand| c@) == self.commands(),
    {
        &self.commands
    }

    /// What has to be done next.
    pub fn action(&self) -> (action: Action)
        ensures
            action == action_of(self.stage()),
    {
        match self.stage {
            Stage::FirstTry => Action::Transmit,
            Stage::Reconnecting => Action::Reconnect,
            Stage::SecondTry => Action::Transmit,
            Stage::Spooling => Action::Spool,
            Stage::Finished(outcome) => Action::Done(outcome),
        }
    }

    /// Takes note of how the last action went, and says what to do next.
    pub fn step(&mut self, printer: &mut PersistentPrinter, event: Event) -> (action: Action)
        ensures
            final(self).image() == old(self).image(),
            final(self).commands() == old(self).commands(),
            final(self).stage() == next_stage(old(self).stage(), event),
            action == action_of(final(self).stage()),
            final(printer).connected() == (if answers(action_of(old(self).stage()), event) {
                connected_after(old(printer).connected(), event)
            } else {
                old(printer).connected()
            }),
            final(printer).last_spooled() == old(printer).last_spooled(),
            final(printer).spec_printer_file() == old(printer).spec_printer_file(),
            final(printer).spec_export_file() == old(printer).spec_export_file(),
            final(printer).spec_queue_dir() == old(printer).spec_queue_dir(),
    {
        let next = match (self.stage, event) {
            (Stage::FirstTry, Event::TransmitOk) => Stage::Finished(Outcome::Delivered),
            (Stage::FirstTry, Event::TransmitFailed(_)) => {
                printer.connected = false;
                Stage::Reconnecting
            },
            (Stage::Reconnecting, Event::Reconnected) => {
                printer.connected = true;
                Stage::SecondTry
            },
            (Stage::Reconnecting, Event::ReconnectFailed) => {
                printer.connected = false;
                Stage::Spooling
            },
            (Stage::SecondTry, Event::TransmitOk) => Stage::Finished(Outcome::Delivered),
            (Stage::SecondTry, Event::TransmitFailed(_)) => {
                printer.connected = false;
                Stage::Spooling
            },
            (Stage::Spooling, Event::SpoolWritten) => Stage::Finished(Outcome::Spooled),
            (Stage::Spooling, Event::SpoolFailed) => Stage::Finished(
                Outcome::Failed(QueueError::SpoolWrite),
            ),
            (stage, _) => stage,
        };
        self.stage = next;
        self.action()
    }
}

} // verus!
