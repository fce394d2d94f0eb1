//! Sending what is in the spool, oldest first.
//!
//! The names of the spooled files sort as the files were written. The
//! backlog takes the names in that order. A file is removed only after the
//! printer has taken its image, and the first image that cannot be sent
//! ends the run, so that no image overtakes an older one.

use vstd::prelude::*;
use vstd::multiset::Multiset;
use vstd::utf8::encode_utf8;
use crate::buffer::Buffer;
use crate::color::Rgba;
use crate::persistent_printer::{DeviceError, PersistentPrinter, QueueError};
use crate::printer::{
    print_commands, print_image_commands, CommandView, PrinterCommand, WIDTH,
};

verus! {

/// Whether `a` comes before `b`, or is `b`, in the order of a dictionary:
/// the first byte that differs decides, and a beginning of `b` comes before
/// `b`.
pub open spec fn lex_le(a: Seq<u8>, b: Seq<u8>) -> bool
    decreases a.len(),
{
    if a.len() == 0 {
        true
    } else if b.len() == 0 {
        false
    } else if a[0] != b[0] {
        a[0] < b[0]
    } else {
        lex_le(a.drop_first(), b.drop_first())
    }
}

/// Of two byte strings one comes first.
pub proof fn lemma_lex_total(a: Seq<u8>, b: Seq<u8>)
    ensures
        lex_le(a, b) || lex_le(b, a),
    decreases a.len(),
{
    if a.len() > 0 && b.len() > 0 && a[0] == b[0] {
        lemma_lex_total(a.drop_first(), b.drop_first());
    }
}

/// What comes before something that comes before a third comes before the
/// third.
pub proof fn lemma_lex_transitive(a: Seq<u8>, b: Seq<u8>, c: Seq<u8>)
    requires
        lex_le(a, b),
        lex_le(b, c),
    ensures
        lex_le(a, c),
    decreases a.len(),
{
    if a.len() > 0 && b.len() > 0 && c.len() > 0 && a[0] == b[0] && b[0] == c[0] {
        lemma_lex_transitive(a.drop_first(), b.drop_first(), c.drop_first());
    }
}

/// Two byte strings of which each comes before the other are the same.
pub proof fn lemma_lex_antisymmetric(a: Seq<u8>, b: Seq<u8>)
    requires
        lex_le(a, b),
        lex_le(b, a),
    ensures
        a == b,
    decreases a.len(),
{
    if a.len() > 0 && b.len() > 0 {
        lemma_lex_antisymmetric(a.drop_first(), b.drop_first());
        assert(a =~= seq![a[0]] + a.drop_first());
        assert(b =~= seq![b[0]] + b.drop_first());
    } else {
        assert(a =~= b);
    }
}

/// Of two byte strings of the same length with one more byte behind each,
/// the strings decide which comes first, and the last bytes only where the
/// strings are the same.
pub proof fn lemma_lex_push(p: Seq<u8>, q: Seq<u8>, x: u8, y: u8)
    requires
        p.len() == q.len(),
    ensures
        lex_le(p.push(x), q.push(y)) == (if p == q {
            x <= y
        } else {
            lex_le(p, q)
        }),
    decreases p.len(),
{
    if p.len() == 0 {
        reveal_with_fuel(lex_le, 2);
        assert(p =~= q);
        assert(p.push(x).drop_first() =~= Seq::<u8>::empty());
        assert(q.push(y).drop_first() =~= Seq::<u8>::empty());
        assert(p.push(x)[0] == x && q.push(y)[0] == y);
    } else {
        let pt = p.drop_first();
        let qt = q.drop_first();
        assert(p.push(x).drop_first() =~= pt.push(x));
        assert(q.push(y).drop_first() =~= qt.push(y));
        assert(p.push(x)[0] == p[0] && q.push(y)[0] == q[0]);
        lemma_lex_push(pt, qt, x, y);
        assert(p =~= seq![p[0]] + pt);
        assert(q =~= seq![q[0]] + qt);
        if p[0] == q[0] {
            if pt == qt {
                assert(p =~= q);
            }
        }
    }
}

/// Whether the name `a` sorts before the name `b`, or is `b`: by their
/// bytes.
pub open spec fn name_le(a: String, b: String) -> bool {
    lex_le(encode_utf8(a@), encode_utf8(b@))
}

/// Whether the names stand in ascending order.
pub open spec fn ascending(names: Seq<String>) -> bool {
    forall|i: int, j: int| 0 <= i < j < names.len() ==> name_le(names[i], names[j])
}

fn bytes_le(a: &[u8], b: &[u8]) -> (r: bool)
    ensures
        r == lex_le(a@, b@),
{
    let mut i: usize = 0;
    assert(a@.skip(0) == a@ && b@.skip(0) == b@);
    loop
        invariant
            i <= a@.len(),
            i <= b@.len(),
            lex_le(a@, b@) == lex_le(a@.skip(i as int), b@.skip(i as int)),
        decreases a@.len() - i,
    {
        if i == a.len() {
            return true;
        }
        if i == b.len() {
            return false;
        }
        proof {
            assert(a@.skip(i as int).drop_first() == a@.skip(i + 1));
            assert(b@.skip(i as int).drop_first() == b@.skip(i + 1));
            assert(a@.skip(i as int)[0] == a@[i as int]);
            assert(b@.skip(i as int)[0] == b@[i as int]);
        }
        if a[i] != b[i] {
            return a[i] < b[i];
        }
        i = i + 1;
    }
}

/// Whether the name `a` sorts before the name `b`, or is `b`.
pub fn name_before(a: &String, b: &String) -> (r: bool)
    ensures
        r == name_le(*a, *b),
{
    bytes_le(a.as_str().as_bytes(), b.as_str().as_bytes())
}

/// Putting one more element into a sequence adds it to what the sequence
/// holds.
proof fn lemma_insert_to_multiset(s: Seq<String>, i: int, a: String)
    requires
        0 <= i <= s.len(),
    ensures
        s.insert(i, a).to_multiset() == s.to_multiset().insert(a),
{
    let t = s.insert(i, a);
    assert(t.remove(i) == s);
    vstd::seq_lib::to_multiset_remove(t, i);
    t.to_multiset_ensures();
    assert(t[i] == a);
    assert(t.contains(a));
    assert(t.to_multiset().remove(a).insert(a) == t.to_multiset());
}

/// The same names in ascending order.
pub fn sort_names(names: Vec<String>) -> (sorted: Vec<String>)
    ensures
        ascending(sorted@),
        sorted@.to_multiset() == names@.to_multiset(),
{
    let ghost all = names@;
    let mut rest = names;
    let mut sorted: Vec<String> = Vec::new();
    proof {
        all.to_multiset_ensures();
        assert(sorted@.to_multiset() == Multiset::<String>::empty()) by {
            sorted@.to_multiset_ensures();
            assert(sorted@.to_multiset().len() == 0);
        }
        assert(sorted@.to_multiset().add(rest@.to_multiset()) == all.to_multiset());
    }
    while rest.len() > 0
        invariant
            ascending(sorted@),
            sorted@.to_multiset().add(rest@.to_multiset()) == all.to_multiset(),
        decreases rest@.len(),
    {
        let ghost before_rest = rest@;
        let name = rest.pop().unwrap();
        proof {
            assert(before_rest == rest@.push(name));
            vstd::seq_lib::to_multiset_build(rest@, name);
        }
        let mut at: usize = 0;
        while at < sorted.len() && name_before(&sorted[at], &name)
            invariant
                at <= sorted@.len(),
                forall|k: int| 0 <= k < at ==> name_le(#[trigger] sorted@[k], name),
            decreases sorted@.len() - at,
        {
            at = at + 1;
        }
        let ghost before = sorted@;
        assert(at < before.len() ==> !name_le(before[at as int], name));
        proof {
            lemma_insert_to_multiset(before, at as int, name);
            assert forall|i: int, j: int| 0 <= i < j < before.len() + 1 implies name_le(
                before.insert(at as int, name)[i],
                before.insert(at as int, name)[j],
            ) by {
                let after = before.insert(at as int, name);
                if j == at {
                    assert(after[i] == before[i]);
                } else if i == at {
                    assert(after[j] == before[j - 1]);
                    lemma_lex_total(encode_utf8(before[at as int]@), encode_utf8(name@));
                    assert(name_le(name, before[at as int]));
                    if j - 1 > at {
                        assert(name_le(before[at as int], before[j - 1]));
                        lemma_lex_transitive(
                            encode_utf8(name@),
                            encode_utf8(before[at as int]@),
                            encode_utf8(before[j - 1]@),
                        );
                    }
                } else if j < at {
                    assert(after[i] == before[i] && after[j] == before[j]);
                } else if i < at {
                    assert(after[i] == before[i] && after[j] == before[j - 1]);
                } else {
                    assert(after[i] == before[i - 1] && after[j] == before[j - 1]);
                }
            }
        }
        sorted.insert(at, name);
    }
    proof {
        assert(rest@.to_multiset() == Multiset::<String>::empty()) by {
            rest@.to_multiset_ensures();
            assert(rest@.to_multiset().len() == 0);
        }
    }
    sorted
}

/// How a run through the spool ended.
#[derive(Clone, Copy, Debug, PartialEq, Eq, Structural)]
pub enum BacklogOutcome {
    /// Every spooled image has been printed and removed.
    Drained,
    /// The printer's device file is missing, so nothing was tried.
    Skipped,
    /// An image could not be sent. It is still in the spool, and so are
    /// those after it.
    Stopped,
    Failed(QueueError),
}

/// What has to be done next for the spool.
#[derive(Clone, Copy, Debug, PartialEq, Eq, Structural)]
pub enum BacklogAction {
    /// Read the image from the current file.
    Load,
    /// Send the current commands through the open device.
    Transmit,
    /// Open the device again.
    Reconnect,
    /// Remove the current file.
    Remove,
    /// Nothing: the run has ended.
    Done(BacklogOutcome),
}

/// How the last action went.
pub enum BacklogEvent {
    Loaded(Buffer<Rgba>),
    LoadFailed,
    TransmitOk,
    TransmitFailed(DeviceError),
    Reconnected,
    ReconnectFailed,
    Removed,
    RemoveFailed,
}

/// Where a run through the spool stands with the current file.
#[derive(Clone, Copy, Debug, PartialEq, Eq, Structural)]
pub enum BacklogStage {
    Loading,
    FirstTry,
    Reconnecting,
    SecondTry,
    Removing,
    Finished(BacklogOutcome),
}

/// A run through the spool as a value to reason about.
pub struct BacklogState {
    /// How many files there are.
    pub total: int,
    /// How many of them have been printed and removed. While the run goes
    /// on, this is also the number of the current file.
    pub removed: int,
    pub stage: BacklogStage,
    /// Whether the device is open.
    pub connected: bool,
}

/// What a run at this stage waits for.
pub open spec fn backlog_action_of(stage: BacklogStage) -> BacklogAction {
    match stage {
        BacklogStage::Loading => BacklogAction::Load,
        BacklogStage::FirstTry => BacklogAction::Transmit,
        BacklogStage::Reconnecting => BacklogAction::Reconnect,
        BacklogStage::SecondTry => BacklogAction::Transmit,
        BacklogStage::Removing => BacklogAction::Remove,
        BacklogStage::Finished(outcome) => BacklogAction::Done(outcome),
    }
}

/// The stage after an image has been read. An image that is not as wide
/// as the printable area cannot be sent: the run ends, and the image stays
/// in the spool.
pub open spec fn stage_after_load(image: Buffer<Rgba>, connected: bool) -> BacklogStage {
    if image.spec_size().x != WIDTH {
        BacklogStage::Finished(BacklogOutcome::Stopped)
    } else if connected {
        BacklogStage::FirstTry
    } else {
        BacklogStage::Reconnecting
    }
}

/// The stage after a file has been removed.
pub open spec fn stage_after_remove(total: int, removed: int) -> BacklogStage {
    if removed < total {
        BacklogStage::Loading
    } else {
        BacklogStage::Finished(BacklogOutcome::Drained)
    }
}

/// The run after an event. An image is tried twice, the second time on a
/// newly opened device. When that fails too, the run ends. An event that
/// does not report on what the run waits for changes nothing.
pub open spec fn backlog_after(state: BacklogState, event: BacklogEvent) -> BacklogState {
    match (state.stage, event) {
        (BacklogStage::Loading, BacklogEvent::Loaded(image)) => BacklogState {
            stage: stage_after_load(image, state.connected),
            ..state
        },
        (BacklogStage::Loading, BacklogEvent::LoadFailed) => BacklogState {
            stage: BacklogStage::Finished(BacklogOutcome::Failed(QueueError::SpoolRead)),
            ..state
        },
        (BacklogStage::FirstTry, BacklogEvent::TransmitOk) => BacklogState {
            stage: BacklogStage::Removing,
            ..state
        },
        (BacklogStage::FirstTry, BacklogEvent::TransmitFailed(_)) => BacklogState {
            stage: BacklogStage::Reconnecting,
            connected: false,
            ..state
        },
        (BacklogStage::Reconnecting, BacklogEvent::Reconnected) => BacklogState {
            stage: BacklogStage::SecondTry,
            connected: true,
            ..state
        },
        (BacklogStage::Reconnecting, BacklogEvent::ReconnectFailed) => BacklogState {
            stage: BacklogStage::Finished(BacklogOutcome::Stopped),
            connected: false,
            ..state
        },
        (BacklogStage::SecondTry, BacklogEvent::TransmitOk) => BacklogState {
            stage: BacklogStage::Removing,
            ..state
        },
        (BacklogStage::SecondTry, BacklogEvent::TransmitFailed(_)) => BacklogState {
            stage: BacklogStage::Finished(BacklogOutcome::Stopped),
            connected: false,
            ..state
        },
        (BacklogStage::Removing, BacklogEvent::Removed) => BacklogState {
            removed: state.removed + 1,
            stage: stage_after_remove(state.total, state.removed + 1),
            ..state
        },
        (BacklogStage::Removing, BacklogEvent::RemoveFailed) => BacklogState {
            stage: BacklogStage::Finished(BacklogOutcome::Failed(QueueError::SpoolRemove)),
            ..state
        },
        _ => state,
    }
}

/// The state in which a run through `total` files starts.
pub open spec fn backlog_start(total: int, device_missing: bool, connected: bool) -> BacklogState {
    BacklogState {
        total,
        removed: 0,
        stage: if device_missing {
            BacklogStage::Finished(BacklogOutcome::Skipped)
        } else {
            stage_after_remove(total, 0)
        },
        connected,
    }
}

/// The run after a sequence of events.
pub open spec fn backlog_run(state: BacklogState, events: Seq<BacklogEvent>) -> BacklogState
    decreases events.len(),
{
    if events.len() == 0 {
        state
    } else {
        backlog_run(backlog_after(state, events[0]), events.drop_first())
    }
}

/// What a healthy printer and spool report for one image: it is read, the
/// device is opened if it is not open, the image is sent, and the file is
/// removed.
pub open spec fn healthy_events_for(image: Buffer<Rgba>, connected: bool) -> Seq<BacklogEvent> {
    if connected {
        seq![BacklogEvent::Loaded(image), BacklogEvent::TransmitOk, BacklogEvent::Removed]
    } else {
        seq![
            BacklogEvent::Loaded(image),
            BacklogEvent::Reconnected,
            BacklogEvent::TransmitOk,
            BacklogEvent::Removed,
        ]
    }
}

/// What a healthy printer and spool report while the images are sent one
/// after the other. Once the device has been opened it stays open.
pub open spec fn healthy_events(images: Seq<Buffer<Rgba>>, connected: bool) -> Seq<BacklogEvent>
    decreases images.len(),
{
    if images.len() == 0 {
        Seq::empty()
    } else {
        healthy_events_for(images[0], connected) + healthy_events(images.drop_first(), true)
    }
}

/// A file is removed only after the printer has taken its image: the run
/// comes to wait for a removal only by a successful transmission, and the
/// number of removed files grows only by a removal.
pub proof fn lemma_remove_follows_delivery(state: BacklogState, event: BacklogEvent)
    ensures
        backlog_action_of(backlog_after(state, event).stage) == BacklogAction::Remove
            && state.stage != BacklogStage::Removing ==> backlog_action_of(state.stage)
            == BacklogAction::Transmit && event is TransmitOk,
        backlog_after(state, event).removed != state.removed ==> state.stage
            == BacklogStage::Removing && event is Removed && backlog_after(state, event).removed
            == state.removed + 1,
        backlog_after(state, event).total == state.total,
{
}

/// The first image that cannot be sent ends the run, and a run that has
/// ended stays as it is: nothing more is read, sent or removed.
pub proof fn lemma_failure_stops(state: BacklogState, event: BacklogEvent)
    ensures
        (state.stage == BacklogStage::SecondTry && event is TransmitFailed) || (state.stage
            == BacklogStage::Reconnecting && event is ReconnectFailed) ==> backlog_after(
            state,
            event,
        ) == (BacklogState {
            stage: BacklogStage::Finished(BacklogOutcome::Stopped),
            connected: false,
            ..state
        }),
        state.stage is Finished ==> backlog_after(state, event) == state,
{
}

/// A run of events, one part after the other, is the run of the second
/// part from where the first part ends.
pub proof fn lemma_run_in_parts(
    state: BacklogState,
    first: Seq<BacklogEvent>,
    second: Seq<BacklogEvent>,
)
    ensures
        backlog_run(state, first + second) == backlog_run(backlog_run(state, first), second),
    decreases first.len(),
{
    if first.len() == 0 {
        assert(first + second =~= second);
    } else {
        assert((first + second)[0] == first[0]);
        assert((first + second).drop_first() =~= first.drop_first() + second);
        lemma_run_in_parts(backlog_after(state, first[0]), first.drop_first(), second);
    }
}

/// With a healthy printer, whether its device is open at the start or has
/// to be opened, a run through the spool sends the rest of the images in
/// their order and ends with an empty spool.
pub proof fn lemma_healthy_run_drains(state: BacklogState, images: Seq<Buffer<Rgba>>)
    requires
        0 <= state.removed,
        state.removed + images.len() == state.total,
        state.stage == stage_after_remove(state.total, state.removed),
        forall|i: int| 0 <= i < images.len() ==> (#[trigger] images[i]).spec_size().x == WIDTH,
    ensures
        backlog_run(state, healthy_events(images, state.connected)) == (BacklogState {
            removed: state.total,
            stage: BacklogStage::Finished(BacklogOutcome::Drained),
            connected: state.connected || images.len() > 0,
            ..state
        }),
    decreases images.len(),
{
    if images.len() > 0 {
        let here = healthy_events_for(images[0], state.connected);
        let rest = healthy_events(images.drop_first(), true);
        assert(images[0].spec_size().x == WIDTH);
        reveal_with_fuel(backlog_run, 5);
        let after = backlog_run(state, here);
        assert(after == (BacklogState {
            removed: state.removed + 1,
            stage: stage_after_remove(state.total, state.removed + 1),
            connected: true,
            ..state
        })) by {
            if state.connected {
                let e1 = here.drop_first();
                let e2 = e1.drop_first();
                assert(e2.drop_first().len() == 0);
            } else {
                let e1 = here.drop_first();
                let e2 = e1.drop_first();
                let e3 = e2.drop_first();
                assert(e3.drop_first().len() == 0);
            }
        }
        lemma_run_in_parts(state, here, rest);
        assert forall|i: int| 0 <= i < images.drop_first().len() implies (
        #[trigger] images.drop_first()[i]).spec_size().x == WIDTH by {
            assert(images.drop_first()[i] == images[i + 1]);
        }
        lemma_healthy_run_drains(after, images.drop_first());
    }
}

/// A run through the spool.
pub struct Backlog {
    files: Vec<String>,
    removed: usize,
    stage: BacklogStage,
    commands: Vec<PrinterCommand>,
}

impl Backlog {
    /// The names of the spooled files, in ascending order.
    pub closed spec fn files(&self) -> Seq<String> {
        self.files@
    }

    /// How many files have been printed and removed.
    pub closed spec fn removed(&self) -> int {
        self.removed as int
    }

    pub closed spec fn stage(&self) -> BacklogStage {
        self.stage
    }

    /// The commands that print the current image.
    pub closed spec fn commands(&self) -> Seq<CommandView> {
        self.commands@.map_values(|c: PrinterCommand| c@)
    }

    /// The run as a value to reason about, given whether the device is
    /// open.
    pub open spec fn state(&self, connected: bool) -> BacklogState {
        BacklogState {
            total: self.files().len() as int,
            removed: self.removed(),
            stage: self.stage(),
            connected,
        }
    }

    /// While the run goes on there is a current file.
    #[verifier::type_invariant]
    pub open spec fn wf(&self) -> bool {
        &&& 0 <= self.removed() <= self.files().len()
        &&& !(self.stage() is Finished) ==> self.removed() < self.files().len()
        &&& ascending(self.files())
    }

    /// Starts a run through the files with the given names. Nothing is
    /// tried when the printer's device file is missing.
    pub fn start(names: Vec<String>, device_missing: bool) -> (backlog: Backlog)
        ensures
            ascending(backlog.files()),
            backlog.files().to_multiset() == names@.to_multiset(),
            forall|connected: bool|
                #[trigger] backlog.state(connected) == backlog_start(
                    names@.len() as int,
                    device_missing,
                    connected,
                ),
    {
        let files = sort_names(names);
        proof {
            files@.to_multiset_ensures();
            names@.to_multiset_ensures();
        }
        let stage = if device_missing {
            BacklogStage::Finished(BacklogOutcome::Skipped)
        } else if files.len() == 0 {
            BacklogStage::Finished(BacklogOutcome::Drained)
        } else {
            BacklogStage::Loading
        };
        Backlog { files, removed: 0, stage, commands: Vec::new() }
    }

    /// What has to be done next.
    pub fn action(&self) -> (action: BacklogAction)
        ensures
            action == backlog_action_of(self.stage()),
    {
        match self.stage {
            BacklogStage::Loading => BacklogAction::Load,
            BacklogStage::FirstTry => BacklogAction::Transmit,
            BacklogStage::Reconnecting => BacklogAction::Reconnect,
            BacklogStage::SecondTry => BacklogAction::Transmit,
            BacklogStage::Removing => BacklogAction::Remove,
            BacklogStage::Finished(outcome) => BacklogAction::Done(outcome),
        }
    }

    /// The name of the current file: the first in order that has not been
    /// removed. There is none when the run has ended.
    pub fn current(&self) -> (name: Option<&String>)
        ensures
            name.is_some() <==> !(self.stage() is Finished),
            name.is_some() ==> 0 <= self.removed() < self.files().len() && *name.unwrap()
                == self.files()[self.removed()],
    {
        proof {
            use_type_invariant(self);
        }
        match self.stage {
            BacklogStage::Finished(_) => None,
            _ => Some(&self.files[self.removed]),
        }
    }

    /// The commands that print the current image, to be sent to the device.
    pub fn get_commands(&self) -> (commands: &Vec<PrinterCommand>)
        ensures
            commands@.map_values(|c: PrinterCommand| c@) == self.commands(),
    {
        &self.commands
    }

    /// Takes note of how the last action went, and says what to do next.
    pub fn step(&mut self, printer: &mut PersistentPrinter, event: BacklogEvent) -> (action:
        BacklogAction)
        ensures
            final(self).files() == old(self).files(),
            final(self).state(final(printer).connected()) == backlog_after(
                old(self).state(old(printer).connected()),
                event,
            ),
            action == backlog_action_of(final(self).stage()),
            old(self).stage() == BacklogStage::Loading ==> match event {
                BacklogEvent::Loaded(image) => image.spec_size().x == WIDTH
                    ==> final(self).commands() == print_commands(image),
                _ => true,
            },
            old(self).stage() != BacklogStage::Loading
                ==> final(self).commands() == old(self).commands(),
            final(printer).last_spooled() == old(printer).last_spooled(),
            final(printer).spec_printer_file() == old(printer).spec_printer_file(),
            final(printer).spec_export_file() == old(printer).spec_export_file(),
            final(printer).spec_queue_dir() == old(printer).spec_queue_dir(),
    {
        proof {
            use_type_invariant(&*self);
        }
        let connected = printer.is_connected();
        match (self.stage, event) {
            (BacklogStage::Loading, BacklogEvent::Loaded(image)) => {
                match print_image_commands(&image) {
                    Ok(commands) => {
                        proof {
                            assert(commands@.map_values(|c: PrinterCommand| c@) =~= print_commands(
                                image,
                            ));
                        }
                        self.commands = commands;
                        self.stage = if connected {
                            BacklogStage::FirstTry
                        } else {
                            BacklogStage::Reconnecting
                        };
                    },
                    Err(_) => {
                        self.stage = BacklogStage::Finished(BacklogOutcome::Stopped);
                    },
                }
            },
            (BacklogStage::Loading, BacklogEvent::LoadFailed) => {
                self.stage = BacklogStage::Finished(BacklogOutcome::Failed(QueueError::SpoolRead));
            },
            (BacklogStage::FirstTry, BacklogEvent::TransmitOk) => {
                self.stage = BacklogStage::Removing;
            },
            (BacklogStage::FirstTry, BacklogEvent::TransmitFailed(_)) => {
                printer.set_connected(false);
                self.stage = BacklogStage::Reconnecting;
            },
            (BacklogStage::Reconnecting, BacklogEvent::Reconnected) => {
                printer.set_connected(true);
                self.stage = BacklogStage::SecondTry;
            },
            (BacklogStage::Reconnecting, BacklogEvent::ReconnectFailed) => {
                printer.set_connected(false);
                self.stage = BacklogStage::Finished(BacklogOutcome::Stopped);
            },
            (BacklogStage::SecondTry, BacklogEvent::TransmitOk) => {
                self.stage = BacklogStage::Removing;
            },
            (BacklogStage::SecondTry, BacklogEvent::TransmitFailed(_)) => {
                printer.set_connected(false);
                self.stage = BacklogStage::Finished(BacklogOutcome::Stopped);
            },
            (BacklogStage::Removing, BacklogEvent::Removed) => {
                assert(self.removed < self.files.len());
                let removed = self.removed + 1;
                if removed < self.files.len() {
                    self.removed = removed;
                    self.stage = BacklogStage::Loading;
                } else {
                    self.stage = BacklogStage::Finished(BacklogOutcome::Drained);
                    self.removed = removed;
                }
            },
            (BacklogStage::Removing, BacklogEvent::RemoveFailed) => {
                self.stage = BacklogStage::Finished(
                    BacklogOutcome::Failed(QueueError::SpoolRemove),
                );
            },
            _ => {},
        }
        self.action()
    }
}

} // verus!
