//! The activation dispatcher and lifecycle state: one engine owns the cursor,
//! the line source and the chosen output mode, and decides for every drained
//! platform message what the event loop must do next.

use vstd::prelude::*;
use crate::lines::{line_seq, LineSource};

verus! {

/// Identifier under which the one global hotkey is registered.
pub const HOTKEY_ID: usize = 1;

/// The two interchangeable emission strategies, fixed at startup.
#[derive(Clone, Copy, PartialEq, Eq, Structural, Debug)]
pub enum OutputMode {
    /// Synthesize keystrokes into the foreground application.
    KeystrokeInjection,
    /// Place the text on the system clipboard.
    ClipboardWrite,
}

/// A message drained from the platform queue, as the dispatcher reads it.
pub enum PumpMessage {
    /// The platform's quit message.
    Quit,
    /// The registered global hotkey fired; `id` is the hotkey identifier the
    /// platform delivered.
    Hotkey { id: usize },
    /// Any other message.
    Other,
}

/// What the event loop must do with one drained message.
pub enum MessageOutcome {
    /// Shutdown was requested: stop draining and leave the run loop.
    Stop,
    /// An activation cycle ran; `emitted` is the line to deliver through the
    /// output sink, or nothing on the wraparound cycle. Draining ends for
    /// this tick.
    Activated { emitted: Option<Vec<u8>> },
    /// Not ours: hand the message to the platform's default dispatch.
    Dispatch,
}

/// A message delivered to the hotkey-owning window's procedure.
pub enum WindowMessage {
    /// The window is being closed.
    Close,
    /// The window is being destroyed.
    Destroy,
    /// Any other message, left to the platform's default handling.
    Other,
}

/// The activation engine: cursor, line source, output mode and the shutdown
/// flag that the run loop observes.
pub struct Engine {
    cursor: u64,
    source: LineSource,
    mode: OutputMode,
    running: bool,
}

impl Engine {
    /// Count of lines consumed from the source, as the cursor store will
    /// persist it at shutdown.
    pub closed spec fn cursor(&self) -> u64 {
        self.cursor
    }

    /// The lines of the word list.
    pub closed spec fn lines(&self) -> Seq<Seq<u8>> {
        self.source.lines()
    }

    /// The read position of the line source.
    pub closed spec fn pos(&self) -> int {
        self.source.pos()
    }

    /// The output mode selected at startup.
    pub closed spec fn mode(&self) -> OutputMode {
        self.mode
    }

    /// Whether the run loop should keep going.
    pub closed spec fn running(&self) -> bool {
        self.running
    }

    /// The source is well formed and the cursor matches the read position;
    /// the one exception is a stale persisted cursor larger than the word
    /// list, which leaves the source parked at its end until the wraparound
    /// cycle resets both.
    pub closed spec fn wf(&self) -> bool {
        &&& self.source.wf()
        &&& (self.cursor as int == self.source.pos() || (self.source.pos()
            == self.source.lines().len() && self.cursor as int > self.source.lines().len()))
    }

    /// Startup: open the word list, then skip as many lines as the persisted
    /// cursor says were already consumed, so that emission resumes where the
    /// previous run stopped.
    pub fn start(cursor: u64, content: &[u8], mode: OutputMode) -> (e: Engine)
        ensures
            e.wf(),
            e.lines() == line_seq(content@),
            e.cursor() == cursor,
            e.mode() == mode,
            e.running(),
            e.pos() == if cursor <= line_seq(content@).len() {
                cursor as int
            } else {
                line_seq(content@).len() as int
            },
    {
        let mut source = LineSource::new(content);
        source.skip(cursor);
        Engine { cursor, source, mode, running: true }
    }

    /// How one activation cycle moves the engine: while lines remain, the
    /// line at the read position is emitted and the cursor advances with the
    /// position; at the end of the source nothing is emitted and both reset
    /// to the start.
    pub open spec fn activation_transition(
        pre: Engine,
        post: Engine,
        emitted: Option<Seq<u8>>,
    ) -> bool {
        &&& post.lines() == pre.lines()
        &&& post.mode() == pre.mode()
        &&& post.running() == pre.running()
        &&& (pre.pos() < pre.lines().len() ==> {
            &&& emitted == Some(pre.lines()[pre.pos()])
            &&& post.pos() == pre.pos() + 1
            &&& post.cursor() as int == pre.pos() + 1
        })
        &&& (pre.pos() >= pre.lines().len() ==> {
            &&& emitted is None
            &&& post.pos() == 0
            &&& post.cursor() == 0
        })
    }

    /// One activation cycle: read the next line and advance the cursor, or,
    /// with the source exhausted, rewind it and reset the cursor without
    /// emitting anything this cycle.
    pub fn activate(&mut self) -> (emitted: Option<Vec<u8>>)
        requires
            old(self).wf(),
        ensures
            final(self).wf(),
            Self::activation_transition(*old(self), *final(self), emitted.deep_view()),
    {
        match self.source.next_line() {
            Some(line) => {
                proof {
                    assert(line.deep_view() =~= line@);
                }
                self.cursor = self.cursor + 1;
                Some(line)
            },
            None => {
                self.cursor = 0;
                self.source.rewind();
                None
            },
        }
    }

    /// The dispatcher's decision for one message drained from the platform
    /// queue: quit stops the loop, the registered hotkey runs one activation
    /// cycle and ends the tick, everything else goes to default dispatch.
    pub fn handle_message(&mut self, msg: PumpMessage) -> (outcome: MessageOutcome)
        requires
            old(self).wf(),
        ensures
            final(self).wf(),
            final(self).lines() == old(self).lines(),
            final(self).mode() == old(self).mode(),
            msg is Quit ==> {
                &&& outcome is Stop
                &&& !final(self).running()
                &&& final(self).pos() == old(self).pos()
                &&& final(self).cursor() == old(self).cursor()
            },
            (msg matches PumpMessage::Hotkey { id } && id == HOTKEY_ID) ==> (outcome matches
                MessageOutcome::Activated { emitted } && Self::activation_transition(
                *old(self),
                *final(self),
                emitted.deep_view(),
            )),
            ((msg matches PumpMessage::Hotkey { id } && id != HOTKEY_ID) || msg is Other) ==> {
                &&& outcome is Dispatch
                &&& *final(self) == *old(self)
            },
    {
        match msg {
            PumpMessage::Quit => {
                self.running = false;
                MessageOutcome::Stop
            },
            PumpMessage::Hotkey { id } => {
                if id == HOTKEY_ID {
                    let emitted = self.activate();
                    MessageOutcome::Activated { emitted }
                } else {
                    MessageOutcome::Dispatch
                }
            },
            PumpMessage::Other => MessageOutcome::Dispatch,
        }
    }

    /// The window procedure's decision: close and destroy request shutdown
    /// and are handled; everything else is left to the platform default.
    pub fn handle_window_message(&mut self, msg: WindowMessage) -> (handled: bool)
        requires
            old(self).wf(),
        ensures
            final(self).wf(),
            final(self).lines() == old(self).lines(),
            final(self).mode() == old(self).mode(),
            final(self).pos() == old(self).pos(),
            final(self).cursor() == old(self).cursor(),
            match msg {
                WindowMessage::Close => handled && !final(self).running(),
                WindowMessage::Destroy => handled && !final(self).running(),
                WindowMessage::Other => !handled && *final(self) == *old(self),
            },
    {
        match msg {
            WindowMessage::Close => {
                self.running = false;
                true
            },
            WindowMessage::Destroy => {
                self.running = false;
                true
            },
            WindowMessage::Other => false,
        }
    }

    /// The cursor value to persist.
    pub fn current_cursor(&self) -> (c: u64)
        ensures
            c == self.cursor(),
    {
        self.cursor
    }

    /// Whether the run loop should keep polling.
    pub fn is_running(&self) -> (r: bool)
        ensures
            r == self.running(),
    {
        self.running
    }

    /// The output mode selected at startup.
    pub fn output_mode(&self) -> (m: OutputMode)
        ensures
            m == self.mode(),
    {
        self.mode
    }
}

/// LAW: successive activation cycles emit consecutive lines of the word
/// list. When a cycle emits the line at the read position, the cycle after it
/// emits the following line, or, when the list's last line was just emitted,
/// emits nothing and resets cursor and position to the start.
pub proof fn lemma_activations_emit_in_order(
    e0: Engine,
    e1: Engine,
    e2: Engine,
    r1: Option<Seq<u8>>,
    r2: Option<Seq<u8>>,
)
    requires
        Engine::activation_transition(e0, e1, r1),
        Engine::activation_transition(e1, e2, r2),
        0 <= e0.pos() < e0.lines().len(),
    ensures
        r1 == Some(e0.lines()[e0.pos()]),
        e0.pos() + 1 < e0.lines().len() ==> r2 == Some(e0.lines()[e0.pos() + 1]),
        e0.pos() + 1 == e0.lines().len() ==> r2 is None && e2.cursor() == 0 && e2.pos() == 0,
{
}

/// LAW: the wraparound cycle restarts the list. An activation on an
/// exhausted source emits nothing, and the activation after it emits the
/// first line again.
pub proof fn lemma_wraparound_restarts(
    e0: Engine,
    e1: Engine,
    e2: Engine,
    r1: Option<Seq<u8>>,
    r2: Option<Seq<u8>>,
)
    requires
        Engine::activation_transition(e0, e1, r1),
        Engine::activation_transition(e1, e2, r2),
        e0.pos() >= e0.lines().len(),
        e0.lines().len() > 0,
    ensures
        r1 is None,
        e1.cursor() == 0,
        r2 == Some(e0.lines()[0]),
{
}

/// The bytes of the argument value that selects clipboard output (`clip`).
pub open spec fn clip_flag() -> Seq<u8> {
    seq![99u8, 108u8, 105u8, 112u8]
}

/// Whether `a` spells the clipboard flag.
fn is_clip_flag(a: &[u8]) -> (r: bool)
    ensures
        r == (a@ == clip_flag()),
{
    if a.len() != 4 {
        proof {
            assert(a@ != clip_flag()) by {
                assert(clip_flag().len() == 4);
            }
        }
        return false;
    }
    let r = a[0] == 99 && a[1] == 108 && a[2] == 105 && a[3] == 112;
    proof {
        if r {
            assert(a@ =~= clip_flag());
        } else {
            if a@ == clip_flag() {
                assert(a@[0] == 99 && a@[1] == 108 && a@[2] == 105 && a@[3] == 112);
            }
        }
    }
    r
}

/// Chooses the output mode from the process's first positional argument: the
/// literal `clip` selects clipboard writing; any other value, or none,
/// selects keystroke injection.
pub fn select_mode(arg: Option<&[u8]>) -> (m: OutputMode)
    ensures
        m == (if arg matches Some(a) && a@ == clip_flag() {
            OutputMode::ClipboardWrite
        } else {
            OutputMode::KeystrokeInjection
        }),
{
    match arg {
        Some(a) => {
            if is_clip_flag(a) {
                OutputMode::ClipboardWrite
            } else {
                OutputMode::KeystrokeInjection
            }
        },
        None => OutputMode::KeystrokeInjection,
    }
}

} // verus!
