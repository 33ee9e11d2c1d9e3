use vstd::prelude::*;

use crate::event::is_cancel_spec;
use crate::event::TerminalEvent;

verus! {

/// Where the main loop stands in its life.
#[derive(Debug, Clone, Copy, PartialEq, Eq, Structural)]
pub enum Phase {
    Initializing,
    Running,
    Finalizing,
    Terminated,
}

/// A message taken from one of the two queues.
#[derive(Debug, Clone)]
pub enum Message {
    Record(String),
    Terminal(TerminalEvent),
}

/// What the driver of the loop reports back.
#[derive(Debug, Clone)]
pub enum LoopInput {
    /// The terminal surface is under the loop's control.
    TerminalReady,
    /// One message came from the queues.
    Received(Message),
    /// The terminal surface is back in its former modes.
    TerminalRestored,
}

/// What the driver is to do next.
#[derive(Debug, Clone, Copy, PartialEq, Eq, Structural)]
pub enum Action {
    /// Hide the cursor, enter the alternate screen, enable raw mode.
    AcquireTerminal,
    /// Draw one frame of the buffer, then wait for one message.
    DrawAndWait,
    /// Disable raw mode, leave the alternate screen, show the cursor.
    RestoreTerminal,
    /// End with success.
    Exit,
}

pub open spec fn action_for(p: Phase) -> Action {
    match p {
        Phase::Initializing => Action::AcquireTerminal,
        Phase::Running => Action::DrawAndWait,
        Phase::Finalizing => Action::RestoreTerminal,
        Phase::Terminated => Action::Exit,
    }
}

pub open spec fn is_cancel_input(i: LoopInput) -> bool {
    i matches LoopInput::Received(Message::Terminal(e)) && is_cancel_spec(e)
}

pub open spec fn next_phase(p: Phase, i: LoopInput) -> Phase {
    match (p, i) {
        (Phase::Initializing, LoopInput::TerminalReady) => Phase::Running,
        (Phase::Running, LoopInput::Received(Message::Terminal(e))) => if is_cancel_spec(e) {
            Phase::Finalizing
        } else {
            Phase::Running
        },
        (Phase::Finalizing, LoopInput::TerminalRestored) => Phase::Terminated,
        _ => p,
    }
}

/// A record received while running replaces the buffer whole; nothing else
/// touches it.
pub open spec fn next_buffer(p: Phase, b: Seq<char>, i: LoopInput) -> Seq<char> {
    match (p, i) {
        (Phase::Running, LoopInput::Received(Message::Record(s))) => s@,
        _ => b,
    }
}

/// The phase after a run of inputs, from phase `p`.
pub open spec fn phase_after(p: Phase, inputs: Seq<LoopInput>) -> Phase
    decreases inputs.len(),
{
    if inputs.len() == 0 {
        p
    } else {
        next_phase(phase_after(p, inputs.drop_last()), inputs.last())
    }
}

/// The buffer after a run of inputs, from phase `p` and buffer `b`.
pub open spec fn buffer_after(p: Phase, b: Seq<char>, inputs: Seq<LoopInput>) -> Seq<char>
    decreases inputs.len(),
{
    if inputs.len() == 0 {
        b
    } else {
        next_buffer(
            phase_after(p, inputs.drop_last()),
            buffer_after(p, b, inputs.drop_last()),
            inputs.last(),
        )
    }
}

/// The main loop's state: its phase and the shared display buffer, which holds
/// the latest record received.
pub struct MainLoop {
    phase: Phase,
    buffer: String,
}

impl MainLoop {
    pub closed spec fn phase_spec(&self) -> Phase {
        self.phase
    }

    pub closed spec fn buffer_spec(&self) -> Seq<char> {
        self.buffer@
    }

    pub fn new() -> (r: Self)
        ensures
            r.phase_spec() == Phase::Initializing,
            r.buffer_spec() == Seq::<char>::empty(),
    {
        MainLoop { phase: Phase::Initializing, buffer: String::new() }
    }

    pub fn phase(&self) -> (r: Phase)
        ensures
            r == self.phase_spec(),
    {
        self.phase
    }

    /// The text that the render step draws.
    pub fn buffer(&self) -> (r: &str)
        ensures
            r@ == self.buffer_spec(),
    {
        self.buffer.as_str()
    }

    pub fn next_action(&self) -> (r: Action)
        ensures
            r == action_for(self.phase_spec()),
    {
        match self.phase {
            Phase::Initializing => Action::AcquireTerminal,
            Phase::Running => Action::DrawAndWait,
            Phase::Finalizing => Action::RestoreTerminal,
            Phase::Terminated => Action::Exit,
        }
    }

    /// Takes one input and returns what the driver is to do next.
    pub fn step(&mut self, input: LoopInput) -> (r: Action)
        ensures
            final(self).phase_spec() == next_phase(old(self).phase_spec(), input),
            final(self).buffer_spec() == next_buffer(
                old(self).phase_spec(),
                old(self).buffer_spec(),
                input,
            ),
            r == action_for(final(self).phase_spec()),
    {
        match input {
            LoopInput::TerminalReady => {
                if self.phase == Phase::Initializing {
                    self.phase = Phase::Running;
                }
            },
            LoopInput::Received(Message::Record(s)) => {
                if self.phase == Phase::Running {
                    self.buffer = s;
                }
            },
            LoopInput::Received(Message::Terminal(e)) => {
                if self.phase == Phase::Running && e.is_cancel() {
                    self.phase = Phase::Finalizing;
                }
            },
            LoopInput::TerminalRestored => {
                if self.phase == Phase::Finalizing {
                    self.phase = Phase::Terminated;
                }
            },
        }
        self.next_action()
    }
}

pub open spec fn is_record_input(i: LoopInput) -> bool {
    i matches LoopInput::Received(Message::Record(_))
}

proof fn lemma_records_keep_running(inputs: Seq<LoopInput>)
    requires
        forall|i: int| 0 <= i < inputs.len() ==> is_record_input(#[trigger] inputs[i]),
    ensures
        phase_after(Phase::Running, inputs) == Phase::Running,
    decreases inputs.len(),
{
    if inputs.len() > 0 {
        let prefix = inputs.drop_last();
        assert forall|i: int| 0 <= i < prefix.len() implies is_record_input(#[trigger] prefix[i]) by {
            assert(prefix[i] == inputs[i]);
        }
        lemma_records_keep_running(prefix);
        assert(is_record_input(inputs[inputs.len() - 1]));
    }
}

/// Last writer wins: while running, after any number of records in a row the
/// buffer holds the text of the last of them, whole, and the loop still runs.
pub proof fn lemma_last_record_wins(b: Seq<char>, inputs: Seq<LoopInput>)
    requires
        inputs.len() > 0,
        forall|i: int| 0 <= i < inputs.len() ==> is_record_input(#[trigger] inputs[i]),
    ensures
        phase_after(Phase::Running, inputs) == Phase::Running,
        inputs.last() matches LoopInput::Received(Message::Record(s)) && buffer_after(
            Phase::Running,
            b,
            inputs,
        ) == s@,
{
    lemma_records_keep_running(inputs);
    let prefix = inputs.drop_last();
    assert forall|i: int| 0 <= i < prefix.len() implies is_record_input(#[trigger] prefix[i]) by {
        assert(prefix[i] == inputs[i]);
    }
    lemma_records_keep_running(prefix);
    assert(is_record_input(inputs[inputs.len() - 1]));
}

pub open spec fn is_done(p: Phase) -> bool {
    p == Phase::Finalizing || p == Phase::Terminated
}

proof fn lemma_done_stays_done(p: Phase, inputs: Seq<LoopInput>, k: int, j: int)
    requires
        0 <= k <= j <= inputs.len(),
        is_done(phase_after(p, inputs.take(k))),
    ensures
        is_done(phase_after(p, inputs.take(j))),
    decreases j - k,
{
    if k < j {
        let t = inputs.take(k + 1);
        assert(t.drop_last() =~= inputs.take(k));
        assert(t.last() == inputs[k]);
        lemma_done_stays_done(p, inputs, k + 1, j);
    }
}

/// A cancellation chord taken while running moves the loop to finalizing, and
/// from then on it is finalizing or terminated whatever comes: it never draws
/// again.
pub proof fn lemma_cancel_ends_drawing(p: Phase, inputs: Seq<LoopInput>, k: int)
    requires
        0 <= k < inputs.len(),
        phase_after(p, inputs.take(k)) == Phase::Running,
        is_cancel_input(inputs[k]),
    ensures
        phase_after(p, inputs.take(k + 1)) == Phase::Finalizing,
        forall|j: int|
            k < j <= inputs.len() ==> is_done(#[trigger] phase_after(p, inputs.take(j)))
                && action_for(phase_after(p, inputs.take(j))) != Action::DrawAndWait,
{
    let t = inputs.take(k + 1);
    assert(t.drop_last() =~= inputs.take(k));
    assert(t.last() == inputs[k]);
    assert forall|j: int| k < j <= inputs.len() implies is_done(
        #[trigger] phase_after(p, inputs.take(j)),
    ) && action_for(phase_after(p, inputs.take(j))) != Action::DrawAndWait by {
        lemma_done_stays_done(p, inputs, k + 1, j);
    }
}

} // verus!
