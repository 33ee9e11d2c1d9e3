use gnui::event::Key;
use gnui::event::TerminalEvent;
use gnui::event::CONTROL;
use gnui::main_loop::Action;
use gnui::main_loop::LoopInput;
use gnui::main_loop::MainLoop;
use gnui::main_loop::Message;
use gnui::main_loop::Phase;

fn record(s: &str) -> LoopInput {
    LoopInput::Received(Message::Record(s.to_string()))
}

fn key(c: char, modifiers: u8) -> LoopInput {
    LoopInput::Received(Message::Terminal(TerminalEvent::Key { key: Key::Char(c), modifiers }))
}

fn running() -> MainLoop {
    let mut m = MainLoop::new();
    assert_eq!(m.next_action(), Action::AcquireTerminal);
    assert_eq!(m.step(LoopInput::TerminalReady), Action::DrawAndWait);
    m
}

#[test]
fn buffer_holds_the_last_record() {
    let mut m = running();
    assert_eq!(m.buffer(), "");
    for r in ["first", "second", "third"] {
        assert_eq!(m.step(record(r)), Action::DrawAndWait);
    }
    assert_eq!(m.buffer(), "third");
    assert_eq!(m.phase(), Phase::Running);
}

#[test]
fn cancel_chord_finalizes_then_terminates() {
    let mut m = running();
    m.step(record("shown"));
    assert_eq!(m.step(key('c', CONTROL)), Action::RestoreTerminal);
    assert_eq!(m.phase(), Phase::Finalizing);
    assert_eq!(m.step(record("late")), Action::RestoreTerminal);
    assert_eq!(m.buffer(), "shown");
    assert_eq!(m.step(key('c', CONTROL)), Action::RestoreTerminal);
    assert_eq!(m.step(LoopInput::TerminalRestored), Action::Exit);
    assert_eq!(m.phase(), Phase::Terminated);
    assert_eq!(m.step(record("later")), Action::Exit);
}

#[test]
fn other_events_change_nothing() {
    let mut m = running();
    m.step(record("kept"));
    assert_eq!(m.step(key('c', 0)), Action::DrawAndWait);
    assert_eq!(m.step(key('c', CONTROL | 0x01)), Action::DrawAndWait);
    assert_eq!(m.step(key('x', CONTROL)), Action::DrawAndWait);
    assert_eq!(m.step(LoopInput::Received(Message::Terminal(TerminalEvent::Other))), Action::DrawAndWait);
    assert_eq!(m.buffer(), "kept");
    assert_eq!(m.phase(), Phase::Running);
}

#[test]
fn nothing_runs_before_the_terminal_is_ready() {
    let mut m = MainLoop::new();
    assert_eq!(m.step(record("early")), Action::AcquireTerminal);
    assert_eq!(m.step(key('c', CONTROL)), Action::AcquireTerminal);
    assert_eq!(m.buffer(), "");
    assert_eq!(m.phase(), Phase::Initializing);
}

#[test]
fn cancel_chord_is_control_c_alone() {
    assert!(TerminalEvent::Key { key: Key::Char('c'), modifiers: CONTROL }.is_cancel());
    assert!(!TerminalEvent::Key { key: Key::Char('C'), modifiers: CONTROL }.is_cancel());
    assert!(!TerminalEvent::Key { key: Key::Other, modifiers: CONTROL }.is_cancel());
    assert!(!TerminalEvent::Other.is_cancel());
}
