use pinger::{Action, LoopControl, Poll, Signal};

#[test]
fn running_loop_pings_when_no_signal() {
    let mut c = LoopControl::new();
    assert!(!c.is_paused());
    assert_eq!(c.next_action(Poll::Empty), Action::Ping);
    assert_eq!(c.next_action(Poll::Empty), Action::Ping);
}

#[test]
fn pause_and_resume() {
    let mut c = LoopControl::new();
    assert_eq!(c.next_action(Poll::Received(Signal::Pause)), Action::Sleep);
    assert!(c.is_paused());
    assert_eq!(c.next_action(Poll::Empty), Action::Sleep);
    assert_eq!(c.next_action(Poll::Received(Signal::Pause)), Action::Sleep);
    assert_eq!(c.next_action(Poll::Received(Signal::Resume)), Action::Ping);
    assert!(!c.is_paused());
    assert_eq!(c.next_action(Poll::Empty), Action::Ping);
}

#[test]
fn stop_and_disconnect_end_the_loop() {
    let mut c = LoopControl::new();
    assert_eq!(c.next_action(Poll::Received(Signal::Stop)), Action::Exit);
    let mut p = LoopControl::new();
    p.next_action(Poll::Received(Signal::Pause));
    assert_eq!(p.next_action(Poll::Disconnected), Action::Exit);
    assert!(p.is_paused());
}
