//! The decisions of a monitoring loop: each round it checks its signal
//! channel, then pings unless it is paused, or it ends.
use vstd::prelude::*;

verus! {

/// The signals a monitoring loop understands
#[derive(Clone, Copy, Debug, PartialEq, Eq, Structural)]
pub enum Signal {
    Stop,
    Pause,
    Resume,
}

/// What one check of the signal channel found.
#[derive(Clone, Copy, Debug, PartialEq, Eq, Structural)]
pub enum Poll {
    /// A signal was waiting
    Received(Signal),
    /// No signal was waiting
    Empty,
    /// The sending side is gone
    Disconnected,
}

/// What the loop does in a round.
#[derive(Clone, Copy, Debug, PartialEq, Eq, Structural)]
pub enum Action {
    /// Leave the loop
    Exit,
    /// Send a ping, record the reply, then sleep
    Ping,
    /// Only sleep
    Sleep,
}

/// Whether the loop is paused after a round that found `poll`, having been
/// paused (or not) before it.
pub open spec fn paused_after(paused: bool, poll: Poll) -> bool {
    match poll {
        Poll::Received(Signal::Pause) => true,
        Poll::Received(Signal::Resume) => false,
        _ => paused,
    }
}

/// The action of a round: a stop signal or a lost channel ends the loop;
/// otherwise the loop pings exactly when it is not paused after the signal.
pub open spec fn action_for(paused: bool, poll: Poll) -> Action {
    match poll {
        Poll::Received(Signal::Stop) | Poll::Disconnected => Action::Exit,
        _ => if paused_after(paused, poll) {
            Action::Sleep
        } else {
            Action::Ping
        },
    }
}

/// The state a monitoring loop keeps between rounds.
pub struct LoopControl {
    paused: bool,
}

impl View for LoopControl {
    type V = bool;

    /// Whether the loop is paused.
    closed spec fn view(&self) -> bool {
        self.paused
    }
}

impl LoopControl {
    /// A loop that is not paused.
    pub fn new() -> (c: Self)
        ensures
            c@ == false,
    {
        LoopControl { paused: false }
    }

    /// Whether the loop is paused.
    pub fn is_paused(&self) -> (p: bool)
        ensures
            p == self@,
    {
        self.paused
    }

    /// Takes what the check of the signal channel found and says what to do
    /// in this round.
    pub fn next_action(&mut self, poll: Poll) -> (a: Action)
        ensures
            final(self)@ == paused_after(old(self)@, poll),
            a == action_for(old(self)@, poll),
    {
        match poll {
            Poll::Received(Signal::Stop) => {
                return Action::Exit;
            },
            Poll::Received(Signal::Pause) => {
                self.paused = true;
            },
            Poll::Received(Signal::Resume) => {
                self.paused = false;
            },
            Poll::Empty => {},
            Poll::Disconnected => {
                return Action::Exit;
            },
        }
        if !self.paused {
            Action::Ping
        } else {
            Action::Sleep
        }
    }
}

/// Law: whatever the state, a stop signal or a lost channel ends the loop; a
/// pause signal never pings and leaves the loop paused; a resume signal
/// pings and leaves it running; a round without a signal keeps the state and
/// pings exactly when the loop is running.
pub proof fn lemma_signal_effects(paused: bool)
    ensures
        action_for(paused, Poll::Received(Signal::Stop)) == Action::Exit,
        action_for(paused, Poll::Disconnected) == Action::Exit,
        action_for(paused, Poll::Received(Signal::Pause)) == Action::Sleep,
        paused_after(paused, Poll::Received(Signal::Pause)),
        action_for(paused, Poll::Received(Signal::Resume)) == Action::Ping,
        !paused_after(paused, Poll::Received(Signal::Resume)),
        paused_after(paused, Poll::Empty) == paused,
        action_for(paused, Poll::Empty) == (if paused { Action::Sleep } else { Action::Ping }),
{
}

/// Whether the loop is paused after the rounds of `polls` in turn.
pub open spec fn paused_after_all(paused: bool, polls: Seq<Poll>) -> bool
    decreases polls.len(),
{
    if polls.len() == 0 {
        paused
    } else {
        paused_after(paused_after_all(paused, polls.drop_last()), polls.last())
    }
}

/// Law: a paused loop never pings until it receives a resume signal: over
/// any rounds without one it stays paused and each round either sleeps or
/// ends the loop.
pub proof fn lemma_paused_until_resume(polls: Seq<Poll>)
    requires
        forall|i: int| 0 <= i < polls.len() ==> #[trigger] polls[i] != Poll::Received(Signal::Resume),
    ensures
        paused_after_all(true, polls),
        forall|i: int|
            0 <= i < polls.len() ==> #[trigger] action_for(paused_after_all(true, polls.take(i)), polls[i])
                != Action::Ping,
    decreases polls.len(),
{
    if polls.len() > 0 {
        let earlier = polls.drop_last();
        lemma_paused_until_resume(earlier);
        assert forall|i: int| 0 <= i < polls.len() implies #[trigger] action_for(
            paused_after_all(true, polls.take(i)),
            polls[i],
        ) != Action::Ping by {
            if i < polls.len() - 1 {
                assert(polls.take(i) =~= earlier.take(i));
                assert(earlier[i] == polls[i]);
                assert forall|k: int| 0 <= k < earlier.take(i).len() implies #[trigger] earlier.take(i)[k]
                    != Poll::Received(Signal::Resume) by {
                    assert(earlier.take(i)[k] == polls[k]);
                }
                lemma_paused_until_resume(earlier.take(i));
            } else {
                assert(polls.take(i) =~= earlier);
            }
        }
    }
}

} // verus!
