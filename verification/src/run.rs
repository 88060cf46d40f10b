//! The run of a negotiation: two nodes that are polled for their messages in turns.

use vstd::prelude::*;
use crate::messages::MessageView;
use crate::model::NodeView;
use crate::negotiation::{channel_of, is_negotiation_message, Side, TurnError};

verus! {

/// A run at one point: the two nodes, whose turn it is, what that side was polled for and what
/// has not been delivered yet, and how often each side was polled and messages were delivered.
pub struct RunView {
    pub initiator: NodeView,
    pub acceptor: NodeView,
    pub turn: Side,
    pub polled: Option<Seq<MessageView>>,
    pub initiator_polls: nat,
    pub acceptor_polls: nat,
    pub deliveries: nat,
}

impl RunView {
    /// The side whose turn it is.
    pub open spec fn speaker(self) -> NodeView {
        match self.turn {
            Side::Initiator => self.initiator,
            Side::Acceptor => self.acceptor,
        }
    }

    /// The side whose turn it is not.
    pub open spec fn listener(self) -> NodeView {
        match self.turn {
            Side::Initiator => self.acceptor,
            Side::Acceptor => self.initiator,
        }
    }

    /// The side whose turn it is hands out all of its messages.
    pub open spec fn poll(self) -> RunView {
        let polled = Some(self.speaker().messages);
        match self.turn {
            Side::Initiator => RunView {
                initiator: NodeView { messages: Seq::empty(), ..self.initiator },
                polled,
                initiator_polls: self.initiator_polls + 1,
                ..self
            },
            Side::Acceptor => RunView {
                acceptor: NodeView { messages: Seq::empty(), ..self.acceptor },
                polled,
                acceptor_polls: self.acceptor_polls + 1,
                ..self
            },
        }
    }

    /// The message that was handed out is delivered to the other side, whose turn it is then.
    pub open spec fn deliver(self) -> RunView {
        let message = self.polled->0[0];
        match self.turn {
            Side::Initiator => RunView {
                acceptor: self.acceptor.after_message(self.initiator.id, message),
                turn: Side::Acceptor,
                polled: None,
                deliveries: self.deliveries + 1,
                ..self
            },
            Side::Acceptor => RunView {
                initiator: self.initiator.after_message(self.acceptor.id, message),
                turn: Side::Initiator,
                polled: None,
                deliveries: self.deliveries + 1,
                ..self
            },
        }
    }
}

/// The run after `steps` steps, each of which polls a side or delivers what it was polled for.
pub open spec fn run(initiator: NodeView, acceptor: NodeView, steps: nat) -> RunView
    decreases steps,
{
    if steps == 0 {
        RunView {
            initiator,
            acceptor,
            turn: Side::Initiator,
            polled: None,
            initiator_polls: 0,
            acceptor_polls: 0,
            deliveries: 0,
        }
    } else {
        let before = run(initiator, acceptor, (steps - 1) as nat);
        if before.polled is None {
            before.poll()
        } else {
            before.deliver()
        }
    }
}

/// What the side whose turn it is hands out in turn `k`, counted from 0.
pub open spec fn polled_at(initiator: NodeView, acceptor: NodeView, k: nat) -> Seq<MessageView> {
    run(initiator, acceptor, 2 * k + 1).polled->0
}

/// In turn `k`, exactly one message is handed out, and it belongs to a negotiation.
pub open spec fn speaks_at(initiator: NodeView, acceptor: NodeView, k: nat) -> bool {
    let polled = polled_at(initiator, acceptor, k);
    polled.len() == 1 && is_negotiation_message(polled[0])
}

/// In turn `k`, exactly one message is handed out, and it is a completion.
pub open spec fn completes_at(initiator: NodeView, acceptor: NodeView, k: nat) -> bool {
    speaks_at(initiator, acceptor, k) && polled_at(initiator, acceptor, k)[0] is TxComplete
}

/// Each of the first `n` turns has a message of the negotiation, and no two of them in a row are
/// completions.
pub open spec fn goes_on_for(initiator: NodeView, acceptor: NodeView, n: nat) -> bool {
    forall|k: nat|
        k < n ==> #[trigger] speaks_at(initiator, acceptor, k) && !(k > 0 && completes_at(
            initiator,
            acceptor,
            (k - 1) as nat,
        ) && completes_at(initiator, acceptor, k))
}

/// The run is over after `n` turns: the last two of them are the first two completions in a row.
pub open spec fn ends_after(initiator: NodeView, acceptor: NodeView, n: nat) -> bool {
    &&& n >= 2
    &&& goes_on_for(initiator, acceptor, (n - 1) as nat)
    &&& completes_at(initiator, acceptor, (n - 2) as nat)
    &&& completes_at(initiator, acceptor, (n - 1) as nat)
}

/// The run cannot go on in turn `n`, because of `error`.
pub open spec fn fails_at(
    initiator: NodeView,
    acceptor: NodeView,
    n: nat,
    error: TurnError,
) -> bool {
    let polled = polled_at(initiator, acceptor, n);
    &&& goes_on_for(initiator, acceptor, n)
    &&& match error {
        TurnError::NotOneMessage => polled.len() != 1,
        TurnError::UnexpectedMessage => polled.len() == 1 && !is_negotiation_message(polled[0]),
    }
}

/// The run comes to its end.
pub open spec fn comes_to_an_end(initiator: NodeView, acceptor: NodeView) -> bool {
    exists|n: nat| ends_after(initiator, acceptor, n)
}

/// A step forth.
pub proof fn lemma_run_step(initiator: NodeView, acceptor: NodeView, steps: nat)
    ensures
        run(initiator, acceptor, steps).polled is None ==> run(initiator, acceptor, steps + 1)
            == run(initiator, acceptor, steps).poll(),
        run(initiator, acceptor, steps).polled is Some ==> run(initiator, acceptor, steps + 1)
            == run(initiator, acceptor, steps).deliver(),
{
}

/// At every point of a run, the two sides are polled in turns, the initiator first; and before a
/// side is polled, every message that was handed out earlier has been delivered.
pub proof fn law_polls_alternate(initiator: NodeView, acceptor: NodeView, steps: nat)
    ensures
        ({
            let r = run(initiator, acceptor, steps);
            let polls = r.initiator_polls + r.acceptor_polls;
            &&& r.initiator_polls == r.acceptor_polls || r.initiator_polls == r.acceptor_polls + 1
            &&& r.polled is None ==> r.deliveries == polls
            &&& r.polled is Some ==> r.deliveries + 1 == polls
            &&& r.polled is None ==> (r.turn == Side::Initiator) == (r.initiator_polls
                == r.acceptor_polls)
            &&& r.polled is Some ==> (r.turn == Side::Initiator) == (r.initiator_polls
                == r.acceptor_polls + 1)
        }),
    decreases steps,
{
    if steps > 0 {
        law_polls_alternate(initiator, acceptor, (steps - 1) as nat);
    }
}

/// A run begins with the two nodes as they are, at the initiator's turn. Each poll takes all that
/// the side whose turn it is has queued, and touches nothing else; each delivery hands the first of
/// that to the other side, on behalf of the sender, touches nothing else, and passes the turn.
pub proof fn law_run_hands_messages_over(initiator: NodeView, acceptor: NodeView, steps: nat)
    ensures
        run(initiator, acceptor, 0).initiator == initiator,
        run(initiator, acceptor, 0).acceptor == acceptor,
        run(initiator, acceptor, 0).turn == Side::Initiator,
        run(initiator, acceptor, 0).polled is None,
        ({
            let r = run(initiator, acceptor, steps);
            let next = run(initiator, acceptor, steps + 1);
            match r.polled {
                None => {
                    &&& next.turn == r.turn
                    &&& r.turn == Side::Initiator ==> {
                        &&& next.polled == Some(r.initiator.messages)
                        &&& next.initiator == (NodeView { messages: Seq::empty(), ..r.initiator })
                        &&& next.acceptor == r.acceptor
                    }
                    &&& r.turn == Side::Acceptor ==> {
                        &&& next.polled == Some(r.acceptor.messages)
                        &&& next.acceptor == (NodeView { messages: Seq::empty(), ..r.acceptor })
                        &&& next.initiator == r.initiator
                    }
                },
                Some(messages) => {
                    &&& next.turn != r.turn
                    &&& next.polled is None
                    &&& r.turn == Side::Initiator ==> {
                        &&& next.acceptor == r.acceptor.after_message(r.initiator.id, messages[0])
                        &&& next.initiator == r.initiator
                    }
                    &&& r.turn == Side::Acceptor ==> {
                        &&& next.initiator == r.initiator.after_message(r.acceptor.id, messages[0])
                        &&& next.acceptor == r.acceptor
                    }
                },
            }
        }),
{
    lemma_run_step(initiator, acceptor, steps);
}

/// A run is over exactly when, for the first time, two completions were handed out in a row, and in
/// every turn until then exactly one message that adds an input or an output or is a completion.
pub proof fn law_run_ends_with_two_completions(initiator: NodeView, acceptor: NodeView, n: nat)
    ensures
        ends_after(initiator, acceptor, n) <==> {
            &&& n >= 2
            &&& forall|k: nat|
                k < n ==> {
                    let polled = #[trigger] polled_at(initiator, acceptor, k);
                    polled.len() == 1 && (polled[0] is TxAddInput || polled[0] is TxAddOutput
                        || polled[0] is TxComplete)
                }
            &&& polled_at(initiator, acceptor, (n - 1) as nat)[0] is TxComplete
            &&& polled_at(initiator, acceptor, (n - 2) as nat)[0] is TxComplete
            &&& forall|k: nat|
                0 < k < n - 1 ==> !((#[trigger] polled_at(initiator, acceptor, k))[0] is TxComplete
                    && polled_at(initiator, acceptor, (k - 1) as nat)[0] is TxComplete)
        },
{
    if ends_after(initiator, acceptor, n) {
        assert forall|k: nat| k < n implies {
            let polled = #[trigger] polled_at(initiator, acceptor, k);
            polled.len() == 1 && (polled[0] is TxAddInput || polled[0] is TxAddOutput
                || polled[0] is TxComplete)
        } by {
            assert(speaks_at(initiator, acceptor, k));
        }
        assert forall|k: nat| 0 < k < n - 1 implies !((#[trigger] polled_at(
            initiator,
            acceptor,
            k,
        ))[0] is TxComplete && polled_at(
            initiator,
            acceptor,
            (k - 1) as nat,
        )[0] is TxComplete) by {
            assert(speaks_at(initiator, acceptor, k));
            assert(speaks_at(initiator, acceptor, (k - 1) as nat));
        }
    }
}

/// After an even number of steps, as many turns have been taken as half of them, and nothing is
/// on its way.
pub proof fn lemma_turn_begins(initiator: NodeView, acceptor: NodeView, n: nat)
    ensures
        run(initiator, acceptor, 2 * n).polled is None,
        (run(initiator, acceptor, 2 * n).turn == Side::Initiator) == (n % 2 == 0),
        run(initiator, acceptor, 2 * n + 1) == run(initiator, acceptor, 2 * n).poll(),
        run(initiator, acceptor, 2 * n + 2) == run(initiator, acceptor, 2 * n + 1).deliver(),
        polled_at(initiator, acceptor, n) == run(initiator, acceptor, 2 * n).speaker().messages,
    decreases n,
{
    if n > 0 {
        lemma_turn_begins(initiator, acceptor, (n - 1) as nat);
        assert(2 * (n - 1) + 2 == 2 * n);
    }
    lemma_run_step(initiator, acceptor, 2 * n);
    lemma_run_step(initiator, acceptor, 2 * n + 1);
}

/// What a turn leads to: the run goes on, is over, or cannot go on.
pub proof fn lemma_turn_taken(initiator: NodeView, acceptor: NodeView, n: nat)
    requires
        goes_on_for(initiator, acceptor, n),
    ensures
        ({
            let over = n > 0 && completes_at(initiator, acceptor, (n - 1) as nat) && completes_at(
                initiator,
                acceptor,
                n,
            );
            &&& speaks_at(initiator, acceptor, n) && over ==> ends_after(
                initiator,
                acceptor,
                n + 1,
            )
            &&& speaks_at(initiator, acceptor, n) && !over ==> goes_on_for(
                initiator,
                acceptor,
                n + 1,
            )
        }),
{
}

/// A run that is over does not fail, and is not over at another time.
pub proof fn lemma_one_outcome(initiator: NodeView, acceptor: NodeView, m: nat)
    requires
        ends_after(initiator, acceptor, m),
    ensures
        forall|n: nat| #[trigger] ends_after(initiator, acceptor, n) ==> n == m,
        forall|n: nat, error: TurnError| !fails_at(initiator, acceptor, n, error),
{
    let last = (m - 1) as nat;
    assert forall|n: nat| #[trigger] ends_after(initiator, acceptor, n) implies n == m by {
        assert(speaks_at(initiator, acceptor, last));
        assert(speaks_at(initiator, acceptor, (n - 1) as nat));
    }
    assert forall|n: nat, error: TurnError| !fails_at(initiator, acceptor, n, error) by {
        assert(speaks_at(initiator, acceptor, last));
        if fails_at(initiator, acceptor, n, error) {
            if n < m {
                if n < last {
                    assert(speaks_at(initiator, acceptor, n));
                }
                assert(false);
            }
        }
    }
}

/// How many turns a run can still take, at most, when it is the turn of `speaker`, the other side
/// has nothing queued, and its last message was a completion or not.
#[verifier::opaque]
pub open spec fn turns_bound(
    speaker: NodeView,
    listener: NodeView,
    other_is_complete: bool,
) -> nat {
    let message = speaker.messages[0];
    let id = channel_of(message);
    if speaker.messages.len() != 1 || !is_negotiation_message(message) || (message is TxComplete
        && other_is_complete) {
        0
    } else {
        2 * (speaker.channels[id].to_send.len() + listener.channels[id].to_send.len())
            + if message is TxComplete {
            1nat
        } else {
            2nat
        }
    }
}

/// A turn that does not end the run leaves less to come.
pub proof fn lemma_turn_decreases(speaker: NodeView, listener: NodeView, other_is_complete: bool)
    requires
        listener.inv(),
        listener.messages.len() == 0,
        speaker.messages.len() == 1,
        is_negotiation_message(speaker.messages[0]),
        !(speaker.messages[0] is TxComplete && other_is_complete),
    ensures
        turns_bound(
            listener.after_message(speaker.id, speaker.messages[0]),
            (NodeView { messages: Seq::empty(), ..speaker }),
            speaker.messages[0] is TxComplete,
        ) < turns_bound(speaker, listener, other_is_complete),
{
    reveal(turns_bound);
    reveal(NodeView::after_message);
    let message = speaker.messages[0];
    let id = channel_of(message);
    let after = listener.after_message(speaker.id, message);
    let c = listener.channels[id];
    if after.messages.len() == 1 && is_negotiation_message(after.messages[0]) {
        assert(listener.channels.contains_key(id));
        assert(c.channel_id == id);
        assert(channel_of(after.messages[0]) == id);
    }
}

} // verus!
