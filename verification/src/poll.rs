//! The polling-loop state machine, over mathematical values.
//!
//! A subscription's loop repeats: observe the liveness flag, observe the
//! message budget, wait (bounded) for a message, decode it, act.  One
//! iteration is [`sub_step`]; a whole run is [`run_steps`].  The lemmas here
//! establish the loop's guarantees: a finite budget is never exceeded, the
//! completion action is emitted exactly once and only as the last action, a
//! cleared liveness flag ends the loop at its very next step, and a message
//! that fails to decode leaves the delivered count and the entry untouched.

use vstd::prelude::*;
use vstd::utf8::{decode_utf8, valid_utf8};
use crate::events::{ExitReason, PollActionView, PollEventView};
use crate::subs::{SubKind, SubView};

verus! {

/// The delivered-message count after one more delivery: one more, saturating
/// at the counter's maximum (reachable only on an unbounded budget).
pub open spec fn bump(delivered: u32) -> u32 {
    if delivered < 0xffff_ffffu32 {
        (delivered + 1) as u32
    } else {
        delivered
    }
}

/// One step of a polling loop on entry state `s` under event `ev`: the entry
/// state after the step (`None` when the loop exits and the entry goes away)
/// and the action the loop takes.
///
/// The order mirrors the loop: liveness first, then the budget, then the
/// event.  A responder has no budget; a consumer delivers and counts; a
/// responder invokes its handler when the message carries a reply subject and
/// silently drops it otherwise; an undecodable payload is reported and
/// changes nothing.
pub open spec fn sub_step(s: SubView, ev: PollEventView) -> (Option<SubView>, PollActionView) {
    if !s.live {
        (None::<SubView>, PollActionView::Done { reason: ExitReason::Cancelled })
    } else if s.kind == SubKind::Consumer && s.max_messages > 0 && s.delivered >= s.max_messages {
        (None::<SubView>, PollActionView::Done { reason: ExitReason::Exhausted })
    } else {
        match ev {
            PollEventView::Timeout => (Some(s), PollActionView::Idle),
            PollEventView::Message { payload, reply } => {
                if s.kind == SubKind::Responder && reply is None {
                    (Some(s), PollActionView::DropMessage)
                } else if !valid_utf8(payload) {
                    (Some(s), PollActionView::DecodeFailed)
                } else if s.kind == SubKind::Consumer {
                    (
                        Some(SubView { delivered: bump(s.delivered), ..s }),
                        PollActionView::Deliver {
                            subject: s.subject,
                            payload: decode_utf8(payload),
                        },
                    )
                } else {
                    (
                        Some(s),
                        PollActionView::Respond {
                            request: decode_utf8(payload),
                            reply_to: reply.unwrap(),
                        },
                    )
                }
            },
        }
    }
}

/// A whole run of the loop on the events `evs`, from entry state `s` until
/// either the events run out or a step exits: the final entry state (`None`
/// when the loop exited) and the actions taken, in order.
pub open spec fn run_steps(s: SubView, evs: Seq<PollEventView>) -> (Option<SubView>, Seq<
    PollActionView,
>)
    decreases evs.len(),
{
    if evs.len() == 0 {
        (Some(s), Seq::<PollActionView>::empty())
    } else {
        let (s1, a) = sub_step(s, evs[0]);
        match s1 {
            None => (None::<SubView>, seq![a]),
            Some(s2) => {
                let (sf, rest) = run_steps(s2, evs.drop_first());
                (sf, seq![a] + rest)
            },
        }
    }
}

/// How many of the actions deliver a message to the message callback.
pub open spec fn count_delivers(actions: Seq<PollActionView>) -> nat
    decreases actions.len(),
{
    if actions.len() == 0 {
        0
    } else {
        count_delivers(actions.drop_first()) + (if actions[0] is Deliver {
            1nat
        } else {
            0nat
        })
    }
}

/// How many of the actions are the completion action.
pub open spec fn count_dones(actions: Seq<PollActionView>) -> nat
    decreases actions.len(),
{
    if actions.len() == 0 {
        0
    } else {
        count_dones(actions.drop_first()) + (if actions[0] is Done {
            1nat
        } else {
            0nat
        })
    }
}

/// A consumer with the finite budget `max_messages` delivers at most
/// `max_messages - delivered` more messages, over any run whatever its
/// events: the message callback fires at most `max_messages` times in the
/// life of a subscription.
pub proof fn lemma_budget_bound(s: SubView, evs: Seq<PollEventView>)
    requires
        s.kind == SubKind::Consumer,
        s.max_messages > 0,
        s.delivered <= s.max_messages,
    ensures
        count_delivers(run_steps(s, evs).1) + s.delivered <= s.max_messages,
    decreases evs.len(),
{
    reveal_with_fuel(count_delivers, 3);
    if evs.len() == 0 {
        assert(run_steps(s, evs).1 == Seq::<PollActionView>::empty());
        assert(count_delivers(run_steps(s, evs).1) == 0);
    } else {
        let (s1, a) = sub_step(s, evs[0]);
        match s1 {
            None => {
                assert(run_steps(s, evs).1 == seq![a]);
                assert(seq![a].drop_first() =~= Seq::<PollActionView>::empty());
                assert(!(a is Deliver));
                assert(count_delivers(run_steps(s, evs).1) == 0);
            },
            Some(s2) => {
                assert(s2.kind == SubKind::Consumer && s2.max_messages == s.max_messages);
                if a is Deliver {
                    assert(s.delivered < s.max_messages);
                    assert(s2.delivered == s.delivered + 1);
                } else {
                    assert(s2 == s);
                }
                lemma_budget_bound(s2, evs.drop_first());
                let rest = run_steps(s2, evs.drop_first()).1;
                assert(run_steps(s, evs).1 == seq![a] + rest);
                assert((seq![a] + rest).len() > 0);
                assert((seq![a] + rest)[0] == a);
                assert((seq![a] + rest).drop_first() =~= rest);
                assert(count_delivers(seq![a] + rest) == count_delivers(rest) + (
                if a is Deliver {
                    1nat
                } else {
                    0nat
                }));
                assert(count_delivers(rest) + s2.delivered <= s.max_messages);
            },
        }
    }
}

/// In any run the completion action is emitted exactly once if the loop
/// exited and never otherwise, and only ever as the run's last action.
pub proof fn lemma_done_once(s: SubView, evs: Seq<PollEventView>)
    ensures
        run_steps(s, evs).0 is Some ==> count_dones(run_steps(s, evs).1) == 0,
        run_steps(s, evs).0 is None ==> count_dones(run_steps(s, evs).1) == 1
            && run_steps(s, evs).1.len() >= 1 && run_steps(s, evs).1.last() is Done,
        forall|k: int|
            0 <= k < run_steps(s, evs).1.len() - 1 ==> !(#[trigger] run_steps(s, evs).1[k]
                is Done),
    decreases evs.len(),
{
    if evs.len() == 0 {
    } else {
        let (s1, a) = sub_step(s, evs[0]);
        match s1 {
            None => {
                assert(a is Done);
                assert(run_steps(s, evs).1 =~= seq![a]);
                assert(count_dones(seq![a].drop_first()) == 0);
            },
            Some(s2) => {
                assert(!(a is Done));
                lemma_done_once(s2, evs.drop_first());
                let rest = run_steps(s2, evs.drop_first()).1;
                assert(run_steps(s, evs).1 == seq![a] + rest);
                assert((seq![a] + rest).drop_first() =~= rest);
                assert forall|k: int| 0 <= k < (seq![a] + rest).len() - 1
                    implies !(#[trigger] (seq![a] + rest)[k] is Done) by {
                    if k > 0 {
                        assert((seq![a] + rest)[k] == rest[k - 1]);
                    }
                };
                if run_steps(s, evs).0 is None {
                    assert((seq![a] + rest).last() == rest.last());
                }
            },
        }
    }
}

/// Once the liveness flag is down, the very next step — whatever the event —
/// exits the loop with the cancellation reason.
pub proof fn lemma_cancelled_step(s: SubView, ev: PollEventView)
    requires
        !s.live,
    ensures
        sub_step(s, ev) == (
            None::<SubView>,
            PollActionView::Done { reason: ExitReason::Cancelled },
        ),
{
}

/// Once a consumer's finite budget is used up, the very next step — whatever
/// the event — exits the loop with the exhaustion reason.
pub proof fn lemma_exhausted_step(s: SubView, ev: PollEventView)
    requires
        s.live,
        s.kind == SubKind::Consumer,
        s.max_messages > 0,
        s.delivered >= s.max_messages,
    ensures
        sub_step(s, ev) == (
            None::<SubView>,
            PollActionView::Done { reason: ExitReason::Exhausted },
        ),
{
}

/// A message that is not valid UTF-8 is reported and changes nothing: the
/// delivered count stays, the entry stays, and a following valid message is
/// handled exactly as if the bad one had never arrived.
pub proof fn lemma_decode_failure_skips_message(s: SubView, bad: Seq<u8>, good: Seq<u8>)
    requires
        s.live,
        s.kind == SubKind::Consumer,
        !valid_utf8(bad),
        valid_utf8(good),
        s.max_messages == 0 || s.delivered < s.max_messages,
    ensures
        ({
            let evs = seq![
                PollEventView::Message { payload: bad, reply: None },
                PollEventView::Message { payload: good, reply: None },
            ];
            let (sf, actions) = run_steps(s, evs);
            &&& actions =~= seq![
                PollActionView::DecodeFailed,
                PollActionView::Deliver { subject: s.subject, payload: decode_utf8(good) },
            ]
            &&& sf == Some(SubView { delivered: bump(s.delivered), ..s })
        }),
{
    reveal_with_fuel(run_steps, 4);
    let evs = seq![
        PollEventView::Message { payload: bad, reply: None },
        PollEventView::Message { payload: good, reply: None },
    ];
    assert(sub_step(s, evs[0]) == (Some(s), PollActionView::DecodeFailed));
    assert(evs.drop_first() =~= seq![PollEventView::Message { payload: good, reply: None }]);
    let evs1 = evs.drop_first();
    assert(evs1.drop_first() =~= Seq::<PollEventView>::empty());
    let (s1, a1) = sub_step(s, evs1[0]);
    assert(a1 == (PollActionView::Deliver { subject: s.subject, payload: decode_utf8(good) }));
    assert(s1 == Some(SubView { delivered: bump(s.delivered), ..s }));
    assert(run_steps(s, evs).1 =~= seq![PollActionView::DecodeFailed] + (seq![a1]
        + Seq::<PollActionView>::empty()));
}

} // verus!
