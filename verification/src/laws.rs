//! Laws of the session manager, proved across sequences of operations.
//!
//! Each proof function quantifies over any states and results that satisfy
//! the operations' contracts — the `*_post` predicates that the operations'
//! own `ensures` establish — and derives the law from them alone.

use vstd::prelude::*;
use crate::errors::{is_duplicate_client, is_duplicate_subscription, NatsError};
use crate::events::{
    ConnectOutcome, ExitReason, PollActionView, PollEventView, SubscribeOutcome,
};
use crate::poll::{count_delivers, sub_step};
use crate::session::{
    connect_post, disconnect_post, finish_disconnect_post, poll_post, subscribe_post, unchanged,
    unsubscribe_post, SessionManager,
};
use crate::subs::SubKind;

verus! {

/// Connecting twice with the same identifier, with no disconnect between the
/// attempts, always fails the second attempt with the duplicate-identifier
/// admission error, whatever the second attempt's transport report; the
/// first connection stays registered and every registry stays as it was.
pub proof fn connect_twice_same_id_fails(
    m0: SessionManager,
    m1: SessionManager,
    m2: SessionManager,
    id1: String,
    id2: String,
    o1: ConnectOutcome,
    o2: ConnectOutcome,
    r1: Result<(), NatsError>,
    r2: Result<(), NatsError>,
)
    requires
        connect_post(m0, m1, id1, o1, r1),
        r1 is Ok,
        id2@ == id1@,
        connect_post(m1, m2, id2, o2, r2),
    ensures
        r2 matches Err(e) && is_duplicate_client(e, id1@),
        m2.has_client(id1@),
        unchanged(m1, m2),
{
    assert(!m0.has_client(id1@) && o1 is Connected);
    assert(m1.has_client(id2@));
}

/// Subscribing twice under the same (connection, subscription) key fails the
/// second attempt with the duplicate admission error, whatever its transport
/// report; the original subscription stays registered, live and untouched, so
/// it goes on delivering.
pub proof fn subscribe_twice_same_key_fails(
    m0: SessionManager,
    m1: SessionManager,
    m2: SessionManager,
    cid1: String,
    cid2: String,
    subj1: String,
    subj2: String,
    sid1: String,
    sid2: String,
    max1: u32,
    max2: u32,
    k1: SubKind,
    k2: SubKind,
    o1: SubscribeOutcome,
    o2: SubscribeOutcome,
    r1: Result<(), NatsError>,
    r2: Result<(), NatsError>,
)
    requires
        subscribe_post(m0, m1, cid1, subj1, sid1, max1, k1, o1, r1),
        r1 is Ok,
        cid2@ == cid1@,
        sid2@ == sid1@,
        subscribe_post(m1, m2, cid2, subj2, sid2, max2, k2, o2, r2),
    ensures
        r2 matches Err(e) && is_duplicate_subscription(e, cid1@, sid1@),
        unchanged(m1, m2),
        m2.has_sub(cid1@, sid1@),
        m2.sub_view(cid1@, sid1@) == m1.sub_view(cid1@, sid1@),
        m2.sub_view(cid1@, sid1@).live,
{
    assert(m0.has_client(cid1@) && !m0.has_sub(cid1@, sid1@) && o1 is Subscribed);
    assert(m1.has_client(cid2@));
    assert(m1.has_sub(cid2@, sid2@));
    assert(m1.sub_view(cid1@, sid1@).live);
}

/// After a successful unsubscribe the subscription is live no more, so it is
/// not listed; its loop's next step — whatever the event brings — exits with
/// the cancellation completion and removes the entry, and the completion
/// callback fires at that exit and, the entry being gone, at no later step.
pub proof fn unsubscribe_then_step_completes(
    m0: SessionManager,
    m1: SessionManager,
    m2: SessionManager,
    cid: String,
    sid: String,
    ev: PollEventView,
    a: PollActionView,
    r1: Result<(), NatsError>,
)
    requires
        unsubscribe_post(m0, m1, cid, sid, r1),
        r1 is Ok,
        poll_post(m1, m2, cid@, sid@, ev, a),
    ensures
        !m1.sub_live(cid@, sid@),
        a == (PollActionView::Done { reason: ExitReason::Cancelled }),
        !m2.has_sub(cid@, sid@),
        !m2.sub_live(cid@, sid@),
{
    assert(m0.has_sub(cid@, sid@));
    assert(m1.has_sub(cid@, sid@));
    assert(!m1.sub_view(cid@, sid@).live);
    assert(sub_step(m1.sub_view(cid@, sid@), ev) == (
        None::<crate::subs::SubView>,
        PollActionView::Done { reason: ExitReason::Cancelled },
    ));
}

/// Disconnecting a connection that has two live subscriptions: the
/// disconnect succeeds and flips both liveness flags at once, so from that
/// point none of the connection's subscriptions is listed; each loop's next
/// step exits with the cancellation completion and removes its entry; once
/// both are gone the teardown's second half frees the identifier, and a new
/// connect under the same identifier succeeds.
pub proof fn disconnect_drains_and_frees_identifier(
    m0: SessionManager,
    m1: SessionManager,
    m2: SessionManager,
    m3: SessionManager,
    m4: SessionManager,
    m5: SessionManager,
    id: String,
    idf: String,
    idc: String,
    sid1: String,
    sid2: String,
    ev1: PollEventView,
    ev2: PollEventView,
    a1: PollActionView,
    a2: PollActionView,
    rd: Result<(), NatsError>,
    rf: Result<(), NatsError>,
    rc: Result<(), NatsError>,
)
    requires
        m0.has_client(id@),
        m0.sub_live(id@, sid1@),
        m0.sub_live(id@, sid2@),
        sid1@ != sid2@,
        forall|s: Seq<char>| m0.has_sub(id@, s) ==> s == sid1@ || s == sid2@,
        disconnect_post(m0, m1, id, rd),
        poll_post(m1, m2, id@, sid1@, ev1, a1),
        poll_post(m2, m3, id@, sid2@, ev2, a2),
        idf@ == id@,
        finish_disconnect_post(m3, m4, idf, rf),
        idc@ == id@,
        connect_post(m4, m5, idc, ConnectOutcome::Connected, rc),
    ensures
        rd is Ok,
        forall|s: Seq<char>| !m1.sub_live(id@, s),
        a1 == (PollActionView::Done { reason: ExitReason::Cancelled }),
        a2 == (PollActionView::Done { reason: ExitReason::Cancelled }),
        forall|s: Seq<char>| !m3.has_sub(id@, s),
        rf is Ok,
        !m4.has_client(id@),
        rc is Ok,
        m5.has_client(id@),
{
    assert(rd is Ok);
    assert forall|s: Seq<char>| !m1.sub_live(id@, s) by {
        if m1.has_sub(id@, s) {
            assert(m0.has_sub(id@, s));
            assert(!m1.sub_view(id@, s).live);
        }
    };
    // First loop's step: liveness flag is down, so it cancels and removes.
    assert(m1.has_sub(id@, sid1@));
    assert(!m1.sub_view(id@, sid1@).live);
    assert(sub_step(m1.sub_view(id@, sid1@), ev1).1 == (PollActionView::Done {
        reason: ExitReason::Cancelled,
    }));
    assert(!m2.has_sub(id@, sid1@));
    // Second loop's entry survived the first removal, flag still down.
    assert((id@, sid2@) != (id@, sid1@));
    assert(m2.has_sub(id@, sid2@));
    assert(m2.sub_view(id@, sid2@) == m1.sub_view(id@, sid2@));
    assert(!m2.sub_view(id@, sid2@).live);
    assert(sub_step(m2.sub_view(id@, sid2@), ev2).1 == (PollActionView::Done {
        reason: ExitReason::Cancelled,
    }));
    assert(!m3.has_sub(id@, sid2@));
    // After both exits the connection has no subscriptions left at all.
    assert forall|s: Seq<char>| !m3.has_sub(id@, s) by {
        if s == sid1@ {
            assert(!m2.has_sub(id@, s));
        } else if s == sid2@ {
        } else {
            if m3.has_sub(id@, s) {
                assert(m2.has_sub(id@, s));
                assert(m1.has_sub(id@, s));
                assert(m0.has_sub(id@, s));
            }
        }
    };
    // The identifier is still registered, so the teardown's second half runs.
    assert(m1.has_client(id@));
    assert(m2.has_client(id@));
    assert(m3.has_client(idf@));
    assert(rf is Ok);
    assert(!m4.has_client(idc@));
}

/// Once a subscription's entry is gone, a chain of further polling steps on
/// its key delivers nothing: every step reports the loop done and moves no
/// registry entry.
pub proof fn steps_after_removal_deliver_nothing(
    ms: Seq<SessionManager>,
    evs: Seq<PollEventView>,
    acts: Seq<PollActionView>,
    cid: Seq<char>,
    sid: Seq<char>,
)
    requires
        ms.len() == evs.len() + 1,
        acts.len() == evs.len(),
        forall|i: int|
            0 <= i < evs.len() ==> poll_post(ms[i], ms[i + 1], cid, sid, #[trigger] evs[i], acts[i]),
        !ms[0].has_sub(cid, sid),
    ensures
        count_delivers(acts) == 0,
        forall|i: int|
            0 <= i < acts.len() ==> #[trigger] acts[i] == (PollActionView::Done {
                reason: ExitReason::Removed,
            }),
    decreases evs.len(),
{
    reveal_with_fuel(count_delivers, 2);
    if evs.len() == 0 {
        assert(acts =~= Seq::<PollActionView>::empty());
    } else {
        let i0: int = 0;
        assert(poll_post(ms[i0], ms[i0 + 1], cid, sid, evs[i0], acts[i0]));
        assert(!ms[1].has_sub(cid, sid));
        let ms1 = ms.drop_first();
        let evs1 = evs.drop_first();
        let acts1 = acts.drop_first();
        assert forall|i: int| 0 <= i < evs1.len()
            implies poll_post(ms1[i], ms1[i + 1], cid, sid, #[trigger] evs1[i], acts1[i]) by {
            assert(evs1[i] == evs[i + 1]);
            assert(acts1[i] == acts[i + 1]);
            assert(ms1[i] == ms[i + 1]);
            assert(ms1[i + 1] == ms[i + 2]);
            assert(poll_post(ms[i + 1], ms[i + 1 + 1], cid, sid, evs[i + 1], acts[i + 1]));
        };
        steps_after_removal_deliver_nothing(ms1, evs1, acts1, cid, sid);
        assert forall|i: int| 0 <= i < acts.len()
            implies #[trigger] acts[i] == (PollActionView::Done {
                reason: ExitReason::Removed,
            }) by {
            if i > 0 {
                assert(acts1[i - 1] == acts[i]);
            }
        };
        assert(count_delivers(acts) == count_delivers(acts1) + (
        if acts[0] is Deliver {
            1nat
        } else {
            0nat
        }));
    }
}

/// The finite budget bounds deliveries across the whole life of the loop, at
/// the manager's own interface: over any chain of polling steps on one key —
/// whatever the events, including the entry's removal along the way — the
/// message callback is asked to fire at most `max_messages - delivered` more
/// times.
pub proof fn chained_steps_respect_budget(
    ms: Seq<SessionManager>,
    evs: Seq<PollEventView>,
    acts: Seq<PollActionView>,
    cid: Seq<char>,
    sid: Seq<char>,
)
    requires
        ms.len() == evs.len() + 1,
        acts.len() == evs.len(),
        forall|i: int|
            0 <= i < evs.len() ==> poll_post(ms[i], ms[i + 1], cid, sid, #[trigger] evs[i], acts[i]),
        ms[0].has_sub(cid, sid),
        ms[0].sub_view(cid, sid).kind == SubKind::Consumer,
        ms[0].sub_view(cid, sid).max_messages > 0,
        ms[0].sub_view(cid, sid).delivered <= ms[0].sub_view(cid, sid).max_messages,
    ensures
        count_delivers(acts) + ms[0].sub_view(cid, sid).delivered <= ms[0].sub_view(
            cid,
            sid,
        ).max_messages,
    decreases evs.len(),
{
    reveal_with_fuel(count_delivers, 2);
    if evs.len() == 0 {
        assert(acts =~= Seq::<PollActionView>::empty());
    } else {
        let s0 = ms[0].sub_view(cid, sid);
        let i0: int = 0;
        assert(poll_post(ms[i0], ms[i0 + 1], cid, sid, evs[i0], acts[i0]));
        let ms1 = ms.drop_first();
        let evs1 = evs.drop_first();
        let acts1 = acts.drop_first();
        assert forall|i: int| 0 <= i < evs1.len()
            implies poll_post(ms1[i], ms1[i + 1], cid, sid, #[trigger] evs1[i], acts1[i]) by {
            assert(evs1[i] == evs[i + 1]);
            assert(acts1[i] == acts[i + 1]);
            assert(ms1[i] == ms[i + 1]);
            assert(ms1[i + 1] == ms[i + 2]);
            assert(poll_post(ms[i + 1], ms[i + 1 + 1], cid, sid, evs[i + 1], acts[i + 1]));
        };
        let step = sub_step(s0, evs[0]);
        match step.0 {
            None => {
                assert(!(acts[0] is Deliver));
                assert(!ms[1].has_sub(cid, sid));
                steps_after_removal_deliver_nothing(ms1, evs1, acts1, cid, sid);
            },
            Some(s1) => {
                assert(ms[1].has_sub(cid, sid) && ms[1].sub_view(cid, sid) == s1);
                assert(s1.kind == SubKind::Consumer && s1.max_messages == s0.max_messages);
                if acts[0] is Deliver {
                    assert(s0.delivered < s0.max_messages);
                    assert(s1.delivered == s0.delivered + 1);
                } else {
                    assert(s1.delivered == s0.delivered);
                }
                assert(ms1[0] == ms[1]);
                chained_steps_respect_budget(ms1, evs1, acts1, cid, sid);
            },
        }
        assert(count_delivers(acts) == count_delivers(acts1) + (
        if acts[0] is Deliver {
            1nat
        } else {
            0nat
        }));
    }
}

} // verus!
