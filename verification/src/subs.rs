//! The subscription registry.
//!
//! One table holds every active subscription and responder, keyed by the pair
//! (connection identifier, subscription identifier).  An entry and its
//! liveness flag live and die together: the flag is created true, flips to
//! false at most once (unsubscribe or disconnect), and the entry is removed
//! when its polling loop exits.

use vstd::prelude::*;

verus! {

/// Whether an entry feeds a plain message callback or a request handler.
#[derive(Debug, Clone, Copy, PartialEq, Eq, Structural)]
pub enum SubKind {
    /// Deliver each decoded message to the caller's message callback.
    Consumer,
    /// Hand each decoded request to a handler and publish its result to the
    /// request's reply subject.
    Responder,
}

/// One registered subscription or responder.
pub struct SubEntry {
    pub client_id: String,
    pub subscription_id: String,
    /// Subject the entry is subscribed on.
    pub subject: String,
    pub kind: SubKind,
    /// Liveness flag: true until an unsubscribe or a disconnect signals the
    /// owning loop to stop.
    pub live: bool,
    /// Message budget; zero means unbounded.
    pub max_messages: u32,
    /// How many messages were delivered so far (saturating at the type's
    /// maximum when the budget is unbounded).
    pub delivered: u32,
}

/// Mathematical value of a [`SubEntry`].
pub struct SubView {
    pub subject: Seq<char>,
    pub kind: SubKind,
    pub live: bool,
    pub max_messages: u32,
    pub delivered: u32,
}

impl View for SubEntry {
    type V = SubView;

    open spec fn view(&self) -> SubView {
        SubView {
            subject: self.subject@,
            kind: self.kind,
            live: self.live,
            max_messages: self.max_messages,
            delivered: self.delivered,
        }
    }
}

pub open spec fn entry_key(e: SubEntry) -> (Seq<char>, Seq<char>) {
    (e.client_id@, e.subscription_id@)
}

/// The entries carry pairwise distinct keys.
pub open spec fn distinct_keys(s: Seq<SubEntry>) -> bool {
    forall|i: int, j: int|
        0 <= i < j < s.len() ==> entry_key(#[trigger] s[i]) != entry_key(#[trigger] s[j])
}

pub open spec fn seq_contains_key(s: Seq<SubEntry>, cid: Seq<char>, sid: Seq<char>) -> bool {
    exists|i: int| 0 <= i < s.len() && entry_key(#[trigger] s[i]) == (cid, sid)
}

pub open spec fn seq_index_of(s: Seq<SubEntry>, cid: Seq<char>, sid: Seq<char>) -> int {
    choose|i: int| 0 <= i < s.len() && entry_key(#[trigger] s[i]) == (cid, sid)
}

/// With distinct keys, the index of a present key is the only matching one.
pub proof fn lemma_index_unique(s: Seq<SubEntry>, i: int)
    requires
        distinct_keys(s),
        0 <= i < s.len(),
    ensures
        seq_contains_key(s, s[i].client_id@, s[i].subscription_id@),
        seq_index_of(s, s[i].client_id@, s[i].subscription_id@) == i,
{
    let cid = s[i].client_id@;
    let sid = s[i].subscription_id@;
    assert(entry_key(s[i]) == (cid, sid));
    assert(seq_contains_key(s, cid, sid));
    let j = seq_index_of(s, cid, sid);
    assert(0 <= j < s.len() && entry_key(s[j]) == (cid, sid));
    if i < j {
        assert(entry_key(s[i]) != entry_key(s[j]));
    } else if j < i {
        assert(entry_key(s[j]) != entry_key(s[i]));
    }
}

/// Appending a fresh key keeps the keys distinct and the old keys in place.
pub proof fn lemma_push(s: Seq<SubEntry>, e: SubEntry)
    requires
        distinct_keys(s),
        !seq_contains_key(s, e.client_id@, e.subscription_id@),
    ensures
        distinct_keys(s.push(e)),
        seq_contains_key(s.push(e), e.client_id@, e.subscription_id@),
        seq_index_of(s.push(e), e.client_id@, e.subscription_id@) == s.len(),
        forall|c: Seq<char>, sid: Seq<char>|
            (c, sid) != entry_key(e) ==> (seq_contains_key(s.push(e), c, sid)
                <==> seq_contains_key(s, c, sid)),
        forall|c: Seq<char>, sid: Seq<char>|
            (c, sid) != entry_key(e) && seq_contains_key(s, c, sid)
                ==> seq_index_of(s.push(e), c, sid) == seq_index_of(s, c, sid),
{
    let t = s.push(e);
    assert(t[s.len() as int] == e);
    assert forall|i: int, j: int| 0 <= i < j < t.len()
        implies entry_key(#[trigger] t[i]) != entry_key(#[trigger] t[j]) by {
        if j < s.len() {
            assert(t[i] == s[i] && t[j] == s[j]);
        } else {
            assert(t[i] == s[i] && t[j] == e);
            assert(entry_key(s[i]) != (e.client_id@, e.subscription_id@));
        }
    };
    lemma_index_unique(t, s.len() as int);
    assert forall|c: Seq<char>, sid: Seq<char>|
        (c, sid) != entry_key(e) && seq_contains_key(t, c, sid)
        implies seq_contains_key(s, c, sid) by {
        let i = seq_index_of(t, c, sid);
        assert(0 <= i < t.len() && entry_key(t[i]) == (c, sid));
        assert(i < s.len()) by {
            if i == s.len() {
                assert(t[i] == e);
            }
        };
        assert(t[i] == s[i]);
    };
    assert forall|c: Seq<char>, sid: Seq<char>|
        (c, sid) != entry_key(e) && seq_contains_key(s, c, sid)
        implies seq_contains_key(t, c, sid)
            && seq_index_of(t, c, sid) == seq_index_of(s, c, sid) by {
        let i = seq_index_of(s, c, sid);
        assert(0 <= i < s.len() && entry_key(s[i]) == (c, sid));
        assert(t[i] == s[i]);
        lemma_index_unique(t, i);
    };
}

/// Replacing an entry by one with the same key moves no other entry.
pub proof fn lemma_update_same_key(s: Seq<SubEntry>, i: int, e: SubEntry)
    requires
        distinct_keys(s),
        0 <= i < s.len(),
        entry_key(e) == entry_key(s[i]),
    ensures
        distinct_keys(s.update(i, e)),
        forall|c: Seq<char>, sid: Seq<char>|
            seq_contains_key(s.update(i, e), c, sid) <==> seq_contains_key(s, c, sid),
        seq_index_of(s.update(i, e), e.client_id@, e.subscription_id@) == i,
        forall|c: Seq<char>, sid: Seq<char>|
            (c, sid) != entry_key(e) && seq_contains_key(s, c, sid)
                ==> seq_index_of(s.update(i, e), c, sid) == seq_index_of(s, c, sid)
                && s.update(i, e)[seq_index_of(s, c, sid)] == s[seq_index_of(s, c, sid)],
{
    let t = s.update(i, e);
    assert forall|j: int| 0 <= j < t.len()
        implies entry_key(#[trigger] t[j]) == entry_key(s[j]) by {
        if j != i {
            assert(t[j] == s[j]);
        }
    };
    assert forall|a: int, b: int| 0 <= a < b < t.len()
        implies entry_key(#[trigger] t[a]) != entry_key(#[trigger] t[b]) by {
        assert(entry_key(t[a]) == entry_key(s[a]));
        assert(entry_key(t[b]) == entry_key(s[b]));
    };
    assert forall|c: Seq<char>, sid: Seq<char>|
        seq_contains_key(t, c, sid) implies seq_contains_key(s, c, sid) by {
        let j = seq_index_of(t, c, sid);
        assert(entry_key(s[j]) == entry_key(t[j]));
        assert(seq_contains_key(s, c, sid));
    };
    assert forall|c: Seq<char>, sid: Seq<char>|
        seq_contains_key(s, c, sid) implies seq_contains_key(t, c, sid) by {
        let j = seq_index_of(s, c, sid);
        assert(entry_key(t[j]) == entry_key(s[j]));
        assert(seq_contains_key(t, c, sid));
    };
    assert(entry_key(t[i]) == entry_key(e));
    lemma_index_unique(t, i);
    assert forall|c: Seq<char>, sid: Seq<char>|
        (c, sid) != entry_key(e) && seq_contains_key(s, c, sid)
        implies seq_index_of(t, c, sid) == seq_index_of(s, c, sid)
            && t[seq_index_of(s, c, sid)] == s[seq_index_of(s, c, sid)] by {
        let j = seq_index_of(s, c, sid);
        assert(0 <= j < s.len() && entry_key(s[j]) == (c, sid));
        assert(j != i);
        assert(t[j] == s[j]);
        lemma_index_unique(t, j);
    };
}

/// Removing one entry keeps every other key in place, with its entry intact.
pub proof fn lemma_remove(s: Seq<SubEntry>, i: int)
    requires
        distinct_keys(s),
        0 <= i < s.len(),
    ensures
        distinct_keys(s.remove(i)),
        !seq_contains_key(s.remove(i), s[i].client_id@, s[i].subscription_id@),
        forall|c: Seq<char>, sid: Seq<char>|
            (c, sid) != entry_key(s[i]) ==> (seq_contains_key(s.remove(i), c, sid)
                <==> seq_contains_key(s, c, sid)),
        forall|c: Seq<char>, sid: Seq<char>|
            (c, sid) != entry_key(s[i]) && seq_contains_key(s, c, sid)
                ==> s.remove(i)[seq_index_of(s.remove(i), c, sid)]
                    == s[seq_index_of(s, c, sid)],
{
    let t = s.remove(i);
    s.remove_ensures(i);
    assert forall|a: int, b: int| 0 <= a < b < t.len()
        implies entry_key(#[trigger] t[a]) != entry_key(#[trigger] t[b]) by {
        let a0: int = if a < i { a } else { a + 1 };
        let b0: int = if b < i { b } else { b + 1 };
        assert(t[a] == s[a0] && t[b] == s[b0]);
        assert(entry_key(s[a0]) != entry_key(s[b0]));
    };
    assert forall|j: int| 0 <= j < t.len()
        implies entry_key(#[trigger] t[j]) != entry_key(s[i]) by {
        let j0: int = if j < i { j } else { j + 1 };
        assert(t[j] == s[j0]);
        assert(j0 != i);
        if j0 < i {
            assert(entry_key(s[j0]) != entry_key(s[i]));
        } else {
            assert(entry_key(s[i]) != entry_key(s[j0]));
        }
    };
    assert forall|c: Seq<char>, sid: Seq<char>|
        (c, sid) != entry_key(s[i]) && seq_contains_key(t, c, sid)
        implies seq_contains_key(s, c, sid) by {
        let j = seq_index_of(t, c, sid);
        let j0: int = if j < i { j } else { j + 1 };
        assert(t[j] == s[j0]);
        assert(seq_contains_key(s, c, sid));
    };
    assert forall|c: Seq<char>, sid: Seq<char>|
        (c, sid) != entry_key(s[i]) && seq_contains_key(s, c, sid)
        implies seq_contains_key(t, c, sid)
            && t[seq_index_of(t, c, sid)] == s[seq_index_of(s, c, sid)] by {
        let j0 = seq_index_of(s, c, sid);
        assert(0 <= j0 < s.len() && entry_key(s[j0]) == (c, sid));
        assert(j0 != i);
        let j: int = if j0 < i { j0 } else { j0 - 1 };
        assert(t[j] == s[j0]);
        lemma_index_unique(t, j);
    };
}

/// The registry of subscriptions and responders.
pub struct SubTable {
    pub entries: Vec<SubEntry>,
}

impl SubTable {
    /// The table's keys are pairwise distinct.
    pub open spec fn wf(self) -> bool {
        distinct_keys(self.entries@)
    }

    pub open spec fn contains_key(self, cid: Seq<char>, sid: Seq<char>) -> bool {
        seq_contains_key(self.entries@, cid, sid)
    }

    pub open spec fn index_of(self, cid: Seq<char>, sid: Seq<char>) -> int {
        seq_index_of(self.entries@, cid, sid)
    }

    /// The entry registered under (`cid`, `sid`).
    pub open spec fn at(self, cid: Seq<char>, sid: Seq<char>) -> SubView {
        self.entries@[self.index_of(cid, sid)]@
    }

    /// The entry exists and its liveness flag still stands.
    pub open spec fn live(self, cid: Seq<char>, sid: Seq<char>) -> bool {
        self.contains_key(cid, sid) && self.at(cid, sid).live
    }

    /// Some entry of this connection exists.
    pub open spec fn has_client_entry(self, cid: Seq<char>) -> bool {
        exists|sid: Seq<char>| self.contains_key(cid, sid)
    }

    /// Some entry of this connection is still live.
    pub open spec fn has_live_entry(self, cid: Seq<char>) -> bool {
        exists|sid: Seq<char>| self.contains_key(cid, sid) && self.at(cid, sid).live
    }

    pub fn new() -> (r: SubTable)
        ensures
            r.wf(),
            r.entries@.len() == 0,
            forall|c: Seq<char>, s: Seq<char>| !r.contains_key(c, s),
    {
        SubTable { entries: Vec::new() }
    }

    /// Index of the entry keyed (`client_id`, `subscription_id`), if any.
    pub fn find(&self, client_id: &String, subscription_id: &String) -> (r: Option<usize>)
        ensures
            match r {
                Some(i) => i < self.entries@.len()
                    && entry_key(self.entries@[i as int]) == (client_id@, subscription_id@),
                None => !self.contains_key(client_id@, subscription_id@),
            },
    {
        let n = self.entries.len();
        let mut i: usize = 0;
        while i < n
            invariant
                n == self.entries@.len(),
                i <= n,
                forall|j: int|
                    0 <= j < i ==> entry_key(#[trigger] self.entries@[j])
                        != (client_id@, subscription_id@),
            decreases n - i,
        {
            if self.entries[i].client_id == *client_id
                && self.entries[i].subscription_id == *subscription_id {
                return Some(i);
            }
            i += 1;
        }
        None
    }

    /// The entry at a known index.
    pub fn get(&self, i: usize) -> (e: &SubEntry)
        requires
            i < self.entries@.len(),
        ensures
            *e == self.entries@[i as int],
    {
        &self.entries[i]
    }

    /// Registers a fresh entry under a key not yet present.
    pub fn insert(&mut self, entry: SubEntry)
        requires
            old(self).wf(),
            !old(self).contains_key(entry.client_id@, entry.subscription_id@),
        ensures
            final(self).wf(),
            final(self).contains_key(entry.client_id@, entry.subscription_id@),
            final(self).at(entry.client_id@, entry.subscription_id@) == entry@,
            forall|c: Seq<char>, s: Seq<char>|
                (c, s) != entry_key(entry) ==> (final(self).contains_key(c, s)
                    <==> old(self).contains_key(c, s)),
            forall|c: Seq<char>, s: Seq<char>|
                (c, s) != entry_key(entry) && old(self).contains_key(c, s)
                    ==> final(self).at(c, s) == old(self).at(c, s),
            final(self).entries@.len() == old(self).entries@.len() + 1,
    {
        let ghost pre = self.entries@;
        proof {
            lemma_push(pre, entry);
        }
        self.entries.push(entry);
        proof {
            assert(self.entries@ == pre.push(entry));
            assert(self.entries@[pre.len() as int] == entry);
            assert forall|c: Seq<char>, s: Seq<char>|
                (c, s) != entry_key(entry) && seq_contains_key(pre, c, s)
                implies self.entries@[seq_index_of(self.entries@, c, s)]@
                    == pre[seq_index_of(pre, c, s)]@ by {
                let i = seq_index_of(pre, c, s);
                assert(0 <= i < pre.len() && entry_key(pre[i]) == (c, s));
                assert(seq_index_of(self.entries@, c, s) == i);
                assert(self.entries@[i] == pre[i]);
            };
        }
    }

    /// Flips the liveness flag of one entry to false; reports whether the
    /// entry was present.  The entry itself stays registered.
    pub fn deactivate(&mut self, client_id: &String, subscription_id: &String) -> (found: bool)
        requires
            old(self).wf(),
        ensures
            final(self).wf(),
            found == old(self).contains_key(client_id@, subscription_id@),
            !found ==> final(self).entries@ == old(self).entries@,
            forall|c: Seq<char>, s: Seq<char>|
                final(self).contains_key(c, s) <==> old(self).contains_key(c, s),
            found ==> final(self).at(client_id@, subscription_id@)
                == (SubView { live: false, ..old(self).at(client_id@, subscription_id@) }),
            forall|c: Seq<char>, s: Seq<char>|
                (c, s) != (client_id@, subscription_id@) && old(self).contains_key(c, s)
                    ==> final(self).at(c, s) == old(self).at(c, s),
    {
        let ghost pre = self.entries@;
        match self.find(client_id, subscription_id) {
            None => false,
            Some(i) => {
                let ghost e0 = self.entries@[i as int];
                self.entries[i].live = false;
                proof {
                    let e1 = SubEntry { live: false, ..e0 };
                    assert(self.entries@ == pre.update(i as int, e1));
                    lemma_index_unique(pre, i as int);
                    lemma_update_same_key(pre, i as int, e1);
                    assert(self.entries@[seq_index_of(self.entries@, client_id@, subscription_id@)]
                        == e1);
                    assert forall|c: Seq<char>, s: Seq<char>|
                        (c, s) != (client_id@, subscription_id@) && seq_contains_key(pre, c, s)
                        implies self.entries@[seq_index_of(self.entries@, c, s)]@
                            == pre[seq_index_of(pre, c, s)]@ by {
                        assert(seq_index_of(self.entries@, c, s) == seq_index_of(pre, c, s));
                        assert(self.entries@[seq_index_of(pre, c, s)]
                            == pre[seq_index_of(pre, c, s)]);
                    };
                }
                true
            },
        }
    }

    /// Records a new delivered-message count on the entry at a known index.
    pub fn set_delivered(&mut self, i: usize, delivered: u32)
        requires
            old(self).wf(),
            i < old(self).entries@.len(),
        ensures
            final(self).wf(),
            final(self).entries@ == old(self).entries@.update(
                i as int,
                SubEntry { delivered, ..old(self).entries@[i as int] },
            ),
            forall|c: Seq<char>, s: Seq<char>|
                final(self).contains_key(c, s) <==> old(self).contains_key(c, s),
            final(self).at(
                old(self).entries@[i as int].client_id@,
                old(self).entries@[i as int].subscription_id@,
            ) == (SubView { delivered, ..old(self).entries@[i as int]@ }),
            forall|c: Seq<char>, s: Seq<char>|
                (c, s) != entry_key(old(self).entries@[i as int]) && old(self).contains_key(c, s)
                    ==> final(self).at(c, s) == old(self).at(c, s),
    {
        let ghost pre = self.entries@;
        let ghost e0 = self.entries@[i as int];
        self.entries[i].delivered = delivered;
        proof {
            let e1 = SubEntry { delivered, ..e0 };
            assert(self.entries@ == pre.update(i as int, e1));
            lemma_index_unique(pre, i as int);
            lemma_update_same_key(pre, i as int, e1);
            assert(self.entries@[seq_index_of(self.entries@, e0.client_id@, e0.subscription_id@)]
                == e1);
            assert forall|c: Seq<char>, s: Seq<char>|
                (c, s) != entry_key(e0) && seq_contains_key(pre, c, s)
                implies self.entries@[seq_index_of(self.entries@, c, s)]@
                    == pre[seq_index_of(pre, c, s)]@ by {
                assert(seq_index_of(self.entries@, c, s) == seq_index_of(pre, c, s));
                assert(self.entries@[seq_index_of(pre, c, s)] == pre[seq_index_of(pre, c, s)]);
            };
        }
    }

    /// Removes the entry at a known index, together with its liveness flag.
    pub fn remove_entry(&mut self, i: usize)
        requires
            old(self).wf(),
            i < old(self).entries@.len(),
        ensures
            final(self).wf(),
            !final(self).contains_key(
                old(self).entries@[i as int].client_id@,
                old(self).entries@[i as int].subscription_id@,
            ),
            forall|c: Seq<char>, s: Seq<char>|
                (c, s) != entry_key(old(self).entries@[i as int])
                    ==> (final(self).contains_key(c, s) <==> old(self).contains_key(c, s)),
            forall|c: Seq<char>, s: Seq<char>|
                (c, s) != entry_key(old(self).entries@[i as int]) && old(self).contains_key(c, s)
                    ==> final(self).at(c, s) == old(self).at(c, s),
            final(self).entries@.len() == old(self).entries@.len() - 1,
    {
        let ghost pre = self.entries@;
        proof {
            lemma_remove(pre, i as int);
        }
        let _ = self.entries.remove(i);
        proof {
            assert(self.entries@ == pre.remove(i as int));
        }
    }

    /// Flips the liveness flag of every entry of this connection to false,
    /// signalling all of its loops to stop.  No entry is removed.
    pub fn deactivate_client(&mut self, client_id: &String)
        requires
            old(self).wf(),
        ensures
            final(self).wf(),
            forall|c: Seq<char>, s: Seq<char>|
                final(self).contains_key(c, s) <==> old(self).contains_key(c, s),
            forall|s: Seq<char>|
                old(self).contains_key(client_id@, s) ==> final(self).at(client_id@, s)
                    == (SubView { live: false, ..old(self).at(client_id@, s) }),
            forall|c: Seq<char>, s: Seq<char>|
                c != client_id@ && old(self).contains_key(c, s)
                    ==> final(self).at(c, s) == old(self).at(c, s),
    {
        let ghost orig = self.entries@;
        let n = self.entries.len();
        let mut i: usize = 0;
        while i < n
            invariant
                n == self.entries@.len(),
                orig.len() == n,
                i <= n,
                forall|j: int|
                    0 <= j < n ==> entry_key(#[trigger] self.entries@[j]) == entry_key(orig[j]),
                forall|j: int| i <= j < n ==> #[trigger] self.entries@[j] == orig[j],
                forall|j: int|
                    0 <= j < i && orig[j].client_id@ == client_id@
                        ==> #[trigger] self.entries@[j] == (SubEntry { live: false, ..orig[j] }),
                forall|j: int|
                    0 <= j < i && orig[j].client_id@ != client_id@
                        ==> #[trigger] self.entries@[j] == orig[j],
            decreases n - i,
        {
            if self.entries[i].client_id == *client_id {
                self.entries[i].live = false;
            }
            i += 1;
        }
        proof {
            assert(distinct_keys(orig));
            assert forall|a: int, b: int| 0 <= a < b < self.entries@.len()
                implies entry_key(#[trigger] self.entries@[a])
                    != entry_key(#[trigger] self.entries@[b]) by {
                assert(entry_key(self.entries@[a]) == entry_key(orig[a]));
                assert(entry_key(self.entries@[b]) == entry_key(orig[b]));
            };
            assert forall|c: Seq<char>, s: Seq<char>|
                seq_contains_key(self.entries@, c, s) <==> seq_contains_key(orig, c, s) by {
                if seq_contains_key(self.entries@, c, s) {
                    let j = seq_index_of(self.entries@, c, s);
                    assert(entry_key(orig[j]) == (c, s));
                }
                if seq_contains_key(orig, c, s) {
                    let j = seq_index_of(orig, c, s);
                    assert(entry_key(self.entries@[j]) == (c, s));
                }
            };
            assert forall|c: Seq<char>, s: Seq<char>| seq_contains_key(orig, c, s)
                implies seq_index_of(self.entries@, c, s) == seq_index_of(orig, c, s) by {
                let j = seq_index_of(orig, c, s);
                assert(entry_key(self.entries@[j]) == (c, s));
                lemma_index_unique(self.entries@, j);
            };
        }
    }

    /// Removes every entry of this connection, whatever its state.
    pub fn purge_client(&mut self, client_id: &String)
        requires
            old(self).wf(),
        ensures
            final(self).wf(),
            forall|s: Seq<char>| !final(self).contains_key(client_id@, s),
            forall|c: Seq<char>, s: Seq<char>|
                c != client_id@ ==> (final(self).contains_key(c, s)
                    <==> old(self).contains_key(c, s)),
            forall|c: Seq<char>, s: Seq<char>|
                c != client_id@ && old(self).contains_key(c, s)
                    ==> final(self).at(c, s) == old(self).at(c, s),
    {
        let ghost orig = self.entries@;
        let mut i: usize = self.entries.len();
        while i > 0
            invariant
                i <= self.entries@.len(),
                distinct_keys(self.entries@),
                forall|j: int|
                    i <= j < self.entries@.len()
                        ==> (#[trigger] self.entries@[j]).client_id@ != client_id@,
                forall|c: Seq<char>, s: Seq<char>|
                    c != client_id@ ==> (seq_contains_key(self.entries@, c, s)
                        <==> seq_contains_key(orig, c, s)),
                forall|c: Seq<char>, s: Seq<char>|
                    c != client_id@ && seq_contains_key(orig, c, s)
                        ==> self.entries@[seq_index_of(self.entries@, c, s)]
                            == orig[seq_index_of(orig, c, s)],
            decreases i,
        {
            i -= 1;
            if self.entries[i].client_id == *client_id {
                let ghost pre = self.entries@;
                proof {
                    lemma_remove(pre, i as int);
                }
                let _ = self.entries.remove(i);
                proof {
                    assert(self.entries@ == pre.remove(i as int));
                    assert(entry_key(pre[i as int]).0 == client_id@);
                    assert forall|c: Seq<char>, s: Seq<char>|
                        c != client_id@ && seq_contains_key(orig, c, s)
                        implies self.entries@[seq_index_of(self.entries@, c, s)]
                            == orig[seq_index_of(orig, c, s)] by {
                        assert((c, s) != entry_key(pre[i as int]));
                        assert(seq_contains_key(pre, c, s));
                        assert(self.entries@[seq_index_of(self.entries@, c, s)]
                            == pre[seq_index_of(pre, c, s)]);
                    };
                }
            }
        }
        proof {
            assert forall|s: Seq<char>| !seq_contains_key(self.entries@, client_id@, s) by {
                if seq_contains_key(self.entries@, client_id@, s) {
                    let j = seq_index_of(self.entries@, client_id@, s);
                    assert(self.entries@[j].client_id@ == client_id@);
                }
            };
        }
    }

    /// The identifiers of this connection's entries whose liveness flag still
    /// stands.
    pub fn live_ids_for_client(&self, client_id: &String) -> (r: Vec<String>)
        requires
            self.wf(),
        ensures
            forall|k: int| 0 <= k < r@.len() ==> self.live(client_id@, (#[trigger] r@[k])@),
            forall|s: Seq<char>|
                self.contains_key(client_id@, s) && self.at(client_id@, s).live
                    ==> exists|k: int| 0 <= k < r@.len() && (#[trigger] r@[k])@ == s,
    {
        let mut r: Vec<String> = Vec::new();
        let n = self.entries.len();
        let mut i: usize = 0;
        while i < n
            invariant
                n == self.entries@.len(),
                i <= n,
                self.wf(),
                forall|k: int| 0 <= k < r@.len() ==> self.live(client_id@, (#[trigger] r@[k])@),
                forall|j: int|
                    0 <= j < i && (#[trigger] self.entries@[j]).client_id@ == client_id@
                        && self.entries@[j].live
                        ==> exists|k: int|
                            0 <= k < r@.len()
                            && (#[trigger] r@[k])@ == self.entries@[j].subscription_id@,
            decreases n - i,
        {
            if self.entries[i].client_id == *client_id && self.entries[i].live {
                let ghost pre_r = r@;
                r.push(self.entries[i].subscription_id.clone());
                proof {
                    lemma_index_unique(self.entries@, i as int);
                    assert(r@[r@.len() - 1]@ == self.entries@[i as int].subscription_id@);
                    assert(self.live(client_id@, self.entries@[i as int].subscription_id@));
                    assert forall|k: int| 0 <= k < r@.len()
                        implies self.live(client_id@, (#[trigger] r@[k])@) by {
                        if k < pre_r.len() {
                            assert(r@[k] == pre_r[k]);
                        }
                    };
                    assert forall|j: int|
                        0 <= j < i + 1 && (#[trigger] self.entries@[j]).client_id@ == client_id@
                            && self.entries@[j].live
                        implies exists|k: int|
                            0 <= k < r@.len()
                            && (#[trigger] r@[k])@ == self.entries@[j].subscription_id@ by {
                        if j < i {
                            let k = choose|k: int|
                                0 <= k < pre_r.len()
                                && (#[trigger] pre_r[k])@ == self.entries@[j].subscription_id@;
                            assert(r@[k] == pre_r[k]);
                            assert((r@[k])@ == self.entries@[j].subscription_id@);
                        } else {
                            let k = r@.len() - 1;
                            assert((r@[k])@ == self.entries@[j].subscription_id@);
                        }
                    };
                }
            }
            i += 1;
        }
        proof {
            assert forall|s: Seq<char>|
                self.contains_key(client_id@, s) && self.at(client_id@, s).live
                implies exists|k: int| 0 <= k < r@.len() && (#[trigger] r@[k])@ == s by {
                let j = seq_index_of(self.entries@, client_id@, s);
                assert(0 <= j < n && entry_key(self.entries@[j]) == (client_id@, s));
                assert(self.entries@[j].client_id@ == client_id@);
                assert(self.entries@[j].subscription_id@ == s);
                assert(self.entries@[j].live);
            };
        }
        r
    }
}

} // verus!
