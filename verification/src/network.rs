//! The connection actor's decisions and the server's peer registry.
//!
//! The transport work itself (sends, receives, sleeps) lives outside this
//! crate; here stand the decisions the actor loop and the registry make,
//! as verified state transitions: the consecutive-error budget that ends a
//! connection, the advisory liveness flag, and the address-keyed peer map
//! with soft eviction and a periodic sweep.

use vstd::prelude::*;

verus! {

/// One outbound message: either queued until delivered in order, or
/// attempted once without blocking and never retried.
#[derive(Debug)]
pub enum NetworkMessage {
    /// Reliable: queued and flushed, delivered in order.
    Rely(Vec<u8>),
    /// Best effort: attempted once; a partial send is only counted.
    Once(Vec<u8>),
}

/// A waker that never wakes anything; used for one-shot polls of a
/// best-effort send.
pub struct NeverWaker;

/// How many consecutive transport errors an actor tolerates before it
/// terminates.
pub const ERROR_BUDGET: u32 = 5;

/// The decisions of one connection actor: a consecutive-error counter and
/// the advisory liveness flag.  The counter resets on any success and the
/// actor stops once it exceeds [`ERROR_BUDGET`]; clearing the flag never
/// interrupts work in flight, it only keeps the loop from another round.
pub struct PeerLoop {
    /// Consecutive transport errors seen, saturating one past the budget.
    pub errs: u32,
    /// The advisory liveness flag.
    pub listening: bool,
}

impl PeerLoop {
    /// A live actor with a clean error budget.
    pub fn new() -> (r: Self)
        ensures
            r.errs == 0,
            r.listening,
    {
        PeerLoop { errs: 0, listening: true }
    }

    /// Whether the loop should run another round.
    pub fn should_continue(&self) -> (r: bool)
        ensures
            r == self.listening,
    {
        self.listening
    }

    /// Counts one transport error; returns true when the budget is
    /// exceeded and the actor must stop.
    pub fn on_error(&mut self) -> (stop: bool)
        ensures
            final(self).errs == if old(self).errs <= ERROR_BUDGET {
                (old(self).errs + 1) as u32
            } else {
                old(self).errs
            },
            stop == (final(self).errs > ERROR_BUDGET),
            final(self).listening == old(self).listening,
    {
        if self.errs <= ERROR_BUDGET {
            self.errs = self.errs + 1;
        }
        self.errs > ERROR_BUDGET
    }

    /// A successful send or receive clears the whole budget.
    pub fn on_success(&mut self)
        ensures
            final(self).errs == 0,
            final(self).listening == old(self).listening,
    {
        self.errs = 0;
    }

    /// Clears the liveness flag; the loop ends at its next boundary.
    pub fn stop(&mut self)
        ensures
            !final(self).listening,
            final(self).errs == old(self).errs,
    {
        self.listening = false;
    }
}

/// Whether a one-shot best-effort send moved the whole message; a partial
/// send is reported, never retried.
pub fn once_send_complete(sent: usize, expected: usize) -> (r: bool)
    ensures
        r == (sent == expected),
{
    sent == expected
}

/// One registry entry: a peer address and the liveness it last showed.
pub struct RegEntry {
    pub addr: String,
    pub live: bool,
}

/// The mathematical value of a [`RegEntry`].
pub ghost struct RegView {
    pub addr: Seq<char>,
    pub live: bool,
}

impl View for RegEntry {
    type V = RegView;

    open spec fn view(&self) -> RegView {
        RegView { addr: self.addr@, live: self.live }
    }
}

/// True when some entry in `s` has the given address.
pub open spec fn has_addr(s: Seq<RegView>, a: Seq<char>) -> bool {
    exists|j: int| 0 <= j < s.len() && s[j].addr == a
}

/// True when no two entries in `s` share an address.
pub open spec fn unique_addrs(s: Seq<RegView>) -> bool {
    forall|j: int, k: int|
        #![trigger s[j].addr, s[k].addr]
        0 <= j < k < s.len() ==> s[j].addr != s[k].addr
}

/// The entries of `s` that are still live, in order.
pub open spec fn live_entries(s: Seq<RegView>) -> Seq<RegView>
    decreases s.len(),
{
    if s.len() == 0 {
        Seq::empty()
    } else {
        live_entries(s.drop_last()) + if s.last().live {
            seq![s.last()]
        } else {
            Seq::empty()
        }
    }
}

/// The address-keyed map of connection actors the server knows.  A new
/// session from a known address softly evicts the old actor: its entry is
/// replaced, and the replaced actor only stops at its own next loop
/// boundary.  A periodic sweep drops entries gone non-live.
pub struct Registry {
    entries: Vec<RegEntry>,
}

impl View for Registry {
    type V = Seq<RegView>;

    closed spec fn view(&self) -> Seq<RegView> {
        self.entries@.map_values(|e: RegEntry| e@)
    }
}

impl Registry {
    /// No two entries share an address.
    pub open spec fn wf(&self) -> bool {
        unique_addrs(self@)
    }

    /// An empty registry.
    pub fn new() -> (r: Self)
        ensures
            r.wf(),
            r@ == Seq::<RegView>::empty(),
    {
        let r = Registry { entries: Vec::new() };
        proof {
            assert(r@ =~= Seq::<RegView>::empty());
        }
        r
    }

    /// The number of entries.
    pub fn len(&self) -> (r: usize)
        ensures
            r == self@.len(),
    {
        self.entries.len()
    }

    /// Records a live actor for `addr`.  An entry already at that address
    /// is replaced — its actor is the evicted one — and the registry keeps
    /// exactly one entry per address.
    pub fn insert(&mut self, addr: String) -> (evicted: bool)
        requires
            old(self).wf(),
        ensures
            final(self).wf(),
            evicted == has_addr(old(self)@, addr@),
            has_addr(final(self)@, addr@),
            evicted ==> final(self)@.len() == old(self)@.len(),
            !evicted ==> final(self)@ == old(self)@.push(RegView { addr: addr@, live: true }),
            forall|j: int|
                0 <= j < old(self)@.len() && old(self)@[j].addr != addr@ ==> final(self)@[j] == old(
                    self,
                )@[j],
            forall|j: int|
                0 <= j < final(self)@.len() && final(self)@[j].addr == addr@ ==> final(self)@[j]
                    == (RegView { addr: addr@, live: true }),
    {
        let mut i: usize = 0;
        while i < self.entries.len()
            invariant
                i <= self@.len(),
                old(self)@ == self@,
                old(self).wf(),
                forall|j: int| 0 <= j < i ==> (#[trigger] self@[j]).addr != addr@,
            decreases self@.len() - i,
        {
            if self.entries[i].addr == addr {
                self.entries[i] = RegEntry { addr, live: true };
                proof {
                    assert(self@[i as int] == (RegView {
                        addr: old(self)@[i as int].addr,
                        live: true,
                    }));
                    assert(forall|j: int|
                        0 <= j < self@.len() && j != i ==> self@[j] == old(self)@[j]);
                    assert(has_addr(old(self)@, self@[i as int].addr));
                }
                return true;
            }
            i = i + 1;
        }
        let ghost a = addr@;
        self.entries.push(RegEntry { addr, live: true });
        proof {
            assert(self@ =~= old(self)@.push(RegView { addr: a, live: true }));
            assert(self@[self@.len() - 1].addr == a);
        }
        false
    }

    /// Marks the entry for `addr`, if any, as no longer live.
    pub fn mark_dead(&mut self, addr: &String)
        requires
            old(self).wf(),
        ensures
            final(self).wf(),
            final(self)@.len() == old(self)@.len(),
            forall|j: int|
                0 <= j < old(self)@.len() && old(self)@[j].addr != addr@ ==> final(self)@[j] == old(
                    self,
                )@[j],
            forall|j: int|
                0 <= j < old(self)@.len() && old(self)@[j].addr == addr@ ==> final(self)@[j]
                    == (RegView { addr: old(self)@[j].addr, live: false }),
    {
        let mut i: usize = 0;
        while i < self.entries.len()
            invariant
                i <= old(self)@.len(),
                self@.len() == old(self)@.len(),
                forall|j: int|
                    0 <= j < i && old(self)@[j].addr != addr@ ==> (#[trigger] self@[j]) == old(
                        self,
                    )@[j],
                forall|j: int|
                    0 <= j < i && old(self)@[j].addr == addr@ ==> (#[trigger] self@[j])
                        == (RegView { addr: old(self)@[j].addr, live: false }),
                forall|j: int| i <= j < old(self)@.len() ==> (#[trigger] self@[j]) == old(self)@[j],
            decreases old(self)@.len() - i,
        {
            let ghost pre = self@;
            if self.entries[i].addr == *addr {
                self.entries[i].live = false;
                proof {
                    assert(self@ =~= pre.update(
                        i as int,
                        RegView { addr: pre[i as int].addr, live: false },
                    ));
                }
            }
            i = i + 1;
        }
        proof {
            assert(forall|j: int|
                0 <= j < self@.len() ==> (#[trigger] self@[j]).addr == old(self)@[j].addr);
        }
    }

    /// Drops every entry whose actor has gone non-live; the sweep the
    /// server runs on a fixed interval.
    pub fn sweep(&mut self)
        requires
            old(self).wf(),
        ensures
            final(self).wf(),
            final(self)@ == live_entries(old(self)@),
    {
        let mut kept: Vec<RegEntry> = Vec::new();
        let mut i: usize = 0;
        while i < self.entries.len()
            invariant
                i <= self@.len(),
                self@ == old(self)@,
                kept@.map_values(|e: RegEntry| e@) == live_entries(self@.take(i as int)),
            decreases self@.len() - i,
        {
            if self.entries[i].live {
                let copy = self.entries[i].clone();
                kept.push(copy);
            }
            proof {
                let t = self@.take(i + 1);
                assert(t.drop_last() =~= self@.take(i as int));
                assert(t.last() == self@[i as int]);
                assert(kept@.map_values(|e: RegEntry| e@) =~= live_entries(self@.take(i + 1)));
            }
            i = i + 1;
        }
        proof {
            assert(self@.take(self@.len() as int) =~= self@);
            lemma_live_entries_unique(old(self)@);
        }
        self.entries = kept;
    }
}

impl Clone for RegEntry {
    fn clone(&self) -> (r: Self)
        ensures
            r@ == self@,
    {
        RegEntry { addr: self.addr.clone(), live: self.live }
    }
}

/// An entry survives the sweep exactly when it is live.
pub proof fn lemma_live_entries_membership(s: Seq<RegView>, e: RegView)
    ensures
        live_entries(s).contains(e) <==> (s.contains(e) && e.live),
    decreases s.len(),
{
    if s.len() > 0 {
        let t = s.drop_last();
        lemma_live_entries_membership(t, e);
        let h = live_entries(s);
        let hp = live_entries(t);
        if h.contains(e) {
            let w = choose|w: int| 0 <= w < h.len() && h[w] == e;
            if w < hp.len() {
                assert(hp.contains(e));
                assert(t.contains(e));
                let v = choose|v: int| 0 <= v < t.len() && t[v] == e;
                assert(s[v] == e);
                assert(s.contains(e));
            } else {
                assert(e == s.last() && e.live);
                assert(s[s.len() - 1] == e);
                assert(s.contains(e));
            }
        }
        if s.contains(e) && e.live {
            let v = choose|v: int| 0 <= v < s.len() && s[v] == e;
            if v < s.len() - 1 {
                assert(t[v] == e);
                assert(t.contains(e));
                assert(hp.contains(e));
                let w = choose|w: int| 0 <= w < hp.len() && hp[w] == e;
                assert(h[w] == e);
                assert(h.contains(e));
            } else {
                assert(h[h.len() - 1] == e);
                assert(h.contains(e));
            }
        }
    }
}

/// The sweep keeps addresses unique.
pub proof fn lemma_live_entries_unique(s: Seq<RegView>)
    requires
        unique_addrs(s),
    ensures
        unique_addrs(live_entries(s)),
    decreases s.len(),
{
    if s.len() > 0 {
        let t = s.drop_last();
        assert(unique_addrs(t));
        lemma_live_entries_unique(t);
        let h = live_entries(s);
        let hp = live_entries(t);
        if s.last().live {
            assert forall|j: int| 0 <= j < hp.len() implies (#[trigger] hp[j]).addr
                != s.last().addr by {
                assert(hp.contains(hp[j]));
                lemma_live_entries_membership(t, hp[j]);
                let v = choose|v: int| 0 <= v < t.len() && t[v] == hp[j];
                assert(s[v].addr != s[s.len() - 1].addr);
            }
            assert forall|j: int, k: int| 0 <= j < k < h.len() implies (#[trigger] h[j].addr)
                != (#[trigger] h[k].addr) by {
                if k < hp.len() {
                    assert(hp[j].addr != hp[k].addr);
                } else {
                    assert(h[k] == s.last());
                    assert(hp[j].addr != s.last().addr);
                }
            }
        }
    }
}

} // verus!
