use vstd::prelude::*;
use crate::names::{names_of, position_of};
use crate::progress::{Claim, LoadProgress};
use crate::registry::{waiters_get, waiters_insert, waiters_lists, waiters_new, waiters_remove, waiting_of, WaiterMap};
use crate::store::{json_accepts, records_match, FlagRecord, RecordStore};

verus! {

/// A suspended caller, as the scheduler that runs the queries knows it.
pub type WaiterId = u64;

/// The abstract state of a catalog.
pub struct ManagerView {
    /// The load has completed.
    pub done: bool,
    /// Names being read and parsed now.
    pub in_flight: Set<Seq<char>>,
    /// Names whose load has ended, with a record or without.
    pub settled: Set<Seq<char>>,
    /// The parsed records, by name.
    pub records: Map<Seq<char>, Seq<char>>,
    /// Waiters for the whole catalog.
    pub global_waiters: Set<WaiterId>,
    /// Waiters for one name, as pairs of name and waiter.
    pub name_waiters: Set<(Seq<char>, WaiterId)>,
}

impl ManagerView {
    /// A name that some load has taken on, now or before.
    pub open spec fn claimed(&self, n: Seq<char>) -> bool {
        self.in_flight.contains(n) || self.settled.contains(n)
    }

    /// A claim on `n` would hand its load to the caller.
    pub open spec fn claimable(&self, n: Seq<char>) -> bool {
        !self.done && !self.claimed(n)
    }

    /// The facts that hold in every reachable state.
    pub open spec fn consistent(&self) -> bool {
        &&& forall|n: Seq<char>| #[trigger] self.records.contains_key(n) ==> self.settled.contains(n)
        &&& forall|n: Seq<char>| #[trigger] self.records.contains_key(n) ==> json_accepts(self.records[n])
        &&& forall|n: Seq<char>| #[trigger] self.in_flight.contains(n) ==> !self.settled.contains(n)
        &&& self.done ==> self.in_flight.is_empty()
        &&& self.done ==> self.global_waiters.is_empty() && self.name_waiters.is_empty()
    }

    /// `b` is a later state than `self`: claims are never forgotten,
    /// records never lost, and a completed catalog never changes.
    pub open spec fn advances_to(&self, b: ManagerView) -> bool {
        &&& forall|n: Seq<char>| #[trigger] self.in_flight.contains(n) ==> b.claimed(n)
        &&& self.settled.subset_of(b.settled)
        &&& self.records.submap_of(b.records)
        &&& self.done ==> b.done && b.records == self.records
        &&& forall|n: Seq<char>| self.settled.contains(n) && !self.records.contains_key(n)
            ==> !#[trigger] b.records.contains_key(n)
    }

    /// The waiters registered for `n`.
    pub open spec fn waiters_for(&self, n: Seq<char>) -> Set<WaiterId> {
        Set::new(|w: WaiterId| self.name_waiters.contains((n, w)))
    }

    /// Every waiter registered anywhere.
    pub open spec fn all_waiters(&self) -> Set<WaiterId> {
        self.global_waiters.union(Set::new(|w: WaiterId| exists|n: Seq<char>| self.name_waiters.contains((n, w))))
    }
}

/// The pairs of name and waiter held by a waiter map.
pub open spec fn pairs_in(m: Map<Seq<char>, Seq<WaiterId>>) -> Set<(Seq<char>, WaiterId)> {
    Set::new(|p: (Seq<char>, WaiterId)| m.contains_key(p.0) && m[p.0].contains(p.1))
}

/// Appending `w` to the list of `k` adds exactly the pair of `k` and `w`.
pub proof fn lemma_pairs_append(m: Map<Seq<char>, Seq<WaiterId>>, k: Seq<char>, s: Seq<WaiterId>, w: WaiterId)
    requires
        m.contains_key(k) ==> s == m[k],
        !m.contains_key(k) ==> s == Seq::<WaiterId>::empty(),
    ensures
        pairs_in(m.insert(k, s.push(w))) == pairs_in(m).insert((k, w)),
{
    let m2 = m.insert(k, s.push(w));
    assert forall|p: (Seq<char>, WaiterId)| pairs_in(m2).contains(p) <==> pairs_in(m).insert((k, w)).contains(p) by {
        if p.0 == k {
            if s.contains(p.1) {
                let j = choose|j: int| 0 <= j < s.len() && s[j] == p.1;
                assert(s.push(w)[j] == p.1);
            }
            if p.1 == w {
                assert(s.push(w)[s.len() as int] == w);
            }
            if s.push(w).contains(p.1) {
                let j = choose|j: int| 0 <= j < s.len() + 1 && s.push(w)[j] == p.1;
                if j < s.len() {
                    assert(s[j] == p.1);
                }
            }
        }
    }
    assert(pairs_in(m2) =~= pairs_in(m).insert((k, w)));
}

/// The load of a name came to a record: content was read and it parses.
pub open spec fn parses(content: Option<String>) -> bool {
    content is Some && json_accepts(content->0@)
}

/// Whether the list holds `w`.
fn has_waiter(v: &Vec<WaiterId>, w: WaiterId) -> (r: bool)
    ensures
        r == v@.contains(w),
{
    let mut i: usize = 0;
    while i < v.len()
        invariant
            i <= v@.len(),
            forall|k: int| 0 <= k < i ==> v@[k] != w,
        decreases v@.len() - i,
    {
        if v[i] == w {
            return true;
        }
        i = i + 1;
    }
    false
}

/// What a poll for one flag came to.
pub enum FeaturePoll {
    /// The answer is known: the record, or `None` when there is none.
    Ready(Option<FlagRecord>),
    /// The caller was registered and will be woken.
    Pending,
}

/// What a poll for the whole catalog came to.
pub enum ListPoll {
    /// The catalog is complete: every record once.
    Ready(Vec<FlagRecord>),
    /// The caller was registered and will be woken.
    Pending,
}

/// A catalog of flag records that is loaded once, with the registries of the
/// callers waiting for it.
pub struct FeatureManager {
    cache: RecordStore,
    load_progress: LoadProgress,
    settled: Vec<String>,
    done_wakers: Vec<WaiterId>,
    feature_wakers: WaiterMap,
}

impl FeatureManager {
    pub closed spec fn view(&self) -> ManagerView {
        ManagerView {
            done: self.load_progress.done(),
            in_flight: self.load_progress.in_flight(),
            settled: names_of(self.settled@),
            records: self.cache.view(),
            global_waiters: self.done_wakers@.to_set(),
            name_waiters: pairs_in(waiting_of(self.feature_wakers)),
        }
    }

    pub closed spec fn wf(&self) -> bool {
        &&& self.load_progress.wf()
        &&& self.cache.wf()
        &&& self.view().consistent()
    }

    /// An empty catalog whose load has begun.
    pub fn new() -> (r: Self)
        ensures
            r.wf(),
            !r.view().done,
            r.view().in_flight.is_empty(),
            r.view().settled.is_empty(),
            r.view().records.dom().is_empty(),
            r.view().global_waiters.is_empty(),
            r.view().name_waiters.is_empty(),
    {
        let r = FeatureManager {
            cache: RecordStore::new(),
            load_progress: LoadProgress::new(),
            settled: Vec::new(),
            done_wakers: Vec::new(),
            feature_wakers: waiters_new(),
        };
        proof {
            assert(names_of(r.settled@) =~= Set::<Seq<char>>::empty());
            assert(r.done_wakers@.to_set() =~= Set::<WaiterId>::empty());
            assert(pairs_in(waiting_of(r.feature_wakers)) =~= Set::<(Seq<char>, WaiterId)>::empty());
            assert(r.cache.view().dom() =~= Set::<Seq<char>>::empty());
        }
        r
    }

    pub fn is_done_loading(&self) -> (r: bool)
        ensures
            r == self.view().done,
    {
        self.load_progress.is_done()
    }

    /// Takes on the load of `name`, unless a load of it has been taken on
    /// already or the catalog is complete. Only a caller that gets
    /// `Claimed` reads and parses the name's file.
    pub fn claim(&mut self, name: &str) -> (r: Claim)
        requires
            old(self).wf(),
        ensures
            final(self).wf(),
            (r == Claim::Finished) == old(self).view().done,
            (r == Claim::Claimed) == old(self).view().claimable(name@),
            r == Claim::Claimed ==> final(self).view() == (ManagerView {
                in_flight: old(self).view().in_flight.insert(name@),
                ..old(self).view()
            }),
            r != Claim::Claimed ==> final(self).view() == old(self).view(),
            old(self).view().advances_to(final(self).view()),
    {
        let n = name.to_owned();
        if self.load_progress.is_done() {
            return Claim::Finished;
        }
        match position_of(&self.settled, &n) {
            Some(i) => {
                proof {
                    assert(names_of(self.settled@).contains(self.settled@[i as int]@));
                }
                Claim::AlreadyClaimed
            }
            None => self.load_progress.try_claim(&n),
        }
    }

    /// Ends the load of a claimed name: stores its record when the content
    /// was read (`Some`) and parses, releases the claim, and hands back the
    /// waiters registered for the name, which the caller wakes. A name whose
    /// content is missing or does not parse stays absent for good.
    pub fn complete(&mut self, name: &str, content: Option<String>) -> (r: Vec<WaiterId>)
        requires
            old(self).wf(),
            old(self).view().in_flight.contains(name@),
        ensures
            final(self).wf(),
            old(self).view().advances_to(final(self).view()),
            parses(content) ==> final(self).view().records == old(self).view().records.insert(name@, content->0@),
            !parses(content) ==> final(self).view().records == old(self).view().records,
            final(self).view().done == old(self).view().done,
            final(self).view().in_flight == old(self).view().in_flight.remove(name@),
            final(self).view().settled == old(self).view().settled.insert(name@),
            final(self).view().global_waiters == old(self).view().global_waiters,
            final(self).view().name_waiters == old(self).view().name_waiters.filter(
                |p: (Seq<char>, WaiterId)| p.0 != name@,
            ),
            r@.to_set() == old(self).view().waiters_for(name@),
    {
        let n = name.to_owned();
        match content {
            Some(text) => {
                self.cache.insert_parsed(&n, text);
            },
            None => {},
        }
        self.load_progress.release(&n);
        let ghost old_settled = self.settled@;
        self.settled.push(n.clone());
        proof {
            assert forall|x: Seq<char>| names_of(self.settled@).contains(x)
                <==> names_of(old_settled).insert(name@).contains(x) by {
                if names_of(old_settled).contains(x) {
                    let i = choose|i: int| 0 <= i < old_settled.len() && old_settled[i]@ == x;
                    assert(self.settled@[i] == old_settled[i]);
                }
                if x == name@ {
                    assert(self.settled@[old_settled.len() as int]@ == x);
                }
                if names_of(self.settled@).contains(x) {
                    let i = choose|i: int| 0 <= i < self.settled@.len() && self.settled@[i]@ == x;
                    if i < old_settled.len() {
                        assert(old_settled[i] == self.settled@[i]);
                    }
                }
            }
            assert(names_of(self.settled@) =~= names_of(old_settled).insert(name@));
        }
        let ghost wm = waiting_of(self.feature_wakers);
        let woken = match waiters_remove(&mut self.feature_wakers, &n) {
            Some(ws) => ws,
            None => Vec::new(),
        };
        proof {
            let f = |p: (Seq<char>, WaiterId)| p.0 != name@;
            assert(pairs_in(wm.remove(name@)) =~= pairs_in(wm).filter(f));
            assert forall|w: WaiterId| woken@.to_set().contains(w) <==> old(self).view().waiters_for(name@).contains(w) by {
                if !wm.contains_key(name@) {
                    assert(!woken@.contains(w));
                }
            }
            assert(woken@.to_set() =~= old(self).view().waiters_for(name@));
        }
        proof {
            let a = old(self).view();
            let b = self.view();
            assert(a.records.contains_key(name@) ==> a.settled.contains(name@));
            assert(!a.records.contains_key(name@));
            assert forall|x: Seq<char>| #[trigger] b.records.contains_key(x) implies b.settled.contains(x) by {
                if x != name@ {
                    assert(a.records.contains_key(x));
                }
            }
            assert forall|x: Seq<char>| #[trigger] b.in_flight.contains(x) implies !b.settled.contains(x) by {
                assert(a.in_flight.contains(x));
            }
            assert forall|x: Seq<char>| #[trigger] a.in_flight.contains(x) implies b.claimed(x) by {
                if x != name@ {
                    assert(b.in_flight.contains(x));
                }
            }
            assert(a.records.submap_of(b.records));
        }
        woken
    }

    /// Completes the catalog once every claimed name has been released, and
    /// hands back every registered waiter, which the caller wakes.
    pub fn finish(&mut self) -> (r: Vec<WaiterId>)
        requires
            old(self).wf(),
            !old(self).view().done,
            old(self).view().in_flight.is_empty(),
        ensures
            final(self).wf(),
            old(self).view().advances_to(final(self).view()),
            final(self).view().done,
            final(self).view().records == old(self).view().records,
            final(self).view().settled == old(self).view().settled,
            final(self).view().global_waiters.is_empty(),
            final(self).view().name_waiters.is_empty(),
            r@.to_set() == old(self).view().all_waiters(),
    {
        proof {
            assert(self.load_progress.in_flight() =~= Set::<Seq<char>>::empty());
        }
        self.load_progress.finish();
        let mut woken = self.done_wakers.clone();
        self.done_wakers = Vec::new();
        let ghost g = woken@;
        let ghost wm = waiting_of(self.feature_wakers);
        let mut lists = waiters_lists(&self.feature_wakers);
        let ghost all = lists@;
        while lists.len() > 0
            invariant
                lists@ == all.take(lists@.len() as int),
                lists@.len() <= all.len(),
                forall|x: WaiterId| #[trigger] woken@.contains(x) <==> g.contains(x)
                    || exists|k: int| lists@.len() <= k < all.len() && all[k]@.contains(x),
            decreases lists@.len(),
        {
            let mut l = lists.pop().unwrap();
            let ghost pw = woken@;
            let ghost k0 = lists@.len() as int;
            let ghost lv = l@;
            proof {
                assert(all[k0] == l);
            }
            woken.append(&mut l);
            proof {
                assert(lists@ =~= all.take(k0));
                assert forall|x: WaiterId| #[trigger] woken@.contains(x) <==> g.contains(x)
                    || exists|k: int| k0 <= k < all.len() && all[k]@.contains(x) by {
                    if pw.contains(x) {
                        let j = choose|j: int| 0 <= j < pw.len() && pw[j] == x;
                        assert(woken@[j] == x);
                    }
                    if lv.contains(x) {
                        let j = choose|j: int| 0 <= j < lv.len() && lv[j] == x;
                        assert(woken@[pw.len() + j] == x);
                    }
                    if woken@.contains(x) {
                        let j = choose|j: int| 0 <= j < woken@.len() && woken@[j] == x;
                        if j < pw.len() {
                            assert(pw[j] == x);
                        } else {
                            assert(lv[j - pw.len()] == x);
                        }
                    }
                    if exists|k: int| k0 <= k < all.len() && all[k]@.contains(x) {
                        let k = choose|k: int| k0 <= k < all.len() && all[k]@.contains(x);
                        if k > k0 {
                            assert(pw.contains(x));
                        }
                    }
                }
            }
        }
        self.feature_wakers = waiters_new();
        proof {
            let old_view = old(self).view();
            assert forall|x: WaiterId| woken@.to_set().contains(x) <==> old_view.all_waiters().contains(x) by {
                if exists|k: int| 0 <= k < all.len() && all[k]@.contains(x) {
                    let k = choose|k: int| 0 <= k < all.len() && all[k]@.contains(x);
                    let n = choose|n: Seq<char>| #[trigger] wm.contains_key(n) && wm[n] == all[k]@;
                    assert(old_view.name_waiters.contains((n, x)));
                }
                if exists|n: Seq<char>| old_view.name_waiters.contains((n, x)) {
                    let n = choose|n: Seq<char>| old_view.name_waiters.contains((n, x));
                    assert(wm.contains_key(n));
                    let k = choose|k: int| 0 <= k < all.len() && all[k]@ == wm[n];
                    assert(all[k]@.contains(x));
                }
            }
            assert(woken@.to_set() =~= old_view.all_waiters());
            assert(self.done_wakers@.to_set() =~= Set::<WaiterId>::empty());
            assert(pairs_in(waiting_of(self.feature_wakers)) =~= Set::<(Seq<char>, WaiterId)>::empty());
            assert(self.load_progress.wf());
            assert(self.cache.wf());
            let b = self.view();
            assert(b.done);
            assert(b.in_flight.is_empty());
            assert(b.global_waiters.is_empty());
            assert(b.name_waiters.is_empty());
            let a = old(self).view();
            assert(b.records == a.records);
            assert(b.settled == a.settled);
            assert(forall|n: Seq<char>| #[trigger] b.records.contains_key(n) ==> b.settled.contains(n));
            assert(forall|n: Seq<char>| #[trigger] b.records.contains_key(n) ==> json_accepts(b.records[n]));
            assert(forall|n: Seq<char>| #[trigger] b.in_flight.contains(n) ==> !b.settled.contains(n));
            assert(b.consistent());
        }
        woken
    }

    /// Answers a query for one flag. Once the catalog is complete, or the
    /// name's own load has ended, the answer is the stored record or `None`,
    /// and nothing changes. Before that the waiter is registered for the name,
    /// once however often it polls.
    pub fn get_feature(&mut self, name: &str, waiter: WaiterId) -> (r: FeaturePoll)
        requires
            old(self).wf(),
        ensures
            final(self).wf(),
            old(self).view().advances_to(final(self).view()),
            (r is Ready) == (old(self).view().done || old(self).view().settled.contains(name@)),
            r is Ready ==> final(self).view() == old(self).view() && match r {
                FeaturePoll::Ready(Some(rec)) => old(self).view().records.contains_key(name@)
                    && rec.name@ == name@ && rec.text@ == old(self).view().records[name@],
                _ => !old(self).view().records.contains_key(name@),
            },
            r is Pending ==> final(self).view() == (ManagerView {
                name_waiters: old(self).view().name_waiters.insert((name@, waiter)),
                ..old(self).view()
            }),
    {
        let n = name.to_owned();
        let settled = match position_of(&self.settled, &n) {
            Some(i) => {
                proof {
                    assert(names_of(self.settled@).contains(self.settled@[i as int]@));
                }
                true
            },
            None => false,
        };
        if self.load_progress.is_done() || settled {
            FeaturePoll::Ready(self.cache.get(&n))
        } else {
            let ghost wm = waiting_of(self.feature_wakers);
            let (known, mut ws) = match waiters_get(&self.feature_wakers, &n) {
                Some(ws) => (has_waiter(&ws, waiter), ws),
                None => (false, Vec::new()),
            };
            if known {
                proof {
                    assert(pairs_in(wm).insert((name@, waiter)) =~= pairs_in(wm));
                }
            } else {
                proof {
                    lemma_pairs_append(wm, name@, ws@, waiter);
                }
                ws.push(waiter);
                waiters_insert(&mut self.feature_wakers, n, ws);
            }
            FeaturePoll::Pending
        }
    }

    /// Answers a query for the whole catalog. Once it is complete, the answer
    /// is every record once and nothing changes; before that the waiter is
    /// registered for completion, once however often it polls.
    pub fn all_features(&mut self, waiter: WaiterId) -> (r: ListPoll)
        requires
            old(self).wf(),
        ensures
            final(self).wf(),
            old(self).view().advances_to(final(self).view()),
            old(self).view().done ==> final(self).view() == old(self).view() && match r {
                ListPoll::Ready(v) => records_match(v@, old(self).view().records),
                ListPoll::Pending => false,
            },
            !old(self).view().done ==> r is Pending && final(self).view() == (ManagerView {
                global_waiters: old(self).view().global_waiters.insert(waiter),
                ..old(self).view()
            }),
    {
        if self.load_progress.is_done() {
            ListPoll::Ready(self.cache.snapshot())
        } else if has_waiter(&self.done_wakers, waiter) {
            proof {
                assert(self.done_wakers@.to_set().insert(waiter) =~= self.done_wakers@.to_set());
            }
            ListPoll::Pending
        } else {
            let ghost before = self.done_wakers@;
            self.done_wakers.push(waiter);
            proof {
                before.lemma_push_to_set_commute(waiter);
            }
            ListPoll::Pending
        }
    }
}

} // verus!
