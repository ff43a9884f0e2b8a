use vstd::prelude::*;
use crate::names::{distinct_names, lemma_push_distinct, lemma_remove_distinct, names_of, position_of};

verus! {

/// What a claim on a name came to.
#[derive(PartialEq, Eq, Structural, Clone, Copy, Debug)]
pub enum Claim {
    /// The name was free and now belongs to the caller, who must load it.
    Claimed,
    /// Another load of the name is under way: the caller must not redo it.
    AlreadyClaimed,
    /// The catalog is complete: nothing is left to claim.
    Finished,
}

/// Phase of the one-time catalog load.
pub enum LoadProgress {
    /// Terminal: the load has completed.
    Done,
    /// The load is under way; the list holds the names being read now.
    Loading(Vec<String>),
}

impl LoadProgress {
    pub open spec fn done(&self) -> bool {
        self is Done
    }

    /// The names being read and parsed at this moment.
    pub open spec fn in_flight(&self) -> Set<Seq<char>> {
        match self {
            LoadProgress::Done => Set::empty(),
            LoadProgress::Loading(v) => names_of(v@),
        }
    }

    pub open spec fn wf(&self) -> bool {
        match self {
            LoadProgress::Done => true,
            LoadProgress::Loading(v) => distinct_names(v@),
        }
    }

    /// A load that has started with nothing in flight.
    pub fn new() -> (r: Self)
        ensures
            r.wf(),
            !r.done(),
            r.in_flight() == Set::<Seq<char>>::empty(),
    {
        let r = LoadProgress::Loading(Vec::new());
        proof {
            assert(names_of(Seq::<String>::empty()) =~= Set::<Seq<char>>::empty());
        }
        r
    }

    pub fn is_done(&self) -> (r: bool)
        ensures
            r == self.done(),
    {
        match self {
            LoadProgress::Done => true,
            LoadProgress::Loading(_) => false,
        }
    }

    /// Marks `name` as being loaded, unless it already is or the load is over.
    pub fn try_claim(&mut self, name: &String) -> (r: Claim)
        requires
            old(self).wf(),
        ensures
            final(self).wf(),
            final(self).done() == old(self).done(),
            old(self).done() ==> r == Claim::Finished,
            !old(self).done() && old(self).in_flight().contains(name@) ==> r == Claim::AlreadyClaimed,
            !old(self).done() && !old(self).in_flight().contains(name@) ==> r == Claim::Claimed,
            r == Claim::Claimed ==> final(self).in_flight() == old(self).in_flight().insert(name@),
            r != Claim::Claimed ==> final(self).in_flight() == old(self).in_flight(),
    {
        match self {
            LoadProgress::Done => Claim::Finished,
            LoadProgress::Loading(v) => {
                match position_of(v, name) {
                    Some(_) => Claim::AlreadyClaimed,
                    None => {
                        let s = name.clone();
                        proof {
                            lemma_push_distinct(v@, s);
                        }
                        v.push(s);
                        Claim::Claimed
                    }
                }
            }
        }
    }

    /// Marks the load of `name` as over, whatever its outcome.
    pub fn release(&mut self, name: &String)
        requires
            old(self).wf(),
        ensures
            final(self).wf(),
            final(self).done() == old(self).done(),
            final(self).in_flight() == old(self).in_flight().remove(name@),
    {
        match self {
            LoadProgress::Done => {
                proof {
                    assert(Set::<Seq<char>>::empty().remove(name@) =~= Set::<Seq<char>>::empty());
                }
            }
            LoadProgress::Loading(v) => {
                match position_of(v, name) {
                    Some(i) => {
                        proof {
                            lemma_remove_distinct(v@, i as int);
                        }
                        v.remove(i);
                    }
                    None => {
                        proof {
                            assert(names_of(v@).remove(name@) =~= names_of(v@));
                        }
                    }
                }
            }
        }
    }

    /// Ends the load. Every claimed name must have been released first.
    pub fn finish(&mut self)
        requires
            !old(self).done(),
            old(self).in_flight() == Set::<Seq<char>>::empty(),
        ensures
            final(self).done(),
            final(self).wf(),
    {
        *self = LoadProgress::Done;
    }
}

} // verus!
