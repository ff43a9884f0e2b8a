use vstd::prelude::*;
use crate::manager::ManagerView;
use crate::store::json_accepts;

verus! {

/// Later-than is transitive: a state reached in several steps advances from
/// the first one.
pub proof fn advances_transitive(a: ManagerView, b: ManagerView, c: ManagerView)
    requires
        a.advances_to(b),
        b.advances_to(c),
    ensures
        a.advances_to(c),
{
    assert forall|n: Seq<char>| a.settled.contains(n) && !a.records.contains_key(n)
        implies !#[trigger] c.records.contains_key(n) by {
        assert(b.settled.contains(n));
    }
    assert forall|n: Seq<char>| #[trigger] a.in_flight.contains(n) implies c.claimed(n) by {
        if b.in_flight.contains(n) {
            assert(c.claimed(n));
        } else {
            assert(b.settled.contains(n));
            assert(c.settled.contains(n));
        }
    }
    assert forall|k: Seq<char>| #[trigger] a.records.contains_key(k) implies c.records.contains_key(k)
        && c.records[k] == a.records[k] by {
        assert(b.records.contains_key(k));
    }
    assert(a.records.submap_of(c.records));
    assert(a.settled.subset_of(c.settled));
}

/// Single flight: once a load of a name has been taken on, no later claim
/// on that name hands out its load again, so its file is parsed at most once.
pub proof fn claimed_name_is_never_claimable_again(a: ManagerView, b: ManagerView, n: Seq<char>)
    requires
        a.claimed(n),
        a.advances_to(b),
    ensures
        !b.claimable(n),
{
    if a.in_flight.contains(n) {
        assert(b.claimed(n));
    } else {
        assert(b.settled.contains(n));
    }
}

/// A name that no load has taken on, such as one that is not in the source
/// directory, has no record: no query for it is answered with a record.
pub proof fn unclaimed_name_has_no_record(m: ManagerView, n: Seq<char>)
    requires
        m.consistent(),
        !m.claimed(n),
    ensures
        !m.records.contains_key(n),
{
}

/// Every record in the catalog parsed, so content that fails to parse never
/// stands in it under any name.
pub proof fn stored_records_parse(m: ManagerView, n: Seq<char>)
    requires
        m.consistent(),
    ensures
        m.records.contains_key(n) ==> json_accepts(m.records[n]),
{
}

/// A name whose load ended without a record stays without one in every
/// later state.
pub proof fn failed_name_stays_absent(a: ManagerView, b: ManagerView, n: Seq<char>)
    requires
        a.settled.contains(n),
        !a.records.contains_key(n),
        a.advances_to(b),
    ensures
        !b.records.contains_key(n),
{
}

/// Once the catalog is complete, it stays complete and its records never
/// change, so repeated queries read the same answer.
pub proof fn completed_catalog_is_stable(a: ManagerView, b: ManagerView)
    requires
        a.done,
        a.advances_to(b),
    ensures
        b.done,
        b.records == a.records,
{
}

} // verus!
