use vstd::prelude::*;
use dashmap::DashMap;

verus! {

/// A concurrent map from flag name to the waiters registered for it.
pub type WaiterMap = DashMap<String, Vec<u64>>;

/// What a waiter map holds: for each name, its list of waiters.
pub uninterp spec fn waiting_of(m: WaiterMap) -> Map<Seq<char>, Seq<u64>>;

/// Relies on dashmap::DashMap::new: the map starts empty.
#[verifier::external_body]
pub(crate) fn waiters_new() -> (r: WaiterMap)
    ensures
        waiting_of(r).dom() == Set::<Seq<char>>::empty(),
{
    DashMap::new()
}

/// Relies on dashmap::DashMap::insert: afterwards the name maps to the list,
/// and every other entry stays as it was.
#[verifier::external_body]
pub(crate) fn waiters_insert(m: &mut WaiterMap, key: String, value: Vec<u64>)
    ensures
        waiting_of(*final(m)) == waiting_of(*old(m)).insert(key@, value@),
{
    m.insert(key, value);
}

/// Relies on dashmap::DashMap::get: the list under the name, if there is one.
#[verifier::external_body]
pub(crate) fn waiters_get(m: &WaiterMap, key: &String) -> (r: Option<Vec<u64>>)
    ensures
        r is Some <==> waiting_of(*m).contains_key(key@),
        r is Some ==> r->0@ == waiting_of(*m)[key@],
{
    m.get(key).map(|e| e.value().clone())
}

/// Relies on dashmap::DashMap::remove: takes the name's entry out and hands
/// back its list, if there was one.
#[verifier::external_body]
pub(crate) fn waiters_remove(m: &mut WaiterMap, key: &String) -> (r: Option<Vec<u64>>)
    ensures
        waiting_of(*final(m)) == waiting_of(*old(m)).remove(key@),
        r is Some <==> waiting_of(*old(m)).contains_key(key@),
        r is Some ==> r->0@ == waiting_of(*old(m))[key@],
{
    m.remove(key).map(|e| e.1)
}

/// Relies on dashmap::DashMap::iter: the list of each entry of the map once.
#[verifier::external_body]
pub(crate) fn waiters_lists(m: &WaiterMap) -> (r: Vec<Vec<u64>>)
    ensures
        lists_cover(r@, waiting_of(*m)),
{
    m.iter().map(|e| e.value().clone()).collect()
}

/// Every list in `v` is the list of some entry of `m`, and the list of every
/// entry of `m` stands in `v`.
pub open spec fn lists_cover(v: Seq<Vec<u64>>, m: Map<Seq<char>, Seq<u64>>) -> bool {
    &&& forall|i: int| #![trigger v[i]] 0 <= i < v.len() ==> exists|n: Seq<char>| #[trigger] m.contains_key(n) && m[n] == v[i]@
    &&& forall|n: Seq<char>| #[trigger] m.contains_key(n) ==> exists|i: int| 0 <= i < v.len() && v[i]@ == m[n]
}

} // verus!
