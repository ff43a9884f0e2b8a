use vstd::prelude::*;
use dashmap::DashMap;

verus! {

#[verifier::external_type_specification]
#[verifier::external_body]
#[verifier::reject_recursive_types(K)]
#[verifier::reject_recursive_types(V)]
#[verifier::reject_recursive_types(S)]
pub struct ExDashMap<K, V, S>(DashMap<K, V, S>);

/// A concurrent map from flag name to record text.
pub type RecordMap = DashMap<String, String>;

/// What a record map holds: for each flag name, the text of its record.
pub uninterp spec fn records_of(m: RecordMap) -> Map<Seq<char>, Seq<char>>;

/// Whether serde_json accepts the text as one JSON document.
pub uninterp spec fn json_accepts(text: Seq<char>) -> bool;

/// Relies on dashmap::DashMap::new: the map starts empty.
#[verifier::external_body]
fn map_new() -> (r: RecordMap)
    ensures
        records_of(r).dom() == Set::<Seq<char>>::empty(),
{
    DashMap::new()
}

/// Relies on dashmap::DashMap::insert: afterwards the key maps to the value,
/// and every other entry stays as it was.
#[verifier::external_body]
fn map_insert(m: &mut RecordMap, key: String, value: String)
    ensures
        records_of(*final(m)) == records_of(*old(m)).insert(key@, value@),
{
    m.insert(key, value);
}

/// Relies on dashmap::DashMap::get: the value under the key, if there is one.
#[verifier::external_body]
fn map_get(m: &RecordMap, key: &String) -> (r: Option<String>)
    ensures
        r is Some <==> records_of(*m).contains_key(key@),
        r is Some ==> r->0@ == records_of(*m)[key@],
{
    m.get(key).map(|e| e.value().clone())
}

/// Relies on dashmap::DashMap::iter: each entry of the map once.
#[verifier::external_body]
fn map_entries(m: &RecordMap) -> (r: Vec<(String, String)>)
    ensures
        entries_match(r@, records_of(*m)),
{
    m.iter().map(|e| (e.key().clone(), e.value().clone())).collect()
}

/// Relies on serde_json::from_str: whether the text parses as JSON.
#[verifier::external_body]
fn json_parses(text: &str) -> (r: bool)
    ensures
        r == json_accepts(text@),
{
    serde_json::from_str::<serde_json::Value>(text).is_ok()
}

/// The pairs hold each entry of `m` exactly once.
pub open spec fn entries_match(v: Seq<(String, String)>, m: Map<Seq<char>, Seq<char>>) -> bool {
    &&& forall|i: int, j: int| 0 <= i < v.len() && 0 <= j < v.len() && i != j ==> v[i].0@ != v[j].0@
    &&& forall|i: int| 0 <= i < v.len() ==> #[trigger] m.contains_key(v[i].0@) && m[v[i].0@] == v[i].1@
    &&& forall|k: Seq<char>| #[trigger] m.contains_key(k) ==> exists|i: int| 0 <= i < v.len() && v[i].0@ == k
}

/// A flag record that parsed: its name and the text it was read from.
#[derive(Debug)]
pub struct FlagRecord {
    pub name: String,
    pub text: String,
}

impl Clone for FlagRecord {
    fn clone(&self) -> (r: Self)
        ensures
            r == *self,
    {
        FlagRecord { name: self.name.clone(), text: self.text.clone() }
    }
}

/// The parsed records, by name. Only records that parse are ever stored.
pub struct RecordStore {
    map: RecordMap,
}

impl RecordStore {
    pub closed spec fn view(&self) -> Map<Seq<char>, Seq<char>> {
        records_of(self.map)
    }

    /// Every stored record parses.
    pub open spec fn wf(&self) -> bool {
        forall|n: Seq<char>| #[trigger] self.view().contains_key(n) ==> json_accepts(self.view()[n])
    }

    pub fn new() -> (r: Self)
        ensures
            r.view() == Map::<Seq<char>, Seq<char>>::empty(),
            r.wf(),
    {
        RecordStore { map: map_new() }
    }

    /// Parses `text` and stores it under `name` if it parses; returns
    /// whether it did.
    pub fn insert_parsed(&mut self, name: &String, text: String) -> (r: bool)
        requires
            old(self).wf(),
        ensures
            final(self).wf(),
            r == json_accepts(text@),
            r ==> final(self).view() == old(self).view().insert(name@, text@),
            !r ==> final(self).view() == old(self).view(),
    {
        if json_parses(text.as_str()) {
            let ghost before = self.view();
            let ghost t = text@;
            map_insert(&mut self.map, name.clone(), text);
            proof {
                assert forall|n: Seq<char>| #[trigger] self.view().contains_key(n) implies json_accepts(self.view()[n]) by {
                    if n != name@ {
                        assert(before.contains_key(n));
                    }
                }
            }
            true
        } else {
            false
        }
    }

    /// The record stored under `name`, if any.
    pub fn get(&self, name: &String) -> (r: Option<FlagRecord>)
        ensures
            r is Some <==> self.view().contains_key(name@),
            r is Some ==> r->0.name@ == name@ && r->0.text@ == self.view()[name@],
    {
        match map_get(&self.map, name) {
            Some(text) => Some(FlagRecord { name: name.clone(), text }),
            None => None,
        }
    }

    /// Every stored record, once each.
    pub fn snapshot(&self) -> (r: Vec<FlagRecord>)
        ensures
            records_match(r@, self.view()),
    {
        let entries = map_entries(&self.map);
        let mut out: Vec<FlagRecord> = Vec::new();
        let mut i: usize = 0;
        while i < entries.len()
            invariant
                i <= entries@.len(),
                out@.len() == i,
                forall|k: int| 0 <= k < i ==> (#[trigger] out@[k]).name@ == entries@[k].0@
                    && out@[k].text@ == entries@[k].1@,
            decreases entries@.len() - i,
        {
            let name = entries[i].0.clone();
            let text = entries[i].1.clone();
            out.push(FlagRecord { name, text });
            i = i + 1;
        }
        proof {
            assert forall|k: Seq<char>| #[trigger] self.view().contains_key(k) implies names_of_records(out@).contains(k) by {
                let j = choose|j: int| 0 <= j < entries@.len() && entries@[j].0@ == k;
                assert(out@[j].name@ == k);
            }
            assert forall|k: int| 0 <= k < out@.len() implies #[trigger] self.view().contains_key(out@[k].name@)
                && self.view()[out@[k].name@] == out@[k].text@ by {
                assert(records_of(self.map).contains_key(entries@[k].0@));
            }
            assert forall|a: int, b: int| 0 <= a < out@.len() && 0 <= b < out@.len() && a != b implies out@[a].name@ != out@[b].name@ by {
                assert(entries@[a].0@ != entries@[b].0@);
            }
            assert forall|k: Seq<char>| names_of_records(out@).contains(k) implies self.view().dom().contains(k) by {
                let j = choose|j: int| 0 <= j < out@.len() && out@[j].name@ == k;
                assert(self.view().contains_key(out@[j].name@));
            }
            assert(names_of_records(out@) =~= self.view().dom());
        }
        out
    }
}

/// The names carried by a list of records.
pub open spec fn names_of_records(v: Seq<FlagRecord>) -> Set<Seq<char>> {
    Set::new(|n: Seq<char>| exists|i: int| 0 <= i < v.len() && v[i].name@ == n)
}

/// The list holds each entry of `m` exactly once, as name and text.
pub open spec fn records_match(v: Seq<FlagRecord>, m: Map<Seq<char>, Seq<char>>) -> bool {
    &&& forall|i: int, j: int| 0 <= i < v.len() && 0 <= j < v.len() && i != j ==> v[i].name@ != v[j].name@
    &&& forall|i: int| 0 <= i < v.len() ==> #[trigger] m.contains_key(v[i].name@) && m[v[i].name@] == v[i].text@
    &&& names_of_records(v) == m.dom()
}

} // verus!
