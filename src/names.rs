use vstd::prelude::*;

verus! {

/// The names held by a list of strings, as a set of character sequences.
pub open spec fn names_of(v: Seq<String>) -> Set<Seq<char>> {
    Set::new(|n: Seq<char>| exists|i: int| 0 <= i < v.len() && v[i]@ == n)
}

/// No name occurs twice in the list.
pub open spec fn distinct_names(v: Seq<String>) -> bool {
    forall|i: int, j: int| 0 <= i < v.len() && 0 <= j < v.len() && i != j ==> v[i]@ != v[j]@
}

/// Where `name` stands in `v`, if it stands there.
pub fn position_of(v: &Vec<String>, name: &String) -> (r: Option<usize>)
    ensures
        match r {
            Some(i) => i < v@.len() && v@[i as int]@ == name@,
            None => !names_of(v@).contains(name@),
        },
{
    let mut i: usize = 0;
    while i < v.len()
        invariant
            i <= v@.len(),
            forall|k: int| 0 <= k < i ==> v@[k]@ != name@,
        decreases v@.len() - i,
    {
        if v[i] == *name {
            return Some(i);
        }
        i = i + 1;
    }
    None
}

/// Removing the entry at `i` from a list without repeated names removes
/// exactly that entry's name from its set.
pub proof fn lemma_remove_distinct(v: Seq<String>, i: int)
    requires
        distinct_names(v),
        0 <= i < v.len(),
    ensures
        distinct_names(v.remove(i)),
        names_of(v.remove(i)) == names_of(v).remove(v[i]@),
{
    let w = v.remove(i);
    assert forall|n: Seq<char>| names_of(w).contains(n) <==> names_of(v).remove(v[i]@).contains(n) by {
        if names_of(w).contains(n) {
            let k = choose|k: int| 0 <= k < w.len() && w[k]@ == n;
            if k < i {
                assert(v[k]@ == n);
            } else {
                assert(v[k + 1]@ == n);
            }
        }
        if names_of(v).remove(v[i]@).contains(n) {
            let k = choose|k: int| 0 <= k < v.len() && v[k]@ == n;
            assert(k != i);
            if k < i {
                assert(w[k]@ == n);
            } else {
                assert(w[k - 1]@ == n);
            }
        }
    }
    assert(names_of(w) =~= names_of(v).remove(v[i]@));
}

/// Appending a name not yet present keeps the names distinct and adds it.
pub proof fn lemma_push_distinct(v: Seq<String>, s: String)
    requires
        distinct_names(v),
        !names_of(v).contains(s@),
    ensures
        distinct_names(v.push(s)),
        names_of(v.push(s)) == names_of(v).insert(s@),
{
    let w = v.push(s);
    assert forall|n: Seq<char>| names_of(w).contains(n) <==> names_of(v).insert(s@).contains(n) by {
        if names_of(w).contains(n) {
            let k = choose|k: int| 0 <= k < w.len() && w[k]@ == n;
            if k < v.len() {
                assert(v[k]@ == n);
            }
        }
        if names_of(v).contains(n) {
            let k = choose|k: int| 0 <= k < v.len() && v[k]@ == n;
            assert(w[k]@ == n);
        }
        if n == s@ {
            assert(w[v.len() as int]@ == n);
        }
    }
    assert(names_of(w) =~= names_of(v).insert(s@));
    assert forall|i: int, j: int| 0 <= i < w.len() && 0 <= j < w.len() && i != j implies w[i]@ != w[j]@ by {
        if i == v.len() {
            assert(v[j]@ == w[j]@);
        } else if j == v.len() {
            assert(v[i]@ == w[i]@);
        }
    }
}

} // verus!
