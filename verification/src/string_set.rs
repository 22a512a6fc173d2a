//! Sets of strings held in vectors without duplicates.
use vstd::prelude::*;
use vstd::string::StringExecFns;

verus! {

/// The set of string values held in `v`.
pub open spec fn string_set(v: Seq<String>) -> Set<Seq<char>> {
    Set::new(|s: Seq<char>| exists|i: int| 0 <= i < v.len() && #[trigger] v[i]@ == s)
}

/// Whether no string value occurs twice in `v`.
pub open spec fn no_duplicates(v: Seq<String>) -> bool {
    forall|i: int, j: int| 0 <= i < j < v.len() ==> #[trigger] v[i]@ != #[trigger] v[j]@
}

/// The string values of `v`, in order.
pub open spec fn string_views(v: Seq<String>) -> Seq<Seq<char>> {
    v.map_values(|s: String| s@)
}

/// Whether `v` holds `s`.
pub fn contains_string(v: &Vec<String>, s: &str) -> (r: bool)
    ensures
        r == string_set(v@).contains(s@),
{
    let target = String::from_str(s);
    let mut i: usize = 0;
    while i < v.len()
        invariant
            i <= v@.len(),
            target@ == s@,
            forall|k: int| 0 <= k < i ==> #[trigger] v@[k]@ != s@,
        decreases v@.len() - i,
    {
        if v[i] == target {
            return true;
        }
        i = i + 1;
    }
    false
}

/// Adds `s` to the set held in `v`; a value already there is not added again.
pub fn insert_string(v: &mut Vec<String>, s: String)
    ensures
        string_set(final(v)@) == string_set(old(v)@).insert(s@),
        no_duplicates(old(v)@) ==> no_duplicates(final(v)@),
{
    if !contains_string(v, s.as_str()) {
        let ghost sv = s@;
        v.push(s);
        proof {
            assert forall|i: int, j: int| 0 <= i < j < final(v)@.len() && no_duplicates(old(v)@)
                implies #[trigger] final(v)@[i]@ != #[trigger] final(v)@[j]@ by {
                if j == old(v)@.len() {
                    assert(final(v)@[i] == old(v)@[i]);
                    if old(v)@[i]@ == sv {
                        assert(string_set(old(v)@).contains(sv));
                    }
                } else {
                    assert(final(v)@[i] == old(v)@[i]);
                    assert(final(v)@[j] == old(v)@[j]);
                }
            }
            assert forall|x: Seq<char>| string_set(final(v)@).contains(x) <==> string_set(old(v)@).insert(sv).contains(x) by {
                if string_set(old(v)@).contains(x) {
                    let i = choose|i: int| 0 <= i < old(v)@.len() && #[trigger] old(v)@[i]@ == x;
                    assert(final(v)@[i] == old(v)@[i]);
                }
                if x == sv {
                    assert(final(v)@[old(v)@.len() as int]@ == sv);
                }
            }
            assert(string_set(final(v)@) =~= string_set(old(v)@).insert(sv));
        }
    } else {
        proof {
            assert(string_set(old(v)@) =~= string_set(old(v)@).insert(s@));
        }
    }
}

/// Pushing a string adds its value to the set.
pub proof fn lemma_string_set_push(v: Seq<String>, s: String)
    ensures
        string_set(v.push(s)) == string_set(v).insert(s@),
{
    assert forall|x: Seq<char>| string_set(v.push(s)).contains(x) <==> string_set(v).insert(s@).contains(x) by {
        if string_set(v.push(s)).contains(x) {
            let k = choose|k: int| 0 <= k < v.push(s).len() && #[trigger] v.push(s)[k]@ == x;
            if k < v.len() {
                assert(v[k]@ == x);
            }
        }
        if string_set(v).contains(x) {
            let k = choose|k: int| 0 <= k < v.len() && #[trigger] v[k]@ == x;
            assert(v.push(s)[k]@ == x);
        }
        if x == s@ {
            assert(v.push(s)[v.len() as int]@ == x);
        }
    }
    assert(string_set(v.push(s)) =~= string_set(v).insert(s@));
}

/// One more element of a prefix adds its value to the prefix's set.
pub proof fn lemma_string_set_take_next(v: Seq<String>, i: int)
    requires
        0 <= i < v.len(),
    ensures
        string_set(v.take(i + 1)) == string_set(v.take(i)).insert(v[i]@),
{
    assert(v.take(i + 1) =~= v.take(i).push(v[i]));
    lemma_string_set_push(v.take(i), v[i]);
}

/// The whole sequence is its longest prefix.
pub proof fn lemma_string_set_take_all(v: Seq<String>)
    ensures
        string_set(v.take(v.len() as int)) == string_set(v),
{
    assert(v.take(v.len() as int) =~= v);
}

} // verus!
