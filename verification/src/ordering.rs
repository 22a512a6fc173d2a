//! Lexicographic order on strings (by code point, which is the order of their UTF-8
//! bytes) and sorted sets of strings.
use vstd::prelude::*;
use crate::string_set::{insert_string, string_set};

verus! {

/// `a` sorts strictly before `b`.
pub open spec fn seq_lt(a: Seq<char>, b: Seq<char>) -> bool
    decreases a.len(),
{
    if a.len() == 0 {
        b.len() > 0
    } else if b.len() == 0 {
        false
    } else if a[0] != b[0] {
        (a[0] as u32) < (b[0] as u32)
    } else {
        seq_lt(a.drop_first(), b.drop_first())
    }
}

pub proof fn lemma_seq_lt_irreflexive(a: Seq<char>)
    ensures
        !seq_lt(a, a),
    decreases a.len(),
{
    if a.len() > 0 {
        lemma_seq_lt_irreflexive(a.drop_first());
    }
}

pub proof fn lemma_seq_lt_transitive(a: Seq<char>, b: Seq<char>, c: Seq<char>)
    requires
        seq_lt(a, b),
        seq_lt(b, c),
    ensures
        seq_lt(a, c),
    decreases a.len(),
{
    if a.len() > 0 && b.len() > 0 && c.len() > 0 && a[0] == b[0] && b[0] == c[0] {
        lemma_seq_lt_transitive(a.drop_first(), b.drop_first(), c.drop_first());
    }
}

pub proof fn lemma_seq_lt_total(a: Seq<char>, b: Seq<char>)
    ensures
        a == b || seq_lt(a, b) || seq_lt(b, a),
    decreases a.len(),
{
    if a.len() > 0 && b.len() > 0 {
        if a[0] == b[0] {
            lemma_seq_lt_total(a.drop_first(), b.drop_first());
            if a.drop_first() == b.drop_first() {
                assert(a =~= seq![a[0]] + a.drop_first());
                assert(b =~= seq![b[0]] + b.drop_first());
            }
        } else {
            vstd::utf8::char_u32_cast(a[0], a[0] as u32);
            vstd::utf8::char_u32_cast(b[0], b[0] as u32);
            assert((a[0] as u32) != (b[0] as u32));
        }
    } else if a.len() == 0 && b.len() == 0 {
        assert(a =~= b);
    }
}

pub proof fn lemma_seq_lt_asymmetric(a: Seq<char>, b: Seq<char>)
    requires
        seq_lt(a, b),
    ensures
        !seq_lt(b, a),
{
    if seq_lt(b, a) {
        lemma_seq_lt_transitive(a, b, a);
        lemma_seq_lt_irreflexive(a);
    }
}

/// Whether `a` sorts strictly before `b`.
pub fn chars_less(a: &[char], b: &[char]) -> (r: bool)
    ensures
        r == seq_lt(a@, b@),
{
    let mut i: usize = 0;
    proof {
        assert(a@.skip(0) =~= a@);
        assert(b@.skip(0) =~= b@);
    }
    while i < a.len() && i < b.len() && a[i] == b[i]
        invariant
            i <= a@.len(),
            i <= b@.len(),
            seq_lt(a@, b@) == seq_lt(a@.skip(i as int), b@.skip(i as int)),
        decreases a@.len() - i,
    {
        proof {
            assert(a@.skip(i as int).drop_first() =~= a@.skip(i + 1));
            assert(b@.skip(i as int).drop_first() =~= b@.skip(i + 1));
        }
        i = i + 1;
    }
    if i == a.len() {
        i < b.len()
    } else if i == b.len() {
        false
    } else {
        (a[i] as u32) < (b[i] as u32)
    }
}

/// The string values of `v` are strictly increasing.
pub open spec fn strictly_sorted(v: Seq<Seq<char>>) -> bool {
    forall|i: int, j: int| 0 <= i < j < v.len() ==> seq_lt(#[trigger] v[i], #[trigger] v[j])
}

/// The string values of a vector.
pub open spec fn views(v: Seq<String>) -> Seq<Seq<char>> {
    v.map_values(|s: String| s@)
}

/// Inserts `s` into the strictly sorted vector `v`, unless it is already there.
pub fn insert_sorted_unique(v: &mut Vec<String>, s: String)
    requires
        strictly_sorted(views(old(v)@)),
    ensures
        strictly_sorted(views(final(v)@)),
        string_set(final(v)@) == string_set(old(v)@).insert(s@),
{
    let target = crate::text::chars_of(s.as_str());
    let mut pos: usize = 0;
    while pos < v.len() && chars_less(crate::text::chars_of(v[pos].as_str()).as_slice(), target.as_slice())
        invariant
            pos <= v@.len(),
            target@ == s@,
            v@ == old(v)@,
            strictly_sorted(views(v@)),
            forall|k: int| 0 <= k < pos ==> seq_lt(#[trigger] v@[k]@, s@),
        decreases v@.len() - pos,
    {
        pos = pos + 1;
    }
    if pos < v.len() && v[pos] == s {
        proof {
            assert(string_set(old(v)@) =~= string_set(old(v)@).insert(s@));
        }
        return;
    }
    proof {
        if pos < v@.len() {
            lemma_seq_lt_total(v@[pos as int]@, s@);
        }
    }
    let ghost before = v@;
    v.insert(pos, s);
    proof {
        assert forall|i: int, j: int| 0 <= i < j < views(v@).len() implies seq_lt(#[trigger] views(v@)[i], #[trigger] views(v@)[j]) by {
            let sv = views(v@);
            if j < pos {
                assert(sv[i] == before[i]@ && sv[j] == before[j]@);
                assert(views(before)[i] == before[i]@);
                assert(views(before)[j] == before[j]@);
                assert(seq_lt(views(before)[i], views(before)[j]));
            } else if j == pos {
                assert(sv[j] == v@[pos as int]@);
                assert(v@[pos as int] == s);
                if i < pos {
                    assert(sv[i] == before[i]@);
                    assert(seq_lt(before[i]@, s@));
                }
            } else if i == pos {
                assert(sv[i] == s@);
                assert(sv[j] == before[j - 1]@);
                assert(before[pos as int]@ != s@);
                assert(!seq_lt(before[pos as int]@, s@));
                assert(seq_lt(s@, before[pos as int]@));
                if j - 1 > pos {
                    assert(seq_lt(views(before)[pos as int], views(before)[j - 1]));
                    lemma_seq_lt_transitive(s@, before[pos as int]@, before[j - 1]@);
                }
            } else if i < pos {
                assert(sv[i] == before[i]@ && sv[j] == before[j - 1]@);
                assert(seq_lt(views(before)[i], views(before)[j - 1]));
            } else {
                assert(sv[i] == before[i - 1]@ && sv[j] == before[j - 1]@);
                assert(seq_lt(views(before)[i - 1], views(before)[j - 1]));
            }
        }
        assert forall|x: Seq<char>| string_set(v@).contains(x) <==> string_set(before).insert(s@).contains(x) by {
            if string_set(v@).contains(x) {
                let k = choose|k: int| 0 <= k < v@.len() && #[trigger] v@[k]@ == x;
                if k < pos {
                    assert(before[k]@ == x);
                } else if k > pos {
                    assert(before[k - 1]@ == x);
                }
            }
            if string_set(before).contains(x) {
                let k = choose|k: int| 0 <= k < before.len() && #[trigger] before[k]@ == x;
                if k < pos {
                    assert(v@[k]@ == x);
                } else {
                    assert(v@[k + 1]@ == x);
                }
            }
            if x == s@ {
                assert(v@[pos as int]@ == x);
            }
        }
        assert(string_set(v@) =~= string_set(before).insert(s@));
    }
}


/// The strings that occur in `s`.
pub open spec fn seq_set(s: Seq<Seq<char>>) -> Set<Seq<char>> {
    Set::new(|x: Seq<char>| s.contains(x))
}

/// The strings of a finite set in increasing order, each once.
pub open spec fn sorted_listing(s: Set<Seq<char>>) -> Seq<Seq<char>> {
    choose|r: Seq<Seq<char>>| strictly_sorted(r) && seq_set(r) == s
}

/// Two strictly increasing sequences of strings that hold the same strings are equal: a
/// sorted listing is determined by its set.
pub proof fn lemma_sorted_unique(a: Seq<Seq<char>>, b: Seq<Seq<char>>)
    requires
        strictly_sorted(a),
        strictly_sorted(b),
        seq_set(a) == seq_set(b),
    ensures
        a == b,
    decreases a.len(),
{
    if a.len() == 0 {
        if b.len() > 0 {
            assert(seq_set(b).contains(b[0]));
            assert(!seq_set(a).contains(b[0]));
        }
        assert(a =~= b);
        return;
    }
    if b.len() == 0 {
        assert(seq_set(a).contains(a[0]));
        assert(!seq_set(b).contains(a[0]));
        return;
    }
    assert(seq_set(b).contains(a[0]));
    let j = choose|j: int| 0 <= j < b.len() && b[j] == a[0];
    assert(seq_set(a).contains(b[0]));
    let i = choose|i: int| 0 <= i < a.len() && a[i] == b[0];
    if j > 0 {
        assert(seq_lt(b[0], b[j]));
        if i == 0 {
            lemma_seq_lt_irreflexive(a[0]);
        } else {
            assert(seq_lt(a[0], a[i]));
            lemma_seq_lt_asymmetric(a[0], a[i]);
        }
    }
    assert(a[0] == b[0]);
    let a1 = a.drop_first();
    let b1 = b.drop_first();
    assert forall|x: Seq<char>| seq_set(a1).contains(x) <==> seq_set(b1).contains(x) by {
        if seq_set(a1).contains(x) {
            let k = choose|k: int| 0 <= k < a1.len() && a1[k] == x;
            assert(a[k + 1] == x);
            assert(seq_lt(a[0], a[k + 1]));
            assert(seq_set(a).contains(x));
            let m = choose|m: int| 0 <= m < b.len() && b[m] == x;
            if m == 0 {
                lemma_seq_lt_irreflexive(a[0]);
            }
            assert(b1[m - 1] == x);
        }
        if seq_set(b1).contains(x) {
            let k = choose|k: int| 0 <= k < b1.len() && b1[k] == x;
            assert(b[k + 1] == x);
            assert(seq_lt(b[0], b[k + 1]));
            assert(seq_set(b).contains(x));
            let m = choose|m: int| 0 <= m < a.len() && a[m] == x;
            if m == 0 {
                lemma_seq_lt_irreflexive(b[0]);
            }
            assert(a1[m - 1] == x);
        }
    }
    assert(seq_set(a1) =~= seq_set(b1));
    lemma_sorted_unique(a1, b1);
    assert(a =~= seq![a[0]] + a1);
    assert(b =~= seq![b[0]] + b1);
}

/// A strictly increasing sequence is the sorted listing of its own strings.
pub proof fn lemma_sorted_listing_of(r: Seq<Seq<char>>)
    requires
        strictly_sorted(r),
    ensures
        sorted_listing(seq_set(r)) == r,
{
    let l = sorted_listing(seq_set(r));
    assert(strictly_sorted(r) && seq_set(r) == seq_set(r));
    assert(strictly_sorted(l) && seq_set(l) == seq_set(r));
    lemma_sorted_unique(l, r);
}

/// The set of a vector's strings, seen through their values.
pub proof fn lemma_string_set_is_seq_set(v: Seq<String>)
    ensures
        string_set(v) == seq_set(views(v)),
{
    assert forall|x: Seq<char>| string_set(v).contains(x) <==> seq_set(views(v)).contains(x) by {
        if string_set(v).contains(x) {
            let i = choose|i: int| 0 <= i < v.len() && #[trigger] v[i]@ == x;
            assert(views(v)[i] == x);
        }
        if seq_set(views(v)).contains(x) {
            let i = choose|i: int| 0 <= i < views(v).len() && views(v)[i] == x;
            assert(v[i]@ == x);
        }
    }
    assert(string_set(v) =~= seq_set(views(v)));
}

/// The strings of `items`, sorted and without repetition.
pub fn sorted_unique_strings(items: &Vec<String>) -> (r: Vec<String>)
    ensures
        views(r@) == sorted_listing(string_set(items@)),
{
    let mut out: Vec<String> = Vec::new();
    let mut i: usize = 0;
    proof {
        assert(string_set(out@) =~= string_set(items@.take(0)));
    }
    while i < items.len()
        invariant
            i <= items@.len(),
            strictly_sorted(views(out@)),
            string_set(out@) == string_set(items@.take(i as int)),
        decreases items@.len() - i,
    {
        insert_sorted_unique(&mut out, items[i].clone());
        proof {
            assert(string_set(items@.take(i + 1)) =~= string_set(items@.take(i as int)).insert(items@[i as int]@)) by {
                assert forall|x: Seq<char>| string_set(items@.take(i + 1)).contains(x) implies string_set(items@.take(i as int)).insert(items@[i as int]@).contains(x) by {
                    let k = choose|k: int| 0 <= k < items@.take(i + 1).len() && #[trigger] items@.take(i + 1)[k]@ == x;
                    if k < i {
                        assert(items@.take(i as int)[k]@ == x);
                    }
                }
                assert forall|x: Seq<char>| string_set(items@.take(i as int)).insert(items@[i as int]@).contains(x) implies string_set(items@.take(i + 1)).contains(x) by {
                    if x == items@[i as int]@ {
                        assert(items@.take(i + 1)[i as int]@ == x);
                    } else {
                        let k = choose|k: int| 0 <= k < items@.take(i as int).len() && #[trigger] items@.take(i as int)[k]@ == x;
                        assert(items@.take(i + 1)[k]@ == x);
                    }
                }
            }
        }
        i += 1;
    }
    proof {
        assert(items@.take(items@.len() as int) =~= items@);
        lemma_string_set_is_seq_set(out@);
        lemma_sorted_listing_of(views(out@));
    }
    out
}

/// `x` placed into the strictly increasing `r` at its place.
pub open spec fn insert_in_order(r: Seq<Seq<char>>, x: Seq<char>) -> Seq<Seq<char>>
    decreases r.len(),
{
    if r.len() == 0 {
        seq![x]
    } else if seq_lt(x, r[0]) {
        seq![x] + r
    } else {
        seq![r[0]] + insert_in_order(r.drop_first(), x)
    }
}

proof fn lemma_cons_sorted(a: Seq<char>, t: Seq<Seq<char>>)
    requires
        strictly_sorted(t),
        forall|i: int| 0 <= i < t.len() ==> seq_lt(a, #[trigger] t[i]),
    ensures
        strictly_sorted(seq![a] + t),
{
    let c = seq![a] + t;
    assert forall|i: int, j: int| 0 <= i < j < c.len() implies seq_lt(#[trigger] c[i], #[trigger] c[j]) by {
        if i == 0 {
            assert(c[j] == t[j - 1]);
        } else {
            assert(c[i] == t[i - 1] && c[j] == t[j - 1]);
        }
    }
}

proof fn lemma_insert_in_order(r: Seq<Seq<char>>, x: Seq<char>)
    requires
        strictly_sorted(r),
        !r.contains(x),
    ensures
        strictly_sorted(insert_in_order(r, x)),
        seq_set(insert_in_order(r, x)) == seq_set(r).insert(x),
    decreases r.len(),
{
    if r.len() == 0 {
        assert(seq_set(seq![x]) =~= seq_set(r).insert(x)) by {
            assert forall|y: Seq<char>| seq_set(seq![x]).contains(y) <==> seq_set(r).insert(x).contains(y) by {
                if seq_set(seq![x]).contains(y) {
                    assert(seq![x][0] == x);
                }
                if y == x {
                    assert(seq![x][0] == x);
                }
            }
        }
        assert(strictly_sorted(seq![x]));
    } else if seq_lt(x, r[0]) {
        assert forall|i: int| 0 <= i < r.len() implies seq_lt(x, #[trigger] r[i]) by {
            if i > 0 {
                lemma_seq_lt_transitive(x, r[0], r[i]);
            }
        }
        lemma_cons_sorted(x, r);
        let c = seq![x] + r;
        assert forall|y: Seq<char>| seq_set(c).contains(y) <==> seq_set(r).insert(x).contains(y) by {
            if seq_set(c).contains(y) {
                let k = choose|k: int| 0 <= k < c.len() && c[k] == y;
                if k > 0 {
                    assert(r[k - 1] == y);
                }
            }
            if seq_set(r).contains(y) {
                let k = choose|k: int| 0 <= k < r.len() && r[k] == y;
                assert(c[k + 1] == y);
            }
            if y == x {
                assert(c[0] == x);
            }
        }
        assert(seq_set(c) =~= seq_set(r).insert(x));
    } else {
        let t = r.drop_first();
        assert(strictly_sorted(t)) by {
            assert forall|i: int, j: int| 0 <= i < j < t.len() implies seq_lt(#[trigger] t[i], #[trigger] t[j]) by {
                assert(t[i] == r[i + 1] && t[j] == r[j + 1]);
            }
        }
        if t.contains(x) {
            let k = choose|k: int| 0 <= k < t.len() && t[k] == x;
            assert(r[k + 1] == x);
        }
        lemma_insert_in_order(t, x);
        let it = insert_in_order(t, x);
        assert(r[0] != x) by {
            assert(r[0] == r[0]);
            if r[0] == x {
                assert(r.contains(x));
            }
        }
        lemma_seq_lt_total(x, r[0]);
        assert forall|i: int| 0 <= i < it.len() implies seq_lt(r[0], #[trigger] it[i]) by {
            assert(seq_set(it).contains(it[i]));
            if it[i] == x {
            } else {
                assert(seq_set(t).contains(it[i]));
                let k = choose|k: int| 0 <= k < t.len() && t[k] == it[i];
                assert(r[k + 1] == it[i]);
            }
        }
        lemma_cons_sorted(r[0], it);
        let c = seq![r[0]] + it;
        assert forall|y: Seq<char>| seq_set(c).contains(y) <==> seq_set(r).insert(x).contains(y) by {
            if seq_set(c).contains(y) {
                let k = choose|k: int| 0 <= k < c.len() && c[k] == y;
                if k == 0 {
                    assert(r[0] == y);
                } else {
                    assert(seq_set(it).contains(y));
                    if y != x {
                        assert(seq_set(t).contains(y));
                        let m = choose|m: int| 0 <= m < t.len() && t[m] == y;
                        assert(r[m + 1] == y);
                    }
                }
            }
            if seq_set(r).contains(y) {
                let k = choose|k: int| 0 <= k < r.len() && r[k] == y;
                if k == 0 {
                    assert(c[0] == y);
                } else {
                    assert(t[k - 1] == y);
                    assert(seq_set(it).contains(y));
                    let m = choose|m: int| 0 <= m < it.len() && it[m] == y;
                    assert(c[m + 1] == y);
                }
            }
            if y == x {
                assert(seq_set(it).contains(x));
                let m = choose|m: int| 0 <= m < it.len() && it[m] == x;
                assert(c[m + 1] == x);
            }
        }
        assert(seq_set(c) =~= seq_set(r).insert(x));
        assert(insert_in_order(r, x) == c);
    }
}

proof fn sorted_witness(s: Set<Seq<char>>) -> (r: Seq<Seq<char>>)
    requires
        s.finite(),
    ensures
        strictly_sorted(r),
        seq_set(r) == s,
    decreases s.len(),
{
    if s.len() == 0 {
        assert(s =~= Set::<Seq<char>>::empty());
        let r = Seq::<Seq<char>>::empty();
        assert(seq_set(r) =~= s);
        r
    } else {
        let x = s.choose();
        let r1 = sorted_witness(s.remove(x));
        if r1.contains(x) {
            let k = choose|k: int| 0 <= k < r1.len() && r1[k] == x;
            assert(seq_set(r1).contains(x));
        }
        lemma_insert_in_order(r1, x);
        assert(s.remove(x).insert(x) =~= s);
        insert_in_order(r1, x)
    }
}

/// Every finite set of strings has a sorted listing: strictly increasing, holding exactly
/// the set's strings.
pub proof fn lemma_sorted_listing_exists(s: Set<Seq<char>>)
    requires
        s.finite(),
    ensures
        strictly_sorted(sorted_listing(s)),
        seq_set(sorted_listing(s)) == s,
{
    let w = sorted_witness(s);
    assert(strictly_sorted(w) && seq_set(w) == s);
}

} // verus!
