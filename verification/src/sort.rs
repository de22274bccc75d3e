//! Sorting strings the way `Vec<String>::sort` orders them: lexicographically
//! by characters (the order of their UTF-8 bytes).
use vstd::prelude::*;
use crate::text::strs;

verus! {

/// `a` comes strictly before `b`.
pub open spec fn str_lt(a: Seq<char>, b: Seq<char>) -> bool
    decreases a.len(),
{
    if a.len() == 0 {
        b.len() > 0
    } else if b.len() == 0 {
        false
    } else if a[0] != b[0] {
        a[0] < b[0]
    } else {
        str_lt(a.drop_first(), b.drop_first())
    }
}

pub open spec fn str_le(a: Seq<char>, b: Seq<char>) -> bool {
    a == b || str_lt(a, b)
}

/// In ascending order.
pub open spec fn sorted(s: Seq<Seq<char>>) -> bool {
    forall|i: int, j: int| 0 <= i < j < s.len() ==> str_le(s[i], s[j])
}

/// How many times `x` occurs in `s`.
pub open spec fn count(s: Seq<Seq<char>>, x: Seq<char>) -> nat
    decreases s.len(),
{
    if s.len() == 0 {
        0
    } else {
        count(s.drop_last(), x) + if s.last() == x {
            1nat
        } else {
            0nat
        }
    }
}

/// The same strings, as many times each.
pub open spec fn permutes(a: Seq<Seq<char>>, b: Seq<Seq<char>>) -> bool {
    forall|x: Seq<char>| count(a, x) == count(b, x)
}

/// `s` without consecutive repeats (`Vec::dedup`).
pub open spec fn dedup(s: Seq<Seq<char>>) -> Seq<Seq<char>>
    decreases s.len(),
{
    if s.len() == 0 {
        s
    } else {
        let d = dedup(s.drop_last());
        if d.len() > 0 && d.last() == s.last() {
            d
        } else {
            d.push(s.last())
        }
    }
}

/// A string counted in `s` occurs in it.
pub proof fn lemma_count_pos(s: Seq<Seq<char>>, x: Seq<char>)
    requires
        count(s, x) > 0,
    ensures
        s.contains(x),
    decreases s.len(),
{
    if s.last() == x {
        assert(s[s.len() - 1] == x);
    } else {
        lemma_count_pos(s.drop_last(), x);
        let j = choose|j: int| 0 <= j < s.drop_last().len() && s.drop_last()[j] == x;
        assert(s[j] == x);
    }
}

/// An element of `s` is counted in it.
pub proof fn lemma_count_pos_at(s: Seq<Seq<char>>, i: int)
    requires
        0 <= i < s.len(),
    ensures
        count(s, s[i]) > 0,
    decreases s.len(),
{
    if i < s.len() - 1 {
        lemma_count_pos_at(s.drop_last(), i);
    }
}

proof fn lemma_lt_irrefl(a: Seq<char>)
    ensures
        !str_lt(a, a),
    decreases a.len(),
{
    if a.len() > 0 {
        lemma_lt_irrefl(a.drop_first());
    }
}

proof fn lemma_lt_total(a: Seq<char>, b: Seq<char>)
    ensures
        a == b || str_lt(a, b) || str_lt(b, a),
    decreases a.len(),
{
    if a.len() > 0 && b.len() > 0 && a[0] == b[0] {
        lemma_lt_total(a.drop_first(), b.drop_first());
        if a.drop_first() == b.drop_first() {
            assert(a =~= seq![a[0]] + a.drop_first());
            assert(b =~= seq![b[0]] + b.drop_first());
        }
    } else if a.len() == 0 && b.len() == 0 {
        assert(a =~= b);
    }
}

proof fn lemma_lt_trans(a: Seq<char>, b: Seq<char>, c: Seq<char>)
    requires
        str_lt(a, b),
        str_lt(b, c),
    ensures
        str_lt(a, c),
    decreases a.len(),
{
    if a.len() > 0 && b.len() > 0 && c.len() > 0 && a[0] == b[0] && b[0] == c[0] {
        lemma_lt_trans(a.drop_first(), b.drop_first(), c.drop_first());
    }
}

proof fn lemma_le_trans(a: Seq<char>, b: Seq<char>, c: Seq<char>)
    requires
        str_le(a, b),
        str_le(b, c),
    ensures
        str_le(a, c),
{
    if str_lt(a, b) && str_lt(b, c) {
        lemma_lt_trans(a, b, c);
    }
}

proof fn lemma_count_concat(a: Seq<Seq<char>>, b: Seq<Seq<char>>, x: Seq<char>)
    ensures
        count(a + b, x) == count(a, x) + count(b, x),
    decreases b.len(),
{
    if b.len() == 0 {
        assert(a + b =~= a);
    } else {
        assert((a + b).drop_last() =~= a + b.drop_last());
        lemma_count_concat(a, b.drop_last(), x);
    }
}

proof fn lemma_count_insert(s: Seq<Seq<char>>, i: int, v: Seq<char>, x: Seq<char>)
    requires
        0 <= i <= s.len(),
    ensures
        count(s.insert(i, v), x) == count(s, x) + if v == x {
            1nat
        } else {
            0nat
        },
{
    assert(s.insert(i, v) =~= s.take(i) + (seq![v] + s.skip(i)));
    assert(s =~= s.take(i) + s.skip(i));
    lemma_count_concat(s.take(i), seq![v] + s.skip(i), x);
    lemma_count_concat(seq![v], s.skip(i), x);
    lemma_count_concat(s.take(i), s.skip(i), x);
    assert(seq![v].drop_last() =~= Seq::<Seq<char>>::empty());
    assert(count(seq![v], x) == count(Seq::<Seq<char>>::empty(), x) + if v == x {
        1nat
    } else {
        0nat
    });
}

/// Whether `a` comes strictly before `b`.
pub fn less(a: &[char], b: &[char]) -> (r: bool)
    ensures
        r == str_lt(a@, b@),
{
    let mut i: usize = 0;
    assert(a@.skip(0) =~= a@);
    assert(b@.skip(0) =~= b@);
    while i < a.len() && i < b.len() && a[i] == b[i]
        invariant
            i <= a@.len(),
            i <= b@.len(),
            str_lt(a@, b@) == str_lt(a@.skip(i as int), b@.skip(i as int)),
        decreases a@.len() - i,
    {
        assert(a@.skip(i as int).drop_first() =~= a@.skip(i + 1));
        assert(b@.skip(i as int).drop_first() =~= b@.skip(i + 1));
        i += 1;
    }
    proof {
        if i < a@.len() {
            assert(a@.skip(i as int)[0] == a@[i as int]);
        }
        if i < b@.len() {
            assert(b@.skip(i as int)[0] == b@[i as int]);
        }
    }
    if i == a.len() {
        i < b.len()
    } else if i == b.len() {
        false
    } else {
        a[i] < b[i]
    }
}

/// The strings of `v` in ascending order (a stable insertion sort).
pub fn sort_strings(v: &Vec<String>) -> (r: Vec<String>)
    ensures
        sorted(strs(r@)),
        permutes(strs(r@), strs(v@)),
        r@.len() == v@.len(),
{
    let mut out: Vec<String> = Vec::new();
    let mut keys: Vec<Vec<char>> = Vec::new();
    let mut i: usize = 0;
    while i < v.len()
        invariant
            i <= v@.len(),
            out@.len() == keys@.len() == i,
            forall|k: int| 0 <= k < i ==> #[trigger] keys@[k]@ == out@[k]@,
            sorted(strs(out@)),
            permutes(strs(out@), strs(v@.take(i as int))),
        decreases v@.len() - i,
    {
        let x = &v[i];
        let xc = crate::text::chars_of(x.as_str());
        // first position whose key is greater than x (keeps equal keys stable)
        let mut p: usize = 0;
        while p < out.len() && !less(&xc, &keys[p])
            invariant
                p <= out@.len() == keys@.len(),
                forall|k: int| 0 <= k < out@.len() ==> #[trigger] keys@[k]@ == out@[k]@,
                forall|k: int| 0 <= k < p ==> !str_lt(xc@, #[trigger] out@[k]@),
            decreases out@.len() - p,
        {
            p += 1;
        }
        let ghost before = strs(out@);
        proof {
            assert forall|k: int| 0 <= k < p implies str_le(#[trigger] before[k], xc@) by {
                lemma_lt_total(xc@, before[k]);
            }
            if p < out@.len() {
                assert(str_lt(xc@, before[p as int]));
                assert forall|k: int| p <= k < before.len() implies str_lt(xc@, #[trigger] before[k]) by {
                    if k > p {
                        assert(str_le(before[p as int], before[k]));
                        if str_lt(before[p as int], before[k]) {
                            lemma_lt_trans(xc@, before[p as int], before[k]);
                        }
                    }
                }
            }
        }
        out.insert(p, x.clone());
        keys.insert(p, xc);
        let ghost after = strs(out@);
        proof {
            assert(after =~= before.insert(p as int, x@));
            assert forall|a: int, b: int| 0 <= a < b < after.len() implies str_le(after[a], after[b]) by {
                if b < p {
                    assert(after[a] == before[a] && after[b] == before[b]);
                } else if b == p {
                    assert(after[a] == before[a]);
                } else if a == p {
                    assert(after[b] == before[b - 1]);
                } else if a < p {
                    assert(after[a] == before[a] && after[b] == before[b - 1]);
                    lemma_le_trans(before[a], xc@, before[b - 1]);
                    assert(str_le(before[a], before[b - 1]));
                } else {
                    assert(after[a] == before[a - 1] && after[b] == before[b - 1]);
                }
            }
            assert forall|y: Seq<char>| count(after, y) == count(strs(v@.take(i + 1)), y) by {
                lemma_count_insert(before, p as int, x@, y);
                assert(strs(v@.take(i + 1)) =~= strs(v@.take(i as int)).push(x@));
                assert(strs(v@.take(i as int)).push(x@).drop_last() =~= strs(v@.take(i as int)));
            }
            assert forall|k: int| 0 <= k < out@.len() implies #[trigger] keys@[k]@ == out@[k]@ by {
                if k < p {
                } else if k == p {
                } else {
                }
            }
        }
        i += 1;
    }
    assert(v@.take(v@.len() as int) =~= v@);
    out
}

/// `v` without consecutive repeats.
pub fn dedup_strings(v: &Vec<String>) -> (r: Vec<String>)
    ensures
        strs(r@) == dedup(strs(v@)),
{
    let mut out: Vec<String> = Vec::new();
    let mut i: usize = 0;
    let ghost s = strs(v@);
    assert(s.take(0) =~= Seq::<Seq<char>>::empty());
    while i < v.len()
        invariant
            i <= v@.len(),
            s == strs(v@),
            strs(out@) == dedup(s.take(i as int)),
        decreases v@.len() - i,
    {
        assert(s.take(i + 1).drop_last() =~= s.take(i as int));
        assert(s.take(i + 1).last() == v@[i as int]@);
        let ghost before = strs(out@);
        if out.len() == 0 || !(out[out.len() - 1] == v[i]) {
            out.push(v[i].clone());
            assert(strs(out@) =~= before.push(v@[i as int]@));
        }
        i += 1;
    }
    assert(s.take(s.len() as int) =~= s);
    out
}


// ───────────────────────── stable ordering of records ─────────────────────────

/// Position `a` goes before position `b`: entries marked `first` come first,
/// then entries by ascending name, then by position (a stable sort).
pub open spec fn goes_before(first: Seq<bool>, names: Seq<Seq<char>>, a: int, b: int) -> bool {
    ||| (first[a] && !first[b])
    ||| (first[a] == first[b] && (str_lt(names[a], names[b]) || (names[a] == names[b] && a < b)))
}

/// `p` lists every position of `names` once, in the order `goes_before`.
pub open spec fn stable_order_of(first: Seq<bool>, names: Seq<Seq<char>>, p: Seq<usize>) -> bool {
    &&& p.len() == names.len()
    &&& forall|k: usize| k < names.len() ==> #[trigger] p.contains(k)
    &&& forall|i: int| 0 <= i < p.len() ==> p[i] < names.len()
    &&& forall|i: int, j: int|
        0 <= i < j < p.len() ==> goes_before(first, names, #[trigger] p[i] as int, #[trigger] p[j] as int)
}

proof fn lemma_before_total(first: Seq<bool>, names: Seq<Seq<char>>, a: int, b: int)
    requires
        a != b,
    ensures
        goes_before(first, names, a, b) || goes_before(first, names, b, a),
{
    lemma_lt_total(names[a], names[b]);
}

proof fn lemma_before_trans(first: Seq<bool>, names: Seq<Seq<char>>, a: int, b: int, c: int)
    requires
        goes_before(first, names, a, b),
        goes_before(first, names, b, c),
    ensures
        goes_before(first, names, a, c),
{
    if first[a] == first[b] && first[b] == first[c] {
        if str_lt(names[a], names[b]) && str_lt(names[b], names[c]) {
            lemma_lt_trans(names[a], names[b], names[c]);
        }
    }
}

/// Whether position `a` goes before position `b`.
fn before(first: &Vec<bool>, names: &Vec<Vec<char>>, a: usize, b: usize) -> (r: bool)
    requires
        a < first@.len() == names@.len(),
        b < names@.len(),
    ensures
        r == goes_before(first@, crate::text::views(names@), a as int, b as int),
{
    if first[a] && !first[b] {
        true
    } else if first[a] == first[b] {
        less(&names[a], &names[b]) || (crate::text::eq_chars(&names[a], &names[b]) && a < b)
    } else {
        false
    }
}

/// The positions of `names` in the order `goes_before` (a stable insertion sort).
pub fn stable_order(first: &Vec<bool>, names: &Vec<Vec<char>>) -> (p: Vec<usize>)
    requires
        first@.len() == names@.len(),
    ensures
        stable_order_of(first@, crate::text::views(names@), p@),
{
    let ghost nv = crate::text::views(names@);
    let n = names.len();
    let mut p: Vec<usize> = Vec::new();
    let mut i: usize = 0;
    while i < n
        invariant
            i <= n == names@.len() == first@.len(),
            nv == crate::text::views(names@),
            p@.len() == i,
            forall|k: usize| k < i ==> #[trigger] p@.contains(k),
            forall|q: int| 0 <= q < p@.len() ==> p@[q] < i,
            forall|a: int, b: int|
                0 <= a < b < p@.len() ==> goes_before(first@, nv, #[trigger] p@[a] as int, #[trigger] p@[b] as int),
        decreases n - i,
    {
        let mut q: usize = 0;
        while q < p.len() && !before(first, names, i, p[q])
            invariant
                q <= p@.len() == i < n == names@.len() == first@.len(),
                nv == crate::text::views(names@),
                forall|t: int| 0 <= t < p@.len() ==> p@[t] < i,
                forall|k: int| 0 <= k < q ==> !goes_before(first@, nv, i as int, #[trigger] p@[k] as int),
            decreases p@.len() - q,
        {
            q += 1;
        }
        let ghost old_p = p@;
        proof {
            assert forall|k: int| 0 <= k < q implies goes_before(first@, nv, #[trigger] old_p[k] as int, i as int) by {
                lemma_before_total(first@, nv, old_p[k] as int, i as int);
            }
            if q < old_p.len() {
                assert forall|k: int| q <= k < old_p.len() implies goes_before(first@, nv, i as int, #[trigger] old_p[k] as int) by {
                    if k > q {
                        assert(goes_before(first@, nv, old_p[q as int] as int, old_p[k] as int));
                        lemma_before_trans(first@, nv, i as int, old_p[q as int] as int, old_p[k] as int);
                    }
                }
            }
        }
        p.insert(q, i);
        proof {
            let np = p@;
            assert(np =~= old_p.insert(q as int, i));
            assert forall|a: int, b: int| 0 <= a < b < np.len() implies goes_before(first@, nv, #[trigger] np[a] as int, #[trigger] np[b] as int) by {
                if b < q {
                    assert(np[a] == old_p[a] && np[b] == old_p[b]);
                } else if b == q {
                    assert(np[a] == old_p[a]);
                } else if a == q {
                    assert(np[b] == old_p[b - 1]);
                } else if a < q {
                    assert(np[a] == old_p[a] && np[b] == old_p[b - 1]);
                } else {
                    assert(np[a] == old_p[a - 1] && np[b] == old_p[b - 1]);
                }
            }
            assert forall|k: usize| k < i + 1 implies #[trigger] np.contains(k) by {
                if k == i {
                    assert(np[q as int] == i);
                } else {
                    assert(old_p.contains(k));
                    let j = choose|j: int| 0 <= j < old_p.len() && old_p[j] == k;
                    if j < q {
                        assert(np[j] == k);
                    } else {
                        assert(np[j + 1] == k);
                    }
                }
            }
            assert forall|t: int| 0 <= t < np.len() implies np[t] < i + 1 by {
                if t < q {
                    assert(np[t] == old_p[t]);
                } else if t > q {
                    assert(np[t] == old_p[t - 1]);
                }
            }
        }
        i += 1;
    }
    p
}

} // verus!
