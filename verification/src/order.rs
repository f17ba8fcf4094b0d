//! Lexicographic order on strings (by Unicode scalar value, which is the
//! order `String`'s `Ord` gives through UTF-8 bytes) and sorted,
//! duplicate-free name lists.

use vstd::prelude::*;
use vstd::string::StrSliceExecFns;

use crate::text::str_eq;

verus! {

/// `a` and `b` agree on their first `k` characters, and at `k` either `a`
/// has a smaller character or `a` ends while `b` goes on.
pub open spec fn lex_lt_at(a: Seq<char>, b: Seq<char>, k: int) -> bool {
    &&& 0 <= k <= a.len()
    &&& k <= b.len()
    &&& forall|j: int| 0 <= j < k ==> a[j] == b[j]
    &&& ((k < a.len() && k < b.len() && (a[k] as u32) < (b[k] as u32)) || (k == a.len() && k
        < b.len()))
}

/// Strict lexicographic order on character sequences.
pub open spec fn lex_lt(a: Seq<char>, b: Seq<char>) -> bool {
    exists|k: int| lex_lt_at(a, b, k)
}

/// `s` is strictly increasing in the lexicographic order (so it holds no
/// name twice).
pub open spec fn strictly_sorted(s: Seq<Seq<char>>) -> bool {
    forall|i: int, j: int| 0 <= i < j < s.len() ==> lex_lt(#[trigger] s[i], #[trigger] s[j])
}

/// The views of a list of strings.
pub open spec fn views(v: Seq<String>) -> Seq<Seq<char>> {
    v.map_values(|s: String| s@)
}

/// No sequence is below itself.
pub proof fn lemma_lex_lt_irreflexive(a: Seq<char>)
    ensures
        !lex_lt(a, a),
{
    assert forall|k: int| !lex_lt_at(a, a, k) by {}
}

/// The order is transitive.
pub proof fn lemma_lex_lt_transitive(a: Seq<char>, b: Seq<char>, c: Seq<char>)
    requires
        lex_lt(a, b),
        lex_lt(b, c),
    ensures
        lex_lt(a, c),
{
    let k1 = choose|k: int| lex_lt_at(a, b, k);
    let k2 = choose|k: int| lex_lt_at(b, c, k);
    if k1 < k2 {
        assert(b[k1] == c[k1]);
        assert(lex_lt_at(a, c, k1));
    } else if k2 < k1 {
        assert(a[k2] == b[k2]);
        assert(lex_lt_at(a, c, k2));
    } else {
        assert(lex_lt_at(a, c, k1));
    }
}

proof fn lemma_lex_total_from(a: Seq<char>, b: Seq<char>, k: int)
    requires
        0 <= k <= a.len(),
        k <= b.len(),
        forall|j: int| 0 <= j < k ==> a[j] == b[j],
    ensures
        a == b || lex_lt(a, b) || lex_lt(b, a),
    decreases a.len() - k,
{
    if k == a.len() && k == b.len() {
        assert(a =~= b);
    } else if k == a.len() {
        assert(lex_lt_at(a, b, k));
    } else if k == b.len() {
        assert(lex_lt_at(b, a, k));
    } else if a[k] == b[k] {
        lemma_lex_total_from(a, b, k + 1);
    } else if (a[k] as u32) < (b[k] as u32) {
        assert(lex_lt_at(a, b, k));
    } else {
        vstd::utf8::char_u32_cast(a[k], a[k] as u32);
        vstd::utf8::char_u32_cast(b[k], b[k] as u32);
        assert((a[k] as u32) != (b[k] as u32));
        assert(lex_lt_at(b, a, k));
    }
}

/// Any two different sequences are ordered one way or the other.
pub proof fn lemma_lex_lt_total(a: Seq<char>, b: Seq<char>)
    ensures
        a == b || lex_lt(a, b) || lex_lt(b, a),
{
    lemma_lex_total_from(a, b, 0);
}

/// At most one direction holds.
pub proof fn lemma_lex_lt_asymmetric(a: Seq<char>, b: Seq<char>)
    requires
        lex_lt(a, b),
    ensures
        !lex_lt(b, a),
{
    if lex_lt(b, a) {
        lemma_lex_lt_transitive(a, b, a);
        lemma_lex_lt_irreflexive(a);
    }
}

/// Executable strict lexicographic comparison.
pub fn str_lt(a: &str, b: &str) -> (res: bool)
    ensures
        res == lex_lt(a@, b@),
{
    let n = a.unicode_len();
    let m = b.unicode_len();
    let mut k: usize = 0;
    while k < n && k < m && a.get_char(k) == b.get_char(k)
        invariant
            n == a@.len(),
            m == b@.len(),
            k <= n,
            k <= m,
            forall|j: int| 0 <= j < k ==> a@[j] == b@[j],
        decreases n - k,
    {
        k = k + 1;
    }
    if k < n && k < m {
        let x = a.get_char(k) as u32;
        let y = b.get_char(k) as u32;
        if x < y {
            assert(lex_lt_at(a@, b@, k as int));
            true
        } else {
            assert forall|i: int| !lex_lt_at(a@, b@, i) by {
                if lex_lt_at(a@, b@, i) {
                    if i < k {
                        assert(a@[i] == b@[i]);
                    } else if i > k {
                        assert(a@[k as int] == b@[k as int]);
                    }
                }
            }
            false
        }
    } else if k == n && k < m {
        assert(lex_lt_at(a@, b@, k as int));
        true
    } else {
        assert forall|i: int| !lex_lt_at(a@, b@, i) by {
            if lex_lt_at(a@, b@, i) {
                if i < k {
                    assert(a@[i] == b@[i]);
                }
            }
        }
        false
    }
}

proof fn lemma_push_contains(s: Seq<Seq<char>>, x: Seq<char>)
    ensures
        forall|y: Seq<char>| #[trigger] s.push(x).contains(y) <==> (s.contains(y) || y == x),
{
    assert forall|y: Seq<char>| #[trigger] s.push(x).contains(y) <==> (s.contains(y) || y == x) by {
        if s.contains(y) {
            let k = choose|k: int| 0 <= k < s.len() && s[k] == y;
            assert(s.push(x)[k] == y);
        }
        if y == x {
            assert(s.push(x)[s.len() as int] == y);
        }
        if s.push(x).contains(y) && y != x {
            let k = choose|k: int| 0 <= k < s.len() + 1 && s.push(x)[k] == y;
            assert(s[k] == y);
        }
    }
}

proof fn lemma_insert_contains(s: Seq<Seq<char>>, p: int, x: Seq<char>)
    requires
        0 <= p <= s.len(),
    ensures
        forall|y: Seq<char>| #[trigger] s.insert(p, x).contains(y) <==> (s.contains(y) || y == x),
{
    assert forall|y: Seq<char>| #[trigger] s.insert(p, x).contains(y) <==> (s.contains(y) || y
        == x) by {
        if s.contains(y) {
            let k = choose|k: int| 0 <= k < s.len() && s[k] == y;
            if k < p {
                assert(s.insert(p, x)[k] == y);
            } else {
                assert(s.insert(p, x)[k + 1] == y);
            }
        }
        if y == x {
            assert(s.insert(p, x)[p] == y);
        }
        if s.insert(p, x).contains(y) && y != x {
            let k = choose|k: int| 0 <= k < s.len() + 1 && s.insert(p, x)[k] == y;
            if k < p {
                assert(s[k] == y);
            } else {
                assert(s[k - 1] == y);
            }
        }
    }
}

/// The distinct names of `names`, in strictly increasing lexicographic
/// order (a sort followed by removal of repeated names).
pub fn sorted_unique(names: &Vec<String>) -> (res: Vec<String>)
    ensures
        strictly_sorted(views(res@)),
        forall|x: Seq<char>| views(res@).contains(x) <==> views(names@).contains(x),
{
    let mut res: Vec<String> = Vec::new();
    let n = names.len();
    let mut i: usize = 0;
    while i < n
        invariant
            n == names@.len(),
            i <= n,
            strictly_sorted(views(res@)),
            forall|x: Seq<char>|
                views(res@).contains(x) <==> views(names@.take(i as int)).contains(x),
        decreases n - i,
    {
        let name = &names[i];
        let ghost x = name@;
        let ghost rv = views(res@);
        let len = res.len();
        let mut p: usize = 0;
        while p < len && str_lt(res[p].as_str(), name.as_str())
            invariant
                len == res@.len(),
                p <= len,
                rv == views(res@),
                x == name@,
                forall|k: int| 0 <= k < p ==> lex_lt(#[trigger] rv[k], x),
            decreases len - p,
        {
            p = p + 1;
        }
        let ghost tv = views(names@.take(i + 1));
        let ghost pv = views(names@.take(i as int));
        assert(tv =~= pv.push(x));
        proof {
            lemma_push_contains(pv, x);
        }
        if p < len && str_eq(res[p].as_str(), name.as_str()) {
            assert(rv[p as int] == x);
            assert(rv.contains(x));
            assert forall|y: Seq<char>| rv.contains(y) <==> tv.contains(y) by {
                assert(rv.contains(y) <==> pv.contains(y));
            }
        } else {
            proof {
                if p < len {
                    lemma_lex_lt_total(rv[p as int], x);
                }
            }
            res.insert(p, name.clone());
            let ghost nv = views(res@);
            assert(nv =~= rv.insert(p as int, x));
            assert forall|a: int, b: int| 0 <= a < b < nv.len() implies lex_lt(
                #[trigger] nv[a],
                #[trigger] nv[b],
            ) by {
                if b < p {
                    assert(lex_lt(rv[a], rv[b]));
                } else if b == p {
                    assert(lex_lt(rv[a], x));
                } else if a < p {
                    assert(lex_lt(rv[a], x));
                    assert(lex_lt(x, rv[p as int]));
                    if b - 1 > p {
                        assert(lex_lt(rv[p as int], rv[b - 1]));
                        lemma_lex_lt_transitive(x, rv[p as int], rv[b - 1]);
                    }
                    lemma_lex_lt_transitive(rv[a], x, rv[b - 1]);
                } else if a == p {
                    assert(lex_lt(x, rv[p as int]));
                    if b - 1 > p {
                        assert(lex_lt(rv[p as int], rv[b - 1]));
                        lemma_lex_lt_transitive(x, rv[p as int], rv[b - 1]);
                    }
                } else {
                    assert(lex_lt(rv[a - 1], rv[b - 1]));
                }
            }
            proof {
                lemma_insert_contains(rv, p as int, x);
            }
            assert forall|y: Seq<char>| nv.contains(y) <==> tv.contains(y) by {
                assert(rv.contains(y) <==> pv.contains(y));
            }
        }
        i = i + 1;
    }
    assert(names@.take(n as int) =~= names@);
    res
}

/// Two sequences are ordered by their first difference: where they first
/// differ at a position inside both, the one with the smaller Unicode scalar
/// value (`char as u32`, the order of `String`'s `Ord`) there is below.
pub proof fn lemma_lex_lt_first_difference(a: Seq<char>, b: Seq<char>, k: int)
    requires
        0 <= k < a.len(),
        k < b.len(),
        forall|j: int| 0 <= j < k ==> a[j] == b[j],
        a[k] != b[k],
    ensures
        lex_lt(a, b) <==> (a[k] as u32) < (b[k] as u32),
        lex_lt(b, a) <==> (b[k] as u32) < (a[k] as u32),
{
    if (a[k] as u32) < (b[k] as u32) {
        assert(lex_lt_at(a, b, k));
    }
    if (b[k] as u32) < (a[k] as u32) {
        assert(lex_lt_at(b, a, k));
    }
    assert forall|i: int| lex_lt_at(a, b, i) implies (a[k] as u32) < (b[k] as u32) by {
        if i < k {
            assert(a[i] == b[i]);
        } else if i > k {
            assert(a[k] == b[k]);
        }
    }
    assert forall|i: int| lex_lt_at(b, a, i) implies (b[k] as u32) < (a[k] as u32) by {
        if i < k {
            assert(a[i] == b[i]);
        } else if i > k {
            assert(a[k] == b[k]);
        }
    }
}

/// A proper prefix is below every longer sequence that extends it, and no
/// sequence is below its own prefix.
pub proof fn lemma_lex_lt_proper_prefix(a: Seq<char>, rest: Seq<char>)
    requires
        rest.len() > 0,
    ensures
        lex_lt(a, a + rest),
        !lex_lt(a + rest, a),
{
    let b = a + rest;
    assert(lex_lt_at(a, b, a.len() as int));
    assert forall|i: int| !lex_lt_at(b, a, i) by {
        if lex_lt_at(b, a, i) {
            if i < a.len() {
                assert(b[i] == a[i]);
            }
        }
    }
}

/// Digits sort before lower-case letters: `m650` comes before `mx_master_3s`.
pub proof fn lemma_lex_lt_digit_before_letter()
    ensures
        lex_lt("m650"@, "mx_master_3s"@),
        !lex_lt("mx_master_3s"@, "m650"@),
{
    reveal_strlit("m650");
    reveal_strlit("mx_master_3s");
    lemma_lex_lt_first_difference("m650"@, "mx_master_3s"@, 1);
}

/// A strictly sorted list is determined by its elements: two strictly
/// sorted lists holding the same names are equal. So the order in which
/// depots are visited does not depend on the order the registry lists them.
pub proof fn lemma_strictly_sorted_canonical(a: Seq<Seq<char>>, b: Seq<Seq<char>>)
    requires
        strictly_sorted(a),
        strictly_sorted(b),
        forall|x: Seq<char>| a.contains(x) <==> b.contains(x),
    ensures
        a == b,
    decreases a.len(),
{
    if a.len() == 0 {
        if b.len() > 0 {
            assert(b.contains(b[0]));
        }
        assert(a =~= b);
    } else {
        assert(a.contains(a[0]));
        let kb = choose|k: int| 0 <= k < b.len() && b[k] == a[0];
        assert(b.contains(b[0]));
        let ka = choose|k: int| 0 <= k < a.len() && a[k] == b[0];
        if kb > 0 {
            assert(lex_lt(b[0], b[kb]));
            if ka > 0 {
                assert(lex_lt(a[0], a[ka]));
                lemma_lex_lt_asymmetric(a[0], b[0]);
            } else {
                lemma_lex_lt_irreflexive(a[0]);
            }
        }
        assert(b[0] == a[0]);
        let a1 = a.drop_first();
        let b1 = b.drop_first();
        assert forall|x: Seq<char>| a1.contains(x) <==> b1.contains(x) by {
            if a1.contains(x) {
                let i = choose|i: int| 0 <= i < a1.len() && a1[i] == x;
                assert(a[i + 1] == x);
                assert(lex_lt(a[0], a[i + 1]));
                assert(b.contains(x));
                let j = choose|j: int| 0 <= j < b.len() && b[j] == x;
                if j == 0 {
                    lemma_lex_lt_irreflexive(x);
                }
                assert(b1[j - 1] == x);
            }
            if b1.contains(x) {
                let i = choose|i: int| 0 <= i < b1.len() && b1[i] == x;
                assert(b[i + 1] == x);
                assert(lex_lt(b[0], b[i + 1]));
                assert(a.contains(x));
                let j = choose|j: int| 0 <= j < a.len() && a[j] == x;
                if j == 0 {
                    lemma_lex_lt_irreflexive(x);
                }
                assert(a1[j - 1] == x);
            }
        }
        assert forall|i: int, j: int| 0 <= i < j < a1.len() implies lex_lt(
            #[trigger] a1[i],
            #[trigger] a1[j],
        ) by {
            assert(lex_lt(a[i + 1], a[j + 1]));
        }
        assert forall|i: int, j: int| 0 <= i < j < b1.len() implies lex_lt(
            #[trigger] b1[i],
            #[trigger] b1[j],
        ) by {
            assert(lex_lt(b[i + 1], b[j + 1]));
        }
        lemma_strictly_sorted_canonical(a1, b1);
        assert(a =~= seq![a[0]] + a1);
        assert(b =~= seq![b[0]] + b1);
    }
}

} // verus!
