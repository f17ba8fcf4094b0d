//! Character-level string helpers with exact specifications.

use vstd::prelude::*;
use vstd::string::StrSliceExecFns;
use vstd::string::StringExecFns;

verus! {

/// `s` with every trailing occurrence of `c` removed.
pub open spec fn trim_end_char(s: Seq<char>, c: char) -> Seq<char>
    decreases s.len(),
{
    if s.len() > 0 && s.last() == c {
        trim_end_char(s.drop_last(), c)
    } else {
        s
    }
}

/// `s` with every leading occurrence of `c` removed.
pub open spec fn trim_start_char(s: Seq<char>, c: char) -> Seq<char>
    decreases s.len(),
{
    if s.len() > 0 && s[0] == c {
        trim_start_char(s.drop_first(), c)
    } else {
        s
    }
}

/// Trimming twice is trimming once.
pub proof fn lemma_trim_end_char_idempotent(s: Seq<char>, c: char)
    ensures
        trim_end_char(trim_end_char(s, c), c) == trim_end_char(s, c),
    decreases s.len(),
{
    if s.len() > 0 && s.last() == c {
        lemma_trim_end_char_idempotent(s.drop_last(), c);
    }
}

/// Trimming twice is trimming once.
pub proof fn lemma_trim_start_char_idempotent(s: Seq<char>, c: char)
    ensures
        trim_start_char(trim_start_char(s, c), c) == trim_start_char(s, c),
    decreases s.len(),
{
    if s.len() > 0 && s[0] == c {
        lemma_trim_start_char_idempotent(s.drop_first(), c);
    }
}

/// Cutting at the last position that is not `c` gives `trim_end_char`.
proof fn lemma_trim_end_char_at(s: Seq<char>, c: char, k: int)
    requires
        0 <= k <= s.len(),
        forall|i: int| k <= i < s.len() ==> s[i] == c,
        k > 0 ==> s[k - 1] != c,
    ensures
        trim_end_char(s, c) =~= s.subrange(0, k),
    decreases s.len(),
{
    if s.len() > k {
        assert(s.last() == c);
        lemma_trim_end_char_at(s.drop_last(), c, k);
        assert(s.drop_last().subrange(0, k) =~= s.subrange(0, k));
    } else {
        assert(s.subrange(0, k) =~= s);
    }
}

/// Cutting at the first position that is not `c` gives `trim_start_char`.
proof fn lemma_trim_start_char_at(s: Seq<char>, c: char, k: int)
    requires
        0 <= k <= s.len(),
        forall|i: int| 0 <= i < k ==> s[i] == c,
        k < s.len() ==> s[k] != c,
    ensures
        trim_start_char(s, c) =~= s.subrange(k, s.len() as int),
    decreases s.len(),
{
    if k > 0 {
        assert(s[0] == c);
        lemma_trim_start_char_at(s.drop_first(), c, k - 1);
        assert(s.drop_first().subrange(k - 1, s.len() - 1) =~= s.subrange(k, s.len() as int));
    } else {
        assert(s.subrange(0, s.len() as int) =~= s);
    }
}

/// `str::trim_end_matches` for a single character.
pub fn trim_end_matches_char(s: &str, c: char) -> (res: &str)
    ensures
        res@ == trim_end_char(s@, c),
{
    let n = s.unicode_len();
    let mut k: usize = n;
    while k > 0 && s.get_char(k - 1) == c
        invariant
            n == s@.len(),
            k <= n,
            forall|i: int| k <= i < n ==> s@[i] == c,
        decreases k,
    {
        k = k - 1;
    }
    proof {
        lemma_trim_end_char_at(s@, c, k as int);
    }
    s.substring_char(0, k)
}

/// `str::trim_start_matches` for a single character.
pub fn trim_start_matches_char(s: &str, c: char) -> (res: &str)
    ensures
        res@ == trim_start_char(s@, c),
{
    let n = s.unicode_len();
    let mut k: usize = 0;
    while k < n && s.get_char(k) == c
        invariant
            n == s@.len(),
            k <= n,
            forall|i: int| 0 <= i < k ==> s@[i] == c,
        decreases n - k,
    {
        k = k + 1;
    }
    proof {
        lemma_trim_start_char_at(s@, c, k as int);
    }
    s.substring_char(k, n)
}

/// `char::to_ascii_lowercase`: ASCII upper-case letters map to lower case,
/// every other character is unchanged.
pub open spec fn ascii_lower(c: char) -> char {
    if 'A' <= c && c <= 'Z' {
        ((c as u32) + 32) as char
    } else {
        c
    }
}

/// `str::eq_ignore_ascii_case` over characters: same length and equal
/// characters position by position once ASCII letters are folded to lower case.
pub open spec fn eq_ignore_ascii_case(a: Seq<char>, b: Seq<char>) -> bool {
    &&& a.len() == b.len()
    &&& forall|i: int| 0 <= i < a.len() ==> #[trigger] ascii_lower(a[i]) == ascii_lower(b[i])
}

/// Executable `char::to_ascii_lowercase`.
pub fn char_ascii_lower(c: char) -> (res: char)
    ensures
        res == ascii_lower(c),
{
    if 'A' <= c && c <= 'Z' {
        let b: u8 = c as u8;
        (b + 32) as char
    } else {
        c
    }
}

/// Executable `str::eq_ignore_ascii_case`.
pub fn str_eq_ignore_ascii_case(a: &str, b: &str) -> (res: bool)
    ensures
        res == eq_ignore_ascii_case(a@, b@),
{
    let n = a.unicode_len();
    let m = b.unicode_len();
    if n != m {
        return false;
    }
    let mut i: usize = 0;
    while i < n
        invariant
            n == a@.len(),
            n == b@.len(),
            i <= n,
            forall|j: int| 0 <= j < i ==> #[trigger] ascii_lower(a@[j]) == ascii_lower(b@[j]),
        decreases n - i,
    {
        if char_ascii_lower(a.get_char(i)) != char_ascii_lower(b.get_char(i)) {
            assert(!(ascii_lower(a@[i as int]) == ascii_lower(b@[i as int])));
            return false;
        }
        i = i + 1;
    }
    true
}

/// Exact string equality.
pub fn str_eq(a: &str, b: &str) -> (res: bool)
    ensures
        res == (a@ == b@),
{
    let n = a.unicode_len();
    let m = b.unicode_len();
    if n != m {
        return false;
    }
    let mut i: usize = 0;
    while i < n
        invariant
            n == a@.len(),
            n == b@.len(),
            i <= n,
            forall|j: int| 0 <= j < i ==> a@[j] == b@[j],
        decreases n - i,
    {
        if a.get_char(i) != b.get_char(i) {
            return false;
        }
        i = i + 1;
    }
    assert(a@ =~= b@);
    true
}

/// Folding is an equivalence: every string matches itself.
pub proof fn lemma_eq_ignore_ascii_case_reflexive(a: Seq<char>)
    ensures
        eq_ignore_ascii_case(a, a),
{
}

/// Folding is an equivalence: the relation is symmetric.
pub proof fn lemma_eq_ignore_ascii_case_symmetric(a: Seq<char>, b: Seq<char>)
    requires
        eq_ignore_ascii_case(a, b),
    ensures
        eq_ignore_ascii_case(b, a),
{
    assert forall|i: int| 0 <= i < b.len() implies #[trigger] ascii_lower(b[i]) == ascii_lower(
        a[i],
    ) by {
        assert(ascii_lower(a[i]) == ascii_lower(b[i]));
    }
}

/// Folding is an equivalence: the relation is transitive.
pub proof fn lemma_eq_ignore_ascii_case_transitive(a: Seq<char>, b: Seq<char>, c: Seq<char>)
    requires
        eq_ignore_ascii_case(a, b),
        eq_ignore_ascii_case(b, c),
    ensures
        eq_ignore_ascii_case(a, c),
{
    assert forall|i: int| 0 <= i < a.len() implies #[trigger] ascii_lower(a[i]) == ascii_lower(
        c[i],
    ) by {
        assert(ascii_lower(a[i]) == ascii_lower(b[i]));
        assert(ascii_lower(b[i]) == ascii_lower(c[i]));
    }
}

/// `String::push`.
#[verifier::external_body]
pub(crate) fn push_char(s: &mut String, c: char)
    ensures
        final(s)@ == old(s)@.push(c),
{
    s.push(c);
}

/// `String::from(&str)`.
pub fn string_from(s: &str) -> (res: String)
    ensures
        res@ == s@,
{
    String::from_str(s)
}

} // verus!
