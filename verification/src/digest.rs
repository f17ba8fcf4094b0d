//! SHA-256 digests in lower-case hex, and the cache check that compares a
//! file's digest against the registry's expected value.

use sha2::{Digest, Sha256};
use vstd::prelude::*;

use crate::text::{
    ascii_lower, eq_ignore_ascii_case, lemma_eq_ignore_ascii_case_transitive, push_char,
    str_eq_ignore_ascii_case,
};

verus! {

/// The SHA-256 digest of `data` (FIPS 180-4), as computed by the `sha2` crate.
pub uninterp spec fn sha256_of(data: Seq<u8>) -> Seq<u8>;

/// Calls `<sha2::Sha256 as sha2::Digest>::digest`. Trusted: the result is the
/// SHA-256 digest of `data`, named `sha256_of`, and it is 32 bytes long (the
/// output size `U32` of `Sha256`).
#[verifier::external_body]
fn sha256_digest(data: &[u8]) -> (res: Vec<u8>)
    ensures
        res@ == sha256_of(data@),
        res@.len() == 32,
{
    Sha256::digest(data).to_vec()
}

/// The lower-case hex digit of a nibble `n` (`0 <= n < 16`).
pub open spec fn hex_digit(n: int) -> char {
    if n < 10 {
        (n + 48) as char
    } else {
        (n + 87) as char
    }
}

/// The upper-case hex digit of a nibble `n` (`0 <= n < 16`).
pub open spec fn hex_digit_upper(n: int) -> char {
    if n < 10 {
        (n + 48) as char
    } else {
        (n + 55) as char
    }
}

/// Lower-case hex encoding (`{:x}`): two digits per byte, high nibble first.
pub open spec fn hex_lower(d: Seq<u8>) -> Seq<char> {
    Seq::new(
        2 * d.len(),
        |j: int|
            if j % 2 == 0 {
                hex_digit(d[j / 2] as int / 16)
            } else {
                hex_digit(d[j / 2] as int % 16)
            },
    )
}

/// Upper-case hex encoding (`{:X}`): two digits per byte, high nibble first.
pub open spec fn hex_upper(d: Seq<u8>) -> Seq<char> {
    Seq::new(
        2 * d.len(),
        |j: int|
            if j % 2 == 0 {
                hex_digit_upper(d[j / 2] as int / 16)
            } else {
                hex_digit_upper(d[j / 2] as int % 16)
            },
    )
}

/// A lower-case hex digit: `0-9` or `a-f`.
pub open spec fn is_lower_hex_char(c: char) -> bool {
    ('0' <= c && c <= '9') || ('a' <= c && c <= 'f')
}

/// The outcome of a cache check: the cached file could be read (`Some`) and
/// its SHA-256 hex digest equals `expected`, ignoring ASCII case.
pub open spec fn cache_hit(contents: Option<Seq<u8>>, expected: Seq<char>) -> bool {
    match contents {
        Some(d) => eq_ignore_ascii_case(hex_lower(sha256_of(d)), expected),
        None => false,
    }
}

fn nibble_char(n: u8) -> (c: char)
    requires
        n < 16,
    ensures
        c == hex_digit(n as int),
{
    if n < 10 {
        (n + 48) as char
    } else {
        (n + 87) as char
    }
}

/// Lower-case hex encoding of `bytes`.
pub fn to_hex_lower(bytes: &[u8]) -> (res: String)
    ensures
        res@ == hex_lower(bytes@),
{
    let mut res = String::new();
    let n = bytes.len();
    let mut i: usize = 0;
    while i < n
        invariant
            n == bytes@.len(),
            i <= n,
            res@ =~= hex_lower(bytes@.take(i as int)),
        decreases n - i,
    {
        let b = bytes[i];
        let ghost before = res@;
        push_char(&mut res, nibble_char(b / 16));
        push_char(&mut res, nibble_char(b % 16));
        proof {
            let t = bytes@.take(i + 1);
            assert(res@ =~= hex_lower(t)) by {
                assert forall|j: int| 0 <= j < 2 * (i + 1) implies res@[j] == hex_lower(t)[j] by {
                    if j < 2 * i {
                        assert(before[j] == hex_lower(bytes@.take(i as int))[j]);
                    }
                }
            }
        }
        i = i + 1;
    }
    assert(bytes@.take(n as int) =~= bytes@);
    res
}

/// Hex SHA-256 of an in-memory blob: 64 lower-case hex digits.
pub fn sha256_hex(bytes: &[u8]) -> (res: String)
    ensures
        res@ == hex_lower(sha256_of(bytes@)),
        res@.len() == 64,
{
    let digest = sha256_digest(bytes);
    to_hex_lower(digest.as_slice())
}

/// The cached copy matches when it could be read and its SHA-256 matches
/// `expected_sha`, case-insensitively. `contents` is `None` when opening or
/// reading the file failed; that is never a match, so callers re-fetch.
pub fn cached_matches(contents: Option<&[u8]>, expected_sha: &str) -> (res: bool)
    ensures
        res == cache_hit(
            match contents {
                Some(c) => Some(c@),
                None => None,
            },
            expected_sha@,
        ),
{
    match contents {
        Some(c) => {
            let actual = sha256_hex(c);
            str_eq_ignore_ascii_case(actual.as_str(), expected_sha)
        },
        None => false,
    }
}

/// Every character of a lower-case hex encoding is a lower-case hex digit,
/// and there are two per byte.
pub proof fn lemma_hex_lower_alphabet(d: Seq<u8>)
    ensures
        hex_lower(d).len() == 2 * d.len(),
        forall|j: int| 0 <= j < hex_lower(d).len() ==> is_lower_hex_char(#[trigger] hex_lower(d)[j]),
{
}

/// A file always matches its own digest, written in either lower or upper case.
pub proof fn lemma_own_digest_is_cache_hit(d: Seq<u8>)
    ensures
        cache_hit(Some(d), hex_lower(sha256_of(d))),
        cache_hit(Some(d), hex_upper(sha256_of(d))),
{
    let h = sha256_of(d);
    assert forall|j: int| 0 <= j < hex_lower(h).len() implies #[trigger] ascii_lower(
        hex_lower(h)[j],
    ) == ascii_lower(hex_upper(h)[j]) by {
        let n = if j % 2 == 0 { h[j / 2] / 16 } else { h[j / 2] % 16 };
        assert(0 <= n < 16);
    }
}

/// An unreadable cached file is never a match.
pub proof fn lemma_unreadable_is_cache_miss(expected: Seq<char>)
    ensures
        !cache_hit(None, expected),
{
}

/// The letter case of the expected digest never matters: expected values
/// that differ only in ASCII case give the same outcome.
pub proof fn lemma_cache_hit_ignores_case(
    contents: Option<Seq<u8>>,
    expected: Seq<char>,
    other: Seq<char>,
)
    requires
        eq_ignore_ascii_case(expected, other),
    ensures
        cache_hit(contents, expected) == cache_hit(contents, other),
{
    if let Some(d) = contents {
        let h = hex_lower(sha256_of(d));
        crate::text::lemma_eq_ignore_ascii_case_symmetric(expected, other);
        if eq_ignore_ascii_case(h, expected) {
            lemma_eq_ignore_ascii_case_transitive(h, expected, other);
        }
        if eq_ignore_ascii_case(h, other) {
            lemma_eq_ignore_ascii_case_transitive(h, other, expected);
        }
    }
}

/// Lower-case hex, digit by digit: two digits per byte, the high nibble's
/// digit from `0123456789abcdef` first, then the low nibble's.
pub proof fn lemma_hex_lower_digits(d: Seq<u8>, i: int)
    requires
        0 <= i < d.len(),
    ensures
        hex_lower(d).len() == 2 * d.len(),
        hex_lower(d)[2 * i] == "0123456789abcdef"@[d[i] as int / 16],
        hex_lower(d)[2 * i + 1] == "0123456789abcdef"@[d[i] as int % 16],
{
    reveal_strlit("0123456789abcdef");
    let t = "0123456789abcdef"@;
    let hi = d[i] as int / 16;
    let lo = d[i] as int % 16;
    assert((2 * i) / 2 == i);
    assert((2 * i + 1) / 2 == i);
    assert((2 * i) % 2 == 0);
    assert((2 * i + 1) % 2 == 1);
    assert(0 <= hi < 16);
    assert(0 <= lo < 16);
    assert(hex_digit(hi) == t[hi]);
    assert(hex_digit(lo) == t[lo]);
}

proof fn lemma_hex_digit_injective(m: int, n: int)
    requires
        0 <= m < 16,
        0 <= n < 16,
        hex_digit(m) == hex_digit(n),
    ensures
        m == n,
{
    assert((hex_digit(m) as int) == (if m < 10 { m + 48 } else { m + 87 }));
    assert((hex_digit(n) as int) == (if n < 10 { n + 48 } else { n + 87 }));
}

/// Lower-case hex determines the bytes: equal encodings come from equal
/// byte sequences.
pub proof fn lemma_hex_lower_injective(a: Seq<u8>, b: Seq<u8>)
    requires
        hex_lower(a) == hex_lower(b),
    ensures
        a == b,
{
    assert(hex_lower(a).len() == 2 * a.len());
    assert(hex_lower(b).len() == 2 * b.len());
    assert(a.len() == b.len());
    assert forall|i: int| 0 <= i < a.len() implies a[i] == b[i] by {
        assert((2 * i) / 2 == i && (2 * i) % 2 == 0);
        assert((2 * i + 1) / 2 == i && (2 * i + 1) % 2 == 1);
        assert(hex_lower(a)[2 * i] == hex_digit(a[i] as int / 16));
        assert(hex_lower(b)[2 * i] == hex_digit(b[i] as int / 16));
        assert(hex_lower(a)[2 * i + 1] == hex_digit(a[i] as int % 16));
        assert(hex_lower(b)[2 * i + 1] == hex_digit(b[i] as int % 16));
        lemma_hex_digit_injective(a[i] as int / 16, b[i] as int / 16);
        lemma_hex_digit_injective(a[i] as int % 16, b[i] as int % 16);
    }
    assert(a =~= b);
}

/// A cache check is the digest compared with the expected value, ignoring
/// case, whatever the contents: a hit means the expected value has two
/// characters per digest byte and agrees with the lower-case hex of the
/// contents' SHA-256 at every position once folded; and two cached files
/// that both match one expected value have the same SHA-256.
pub proof fn lemma_cache_hit_is_digest_match(d: Seq<u8>, d2: Seq<u8>, e: Seq<char>)
    ensures
        cache_hit(Some(d), e) ==> e.len() == 2 * sha256_of(d).len(),
        cache_hit(Some(d), e) ==> forall|j: int|
            0 <= j < e.len() ==> ascii_lower(#[trigger] e[j]) == hex_lower(sha256_of(d))[j],
        cache_hit(Some(d), e) <==> eq_ignore_ascii_case(hex_lower(sha256_of(d)), e),
        cache_hit(Some(d), e) && cache_hit(Some(d2), e) ==> sha256_of(d) == sha256_of(d2),
{
    let h = hex_lower(sha256_of(d));
    let h2 = hex_lower(sha256_of(d2));
    lemma_hex_lower_alphabet(sha256_of(d));
    lemma_hex_lower_alphabet(sha256_of(d2));
    if cache_hit(Some(d), e) {
        assert forall|j: int| 0 <= j < e.len() implies ascii_lower(#[trigger] e[j]) == h[j] by {
            assert(ascii_lower(h[j]) == ascii_lower(e[j]));
            assert(is_lower_hex_char(h[j]));
        }
        if cache_hit(Some(d2), e) {
            assert forall|j: int| 0 <= j < h.len() implies h[j] == h2[j] by {
                assert(ascii_lower(h[j]) == ascii_lower(e[j]));
                assert(ascii_lower(h2[j]) == ascii_lower(e[j]));
                assert(is_lower_hex_char(h[j]));
                assert(is_lower_hex_char(h2[j]));
            }
            assert(h =~= h2);
            lemma_hex_lower_injective(sha256_of(d), sha256_of(d2));
        }
    }
}

} // verus!
