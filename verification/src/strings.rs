use vstd::prelude::*;
use vstd::string::StrSliceExecFns;

verus! {

/// A needle occurs in a haystack when some window of the haystack equals it.
pub open spec fn contains_seq(h: Seq<char>, n: Seq<char>) -> bool {
    exists|i: int|
        0 <= i && i + n.len() <= h.len() && #[trigger] h.subrange(i, i + n.len() as int) == n
}

/// Whether the window of `h` starting at `i` equals `n`.
pub open spec fn matches_at(h: Seq<char>, n: Seq<char>, i: int) -> bool {
    0 <= i && i + n.len() <= h.len() && h.subrange(i, i + n.len() as int) == n
}

fn window_matches(h: &str, n: &str, i: usize, h_len: usize) -> (r: bool)
    requires
        h_len == h@.len(),
        i + n@.len() <= h@.len(),
    ensures
        r == matches_at(h@, n@, i as int),
{
    let n_len: usize = n.unicode_len();
    let mut j: usize = 0;
    while j < n_len
        invariant
            h_len == h@.len(),
            n_len == n@.len(),
            0 <= j <= n_len,
            i + n_len <= h@.len(),
            forall|k: int| 0 <= k < j ==> h@[i + k] == n@[k],
        decreases n_len - j,
    {
        if h.get_char(i + j) != n.get_char(j) {
            assert(h@.subrange(i as int, i + n@.len() as int)[j as int] != n@[j as int]);
            return false;
        }
        j = j + 1;
    }
    assert(h@.subrange(i as int, i + n@.len() as int) =~= n@);
    true
}

/// Substring test over character sequences, as `str::contains` decides it.
pub fn str_contains(h: &str, n: &str) -> (r: bool)
    ensures
        r == contains_seq(h@, n@),
{
    let h_len: usize = h.unicode_len();
    let n_len: usize = n.unicode_len();
    if n_len > h_len {
        return false;
    }
    if n_len == 0 {
        proof {
            assert(h@.subrange(0, 0 + n@.len() as int) =~= n@);
            assert(contains_seq(h@, n@));
        }
        return true;
    }
    let limit: usize = h_len - n_len;
    let mut i: usize = 0;
    while i <= limit
        invariant
            h_len == h@.len(),
            n_len == n@.len(),
            1 <= n_len <= h_len,
            limit == h_len - n_len,
            0 <= i <= limit + 1,
            forall|k: int| 0 <= k < i ==> !matches_at(h@, n@, k),
        decreases limit + 1 - i,
    {
        if window_matches(h, n, i, h_len) {
            return true;
        }
        i = i + 1;
    }
    proof {
        assert forall|k: int|
            !(0 <= k && k + n@.len() <= h@.len() && #[trigger] h@.subrange(k, k + n@.len() as int)
                == n@) by {
            if 0 <= k && k + n@.len() <= h@.len() {
                assert(!matches_at(h@, n@, k));
            }
        }
    }
    false
}

/// The value `str::parse::<usize>` yields: an optional leading `+`,
/// then one or more decimal digits, the whole fitting in `usize`.
pub open spec fn digit_val(c: char) -> nat {
    (c as nat - '0' as nat) as nat
}

pub open spec fn is_digit_char(c: char) -> bool {
    '0' <= c && c <= '9'
}

pub open spec fn all_digits(s: Seq<char>) -> bool {
    forall|i: int| 0 <= i < s.len() ==> is_digit_char(#[trigger] s[i])
}

pub open spec fn digits_value(s: Seq<char>) -> nat
    decreases s.len(),
{
    if s.len() == 0 {
        0
    } else {
        digits_value(s.drop_last()) * 10 + digit_val(s.last())
    }
}

/// The digit part of a decimal literal: the whole string, or what follows
/// a single leading `+`.
pub open spec fn decimal_digits(s: Seq<char>) -> Seq<char> {
    if s.len() > 0 && s[0] == '+' {
        s.drop_first()
    } else {
        s
    }
}

/// What `str::parse::<usize>` returns on `s`.
pub open spec fn parse_usize_spec(s: Seq<char>) -> Option<usize> {
    let d = decimal_digits(s);
    if d.len() > 0 && all_digits(d) && digits_value(d) <= usize::MAX {
        Some(digits_value(d) as usize)
    } else {
        None
    }
}

proof fn lemma_digits_value_take_succ(s: Seq<char>, i: int)
    requires
        0 <= i < s.len(),
    ensures
        digits_value(s.take(i + 1)) == digits_value(s.take(i)) * 10 + digit_val(s[i]),
{
    assert(s.take(i + 1).drop_last() =~= s.take(i));
    assert(s.take(i + 1).last() == s[i]);
}

/// Decimal parse of a string, exactly as `str::parse::<usize>` decides it.
pub fn parse_usize(s: &str) -> (r: Option<usize>)
    ensures
        r == parse_usize_spec(s@),
{
    let len: usize = s.unicode_len();
    let start: usize = if len > 0 && s.get_char(0) == '+' {
        1
    } else {
        0
    };
    assert(s@.skip(start as int) =~= decimal_digits(s@));
    if len == start {
        return None;
    }
    let ghost d = decimal_digits(s@);
    let mut value: usize = 0;
    let mut i: usize = start;
    while i < len
        invariant
            len == s@.len(),
            start <= i <= len,
            start <= 1,
            d == s@.skip(start as int),
            d == decimal_digits(s@),
            all_digits(d.take(i - start)),
            value == digits_value(d.take(i - start)),
            digits_value(d.take(i - start)) <= usize::MAX,
        decreases len - i,
    {
        let c = s.get_char(i);
        if c < '0' || c > '9' {
            assert(d[i - start] == s@[i as int]);
            assert(!is_digit_char(d[i - start]));
            assert(!all_digits(d));
            return None;
        }
        let digit: u32 = c as u32 - 48;
        proof {
            lemma_digits_value_take_succ(d, i - start);
        }
        if value > (usize::MAX - digit as usize) / 10 {
            proof {
                assert(digits_value(d.take(i - start + 1)) > usize::MAX) by (nonlinear_arith)
                    requires
                        digits_value(d.take(i - start + 1)) == digits_value(d.take(i - start)) * 10
                            + digit_val(d[i - start]),
                        digits_value(d.take(i - start)) == value,
                        digit_val(d[i - start]) == digit,
                        value > (usize::MAX - digit as usize) / 10,
                        digit <= 9,
                {}
                let k = i - start + 1;
                lemma_digits_value_take_monotone(d, k, d.len() as int);
                assert(d.take(d.len() as int) =~= d);
                assert(digits_value(d) > usize::MAX);
            }
            return None;
        }
        value = value * 10 + digit as usize;
        i = i + 1;
    }
    assert(d.take(i - start) =~= d);
    Some(value)
}

proof fn lemma_digits_value_take_monotone(s: Seq<char>, i: int, j: int)
    requires
        0 <= i <= j <= s.len(),
    ensures
        digits_value(s.take(i)) <= digits_value(s.take(j)),
    decreases j - i,
{
    if i < j {
        lemma_digits_value_take_monotone(s, i, j - 1);
        assert(s.take(j).drop_last() =~= s.take(j - 1));
        assert(digits_value(s.take(j)) == digits_value(s.take(j - 1)) * 10 + digit_val(s[j - 1]));
        assert(digits_value(s.take(j - 1)) * 10 >= digits_value(s.take(j - 1))) by (nonlinear_arith);
    }
}

/// Strict lexicographic order on character sequences, by code point: the
/// order in which directory entries are visited.
pub open spec fn lex_lt(a: Seq<char>, b: Seq<char>) -> bool
    decreases a.len(),
{
    if b.len() == 0 {
        false
    } else if a.len() == 0 {
        true
    } else if a[0] != b[0] {
        (a[0] as u32) < (b[0] as u32)
    } else {
        lex_lt(a.drop_first(), b.drop_first())
    }
}

fn str_lex_lt_from(a: &str, b: &str, i: usize, a_len: usize, b_len: usize) -> (r: bool)
    requires
        a_len == a@.len(),
        b_len == b@.len(),
        i <= a_len,
        i <= b_len,
    ensures
        r == lex_lt(a@.skip(i as int), b@.skip(i as int)),
    decreases a_len - i,
{
    if i == b_len {
        assert(b@.skip(i as int).len() == 0);
        false
    } else if i == a_len {
        assert(a@.skip(i as int).len() == 0);
        assert(b@.skip(i as int).len() > 0);
        true
    } else {
        let ca = a.get_char(i);
        let cb = b.get_char(i);
        proof {
            assert(a@.skip(i as int)[0] == a@[i as int]);
            assert(b@.skip(i as int)[0] == b@[i as int]);
            assert(a@.skip(i as int).drop_first() =~= a@.skip(i + 1));
            assert(b@.skip(i as int).drop_first() =~= b@.skip(i + 1));
        }
        if ca != cb {
            (ca as u32) < (cb as u32)
        } else {
            str_lex_lt_from(a, b, i + 1, a_len, b_len)
        }
    }
}

/// Strict lexicographic comparison of two strings by code point.
pub fn str_lex_lt(a: &str, b: &str) -> (r: bool)
    ensures
        r == lex_lt(a@, b@),
{
    let a_len: usize = a.unicode_len();
    let b_len: usize = b.unicode_len();
    proof {
        assert(a@.skip(0) =~= a@);
        assert(b@.skip(0) =~= b@);
    }
    str_lex_lt_from(a, b, 0, a_len, b_len)
}

/// `b` is `a` with ASCII uppercase letters lowered, position by position.
pub open spec fn lower_matches(a: char, b: char) -> bool {
    if 'A' <= a && a <= 'Z' {
        b as int == a as int + 32
    } else {
        b == a
    }
}

/// `a.to_ascii_lowercase() == b`, stated over the character sequences.
pub open spec fn lowered_eq(a: Seq<char>, b: Seq<char>) -> bool {
    a.len() == b.len() && forall|i: int| 0 <= i < a.len() ==> lower_matches(a[i], #[trigger] b[i])
}

/// Whether lowering the ASCII uppercase letters of `a` yields exactly `b`,
/// as `str::to_ascii_lowercase` followed by equality decides it.
pub fn str_lowered_eq(a: &str, b: &str) -> (r: bool)
    ensures
        r == lowered_eq(a@, b@),
{
    let a_len: usize = a.unicode_len();
    let b_len: usize = b.unicode_len();
    if a_len != b_len {
        return false;
    }
    let mut i: usize = 0;
    while i < a_len
        invariant
            a_len == a@.len(),
            b_len == b@.len(),
            a_len == b_len,
            0 <= i <= a_len,
            forall|k: int| 0 <= k < i ==> lower_matches(a@[k], #[trigger] b@[k]),
        decreases a_len - i,
    {
        let ca = a.get_char(i);
        let cb = b.get_char(i);
        let ok: bool = if ca >= 'A' && ca <= 'Z' {
            cb as u32 == ca as u32 + 32
        } else {
            cb == ca
        };
        if !ok {
            assert(!lower_matches(a@[i as int], b@[i as int]));
            return false;
        }
        i = i + 1;
    }
    true
}

/// Whether the character is alphanumeric in the Unicode sense.
pub uninterp spec fn char_alphanumeric(c: char) -> bool;

/// Relies on char::is_alphanumeric: whether a character is in one of the
/// Unicode alphanumeric categories depends on the character alone.
#[verifier::external_body]
pub fn is_alphanumeric_char(c: char) -> (r: bool)
    ensures
        r == char_alphanumeric(c),
{
    c.is_alphanumeric()
}

/// Character-for-character equality of two strings.
pub fn str_eq(a: &str, b: &str) -> (r: bool)
    ensures
        r == (a@ == b@),
{
    let a_len: usize = a.unicode_len();
    let b_len: usize = b.unicode_len();
    if a_len != b_len {
        return false;
    }
    let mut i: usize = 0;
    while i < a_len
        invariant
            a_len == a@.len(),
            b_len == b@.len(),
            a_len == b_len,
            0 <= i <= a_len,
            forall|k: int| 0 <= k < i ==> a@[k] == b@[k],
        decreases a_len - i,
    {
        if a.get_char(i) != b.get_char(i) {
            return false;
        }
        i = i + 1;
    }
    proof {
        assert(a@ =~= b@);
    }
    true
}

/// The least position at or after `i` where the needle matches, or -1.
pub open spec fn first_match_from(h: Seq<char>, n: Seq<char>, i: int) -> int
    decreases h.len() - i + 1,
{
    if i < 0 || i + n.len() > h.len() {
        -1
    } else if matches_at(h, n, i) {
        i
    } else {
        first_match_from(h, n, i + 1)
    }
}

/// The position of the first occurrence of `n` in `h` at or after `i`.
pub fn str_find_from(h: &str, n: &str, i: usize, h_len: usize, n_len: usize) -> (r: Option<usize>)
    requires
        h_len == h@.len(),
        n_len == n@.len(),
        i <= h_len,
    ensures
        (match r {
            Some(k) => k as int == first_match_from(h@, n@, i as int) && i <= k <= h_len,
            None => first_match_from(h@, n@, i as int) == -1,
        }),
    decreases h_len - i,
{
    if n_len == 0 {
        proof {
            assert(h@.subrange(i as int, i as int + n@.len() as int) =~= n@);
            assert(matches_at(h@, n@, i as int));
        }
        return Some(i);
    }
    if n_len > h_len || i > h_len - n_len {
        assert(i + n@.len() > h@.len());
        None
    } else if window_matches(h, n, i, h_len) {
        Some(i)
    } else {
        assert(i + 1 <= h_len);
        str_find_from(h, n, i + 1, h_len, n_len)
    }
}

/// The least position at or after `i` holding the character, or -1.
pub open spec fn first_char_from(s: Seq<char>, c: char, i: int) -> int
    decreases s.len() - i + 1,
{
    if i < 0 || i >= s.len() {
        -1
    } else if s[i] == c {
        i
    } else {
        first_char_from(s, c, i + 1)
    }
}

/// The position of the first occurrence of the character at or after `i`.
pub fn str_find_char_from(s: &str, c: char, i: usize, s_len: usize) -> (r: Option<usize>)
    requires
        s_len == s@.len(),
        i <= s_len,
    ensures
        (match r {
            Some(k) => k as int == first_char_from(s@, c, i as int) && i <= k < s_len,
            None => first_char_from(s@, c, i as int) == -1,
        }),
    decreases s_len - i,
{
    if i == s_len {
        None
    } else if s.get_char(i) == c {
        Some(i)
    } else {
        str_find_char_from(s, c, i + 1, s_len)
    }
}

/// Strict lexicographic order is asymmetric: no two distinct sequences
/// precede each other.
pub proof fn lemma_lex_lt_asym(a: Seq<char>, b: Seq<char>)
    requires
        lex_lt(a, b),
    ensures
        !lex_lt(b, a),
    decreases a.len(),
{
    if b.len() == 0 {
    } else if a.len() == 0 {
    } else if a[0] != b[0] {
    } else {
        lemma_lex_lt_asym(a.drop_first(), b.drop_first());
    }
}

} // verus!
