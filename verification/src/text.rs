//! Character-level helpers shared by the validator, the YAML patcher and the
//! monitor: whitespace, prefixes, substring search, decimal rendering and
//! `u32` parsing, each stated over `Seq<char>`.
use vstd::prelude::*;

verus! {

/// The Unicode `White_Space` property, which is what `char::is_whitespace`
/// and therefore `str::trim` test.
pub open spec fn is_ws(c: char) -> bool {
    ||| ('\u{9}' <= c && c <= '\u{d}')
    ||| c == ' '
    ||| c == '\u{85}'
    ||| c == '\u{a0}'
    ||| c == '\u{1680}'
    ||| ('\u{2000}' <= c && c <= '\u{200a}')
    ||| c == '\u{2028}'
    ||| c == '\u{2029}'
    ||| c == '\u{202f}'
    ||| c == '\u{205f}'
    ||| c == '\u{3000}'
}

/// `s.trim().is_empty()`: every character is whitespace.
pub open spec fn is_blank(s: Seq<char>) -> bool {
    forall|i: int| 0 <= i < s.len() ==> is_ws(#[trigger] s[i])
}

/// Number of leading whitespace characters of `s`.
pub open spec fn leading_ws(s: Seq<char>) -> nat
    decreases s.len(),
{
    if s.len() > 0 && is_ws(s[0]) {
        1 + leading_ws(s.drop_first())
    } else {
        0
    }
}

/// `s.trim_start()`.
pub open spec fn trim_start(s: Seq<char>) -> Seq<char> {
    s.skip(leading_ws(s) as int)
}

/// `s.starts_with(p)`.
pub open spec fn starts_with(s: Seq<char>, p: Seq<char>) -> bool {
    p.len() <= s.len() && s.subrange(0, p.len() as int) == p
}

/// `p` occurs in `s` starting at position `i`.
pub open spec fn occurs_at(s: Seq<char>, p: Seq<char>, i: int) -> bool {
    0 <= i && i + p.len() <= s.len() && s.subrange(i, i + p.len()) == p
}

/// `s.contains(p)` for a string pattern.
pub open spec fn contains(s: Seq<char>, p: Seq<char>) -> bool {
    exists|i: int| occurs_at(s, p, i)
}

/// The decimal digit character for `d` (`0 <= d < 10`).
pub open spec fn digit_char(d: int) -> char {
    (d + 48) as char
}

/// The decimal rendering of `n`, as `n.to_string()` produces it.
pub open spec fn dec(n: nat) -> Seq<char>
    decreases n,
{
    if n < 10 {
        seq![digit_char(n as int)]
    } else {
        dec(n / 10).push(digit_char((n % 10) as int))
    }
}

/// `dec(n)` padded on the left with `0` to at least `w` characters
/// (`format!("{:0w$}", n)`).
pub open spec fn dec_padded(n: nat, w: nat) -> Seq<char> {
    let d = dec(n);
    if d.len() >= w {
        d
    } else {
        Seq::new((w - d.len()) as nat, |i: int| '0') + d
    }
}

/// `c` is an ASCII decimal digit.
pub open spec fn is_digit(c: char) -> bool {
    '0' <= c && c <= '9'
}

/// The numeric value of a string of ASCII digits.
pub open spec fn digits_value(s: Seq<char>) -> nat
    decreases s.len(),
{
    if s.len() == 0 {
        0
    } else {
        digits_value(s.drop_last()) * 10 + ((s.last() as int - 48) as nat)
    }
}

/// The part of `s` that holds the digits of an unsigned integer literal:
/// `s` without one leading `+`.
pub open spec fn unsigned_digits(s: Seq<char>) -> Seq<char> {
    if s.len() > 0 && s[0] == '+' {
        s.drop_first()
    } else {
        s
    }
}

/// An optional `+`, then one or more ASCII digits whose value is at most
/// `max`: what `str::parse` accepts for an unsigned type whose largest
/// value is `max`.
pub open spec fn parses_within(s: Seq<char>, max: nat) -> bool {
    let d = unsigned_digits(s);
    &&& d.len() > 0
    &&& forall|i: int| 0 <= i < d.len() ==> is_digit(#[trigger] d[i])
    &&& digits_value(d) <= max
}

/// `s.parse::<u32>().is_ok()`.
pub open spec fn parses_as_u32(s: Seq<char>) -> bool {
    parses_within(s, u32::MAX as nat)
}

/// `c` is whitespace.
pub fn char_is_ws(c: char) -> (r: bool)
    ensures
        r == is_ws(c),
{
    ('\u{9}' <= c && c <= '\u{d}') || c == ' ' || c == '\u{85}' || c == '\u{a0}' || c == '\u{1680}'
        || ('\u{2000}' <= c && c <= '\u{200a}') || c == '\u{2028}' || c == '\u{2029}' || c
        == '\u{202f}' || c == '\u{205f}' || c == '\u{3000}'
}

/// Whether `s.trim()` is empty.
pub fn is_blank_str(s: &str) -> (r: bool)
    ensures
        r == is_blank(s@),
{
    let n = s.unicode_len();
    let mut i: usize = 0;
    while i < n
        invariant
            n == s@.len(),
            i <= n,
            forall|j: int| 0 <= j < i ==> is_ws(#[trigger] s@[j]),
        decreases n - i,
    {
        if !char_is_ws(s.get_char(i)) {
            return false;
        }
        i = i + 1;
    }
    true
}

/// Number of leading whitespace characters of `s`.
pub fn leading_ws_len(s: &str) -> (r: usize)
    ensures
        r == leading_ws(s@),
        r <= s@.len(),
{
    let n = s.unicode_len();
    let mut i: usize = 0;
    while i < n && char_is_ws(s.get_char(i))
        invariant
            n == s@.len(),
            i <= n,
            forall|j: int| 0 <= j < i ==> is_ws(#[trigger] s@[j]),
        decreases n - i,
    {
        i = i + 1;
    }
    proof {
        lemma_leading_ws(s@, i as int);
    }
    i
}

/// If the first `k` characters are whitespace and the next one is not (or
/// there is none), then `leading_ws(s) == k`.
pub proof fn lemma_leading_ws(s: Seq<char>, k: int)
    requires
        0 <= k <= s.len(),
        forall|j: int| 0 <= j < k ==> is_ws(#[trigger] s[j]),
        k == s.len() || !is_ws(s[k]),
    ensures
        leading_ws(s) == k,
    decreases k,
{
    if k > 0 {
        assert forall|j: int| 0 <= j < k - 1 implies is_ws(#[trigger] s.drop_first()[j]) by {
            assert(is_ws(s[j + 1]));
        }
        lemma_leading_ws(s.drop_first(), k - 1);
    } else if s.len() > 0 {
        assert(!is_ws(s[0]));
    }
}

/// Whether `p` occurs in `s` at character position `i`.
pub fn occurs_at_str(s: &str, p: &str, i: usize) -> (r: bool)
    ensures
        r == occurs_at(s@, p@, i as int),
{
    let n = s.unicode_len();
    let m = p.unicode_len();
    if i > n || m > n - i {
        return false;
    }
    let mut k: usize = 0;
    while k < m
        invariant
            n == s@.len(),
            m == p@.len(),
            i + m <= n,
            k <= m,
            forall|j: int| 0 <= j < k ==> s@[i + j] == p@[j],
        decreases m - k,
    {
        if s.get_char(i + k) != p.get_char(k) {
            assert(s@.subrange(i as int, i + m)[k as int] != p@[k as int]);
            return false;
        }
        k = k + 1;
    }
    assert(s@.subrange(i as int, i + m) =~= p@);
    true
}

/// `a == b` for string slices.
pub fn eq_str(a: &str, b: &str) -> (r: bool)
    ensures
        r == (a@ == b@),
{
    let la = a.unicode_len();
    let lb = b.unicode_len();
    if la != lb {
        return false;
    }
    let r = occurs_at_str(a, b, 0);
    assert(a@ =~= a@.subrange(0, b@.len() as int));
    r
}

/// `s.starts_with(p)`.
pub fn starts_with_str(s: &str, p: &str) -> (r: bool)
    ensures
        r == starts_with(s@, p@),
{
    occurs_at_str(s, p, 0)
}

/// `s.contains(p)`.
pub fn contains_str(s: &str, p: &str) -> (r: bool)
    ensures
        r == contains(s@, p@),
{
    let n = s.unicode_len();
    let mut i: usize = 0;
    while i < n
        invariant
            n == s@.len(),
            i <= n,
            forall|j: int| 0 <= j < i ==> !occurs_at(s@, p@, j),
        decreases n - i,
    {
        if occurs_at_str(s, p, i) {
            return true;
        }
        i = i + 1;
    }
    if occurs_at_str(s, p, n) {
        return true;
    }
    assert forall|j: int| !occurs_at(s@, p@, j) by {
        if 0 <= j < n {
        }
    }
    false
}

/// Appends the character at position `i` of `s` to `out`.
pub fn push_char_of(out: &mut String, s: &str, i: usize)
    requires
        i < s@.len(),
    ensures
        final(out)@ == old(out)@.push(s@[i as int]),
{
    let _n = s.unicode_len();
    let piece = s.substring_char(i, i + 1);
    assert(piece@ =~= seq![s@[i as int]]);
    out.append(piece);
}

/// The one-character string of a decimal digit.
fn digit_str(d: u64) -> (r: &'static str)
    requires
        d < 10,
    ensures
        r@ == seq![digit_char(d as int)],
{
    proof {
        reveal_strlit("0");
        reveal_strlit("1");
        reveal_strlit("2");
        reveal_strlit("3");
        reveal_strlit("4");
        reveal_strlit("5");
        reveal_strlit("6");
        reveal_strlit("7");
        reveal_strlit("8");
        reveal_strlit("9");
    }
    let r = if d == 0 {
        "0"
    } else if d == 1 {
        "1"
    } else if d == 2 {
        "2"
    } else if d == 3 {
        "3"
    } else if d == 4 {
        "4"
    } else if d == 5 {
        "5"
    } else if d == 6 {
        "6"
    } else if d == 7 {
        "7"
    } else if d == 8 {
        "8"
    } else {
        "9"
    };
    assert(r@ =~= seq![digit_char(d as int)]);
    r
}

/// Appends the decimal rendering of `n` to `out`.
pub fn push_decimal(out: &mut String, n: u64)
    ensures
        final(out)@ == old(out)@ + dec(n as nat),
    decreases n,
{
    if n >= 10 {
        push_decimal(out, n / 10);
        let d = digit_str(n % 10);
        out.append(d);
        assert(dec(n as nat) == dec((n / 10) as nat).push(digit_char((n % 10) as int)));
        assert(final(out)@ =~= old(out)@ + dec(n as nat)) by {
            assert(out@ =~= old(out)@ + dec((n / 10) as nat) + seq![digit_char((n % 10) as int)]);
        }
    } else {
        let d = digit_str(n);
        out.append(d);
        assert(out@ =~= old(out)@ + dec(n as nat));
    }
}

/// `n.to_string()`.
pub fn decimal(n: u64) -> (r: String)
    ensures
        r@ == dec(n as nat),
{
    let mut s = String::new();
    push_decimal(&mut s, n);
    assert(s@ =~= dec(n as nat));
    s
}

/// The rendering of `n` is never empty and never longer than twenty digits.
pub proof fn lemma_dec_len(n: nat)
    ensures
        1 <= dec(n).len(),
        n < 10 ==> dec(n).len() == 1,
        n < 100 ==> dec(n).len() <= 2,
        n < 1000 ==> dec(n).len() <= 3,
        n < 10000 ==> dec(n).len() <= 4,
    decreases n,
{
    if n >= 10 {
        lemma_dec_len(n / 10);
    }
}

/// Appends `format!("{:0w$}", n)` to `out` for `w <= 4`.
pub fn push_decimal_padded(out: &mut String, n: u64, w: usize)
    requires
        w <= 4,
    ensures
        final(out)@ == old(out)@ + dec_padded(n as nat, w as nat),
{
    let mut digits = String::new();
    push_decimal(&mut digits, n);
    assert(digits@ =~= dec(n as nat));
    let len = digits.as_str().unicode_len();
    proof {
        reveal_strlit("0");
        lemma_dec_len(n as nat);
    }
    let ghost before = out@;
    let mut k: usize = len;
    while k < w
        invariant
            len <= k,
            k == len || k <= w,
            len == dec(n as nat).len(),
            w <= 4,
            out@ == before + Seq::new((k - len) as nat, |i: int| '0'),
        decreases w - k,
    {
        proof {
            reveal_strlit("0");
        }
        out.append("0");
        assert(out@ =~= before + Seq::new((k + 1 - len) as nat, |i: int| '0'));
        k = k + 1;
    }
    out.append(digits.as_str());
    if len >= w {
        assert(out@ =~= before + dec_padded(n as nat, w as nat));
    } else {
        assert(out@ =~= before + dec_padded(n as nat, w as nat));
    }
}

/// `s.parse::<u32>().is_ok()`.
pub fn parses_as_u32_str(s: &str) -> (r: bool)
    ensures
        r == parses_as_u32(s@),
{
    match parse_u32(s) {
        Some(_) => true,
        None => false,
    }
}

/// The value of an optional `+` and decimal digits, when it is at most
/// `max`.
pub fn parse_bounded(s: &str, max: u64) -> (r: Option<u64>)
    ensures
        r is Some <==> parses_within(s@, max as nat),
        r is Some ==> r->0 == digits_value(unsigned_digits(s@)),
{
    let n = s.unicode_len();
    let mut start: usize = 0;
    if n > 0 && s.get_char(0) == '+' {
        start = 1;
    }
    let ghost d = unsigned_digits(s@);
    assert(d =~= s@.skip(start as int));
    if start >= n {
        return None;
    }
    let mut i: usize = start;
    let mut value: u64 = 0;
    while i < n
        invariant
            n == s@.len(),
            start <= i <= n,
            d == unsigned_digits(s@),
            d =~= s@.skip(start as int),
            forall|j: int| 0 <= j < i - start ==> is_digit(#[trigger] d[j]),
            value == digits_value(d.take(i - start)),
            value <= max,
        decreases n - i,
    {
        let c = s.get_char(i);
        assert(d[i - start] == c);
        if !('0' <= c && c <= '9') {
            assert(!is_digit(d[i - start]));
            return None;
        }
        let dv = (c as u64) - 48;
        assert(is_digit(d[i - start]));
        assert(d.take(i + 1 - start).drop_last() =~= d.take(i - start));
        assert(d.take(i + 1 - start).last() == c);
        if dv > max || value > (max - dv) / 10 {
            proof {
                let k = i + 1 - start;
                assert(d.take(k).last() == c);
                assert(digits_value(d.take(k)) == digits_value(d.take(k).drop_last()) * 10 + ((c as int - 48) as nat));
                assert(digits_value(d.take(i + 1 - start)) == value * 10 + dv);
                if dv <= max {
                    assert(value * 10 + dv > max) by (nonlinear_arith)
                        requires
                            value > (max - dv) / 10,
                            dv <= 9,
                            dv <= max,
                    ;
                }
                lemma_digits_value_prefix_monotone(d, i + 1 - start);
            }
            return None;
        }
        proof {
            assert(value * 10 + dv <= max) by (nonlinear_arith)
                requires
                    value <= (max - dv) / 10,
                    dv <= 9,
                    dv <= max,
            ;
        }
        value = value * 10 + dv;
        i = i + 1;
    }
    assert(d.take(n - start) =~= d);
    Some(value)
}

/// `s.parse::<u32>().ok()`: the value of an optional `+` and decimal
/// digits that fit in a `u32`.
pub fn parse_u32(s: &str) -> (r: Option<u32>)
    ensures
        r is Some <==> parses_as_u32(s@),
        r is Some ==> r->0 == digits_value(unsigned_digits(s@)),
{
    match parse_bounded(s, u32::MAX as u64) {
        Some(v) => Some(v as u32),
        None => None,
    }
}

/// `s.parse::<u64>().ok()`.
pub fn parse_u64(s: &str) -> (r: Option<u64>)
    ensures
        r is Some <==> parses_within(s@, u64::MAX as nat),
        r is Some ==> r->0 == digits_value(unsigned_digits(s@)),
{
    parse_bounded(s, u64::MAX)
}

/// `s.parse::<usize>().ok()`.
pub fn parse_usize(s: &str) -> (r: Option<usize>)
    ensures
        r is Some <==> parses_within(s@, usize::MAX as nat),
        r is Some ==> r->0 == digits_value(unsigned_digits(s@)),
{
    match parse_bounded(s, usize::MAX as u64) {
        Some(v) => Some(v as usize),
        None => None,
    }
}

/// The value of a digit string is at least the value of each of its prefixes.
pub proof fn lemma_digits_value_prefix_monotone(d: Seq<char>, k: int)
    requires
        0 <= k <= d.len(),
        forall|j: int| 0 <= j < d.len() ==> is_digit(#[trigger] d[j]) || j >= k,
    ensures
        digits_value(d.take(k)) <= digits_value(d) || exists|j: int|
            k <= j < d.len() && !is_digit(#[trigger] d[j]),
    decreases d.len() - k,
{
    if k < d.len() {
        if is_digit(d[k]) {
            assert forall|j: int| 0 <= j < d.len() implies is_digit(#[trigger] d[j]) || j >= k
                + 1 by {}
            lemma_digits_value_prefix_monotone(d, k + 1);
            assert(d.take(k + 1).drop_last() =~= d.take(k));
        }
    } else {
        assert(d.take(k) =~= d);
    }
}

/// What `str::to_lowercase` returns for `s`: the Unicode lowercase mapping
/// of every character.
pub uninterp spec fn spec_to_lowercase(s: Seq<char>) -> Seq<char>;

/// Every character of `s` is ASCII.
pub open spec fn is_ascii_seq(s: Seq<char>) -> bool {
    forall|i: int| 0 <= i < s.len() ==> (#[trigger] s[i] as int) < 128
}

/// Calls `str::to_lowercase`; the result is the named function of `s`. On
/// ASCII text the Unicode lowercase mapping lowers `A`-`Z` and keeps every
/// other character, as `to_ascii_lowercase` does.
#[verifier::external_body]
pub(crate) fn to_lowercase(s: &str) -> (r: String)
    ensures
        r@ == spec_to_lowercase(s@),
        is_ascii_seq(s@) ==> r@ == s@.map_values(|c: char| crate::instance::ascii_lower(c)),
{
    s.to_lowercase()
}


/// Every character of `dec(n)` is a digit, and there is at least one.
pub proof fn lemma_dec_digits(n: nat)
    ensures
        dec(n).len() > 0,
        forall|i: int| 0 <= i < dec(n).len() ==> is_digit(#[trigger] dec(n)[i]),
        digits_value(dec(n)) == n,
    decreases n,
{
    let d = (n % 10) as int;
    assert(0 <= d < 10);
    let c = digit_char(d);
    assert(c as int == d + 48);
    if n >= 10 {
        lemma_dec_digits(n / 10);
        let s = dec(n / 10);
        assert(dec(n) == s.push(c));
        assert(dec(n).drop_last() =~= s);
        assert forall|i: int| 0 <= i < dec(n).len() implies is_digit(#[trigger] dec(n)[i]) by {
            if i < s.len() {
                assert(dec(n)[i] == s[i]);
            }
        }
        assert(digits_value(dec(n)) == digits_value(s) * 10 + d);
        assert((n / 10) * 10 + d == n);
    } else {
        assert(dec(n) == seq![c]);
        assert(dec(n).drop_last() =~= Seq::<char>::empty());
        assert(digits_value(Seq::<char>::empty()) == 0);
        assert(dec(n).last() == c);
        assert(digits_value(dec(n)) == digits_value(dec(n).drop_last()) * 10 + ((c as int - 48) as nat));
        assert(d == n);
    }
}

/// The decimal text of a `u32` parses back to it.
pub proof fn law_decimal_roundtrip(n: u32)
    ensures
        parses_as_u32(dec(n as nat)),
        digits_value(unsigned_digits(dec(n as nat))) == n,
{
    lemma_dec_digits(n as nat);
    let s = dec(n as nat);
    assert(is_digit(s[0]));
    assert(unsigned_digits(s) == s);
}

} // verus!
