//! Verified text utilities: whitespace trimming, string comparison, prefix
//! tests, model-name rewriting, and hexadecimal / decimal rendering. All of
//! them are specified over `Seq<char>` views.

use vstd::prelude::*;
use vstd::string::*;

verus! {

/// Whitespace as this library trims it: the ASCII whitespace characters
/// (space, tab, line feed, vertical tab, form feed, carriage return).
pub open spec fn is_ws(c: char) -> bool {
    c == ' ' || c == '\t' || c == '\n' || c == '\u{b}' || c == '\u{c}' || c == '\r'
}

/// The number of leading whitespace characters of `s`.
pub open spec fn leading_ws(s: Seq<char>) -> int
    decreases s.len(),
{
    if s.len() == 0 {
        0
    } else if is_ws(s[0]) {
        1 + leading_ws(s.skip(1))
    } else {
        0
    }
}

/// The number of trailing whitespace characters of `s`.
pub open spec fn trailing_ws(s: Seq<char>) -> int
    decreases s.len(),
{
    if s.len() == 0 {
        0
    } else if is_ws(s[s.len() - 1]) {
        1 + trailing_ws(s.drop_last())
    } else {
        0
    }
}

/// `s` with surrounding whitespace removed.
pub open spec fn trim_chars(s: Seq<char>) -> Seq<char> {
    if leading_ws(s) == s.len() {
        Seq::empty()
    } else {
        s.subrange(leading_ws(s), s.len() - trailing_ws(s))
    }
}

/// `leading_ws` counts exactly the longest all-whitespace prefix.
pub proof fn lemma_leading_ws(s: Seq<char>)
    ensures
        0 <= leading_ws(s) <= s.len(),
        forall|j: int| 0 <= j < leading_ws(s) ==> is_ws(s[j]),
        leading_ws(s) < s.len() ==> !is_ws(s[leading_ws(s)]),
    decreases s.len(),
{
    if s.len() > 0 && is_ws(s[0]) {
        lemma_leading_ws(s.skip(1));
        assert forall|j: int| 0 <= j < leading_ws(s) implies is_ws(s[j]) by {
            if j > 0 {
                assert(s[j] == s.skip(1)[j - 1]);
            }
        }
        if leading_ws(s) < s.len() {
            assert(s[leading_ws(s)] == s.skip(1)[leading_ws(s.skip(1))]);
        }
    }
}

/// `trailing_ws` counts exactly the longest all-whitespace suffix.
pub proof fn lemma_trailing_ws(s: Seq<char>)
    ensures
        0 <= trailing_ws(s) <= s.len(),
        forall|j: int| s.len() - trailing_ws(s) <= j < s.len() ==> is_ws(s[j]),
        trailing_ws(s) < s.len() ==> !is_ws(s[s.len() - trailing_ws(s) - 1]),
    decreases s.len(),
{
    if s.len() > 0 && is_ws(s[s.len() - 1]) {
        lemma_trailing_ws(s.drop_last());
        assert forall|j: int| s.len() - trailing_ws(s) <= j < s.len() implies is_ws(s[j]) by {
            if j < s.len() - 1 {
                assert(s[j] == s.drop_last()[j]);
            }
        }
        if trailing_ws(s) < s.len() {
            assert(s[s.len() - trailing_ws(s) - 1] == s.drop_last()[s.drop_last().len()
                - trailing_ws(s.drop_last()) - 1]);
        }
    }
}

/// When `s` is not all whitespace, its non-whitespace core is non-empty.
pub proof fn lemma_trim_bounds(s: Seq<char>)
    ensures
        leading_ws(s) < s.len() ==> leading_ws(s) + trailing_ws(s) < s.len(),
{
    lemma_leading_ws(s);
    lemma_trailing_ws(s);
    if leading_ws(s) < s.len() {
        // the character at `leading_ws(s)` is not whitespace, so the
        // trailing run cannot reach it
        if leading_ws(s) + trailing_ws(s) >= s.len() {
            assert(s.len() - trailing_ws(s) <= leading_ws(s) < s.len());
            assert(is_ws(s[leading_ws(s)]));
        }
    }
}

/// Whether `c` is whitespace, as executable code.
pub fn char_is_ws(c: char) -> (r: bool)
    ensures
        r == is_ws(c),
{
    c == ' ' || c == '\t' || c == '\n' || c == '\u{b}' || c == '\u{c}' || c == '\r'
}

/// `s` with surrounding whitespace removed, as executable code.
pub fn trim_str(s: &str) -> (r: String)
    ensures
        r@ == trim_chars(s@),
{
    proof {
        lemma_leading_ws(s@);
        lemma_trailing_ws(s@);
        lemma_trim_bounds(s@);
    }
    let n = s.unicode_len();
    let mut start: usize = 0;
    while start < n && char_is_ws(s.get_char(start))
        invariant
            n == s@.len(),
            start <= n,
            forall|j: int| 0 <= j < start ==> is_ws(s@[j]),
        decreases n - start,
    {
        start = start + 1;
    }
    if start == n {
        assert(leading_ws(s@) == s@.len()) by {
            lemma_leading_ws(s@);
        }
        return String::new();
    }
    assert(start == leading_ws(s@)) by {
        lemma_leading_ws(s@);
    }
    let mut end: usize = n;
    while end > start && char_is_ws(s.get_char(end - 1))
        invariant
            n == s@.len(),
            start <= end <= n,
            forall|j: int| 0 <= j < start ==> is_ws(s@[j]),
            start == leading_ws(s@),
            !is_ws(s@[start as int]),
            forall|j: int| end <= j < n ==> is_ws(s@[j]),
        decreases end,
    {
        end = end - 1;
    }
    assert(end > start) by {
        if end == start {
            assert(is_ws(s@[start as int]));
        }
    }
    assert(n - end == trailing_ws(s@)) by {
        lemma_trailing_ws(s@);
        let t = trailing_ws(s@);
        if n - end < t {
            assert(is_ws(s@[end - 1]));
        }
        if n - end > t {
            assert(t < s@.len());
            assert(is_ws(s@[s@.len() - t - 1]));
        }
    }
    let core = s.substring_char(start, end);
    let r = String::from_str(core);
    assert(r@ =~= trim_chars(s@));
    r
}

/// Character-for-character string equality, as executable code.
pub fn str_eq(a: &str, b: &str) -> (r: bool)
    ensures
        r == (a@ == b@),
{
    let na = a.unicode_len();
    let nb = b.unicode_len();
    if na != nb {
        return false;
    }
    let mut i: usize = 0;
    while i < na
        invariant
            na == a@.len(),
            na == b@.len(),
            i <= na,
            forall|j: int| 0 <= j < i ==> a@[j] == b@[j],
        decreases na - i,
    {
        if a.get_char(i) != b.get_char(i) {
            return false;
        }
        i = i + 1;
    }
    assert(a@ =~= b@);
    true
}

/// Whether `p` is a prefix of `s`, as executable code.
pub fn str_has_prefix(s: &str, p: &str) -> (r: bool)
    ensures
        r == (s@.len() >= p@.len() && s@.take(p@.len() as int) == p@),
{
    let ns = s.unicode_len();
    let np = p.unicode_len();
    if ns < np {
        return false;
    }
    let mut i: usize = 0;
    while i < np
        invariant
            ns == s@.len(),
            np == p@.len(),
            np <= ns,
            i <= np,
            forall|j: int| 0 <= j < i ==> s@[j] == p@[j],
        decreases np - i,
    {
        if s.get_char(i) != p.get_char(i) {
            assert(s@.take(np as int)[i as int] != p@[i as int]);
            return false;
        }
        i = i + 1;
    }
    assert(s@.take(np as int) =~= p@);
    true
}

/// `s` with its first occurrence of `from` replaced by `to`; `s` itself when
/// `from` does not occur.
pub open spec fn replace_first(s: Seq<char>, from: char, to: char) -> Seq<char>
    decreases s.len(),
{
    if s.len() == 0 {
        s
    } else if s[0] == from {
        seq![to] + s.skip(1)
    } else {
        seq![s[0]] + replace_first(s.skip(1), from, to)
    }
}

/// When `from` does not occur in `s`, replacement changes nothing.
pub proof fn lemma_replace_first_absent(s: Seq<char>, from: char, to: char)
    requires
        forall|j: int| 0 <= j < s.len() ==> s[j] != from,
    ensures
        replace_first(s, from, to) == s,
    decreases s.len(),
{
    if s.len() > 0 {
        lemma_replace_first_absent(s.skip(1), from, to);
        assert(seq![s[0]] + s.skip(1) =~= s);
    }
}

/// When the first occurrence of `from` is at `i`, replacement splices `to`
/// in at `i` and keeps everything else.
pub proof fn lemma_replace_first_at(s: Seq<char>, i: int, from: char, to: char)
    requires
        0 <= i < s.len(),
        s[i] == from,
        forall|j: int| 0 <= j < i ==> s[j] != from,
    ensures
        replace_first(s, from, to) == s.take(i) + seq![to] + s.skip(i + 1),
    decreases i,
{
    if i == 0 {
        assert(seq![to] + s.skip(1) =~= s.take(0) + seq![to] + s.skip(1));
    } else {
        assert(s.skip(1)[i - 1] == s[i]);
        assert(forall|j: int| 0 <= j < i - 1 ==> s.skip(1)[j] == s[j + 1]);
        lemma_replace_first_at(s.skip(1), i - 1, from, to);
        assert(seq![s[0]] + (s.skip(1).take(i - 1) + seq![to] + s.skip(1).skip(i)) =~= s.take(i)
            + seq![to] + s.skip(i + 1));
    }
}

/// The inbound wire form of a model name maps the first hyphen to a colon
/// (the form Ollama clients show, like `deepseek:chat`).
pub fn parse(model_name: &str) -> (r: String)
    ensures
        r@ == replace_first(model_name@, '-', ':'),
{
    proof {
        reveal_strlit(":");
    }
    replace_first_str(model_name, '-', ":")
}

/// The gateway's canonical model name maps the first colon back to a hyphen
/// (`deepseek:chat` becomes `deepseek-chat`).
pub fn canonical_model_name(model_name: &str) -> (r: String)
    ensures
        r@ == replace_first(model_name@, ':', '-'),
{
    proof {
        reveal_strlit("-");
    }
    replace_first_str(model_name, ':', "-")
}

/// Replaces the first occurrence of `from` with the one-character string
/// `to_str`, as executable code.
fn replace_first_str(s: &str, from: char, to_str: &str) -> (r: String)
    requires
        to_str@.len() == 1,
    ensures
        r@ == replace_first(s@, from, to_str@[0]),
{
    let n = s.unicode_len();
    let mut i: usize = 0;
    while i < n && s.get_char(i) != from
        invariant
            n == s@.len(),
            i <= n,
            forall|j: int| 0 <= j < i ==> s@[j] != from,
        decreases n - i,
    {
        i = i + 1;
    }
    if i == n {
        proof {
            lemma_replace_first_absent(s@, from, to_str@[0]);
        }
        return String::from_str(s);
    }
    proof {
        lemma_replace_first_at(s@, i as int, from, to_str@[0]);
    }
    let mut r = String::from_str(s.substring_char(0, i));
    r.append(to_str);
    r.append(s.substring_char(i + 1, n));
    assert(to_str@ =~= seq![to_str@[0]]);
    assert(r@ =~= s@.take(i as int) + seq![to_str@[0]] + s@.skip(i + 1));
    r
}

/// The lower-case hexadecimal digit for a value below 16.
pub open spec fn hex_digit(v: int) -> char {
    if v == 0 { '0' }
    else if v == 1 { '1' }
    else if v == 2 { '2' }
    else if v == 3 { '3' }
    else if v == 4 { '4' }
    else if v == 5 { '5' }
    else if v == 6 { '6' }
    else if v == 7 { '7' }
    else if v == 8 { '8' }
    else if v == 9 { '9' }
    else if v == 10 { 'a' }
    else if v == 11 { 'b' }
    else if v == 12 { 'c' }
    else if v == 13 { 'd' }
    else if v == 14 { 'e' }
    else { 'f' }
}

/// The lower-case hexadecimal rendering of a byte sequence: two digits per
/// byte, high nibble first.
pub open spec fn hex_of(bytes: Seq<u8>) -> Seq<char> {
    Seq::new(
        bytes.len() * 2,
        |i: int| if i % 2 == 0 {
            hex_digit(bytes[i / 2] as int / 16)
        } else {
            hex_digit(bytes[i / 2] as int % 16)
        },
    )
}

/// The one-character string for a hexadecimal digit value.
pub(crate) fn hex_digit_str(v: u8) -> (d: &'static str)
    requires
        v < 16,
    ensures
        d@ =~= seq![hex_digit(v as int)],
{
    let d: &'static str = if v == 0 { "0" }
    else if v == 1 { "1" }
    else if v == 2 { "2" }
    else if v == 3 { "3" }
    else if v == 4 { "4" }
    else if v == 5 { "5" }
    else if v == 6 { "6" }
    else if v == 7 { "7" }
    else if v == 8 { "8" }
    else if v == 9 { "9" }
    else if v == 10 { "a" }
    else if v == 11 { "b" }
    else if v == 12 { "c" }
    else if v == 13 { "d" }
    else if v == 14 { "e" }
    else { "f" };
    proof {
        reveal_strlit("0");
        reveal_strlit("1");
        reveal_strlit("2");
        reveal_strlit("3");
        reveal_strlit("4");
        reveal_strlit("5");
        reveal_strlit("6");
        reveal_strlit("7");
        reveal_strlit("8");
        reveal_strlit("9");
        reveal_strlit("a");
        reveal_strlit("b");
        reveal_strlit("c");
        reveal_strlit("d");
        reveal_strlit("e");
        reveal_strlit("f");
    }
    d
}

/// The lower-case hexadecimal rendering of `bytes`, as executable code.
pub fn to_hex(bytes: &[u8]) -> (r: String)
    ensures
        r@ == hex_of(bytes@),
{
    let n = bytes.len();
    let mut r = String::new();
    let mut k: usize = 0;
    while k < n
        invariant
            n == bytes@.len(),
            k <= n,
            r@ == hex_of(bytes@).take(2 * k),
        decreases n - k,
    {
        let b = bytes[k];
        r.append(hex_digit_str(b / 16));
        r.append(hex_digit_str(b % 16));
        k = k + 1;
        assert(r@ =~= hex_of(bytes@).take(2 * k));
    }
    assert(r@ =~= hex_of(bytes@));
    r
}

/// The decimal digit character for a value below 10.
pub open spec fn dec_digit(v: int) -> char {
    hex_digit(v)
}

/// The decimal rendering of a natural number, without leading zeros.
pub open spec fn decimal_of(n: int) -> Seq<char>
    decreases n,
{
    if n < 10 {
        seq![dec_digit(n)]
    } else {
        decimal_of(n / 10) + seq![dec_digit(n % 10)]
    }
}

/// The decimal rendering of a 16-bit number, as executable code.
pub fn decimal_string(n: u16) -> (r: String)
    ensures
        r@ == decimal_of(n as int),
    decreases n,
{
    if n < 10 {
        String::from_str(hex_digit_str(n as u8))
    } else {
        let mut r = decimal_string(n / 10);
        r.append(hex_digit_str((n % 10) as u8));
        r
    }
}

} // verus!
