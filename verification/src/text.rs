//! Character-level helpers: decimal and hexadecimal rendering, decimal
//! parsing, ASCII case mapping and conversions between `str`/`String` and
//! character vectors.
use vstd::prelude::*;
use vstd::std_specs::iter::IteratorSpec;

verus! {

// ---------------------------------------------------------------------------
// Digits
// ---------------------------------------------------------------------------

/// The character for a digit value `d < 16` (uppercase for 10..15).
pub open spec fn digit_char(d: nat) -> char {
    if d < 10 {
        (d + 48) as char
    } else {
        (d + 55) as char
    }
}

/// Value of an ASCII decimal digit character.
pub open spec fn digit_value(c: char) -> nat {
    (c as int - 48) as nat
}

/// `c` is an ASCII decimal digit.
pub open spec fn is_digit_spec(c: char) -> bool {
    '0' <= c && c <= '9'
}

/// Decimal rendering of a natural number, most significant digit first.
pub open spec fn nat_digits(n: nat) -> Seq<char>
    decreases n,
{
    if n < 10 {
        seq![digit_char(n)]
    } else {
        nat_digits(n / 10).push(digit_char(n % 10))
    }
}

/// Uppercase hexadecimal rendering of a natural number, most significant digit first.
pub open spec fn nat_hex_digits(n: nat) -> Seq<char>
    decreases n,
{
    if n < 16 {
        seq![digit_char(n)]
    } else {
        nat_hex_digits(n / 16).push(digit_char(n % 16))
    }
}

/// Decimal rendering of an integer: a leading `-` for negative values.
pub open spec fn int_decimal(i: int) -> Seq<char> {
    if i < 0 {
        seq!['-'] + nat_digits((-i) as nat)
    } else {
        nat_digits(i as nat)
    }
}

/// Value of a sequence of decimal digits (empty sequence has value 0).
pub open spec fn digits_value(s: Seq<char>) -> nat
    decreases s.len(),
{
    if s.len() == 0 {
        0
    } else {
        digits_value(s.drop_last()) * 10 + digit_value(s.last())
    }
}

/// All characters of `s` are ASCII decimal digits.
pub open spec fn all_digits(s: Seq<char>) -> bool {
    forall|i: int| 0 <= i < s.len() ==> #[trigger] is_digit_spec(s[i])
}

fn digit_to_char(d: u64) -> (c: char)
    requires
        d < 16,
    ensures
        c == digit_char(d as nat),
{
    match d {
        0 => '0',
        1 => '1',
        2 => '2',
        3 => '3',
        4 => '4',
        5 => '5',
        6 => '6',
        7 => '7',
        8 => '8',
        9 => '9',
        10 => 'A',
        11 => 'B',
        12 => 'C',
        13 => 'D',
        14 => 'E',
        _ => 'F',
    }
}

/// Append the decimal digits of `n` to `out`.
pub fn push_u64_decimal(out: &mut Vec<char>, n: u64)
    ensures
        final(out)@ == old(out)@ + nat_digits(n as nat),
    decreases n,
{
    if n < 10 {
        out.push(digit_to_char(n));
        assert(nat_digits(n as nat) == seq![digit_char(n as nat)]);
    } else {
        push_u64_decimal(out, n / 10);
        out.push(digit_to_char(n % 10));
    }
}

/// Append the uppercase hexadecimal digits of `n` to `out`.
pub fn push_u64_hex(out: &mut Vec<char>, n: u64)
    ensures
        final(out)@ == old(out)@ + nat_hex_digits(n as nat),
    decreases n,
{
    if n < 16 {
        out.push(digit_to_char(n));
        assert(nat_hex_digits(n as nat) == seq![digit_char(n as nat)]);
    } else {
        push_u64_hex(out, n / 16);
        out.push(digit_to_char(n % 16));
    }
}

/// Absolute value of an `i64` as a `u64` (exact, also for `i64::MIN`).
pub fn abs_u64(n: i64) -> (r: u64)
    ensures
        r as int == (if n < 0 { -(n as int) } else { n as int }),
{
    if n < 0 {
        (0i128 - (n as i128)) as u64
    } else {
        n as u64
    }
}

/// Append the decimal rendering of `n` (with a `-` sign when negative).
pub fn push_i64_decimal(out: &mut Vec<char>, n: i64)
    ensures
        final(out)@ == old(out)@ + int_decimal(n as int),
{
    if n < 0 {
        out.push('-');
    }
    let m: u64 = abs_u64(n);
    push_u64_decimal(out, m);
    assert(final(out)@ =~= old(out)@ + int_decimal(n as int));
}

/// Decimal rendering of `n` as a character vector.
pub fn i64_to_decimal(n: i64) -> (r: Vec<char>)
    ensures
        r@ == int_decimal(n as int),
{
    let mut v: Vec<char> = Vec::new();
    push_i64_decimal(&mut v, n);
    assert(v@ =~= int_decimal(n as int));
    v
}

/// Every character of a decimal rendering is a digit.
pub proof fn lemma_nat_digits_all_digits(n: nat)
    ensures
        all_digits(nat_digits(n)),
        nat_digits(n).len() >= 1,
    decreases n,
{
    if n >= 10 {
        lemma_nat_digits_all_digits(n / 10);
        let s = nat_digits(n);
        assert forall|i: int| 0 <= i < s.len() implies #[trigger] is_digit_spec(s[i]) by {
            if i < s.len() - 1 {
                assert(s[i] == nat_digits(n / 10)[i]);
            }
        }
    }
}

/// Reading back the decimal rendering of `n` gives `n`.
pub proof fn lemma_digits_value_nat_digits(n: nat)
    ensures
        digits_value(nat_digits(n)) == n,
    decreases n,
{
    if n < 10 {
        let s = nat_digits(n);
        assert(s.drop_last() =~= Seq::<char>::empty());
        assert(digit_value(digit_char(n)) == n);
        assert(digits_value(s.drop_last()) == 0);
        assert(s.last() == digit_char(n));
    } else {
        lemma_digits_value_nat_digits(n / 10);
        let s = nat_digits(n);
        assert(s.drop_last() =~= nat_digits(n / 10));
        assert(digit_value(digit_char(n % 10)) == n % 10);
        assert(s.last() == digit_char(n % 10));
        assert(digits_value(s) == digits_value(nat_digits(n / 10)) * 10 + n % 10);
    }
}

/// Parse a non-empty sequence of decimal digits as an `i64`.
///
/// Returns `None` exactly when the value exceeds `i64::MAX`.
pub fn parse_digits_i64(s: &Vec<char>) -> (r: Option<i64>)
    requires
        all_digits(s@),
    ensures
        r is Some <==> digits_value(s@) <= i64::MAX,
        r matches Some(v) ==> v as int == digits_value(s@),
{
    let mut acc: i64 = 0;
    let mut i: usize = 0;
    while i < s.len()
        invariant
            i <= s.len(),
            all_digits(s@),
            acc as int == digits_value(s@.take(i as int)),
        decreases s.len() - i,
    {
        assert(s@.take(i as int + 1).drop_last() =~= s@.take(i as int));
        assert(is_digit_spec(s@[i as int]));
        let d: i64 = ((s[i] as u32) - 48) as i64;
        proof {
            lemma_digits_value_prefix_monotone(s@, i as int + 1);
        }
        if acc > (i64::MAX - d) / 10 {
            proof {
                lemma_digits_value_prefix_monotone(s@, i as int + 1);
            }
            return None;
        }
        acc = acc * 10 + d;
        i = i + 1;
    }
    assert(s@.take(s.len() as int) =~= s@);
    Some(acc)
}

/// The value of a digit sequence is at least the value of any prefix.
pub proof fn lemma_digits_value_prefix_monotone(s: Seq<char>, k: int)
    requires
        0 <= k <= s.len(),
    ensures
        digits_value(s.take(k)) <= digits_value(s),
    decreases s.len(),
{
    if k < s.len() {
        assert(s.drop_last().take(k) =~= s.take(k));
        lemma_digits_value_prefix_monotone(s.drop_last(), k);
    } else {
        assert(s.take(k) =~= s);
    }
}

// ---------------------------------------------------------------------------
// ASCII case and classes
// ---------------------------------------------------------------------------

/// ASCII uppercase of a single character; other characters are unchanged.
pub open spec fn upper_char(c: char) -> char {
    if 'a' <= c && c <= 'z' {
        ((c as int) - 32) as char
    } else {
        c
    }
}

/// ASCII lowercase of a single character; other characters are unchanged.
pub open spec fn lower_char(c: char) -> char {
    if 'A' <= c && c <= 'Z' {
        ((c as int) + 32) as char
    } else {
        c
    }
}

/// ASCII uppercase of a character sequence.
pub open spec fn upper_seq(s: Seq<char>) -> Seq<char> {
    Seq::new(s.len(), |i: int| upper_char(s[i]))
}

/// ASCII lowercase of a character sequence.
pub open spec fn lower_seq(s: Seq<char>) -> Seq<char> {
    Seq::new(s.len(), |i: int| lower_char(s[i]))
}

pub fn to_upper_char(c: char) -> (r: char)
    ensures
        r == upper_char(c),
{
    if 'a' <= c && c <= 'z' {
        (((c as u32) - 32) as u8) as char
    } else {
        c
    }
}

pub fn to_lower_char(c: char) -> (r: char)
    ensures
        r == lower_char(c),
{
    if 'A' <= c && c <= 'Z' {
        (((c as u32) + 32) as u8) as char
    } else {
        c
    }
}

pub fn is_ascii_digit(c: char) -> (r: bool)
    ensures
        r == is_digit_spec(c),
{
    '0' <= c && c <= '9'
}

/// Whether `char::is_alphabetic` holds of a character (Unicode `Alphabetic` property).
pub uninterp spec fn unicode_alphabetic(c: char) -> bool;

/// Whether `char::is_alphanumeric` holds of a character (Unicode `Alphabetic` or `Numeric`).
pub uninterp spec fn unicode_alphanumeric(c: char) -> bool;

/// Calls `char::is_alphabetic`; the result is the Unicode `Alphabetic`
/// property of `c`, named by `unicode_alphabetic`. Among ASCII characters
/// exactly the letters have it.
#[verifier::external_body]
pub(crate) fn char_is_alphabetic(c: char) -> (r: bool)
    ensures
        r == unicode_alphabetic(c),
        (c as int) < 0x80 ==> (r <==> ('a' <= c <= 'z' || 'A' <= c <= 'Z')),
{
    c.is_alphabetic()
}

/// Calls `char::is_alphanumeric`; the result is the Unicode
/// `Alphabetic`/`Numeric` property of `c`, named by `unicode_alphanumeric`.
/// Among ASCII characters exactly the letters and digits have it.
#[verifier::external_body]
pub(crate) fn char_is_alphanumeric(c: char) -> (r: bool)
    ensures
        r == unicode_alphanumeric(c),
        (c as int) < 0x80 ==> (r <==> ('a' <= c <= 'z' || 'A' <= c <= 'Z' || '0' <= c <= '9')),
{
    c.is_alphanumeric()
}

/// Number of bytes the characters of `s` occupy in UTF-8.
pub open spec fn utf8_seq_len(s: Seq<char>) -> nat
    decreases s.len(),
{
    if s.len() == 0 {
        0
    } else {
        utf8_seq_len(s.drop_last()) + utf8_len(s.last())
    }
}

/// The UTF-8 length of a prefix grows by the characters that follow it.
pub proof fn lemma_utf8_seq_len_split(s: Seq<char>, a: int, b: int)
    requires
        0 <= a <= b <= s.len(),
    ensures
        utf8_seq_len(s.take(b)) == utf8_seq_len(s.take(a)) + utf8_seq_len(s.subrange(a, b)),
        utf8_seq_len(s.take(b)) <= 4 * b,
    decreases b - a,
{
    if a == b {
        assert(s.subrange(a, b) =~= Seq::<char>::empty());
        lemma_utf8_seq_len_bound(s, b);
    } else {
        lemma_utf8_seq_len_split(s, a, b - 1);
        assert(s.take(b).drop_last() =~= s.take(b - 1));
        assert(s.subrange(a, b).drop_last() =~= s.subrange(a, b - 1));
        lemma_utf8_seq_len_bound(s, b);
    }
}

proof fn lemma_utf8_seq_len_bound(s: Seq<char>, b: int)
    requires
        0 <= b <= s.len(),
    ensures
        utf8_seq_len(s.take(b)) <= 4 * b,
    decreases b,
{
    if b > 0 {
        assert(s.take(b).drop_last() =~= s.take(b - 1));
        lemma_utf8_seq_len_bound(s, b - 1);
    }
}

/// Number of bytes `c` occupies in UTF-8.
pub open spec fn utf8_len(c: char) -> nat {
    if (c as int) < 0x80 {
        1
    } else if (c as int) < 0x800 {
        2
    } else if (c as int) < 0x10000 {
        3
    } else {
        4
    }
}

/// Number of bytes `c` occupies in UTF-8.
pub fn char_utf8_len(c: char) -> (r: usize)
    ensures
        r == utf8_len(c),
{
    let v: u32 = c as u32;
    if v < 0x80 {
        1
    } else if v < 0x800 {
        2
    } else if v < 0x10000 {
        3
    } else {
        4
    }
}

// ---------------------------------------------------------------------------
// Strings
// ---------------------------------------------------------------------------

/// Calls `String::push`: appends one character.
#[verifier::external_body]
pub(crate) fn string_push(s: &mut String, c: char)
    ensures
        final(s)@ == old(s)@.push(c),
{
    s.push(c);
}

/// Build a `String` holding exactly the characters of `v`.
pub fn chars_to_string(v: &Vec<char>) -> (r: String)
    ensures
        r@ == v@,
{
    let mut s = String::new();
    let mut i: usize = 0;
    while i < v.len()
        invariant
            i <= v.len(),
            s@ == v@.take(i as int),
        decreases v.len() - i,
    {
        string_push(&mut s, v[i]);
        assert(v@.take(i as int + 1) =~= v@.take(i as int).push(v@[i as int]));
        i = i + 1;
    }
    assert(v@.take(v.len() as int) =~= v@);
    s
}

/// The characters of a string slice, in order.
pub fn str_to_chars(s: &str) -> (r: Vec<char>)
    ensures
        r@ == s@,
{
    let mut v: Vec<char> = Vec::new();
    for c in it: s.chars()
        invariant
            v@ == it.seq().take(it.index()),
    {
        v.push(c);
        assert(it.seq().take(it.index() + 1) =~= it.seq().take(it.index()).push(c));
    }
    v
}

} // verus!

verus! {

/// ASCII uppercase copy of a string.
pub fn upper_string(s: &str) -> (r: String)
    ensures
        r@ == upper_seq(s@),
{
    let cs = str_to_chars(s);
    let mut out: Vec<char> = Vec::new();
    let mut i: usize = 0;
    while i < cs.len()
        invariant
            i <= cs.len(),
            cs@ == s@,
            out@ == upper_seq(cs@.take(i as int)),
        decreases cs.len() - i,
    {
        out.push(to_upper_char(cs[i]));
        assert(upper_seq(cs@.take(i as int + 1)) =~= upper_seq(cs@.take(i as int)).push(
            upper_char(cs@[i as int]),
        ));
        i = i + 1;
    }
    assert(cs@.take(cs.len() as int) =~= cs@);
    chars_to_string(&out)
}

/// ASCII lowercase copy of a string.
pub fn lower_string(s: &str) -> (r: String)
    ensures
        r@ == lower_seq(s@),
{
    let cs = str_to_chars(s);
    let mut out: Vec<char> = Vec::new();
    let mut i: usize = 0;
    while i < cs.len()
        invariant
            i <= cs.len(),
            cs@ == s@,
            out@ == lower_seq(cs@.take(i as int)),
        decreases cs.len() - i,
    {
        out.push(to_lower_char(cs[i]));
        assert(lower_seq(cs@.take(i as int + 1)) =~= lower_seq(cs@.take(i as int)).push(
            lower_char(cs@[i as int]),
        ));
        i = i + 1;
    }
    assert(cs@.take(cs.len() as int) =~= cs@);
    chars_to_string(&out)
}

/// Concatenation of two strings.
pub fn concat_strings(a: &str, b: &str) -> (r: String)
    ensures
        r@ == a@ + b@,
{
    let mut s = a.to_owned();
    s.append(b);
    s
}

} // verus!

verus! {

/// Whether a character has the Unicode `White_Space` property, as
/// `char::is_whitespace` tests it: tab, line feed, vertical tab, form feed,
/// carriage return, space, U+0085, U+00A0, U+1680, U+2000..=U+200A,
/// U+2028, U+2029, U+202F, U+205F and U+3000.
pub open spec fn unicode_whitespace(c: char) -> bool {
    let v = c as int;
    ||| 0x09 <= v <= 0x0D
    ||| v == 0x20
    ||| v == 0x85
    ||| v == 0xA0
    ||| v == 0x1680
    ||| 0x2000 <= v <= 0x200A
    ||| v == 0x2028
    ||| v == 0x2029
    ||| v == 0x202F
    ||| v == 0x205F
    ||| v == 0x3000
}

/// Whether `c` is whitespace (the Unicode `White_Space` property).
pub fn char_is_whitespace(c: char) -> (r: bool)
    ensures
        r == unicode_whitespace(c),
{
    let v: u32 = c as u32;
    (0x09 <= v && v <= 0x0D) || v == 0x20 || v == 0x85 || v == 0xA0 || v == 0x1680 || (0x2000 <= v && v <= 0x200A)
        || v == 0x2028 || v == 0x2029 || v == 0x202F || v == 0x205F || v == 0x3000
}

/// `s` without its leading whitespace.
pub open spec fn trim_front(s: Seq<char>) -> Seq<char>
    decreases s.len(),
{
    if s.len() > 0 && unicode_whitespace(s[0]) {
        trim_front(s.drop_first())
    } else {
        s
    }
}

/// `s` without its trailing whitespace.
pub open spec fn trim_back(s: Seq<char>) -> Seq<char>
    decreases s.len(),
{
    if s.len() > 0 && unicode_whitespace(s.last()) {
        trim_back(s.drop_last())
    } else {
        s
    }
}

/// `s` without leading and trailing whitespace (as `str::trim`).
pub open spec fn trim_seq(s: Seq<char>) -> Seq<char> {
    trim_back(trim_front(s))
}

/// The characters of `s` without leading and trailing whitespace.
pub fn trim_chars(s: &Vec<char>) -> (r: Vec<char>)
    ensures
        r@ == trim_seq(s@),
{
    let mut a: usize = 0;
    assert(s@.subrange(0, s@.len() as int) =~= s@);
    while a < s.len() && char_is_whitespace(s[a])
        invariant
            a <= s@.len(),
            trim_front(s@) == trim_front(s@.subrange(a as int, s@.len() as int)),
        decreases s@.len() - a,
    {
        assert(s@.subrange(a as int, s@.len() as int).drop_first() =~= s@.subrange(
            a as int + 1,
            s@.len() as int,
        ));
        a = a + 1;
    }
    let ghost f = s@.subrange(a as int, s@.len() as int);
    assert(trim_front(s@) == f);
    let mut b: usize = s.len();
    while b > a && char_is_whitespace(s[b - 1])
        invariant
            a <= b <= s@.len(),
            f == s@.subrange(a as int, s@.len() as int),
            trim_back(f) == trim_back(s@.subrange(a as int, b as int)),
        decreases b,
    {
        assert(s@.subrange(a as int, b as int).drop_last() =~= s@.subrange(a as int, b as int - 1));
        b = b - 1;
    }
    let mut out: Vec<char> = Vec::new();
    let mut i: usize = a;
    while i < b
        invariant
            a <= i <= b,
            b <= s@.len(),
            out@ == s@.subrange(a as int, i as int),
        decreases b - i,
    {
        out.push(s[i]);
        assert(s@.subrange(a as int, i as int + 1) =~= s@.subrange(a as int, i as int).push(s@[i as int]));
        i = i + 1;
    }
    out
}

/// The value of a signed decimal text, as `i64::from_str` reads it: an
/// optional `+` or `-` followed by at least one digit.
pub open spec fn signed_text_value(s: Seq<char>) -> Option<int> {
    if s.len() > 0 && (s[0] == '-' || s[0] == '+') {
        let d = s.drop_first();
        if d.len() > 0 && all_digits(d) {
            if s[0] == '-' {
                Some(-(digits_value(d) as int))
            } else {
                Some(digits_value(d) as int)
            }
        } else {
            None
        }
    } else if s.len() > 0 && all_digits(s) {
        Some(digits_value(s) as int)
    } else {
        None
    }
}

/// Whether `v` is the value of an `i64`.
pub open spec fn in_i64(v: int) -> bool {
    i64::MIN <= v <= i64::MAX
}

/// Value of a digit sequence if it is at most `limit`.
fn parse_digits_up_to(v: &Vec<char>, start: usize, limit: u64) -> (r: Option<u64>)
    requires
        limit >= 9,
        start <= v@.len(),
        all_digits(v@.subrange(start as int, v@.len() as int)),
    ensures
        r is Some <==> digits_value(v@.subrange(start as int, v@.len() as int)) <= limit,
        r matches Some(x) ==> x as int == digits_value(v@.subrange(start as int, v@.len() as int)),
{
    let ghost s = v@;
    let ghost d = s.subrange(start as int, s.len() as int);
    let mut acc: u64 = 0;
    let mut i: usize = start;
    while i < v.len()
        invariant
            start <= i <= v@.len(),
            v@ == s,
            d == s.subrange(start as int, s.len() as int),
            all_digits(d),
            acc as int == digits_value(d.take(i - start)),
            acc <= limit,
            limit >= 9,
        decreases v@.len() - i,
    {
        assert(d.take(i - start + 1).drop_last() =~= d.take(i - start));
        assert(d[i - start] == s[i as int]);
        assert(is_digit_spec(d[i - start]));
        let dg: u64 = ((v[i] as u32) - 48) as u64;
        proof {
            lemma_digits_value_prefix_monotone(d, i - start + 1);
        }
        if acc > (limit - dg) / 10 {
            assert(acc * 10 + dg > limit) by (nonlinear_arith)
                requires
                    acc > (limit - dg) / 10,
                    dg <= 9,
                    dg <= limit || true,
            ;
            return None;
        }
        assert(acc * 10 + dg <= limit) by (nonlinear_arith)
            requires
                acc <= (limit - dg) / 10,
                dg <= limit,
        ;
        acc = acc * 10 + dg;
        i = i + 1;
    }
    assert(d.take(d.len() as int) =~= d);
    Some(acc)
}

/// A text with a non-digit after its optional sign has no value.
proof fn lemma_non_digit_no_value(s: Seq<char>, start: int, i: int)
    requires
        s.len() > 0,
        start == (if s[0] == '-' || s[0] == '+' { 1int } else { 0int }),
        start <= i < s.len(),
        !is_digit_spec(s[i]),
    ensures
        signed_text_value(s) is None,
{
    let d = s.drop_first();
    if start == 1 {
        assert(d[i - 1] == s[i]);
        assert(!all_digits(d));
    } else {
        assert(!all_digits(s));
    }
}

/// Reading back what PUTDEC writes gives the number: the decimal text of
/// every `i64` is a valid signed decimal whose value is that number.
pub proof fn law_decimal_round_trip(n: i64)
    ensures
        signed_text_value(int_decimal(n as int)) == Some(n as int),
{
    if n < 0 {
        let m: nat = (-(n as int)) as nat;
        let s = int_decimal(n as int);
        lemma_nat_digits_all_digits(m);
        lemma_digits_value_nat_digits(m);
        assert(s.drop_first() =~= nat_digits(m));
        assert(s[0] == '-');
    } else {
        let m: nat = n as nat;
        lemma_nat_digits_all_digits(m);
        lemma_digits_value_nat_digits(m);
        let s = nat_digits(m);
        assert(is_digit_spec(s[0]));
    }
}

/// Parse a signed decimal text as `i64::from_str` does.
pub fn parse_i64_text(s: &Vec<char>) -> (r: Option<i64>)
    ensures
        r is Some <==> (signed_text_value(s@) matches Some(v) && in_i64(v)),
        r matches Some(x) ==> signed_text_value(s@) == Some(x as int),
{
    let n = s.len();
    if n == 0 {
        return None;
    }
    let c0 = s[0];
    let signed = c0 == '-' || c0 == '+';
    let start: usize = if signed { 1 } else { 0 };
    if start >= n {
        return None;
    }
    let ghost d = s@.subrange(start as int, n as int);
    proof {
        if signed {
            assert(d =~= s@.drop_first());
        } else {
            assert(d =~= s@);
        }
    }
    let mut i: usize = start;
    while i < n
        invariant
            start <= i <= n,
            n == s@.len(),
            d == s@.subrange(start as int, n as int),
            n > 0,
            c0 == s@[0],
            signed == (c0 == '-' || c0 == '+'),
            signed ==> d == s@.drop_first(),
            !signed ==> d == s@,
            forall|j: int| start <= j < i ==> is_digit_spec(#[trigger] s@[j]),
        decreases n - i,
    {
        if !is_ascii_digit(s[i]) {
            proof {
                lemma_non_digit_no_value(s@, start as int, i as int);
            }
            return None;
        }
        i = i + 1;
    }
    assert(all_digits(d)) by {
        assert forall|j: int| 0 <= j < d.len() implies #[trigger] is_digit_spec(d[j]) by {
            assert(d[j] == s@[j + start]);
        }
    }
    if c0 == '-' {
        match parse_digits_up_to(s, start, 0x8000_0000_0000_0000u64) {
            Some(x) => {
                if x == 0x8000_0000_0000_0000u64 {
                    Some(i64::MIN)
                } else {
                    Some(-(x as i64))
                }
            },
            None => None,
        }
    } else {
        match parse_digits_up_to(s, start, 0x7FFF_FFFF_FFFF_FFFFu64) {
            Some(x) => Some(x as i64),
            None => None,
        }
    }
}

} // verus!
