//! Strings as sequences of characters.
use vstd::prelude::*;
use vstd::utf8::{decode_utf8, encode_utf8, valid_utf8};

verus! {

/// `String::push`: appends one character.
pub assume_specification[ std::string::String::push ](s: &mut std::string::String, c: char)
    ensures
        final(s)@ == old(s)@.push(c),
;

/// Whether a character has the Unicode `White_Space` property.
pub open spec fn char_whitespace(c: char) -> bool {
    ||| '\u{9}' <= c && c <= '\u{d}'
    ||| c == '\u{20}'
    ||| c == '\u{85}'
    ||| c == '\u{a0}'
    ||| c == '\u{1680}'
    ||| '\u{2000}' <= c && c <= '\u{200a}'
    ||| c == '\u{2028}'
    ||| c == '\u{2029}'
    ||| c == '\u{202f}'
    ||| c == '\u{205f}'
    ||| c == '\u{3000}'
}

/// Whether a character has the Unicode `White_Space` property.
pub fn is_whitespace(c: char) -> (r: bool)
    ensures
        r == char_whitespace(c),
{
    ('\u{9}' <= c && c <= '\u{d}') || c == '\u{20}' || c == '\u{85}' || c == '\u{a0}' || c
        == '\u{1680}' || ('\u{2000}' <= c && c <= '\u{200a}') || c == '\u{2028}' || c
        == '\u{2029}' || c == '\u{202f}' || c == '\u{205f}' || c == '\u{3000}'
}

/// The characters of an optional string.
pub open spec fn opt_chars(s: Option<&str>) -> Option<Seq<char>> {
    match s {
        Some(s) => Some(s@),
        None => None,
    }
}

/// The characters of a string.
pub fn chars_of(s: &str) -> (r: Vec<char>)
    ensures
        r@ == s@,
{
    let mut out: Vec<char> = Vec::new();
    for c in it: s.chars()
        invariant
            out@ == it.seq().take(it.index()),
            it.seq() == s@,
    {
        out.push(c);
    }
    assert(s@.take(s@.len() as int) =~= s@);
    out
}

/// The string of the characters in `lo..hi`.
pub fn string_of(chars: &Vec<char>, lo: usize, hi: usize) -> (r: String)
    requires
        lo <= hi <= chars.len(),
    ensures
        r@ == chars@.subrange(lo as int, hi as int),
{
    let mut out = String::new();
    let mut i: usize = lo;
    while i < hi
        invariant
            lo <= i <= hi <= chars.len(),
            out@ == chars@.subrange(lo as int, i as int),
        decreases hi - i,
    {
        out.push(chars[i]);
        assert(chars@.subrange(lo as int, i as int).push(chars@[i as int]) =~= chars@.subrange(
            lo as int,
            i + 1,
        ));
        i = i + 1;
    }
    out
}

/// `a` followed by `b`.
pub fn concat_text(a: &str, b: &str) -> (r: String)
    ensures
        r@ == a@ + b@,
{
    let mut out = a.to_owned();
    out.append(b);
    out
}

/// Whether `needle` stands in `hay` at `pos`.
pub open spec fn text_at(hay: Seq<char>, pos: int, needle: Seq<char>) -> bool {
    &&& 0 <= pos
    &&& pos + needle.len() <= hay.len()
    &&& hay.subrange(pos, pos + needle.len()) == needle
}

/// Whether `needle` stands somewhere in `hay`.
pub open spec fn text_contains(hay: Seq<char>, needle: Seq<char>) -> bool {
    exists|pos: int| #[trigger] text_at(hay, pos, needle)
}

/// Whether `hay` begins with `needle`.
pub open spec fn text_starts(hay: Seq<char>, needle: Seq<char>) -> bool {
    text_at(hay, 0, needle)
}

/// Whether `hay` ends with `needle`.
pub open spec fn text_ends(hay: Seq<char>, needle: Seq<char>) -> bool {
    text_at(hay, hay.len() - needle.len(), needle)
}

/// Whether `needle` stands in `hay` at `pos`.
pub fn chars_at(hay: &Vec<char>, pos: usize, needle: &Vec<char>) -> (r: bool)
    ensures
        r == text_at(hay@, pos as int, needle@),
{
    if pos > hay.len() || needle.len() > hay.len() - pos {
        return false;
    }
    let ghost part = hay@.subrange(pos as int, pos + needle@.len());
    let mut i: usize = 0;
    while i < needle.len()
        invariant
            i <= needle.len(),
            pos <= hay.len(),
            needle.len() <= hay.len() - pos,
            part == hay@.subrange(pos as int, pos + needle@.len()),
            forall|k: int| 0 <= k < i ==> part[k] == #[trigger] needle@[k],
        decreases needle.len() - i,
    {
        assert(part[i as int] == hay@[pos + i]);
        if hay[pos + i] != needle[i] {
            return false;
        }
        i = i + 1;
    }
    assert(part =~= needle@);
    true
}

/// Whether `needle` stands somewhere in `hay`.
pub fn chars_contain(hay: &Vec<char>, needle: &Vec<char>) -> (r: bool)
    ensures
        r == text_contains(hay@, needle@),
{
    if needle.len() > hay.len() {
        return false;
    }
    let last = hay.len() - needle.len();
    let mut pos: usize = 0;
    while pos < last
        invariant
            pos <= last,
            last + needle.len() == hay.len(),
            forall|k: int| 0 <= k < pos ==> !text_at(hay@, k, needle@),
        decreases last - pos,
    {
        if chars_at(hay, pos, needle) {
            return true;
        }
        pos = pos + 1;
    }
    chars_at(hay, last, needle)
}

/// Whether `hay` begins with `needle`.
pub fn starts_with(hay: &str, needle: &str) -> (r: bool)
    ensures
        r == text_starts(hay@, needle@),
{
    chars_at(&chars_of(hay), 0, &chars_of(needle))
}

/// Whether `hay` ends with `needle`.
pub fn ends_with(hay: &str, needle: &str) -> (r: bool)
    ensures
        r == text_ends(hay@, needle@),
{
    let h = chars_of(hay);
    let n = chars_of(needle);
    if n.len() > h.len() {
        return false;
    }
    chars_at(&h, h.len() - n.len(), &n)
}

/// Whether `a` stands before `b` in the order of strings: by the first
/// character in which they differ, the shorter first where there is none.
pub open spec fn text_less(a: Seq<char>, b: Seq<char>) -> bool
    decreases a.len(),
{
    if b.len() == 0 {
        false
    } else if a.len() == 0 {
        true
    } else if a[0] == b[0] {
        text_less(a.drop_first(), b.drop_first())
    } else {
        a[0] < b[0]
    }
}

/// No string stands before itself, and of two different ones exactly one
/// stands before the other.
pub proof fn law_text_order_total(a: Seq<char>, b: Seq<char>)
    ensures
        !text_less(a, a),
        a != b ==> text_less(a, b) != text_less(b, a),
    decreases a.len(),
{
    if a.len() > 0 && b.len() > 0 {
        law_text_order_total(a.drop_first(), b.drop_first());
        if a[0] == b[0] && a.drop_first() == b.drop_first() {
            assert(a =~= seq![a[0]] + a.drop_first());
            assert(b =~= seq![b[0]] + b.drop_first());
        }
    } else {
        if a.len() > 0 {
            law_text_order_total(a.drop_first(), a.drop_first());
        }
        if a.len() == b.len() {
            assert(a =~= b);
        }
    }
}

/// The order of strings is transitive.
pub proof fn law_text_order_transitive(a: Seq<char>, b: Seq<char>, c: Seq<char>)
    requires
        text_less(a, b),
        text_less(b, c),
    ensures
        text_less(a, c),
    decreases a.len(),
{
    if a.len() > 0 && a[0] == b[0] && b[0] == c[0] {
        law_text_order_transitive(a.drop_first(), b.drop_first(), c.drop_first());
    }
}

/// Whether `a` stands before `b` in the order of strings.
pub fn is_less(a: &str, b: &str) -> (r: bool)
    ensures
        r == text_less(a@, b@),
{
    let x = chars_of(a);
    let y = chars_of(b);
    let mut i: usize = 0;
    assert(x@.skip(0) =~= x@ && y@.skip(0) =~= y@);
    while i < x.len() && i < y.len()
        invariant
            i <= x.len(),
            i <= y.len(),
            x@ == a@,
            y@ == b@,
            text_less(a@, b@) == text_less(x@.skip(i as int), y@.skip(i as int)),
        decreases x.len() - i,
    {
        assert(x@.skip(i as int).drop_first() =~= x@.skip(i + 1));
        assert(y@.skip(i as int).drop_first() =~= y@.skip(i + 1));
        if x[i] != y[i] {
            return x[i] < y[i];
        }
        i = i + 1;
    }
    i < y.len()
}

/// Whether two strings have the same characters.
pub fn same_text(a: &str, b: &str) -> (r: bool)
    ensures
        r == (a@ == b@),
{
    let x = chars_of(a);
    let y = chars_of(b);
    if x.len() != y.len() {
        return false;
    }
    let r = chars_at(&x, 0, &y);
    assert(x@.subrange(0, x@.len() as int) =~= x@);
    r
}

/// The character of a decimal digit.
pub open spec fn digit_char(d: nat) -> char {
    if d == 0 {
        '0'
    } else if d == 1 {
        '1'
    } else if d == 2 {
        '2'
    } else if d == 3 {
        '3'
    } else if d == 4 {
        '4'
    } else if d == 5 {
        '5'
    } else if d == 6 {
        '6'
    } else if d == 7 {
        '7'
    } else if d == 8 {
        '8'
    } else {
        '9'
    }
}

/// The decimal digits of a number, without leading zeros.
pub open spec fn decimal(n: nat) -> Seq<char>
    decreases n,
{
    if n < 10 {
        seq![digit_char(n)]
    } else {
        decimal(n / 10).push(digit_char(n % 10))
    }
}

/// The character of a decimal digit.
fn digit(d: u64) -> (r: char)
    requires
        d < 10,
    ensures
        r == digit_char(d as nat),
{
    match d {
        0 => '0',
        1 => '1',
        2 => '2',
        3 => '3',
        4 => '4',
        5 => '5',
        6 => '6',
        7 => '7',
        8 => '8',
        _ => '9',
    }
}

/// The decimal digits of a number.
pub fn decimal_string(n: u64) -> (r: String)
    ensures
        r@ == decimal(n as nat),
    decreases n,
{
    if n < 10 {
        let mut out = String::new();
        out.push(digit(n));
        assert(out@ =~= seq![digit_char(n as nat)]);
        out
    } else {
        let mut out = decimal_string(n / 10);
        out.push(digit(n % 10));
        out
    }
}

/// The value of a digit character, or 10 where it is none.
pub open spec fn digit_value(c: char) -> nat {
    if '0' <= c && c <= '9' {
        (c as nat - '0' as nat) as nat
    } else {
        10
    }
}

/// Whether all characters are decimal digits.
pub open spec fn all_digits(s: Seq<char>) -> bool {
    forall|i: int| 0 <= i < s.len() ==> digit_value(#[trigger] s[i]) < 10
}

/// The number that a string of digits stands for.
pub open spec fn digits_value(s: Seq<char>) -> nat
    decreases s.len(),
{
    if s.len() == 0 {
        0
    } else {
        digits_value(s.drop_last()) * 10 + digit_value(s.last())
    }
}

/// What follows an optional leading plus sign.
pub open spec fn without_plus(s: Seq<char>) -> Seq<char> {
    if s.len() > 0 && s[0] == '+' {
        s.drop_first()
    } else {
        s
    }
}

/// The unsigned number that a string stands for: digits with an optional
/// leading plus sign, at most `max`.
pub open spec fn number_of(s: Seq<char>, max: nat) -> Option<nat> {
    let digits = without_plus(s);
    if digits.len() > 0 && all_digits(digits) && digits_value(digits) <= max {
        Some(digits_value(digits))
    } else {
        None
    }
}

proof fn lemma_digits_value_monotone(s: Seq<char>, n: int)
    requires
        0 <= n <= s.len(),
    ensures
        digits_value(s.take(n)) <= digits_value(s),
    decreases s.len() - n,
{
    if n < s.len() {
        lemma_digits_value_monotone(s, n + 1);
        assert(s.take(n + 1).drop_last() =~= s.take(n));
    } else {
        assert(s.take(n) =~= s);
    }
}

/// Reads an unsigned number: digits with an optional leading plus sign.
pub fn parse_usize(s: &Vec<char>) -> (r: Option<usize>)
    ensures
        match r {
            Some(n) => number_of(s@, usize::MAX as nat) == Some(n as nat),
            None => number_of(s@, usize::MAX as nat) is None,
        },
{
    let ghost digits = without_plus(s@);
    let start: usize = if s.len() > 0 && s[0] == '+' {
        1
    } else {
        0
    };
    assert(digits =~= s@.subrange(start as int, s@.len() as int));
    if start == s.len() {
        return None;
    }
    let mut value: usize = 0;
    let mut i: usize = start;
    assert(digits.take(0) =~= Seq::<char>::empty());
    while i < s.len()
        invariant
            start <= i <= s.len(),
            start <= 1,
            digits == s@.subrange(start as int, s@.len() as int),
            digits == without_plus(s@),
            forall|k: int| 0 <= k < i - start ==> digit_value(#[trigger] digits[k]) < 10,
            value == digits_value(digits.take(i - start)),
        decreases s.len() - i,
    {
        let c = s[i];
        assert(digits[i - start] == c);
        let d: usize = match c {
            '0' => 0,
            '1' => 1,
            '2' => 2,
            '3' => 3,
            '4' => 4,
            '5' => 5,
            '6' => 6,
            '7' => 7,
            '8' => 8,
            '9' => 9,
            _ => {
                assert(digit_value(digits[i - start]) == 10);
                return None;
            },
        };
        let ghost front = digits.take(i - start + 1);
        proof {
            assert(front.drop_last() =~= digits.take(i - start));
            assert(front.last() == c);
            assert(digit_value(c) == d);
            lemma_digits_value_monotone(digits, i - start + 1);
        }
        match value.checked_mul(10) {
            Some(shifted) => match shifted.checked_add(d) {
                Some(next) => {
                    value = next;
                },
                None => {
                    return None;
                },
            },
            None => {
                return None;
            },
        }
        i = i + 1;
    }
    assert(digits.take(i - start) =~= digits);
    Some(value)
}

/// Reading back the decimal digits of a number gives the number.
pub proof fn law_decimal_round_trip(n: nat)
    ensures
        decimal(n).len() > 0,
        all_digits(decimal(n)),
        digits_value(decimal(n)) == n,
        number_of(decimal(n), n) == Some(n),
    decreases n,
{
    if n < 10 {
        let s = seq![digit_char(n)];
        assert(s.drop_last() =~= Seq::<char>::empty());
        assert(digits_value(s.drop_last()) == 0);
    } else {
        law_decimal_round_trip(n / 10);
        let front = decimal(n / 10);
        let s = decimal(n);
        assert(s.drop_last() =~= front);
        assert(digit_value(digit_char(n % 10)) == n % 10);
    }
    assert(digit_value(decimal(n)[0]) < 10);
    assert(without_plus(decimal(n)) == decimal(n));
}

/// Different numbers have different decimal digits.
pub proof fn law_decimal_injective(a: nat, b: nat)
    requires
        decimal(a) == decimal(b),
    ensures
        a == b,
{
    law_decimal_round_trip(a);
    law_decimal_round_trip(b);
}

/// A hexadecimal digit as a capital.
pub open spec fn hex_char(d: nat) -> char {
    if d < 10 {
        digit_char(d)
    } else if d == 10 {
        'A'
    } else if d == 11 {
        'B'
    } else if d == 12 {
        'C'
    } else if d == 13 {
        'D'
    } else if d == 14 {
        'E'
    } else {
        'F'
    }
}

fn hex_digit(d: u8) -> (r: char)
    requires
        d < 16,
    ensures
        r == hex_char(d as nat),
{
    if d < 10 {
        digit(d as u64)
    } else if d == 10 {
        'A'
    } else if d == 11 {
        'B'
    } else if d == 12 {
        'C'
    } else if d == 13 {
        'D'
    } else if d == 14 {
        'E'
    } else {
        'F'
    }
}

/// The two hexadecimal digits of a byte.
pub fn hex_byte(b: u8) -> (r: String)
    ensures
        r@ == seq![hex_char((b / 16) as nat), hex_char((b % 16) as nat)],
{
    let mut out = String::new();
    out.push(hex_digit(b / 16));
    out.push(hex_digit(b % 16));
    assert(out@ =~= seq![hex_char((b / 16) as nat), hex_char((b % 16) as nat)]);
    out
}

/// A string in quotes, as it is shown to a developer.
pub uninterp spec fn quoted(s: Seq<char>) -> Seq<char>;

/// Formats a string with the `Debug` of std, which puts it in quotes and
/// escapes what would not show. The result depends on the string alone.
#[verifier::external_body]
pub(crate) fn quote(s: &str) -> (r: String)
    ensures
        r@ == quoted(s@),
{
    format!("{:?}", s)
}

/// The string without white space at its end.
pub open spec fn trim_end(s: Seq<char>) -> Seq<char>
    decreases s.len(),
{
    if s.len() == 0 || !char_whitespace(s.last()) {
        s
    } else {
        trim_end(s.drop_last())
    }
}

/// The string without white space at its front.
pub open spec fn trim_start(s: Seq<char>) -> Seq<char>
    decreases s.len(),
{
    if s.len() == 0 || !char_whitespace(s[0]) {
        s
    } else {
        trim_start(s.drop_first())
    }
}

/// The string without white space at either end.
pub open spec fn trimmed(s: Seq<char>) -> Seq<char> {
    trim_end(trim_start(s))
}

/// The range of the characters that are left when white space at both ends is
/// cut off.
pub fn trim_range(chars: &Vec<char>) -> (r: (usize, usize))
    ensures
        r.0 <= r.1 <= chars.len(),
        chars@.subrange(r.0 as int, r.1 as int) == trimmed(chars@),
{
    let n = chars.len();
    let mut lo: usize = 0;
    assert(chars@.subrange(0, n as int) =~= chars@);
    while lo < n && is_whitespace(chars[lo])
        invariant
            lo <= n,
            n == chars.len(),
            trim_start(chars@.subrange(lo as int, n as int)) == trim_start(chars@),
        decreases n - lo,
    {
        let ghost part = chars@.subrange(lo as int, n as int);
        assert(part.drop_first() =~= chars@.subrange(lo + 1, n as int));
        lo = lo + 1;
    }
    let ghost kept = chars@.subrange(lo as int, n as int);
    assert(trim_start(chars@) == kept);
    let mut hi: usize = n;
    while hi > lo && is_whitespace(chars[hi - 1])
        invariant
            lo <= hi <= n,
            n == chars.len(),
            kept == trim_start(chars@),
            trim_end(chars@.subrange(lo as int, hi as int)) == trim_end(kept),
        decreases hi - lo,
    {
        let ghost part = chars@.subrange(lo as int, hi as int);
        assert(part.drop_last() =~= chars@.subrange(lo as int, hi - 1));
        hi = hi - 1;
    }
    (lo, hi)
}

/// The string without white space at either end.
pub fn trim(s: &str) -> (r: String)
    ensures
        r@ == trimmed(s@),
{
    let chars = chars_of(s);
    let (lo, hi) = trim_range(&chars);
    string_of(&chars, lo, hi)
}

/// The character with an ASCII capital made small.
pub open spec fn ascii_lower_char(c: char) -> char {
    if 'A' <= c && c <= 'Z' {
        (c as u32 + 32) as char
    } else {
        c
    }
}

/// The string with ASCII capitals made small.
pub open spec fn ascii_lower(s: Seq<char>) -> Seq<char> {
    s.map_values(|c: char| ascii_lower_char(c))
}

/// Copies `chars` with ASCII capitals made small.
pub fn to_ascii_lower(chars: &Vec<char>) -> (r: Vec<char>)
    ensures
        r@ == ascii_lower(chars@),
{
    let mut out: Vec<char> = Vec::new();
    let mut i: usize = 0;
    while i < chars.len()
        invariant
            i <= chars.len(),
            out.len() == i,
            forall|k: int| 0 <= k < i ==> #[trigger] out@[k] == ascii_lower_char(chars@[k]),
        decreases chars.len() - i,
    {
        let c = chars[i];
        let small = if 'A' <= c && c <= 'Z' {
            ((c as u8) + 32) as char
        } else {
            c
        };
        out.push(small);
        i = i + 1;
    }
    assert(out@ =~= ascii_lower(chars@));
    out
}

/// Wraps `String::from_utf8`: the text of well-formed UTF-8, and nothing of
/// anything else.
#[verifier::external_body]
pub(crate) fn utf8_text(bytes: Vec<u8>) -> (r: Option<String>)
    ensures
        match r {
            Some(s) => valid_utf8(bytes@) && s@ == decode_utf8(bytes@),
            None => !valid_utf8(bytes@),
        },
{
    String::from_utf8(bytes).ok()
}

/// The encoding of a concatenation is the concatenation of the encodings.
pub proof fn lemma_encode_concat(a: Seq<char>, b: Seq<char>)
    ensures
        encode_utf8(a + b) == encode_utf8(a) + encode_utf8(b),
    decreases a.len(),
{
    if a.len() == 0 {
        assert(a + b =~= b);
    } else {
        lemma_encode_concat(a.drop_first(), b);
        assert((a + b).drop_first() =~= a.drop_first() + b);
        assert((a + b)[0] == a[0]);
    }
}

/// A string begins with a needle exactly where it is the needle with
/// something behind it, and ends with it where it is the needle with something
/// in front.
pub proof fn law_starts_and_ends(rest: Seq<char>, needle: Seq<char>, hay: Seq<char>)
    ensures
        text_starts(needle + rest, needle),
        text_ends(rest + needle, needle),
        text_starts(hay, needle) ==> hay == needle + hay.skip(needle.len() as int),
        text_ends(hay, needle) ==> hay == hay.take(hay.len() - needle.len()) + needle,
{
    assert((needle + rest).subrange(0, needle.len() as int) =~= needle);
    assert((rest + needle).subrange(rest.len() as int, (rest + needle).len() as int) =~= needle);
    if text_starts(hay, needle) {
        assert(hay =~= hay.subrange(0, needle.len() as int) + hay.skip(needle.len() as int));
    }
    if text_ends(hay, needle) {
        let at = hay.len() - needle.len();
        assert(hay =~= hay.take(at) + hay.subrange(at, hay.len() as int));
    }
}

/// A string contains a needle exactly where it is the needle with something
/// in front and behind.
pub proof fn law_contains(front: Seq<char>, needle: Seq<char>, back: Seq<char>, hay: Seq<char>)
    ensures
        text_contains(front + needle + back, needle),
        text_contains(hay, needle) ==> exists|a: Seq<char>, b: Seq<char>| #[trigger]
            (a + needle + b) == hay,
{
    let whole = front + needle + back;
    assert(whole.subrange(front.len() as int, (front.len() + needle.len()) as int) =~= needle);
    assert(text_at(whole, front.len() as int, needle));
    if text_contains(hay, needle) {
        let pos = choose|pos: int| text_at(hay, pos, needle);
        let a = hay.take(pos);
        let b = hay.skip(pos + needle.len());
        assert(a + needle + b =~= hay);
    }
}

/// The order of strings is by the first character in which they differ, and a
/// string stands before all that go on behind it.
pub proof fn law_text_order_first_difference(
    front: Seq<char>,
    a: char,
    b: char,
    rest_a: Seq<char>,
    rest_b: Seq<char>,
)
    ensures
        a < b ==> text_less(front.push(a) + rest_a, front.push(b) + rest_b),
        a < b ==> !text_less(front.push(b) + rest_b, front.push(a) + rest_a),
        text_less(front, front.push(a) + rest_a),
        !text_less(front.push(a) + rest_a, front),
    decreases front.len(),
{
    let x = front.push(a) + rest_a;
    let y = front.push(b) + rest_b;
    if front.len() > 0 {
        law_text_order_first_difference(front.drop_first(), a, b, rest_a, rest_b);
        assert(x.drop_first() =~= front.drop_first().push(a) + rest_a);
        assert(y.drop_first() =~= front.drop_first().push(b) + rest_b);
        assert(x[0] == front[0] && y[0] == front[0]);
    } else {
        assert(x[0] == a && y[0] == b);
    }
}

/// Whether a string is white space only.
pub open spec fn blank(s: Seq<char>) -> bool {
    forall|i: int| 0 <= i < s.len() ==> char_whitespace(#[trigger] s[i])
}

/// Whether a string has no white space at either end.
pub open spec fn tight(s: Seq<char>) -> bool {
    s.len() > 0 ==> !char_whitespace(s[0]) && !char_whitespace(s.last())
}

proof fn lemma_trim_start_part(s: Seq<char>)
    ensures
        blank(s.take(s.len() - trim_start(s).len())),
        trim_start(s).len() <= s.len(),
        s == s.take(s.len() - trim_start(s).len()) + trim_start(s),
        trim_start(s).len() > 0 ==> !char_whitespace(trim_start(s)[0]),
    decreases s.len(),
{
    if s.len() > 0 && char_whitespace(s[0]) {
        let rest = s.drop_first();
        lemma_trim_start_part(rest);
        let lead = s.take(s.len() - trim_start(s).len());
        let inner = rest.take(rest.len() - trim_start(rest).len());
        assert(lead =~= seq![s[0]] + inner);
        assert forall|i: int| 0 <= i < lead.len() implies char_whitespace(#[trigger] lead[i]) by {
            if i > 0 {
                assert(inner[i - 1] == lead[i]);
            }
        }
        assert(s =~= seq![s[0]] + rest);
        assert(s =~= lead + trim_start(s));
    } else {
        assert(s =~= s.take(0) + s);
    }
}

proof fn lemma_trim_end_part(s: Seq<char>)
    ensures
        trim_end(s).len() <= s.len(),
        blank(s.skip(trim_end(s).len() as int)),
        s == trim_end(s) + s.skip(trim_end(s).len() as int),
        trim_end(s).len() > 0 ==> !char_whitespace(trim_end(s).last()) && trim_end(s)[0] == s[0],
    decreases s.len(),
{
    if s.len() > 0 && char_whitespace(s.last()) {
        let rest = s.drop_last();
        lemma_trim_end_part(rest);
        let tail = s.skip(trim_end(s).len() as int);
        let inner = rest.skip(trim_end(rest).len() as int);
        assert(tail =~= inner.push(s.last()));
        assert forall|i: int| 0 <= i < tail.len() implies char_whitespace(#[trigger] tail[i]) by {
            if i < inner.len() {
                assert(inner[i] == tail[i]);
            }
        }
        assert(s =~= rest.push(s.last()));
        assert(s =~= trim_end(s) + tail);
    } else {
        assert(s =~= s + s.skip(s.len() as int));
    }
}

proof fn lemma_trim_kept(lead: Seq<char>, core: Seq<char>, tail: Seq<char>)
    requires
        blank(lead),
        blank(tail),
        tight(core),
        core.len() > 0,
    ensures
        trimmed(lead + core + tail) == core,
    decreases lead.len() + tail.len(),
{
    let s = lead + core + tail;
    if lead.len() > 0 {
        assert(s[0] == lead[0]);
        let less = lead.drop_first();
        assert forall|i: int| 0 <= i < less.len() implies char_whitespace(#[trigger] less[i]) by {
            assert(less[i] == lead[i + 1]);
        }
        assert(s.drop_first() =~= less + core + tail);
        lemma_trim_kept(less, core, tail);
    } else if tail.len() > 0 {
        assert(s[0] == core[0]);
        assert(trim_start(s) == s);
        assert(s.last() == tail.last());
        let less = tail.drop_last();
        assert forall|i: int| 0 <= i < less.len() implies char_whitespace(#[trigger] less[i]) by {
            assert(less[i] == tail[i]);
        }
        let shorter = lead + core + less;
        assert(s.drop_last() =~= shorter);
        lemma_trim_kept(lead, core, less);
        assert(shorter[0] == core[0]);
        assert(trim_start(shorter) == shorter);
    } else {
        assert(s =~= core);
    }
}

/// Trimming takes away white space at the ends and nothing else: what is left
/// begins and ends in something else, and is what stands between the white
/// space.
pub proof fn law_trimmed(s: Seq<char>, lead: Seq<char>, core: Seq<char>, tail: Seq<char>)
    ensures
        tight(trimmed(s)),
        exists|a: Seq<char>, b: Seq<char>|
            blank(a) && blank(b) && s == #[trigger] (a + trimmed(s) + b),
        blank(lead) && blank(tail) && tight(core) && core.len() > 0 ==> trimmed(lead + core + tail)
            == core,
        blank(s) <==> trimmed(s).len() == 0,
{
    let kept = trim_start(s);
    lemma_trim_start_part(s);
    lemma_trim_end_part(kept);
    let a = s.take(s.len() - kept.len());
    let b = kept.skip(trimmed(s).len() as int);
    assert(a + trimmed(s) + b =~= s);
    if blank(lead) && blank(tail) && tight(core) && core.len() > 0 {
        lemma_trim_kept(lead, core, tail);
    }
    if blank(s) {
        if trimmed(s).len() > 0 {
            assert(s[a.len() as int] == trimmed(s)[0]);
        }
    }
    if trimmed(s).len() == 0 {
        assert forall|i: int| 0 <= i < s.len() implies char_whitespace(#[trigger] s[i]) by {
            if i < a.len() {
                assert(s[i] == a[i]);
            } else {
                assert(s[i] == b[i - a.len()]);
            }
        }
    }
}

/// What white space is: the blank, the line and page controls, and the spaces
/// of Unicode; no character that prints is.
pub proof fn law_white_space(c: char)
    ensures
        char_whitespace(' '),
        char_whitespace('\t'),
        char_whitespace('\n'),
        char_whitespace('\r'),
        '!' <= c && c <= '~' ==> !char_whitespace(c),
        char_whitespace(c) <==> seq![
            0x09,
            0x0A,
            0x0B,
            0x0C,
            0x0D,
            0x20,
            0x85,
            0xA0,
            0x1680,
            0x2000,
            0x2001,
            0x2002,
            0x2003,
            0x2004,
            0x2005,
            0x2006,
            0x2007,
            0x2008,
            0x2009,
            0x200A,
            0x2028,
            0x2029,
            0x202F,
            0x205F,
            0x3000,
        ].contains(c as int),
{
    let spaces: Seq<int> = seq![
        0x09,
        0x0A,
        0x0B,
        0x0C,
        0x0D,
        0x20,
        0x85,
        0xA0,
        0x1680,
        0x2000,
        0x2001,
        0x2002,
        0x2003,
        0x2004,
        0x2005,
        0x2006,
        0x2007,
        0x2008,
        0x2009,
        0x200A,
        0x2028,
        0x2029,
        0x202F,
        0x205F,
        0x3000,
    ];
    assert(spaces.len() == 25);
    if spaces.contains(c as int) {
        let w = choose|w: int| 0 <= w < spaces.len() && spaces[w] == c as int;
        assert(char_whitespace(c));
    }
    if char_whitespace(c) {
        let n = c as int;
        if n <= 0x0D {
            assert(spaces[n - 9] == n);
        } else if n == 0x20 {
            assert(spaces[5] == n);
        } else if n == 0x85 {
            assert(spaces[6] == n);
        } else if n == 0xA0 {
            assert(spaces[7] == n);
        } else if n == 0x1680 {
            assert(spaces[8] == n);
        } else if n <= 0x200A {
            assert(spaces[n - 0x2000 + 9] == n);
        } else if n == 0x2028 {
            assert(spaces[20] == n);
        } else if n == 0x2029 {
            assert(spaces[21] == n);
        } else if n == 0x202F {
            assert(spaces[22] == n);
        } else if n == 0x205F {
            assert(spaces[23] == n);
        } else {
            assert(spaces[24] == n);
        }
    }
}

/// Making ASCII capitals small changes each capital to its small letter and
/// leaves the rest and the length.
pub proof fn law_ascii_lower(s: Seq<char>, i: int)
    requires
        0 <= i < s.len(),
    ensures
        ascii_lower(s).len() == s.len(),
        !('A' <= s[i] && s[i] <= 'Z') ==> ascii_lower(s)[i] == s[i],
        'A' <= s[i] && s[i] <= 'Z' ==> 'a' <= ascii_lower(s)[i] && ascii_lower(s)[i] <= 'z'
            && ascii_lower(s)[i] as int - 'a' as int == s[i] as int - 'A' as int,
        ascii_lower(ascii_lower(s)) == ascii_lower(s),
{
    assert(ascii_lower(ascii_lower(s)) =~= ascii_lower(s));
}

/// Decimal digits have no leading zero, and adding a digit behind is ten times
/// the number and the digit.
pub proof fn law_decimal_digits(n: nat, d: nat)
    requires
        d < 10,
    ensures
        decimal(0) == seq!['0'],
        n > 0 ==> decimal(n)[0] != '0',
        n > 0 ==> decimal(n * 10 + d) == decimal(n) + decimal(d),
        decimal(n).len() == 1 <==> n < 10,
    decreases n,
{
    if n >= 10 {
        law_decimal_digits(n / 10, 0);
        assert(decimal(n)[0] == decimal(n / 10)[0]);
        law_decimal_round_trip(n / 10);
    }
    if n > 0 {
        assert((n * 10 + d) / 10 == n && (n * 10 + d) % 10 == d);
        assert(decimal(n * 10 + d) =~= decimal(n) + decimal(d));
    }
}

/// The digits stand behind one another from zero on, and those of sixteen
/// from `A` on; what a digit stands for is its distance from zero.
pub proof fn law_digits(d: nat, c: char)
    ensures
        d < 10 ==> digit_char(d) as int == '0' as int + d && digit_value(digit_char(d)) == d,
        '0' <= c && c <= '9' ==> digit_value(c) == c as int - '0' as int,
        d < 10 ==> hex_char(d) == digit_char(d),
        10 <= d < 16 ==> hex_char(d) as int == 'A' as int + d - 10,
{
}

proof fn lemma_leading_zero(s: Seq<char>)
    requires
        all_digits(s),
    ensures
        all_digits(seq!['0'] + s),
        digits_value(seq!['0'] + s) == digits_value(s),
    decreases s.len(),
{
    let all = seq!['0'] + s;
    assert forall|i: int| 0 <= i < all.len() implies digit_value(#[trigger] all[i]) < 10 by {
        if i > 0 {
            assert(all[i] == s[i - 1]);
        }
    }
    if s.len() == 0 {
        assert(all.drop_last() =~= Seq::<char>::empty());
        assert(digits_value(all.drop_last()) == 0);
        assert(all.last() == '0');
        assert(digit_value('0') == 0);
    } else {
        assert forall|i: int|
            0 <= i < s.drop_last().len() implies digit_value(#[trigger] s.drop_last()[i]) < 10 by {
            assert(s.drop_last()[i] == s[i]);
        }
        lemma_leading_zero(s.drop_last());
        assert(all.drop_last() =~= seq!['0'] + s.drop_last());
    }
}

/// A string is read as a number where it is the digits of one that is not
/// above the bound, with any zeros or one plus sign in front; nothing else is
/// a number.
pub proof fn law_number(n: nat, max: nat, front: Seq<char>, c: char, back: Seq<char>)
    ensures
        n <= max ==> number_of(decimal(n), max) == Some(n),
        n <= max ==> number_of("+"@ + decimal(n), max) == Some(n),
        n <= max ==> number_of("0"@ + decimal(n), max) == Some(n),
        n > max ==> number_of(decimal(n), max) is None,
        number_of(Seq::empty(), max) is None,
        number_of("+"@, max) is None,
        !('0' <= c && c <= '9') && (front.len() > 0 || c != '+') ==> number_of(
            front.push(c) + back,
            max,
        ) is None,
{
    reveal_strlit("+");
    reveal_strlit("0");
    law_decimal_round_trip(n);
    let digits = decimal(n);
    assert(digits.len() > 0);
    assert(digit_value(digits[0]) < 10);
    assert(without_plus(digits) == digits);
    let signed = "+"@ + digits;
    assert(signed[0] == '+');
    assert(signed.drop_first() =~= digits);
    lemma_leading_zero(digits);
    let padded = "0"@ + digits;
    assert(padded =~= seq!['0'] + digits);
    assert(padded[0] == '0');
    assert("+"@.drop_first() =~= Seq::<char>::empty());
    if !('0' <= c && c <= '9') && (front.len() > 0 || c != '+') {
        let s = front.push(c) + back;
        let at = front.len() as int;
        assert(s[at] == c);
        let rest = without_plus(s);
        if s[0] == '+' {
            assert(rest[at - 1] == c);
        } else {
            assert(rest[at] == c);
        }
        assert(digit_value(c) == 10);
    }
}

} // verus!
