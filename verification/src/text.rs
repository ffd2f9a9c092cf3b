//! Character strings: splitting, trimming, decimal and hexadecimal numerals.

use vstd::arithmetic::power::pow;
use vstd::arithmetic::power::lemma_pow0;
use vstd::prelude::*;
use vstd::string::*;

verus! {

/// `String::push` of std: appends one character.
pub assume_specification[ String::push ](s: &mut String, c: char)
    ensures
        final(s)@ == old(s)@.push(c),
;

/// The characters of a string, in order.
pub fn chars_of(s: &str) -> (r: Vec<char>)
    ensures
        r@ == s@,
{
    let mut out: Vec<char> = Vec::new();
    for c in it: s.chars()
        invariant
            it.seq() == s@,
            out@ == s@.take(it.index()),
    {
        out.push(c);
        assert(out@ =~= s@.take(it.index() + 1));
    }
    assert(s@.take(s@.len() as int) =~= s@);
    out
}

/// The string of the given characters.
pub fn string_of(chars: &[char]) -> (r: String)
    ensures
        r@ == chars@,
{
    let mut out = String::new();
    let mut i: usize = 0;
    while i < chars.len()
        invariant
            0 <= i <= chars@.len(),
            out@ == chars@.take(i as int),
        decreases chars@.len() - i,
    {
        out.push(chars[i]);
        assert(out@ =~= chars@.take(i + 1));
        i = i + 1;
    }
    assert(chars@.take(i as int) =~= chars@);
    out
}

/// Whether two strings hold the same characters.
pub fn str_eq(a: &str, b: &str) -> (r: bool)
    ensures
        r == (a@ == b@),
{
    let x = chars_of(a);
    let y = chars_of(b);
    chars_eq(&x, &y)
}

/// Whether two character slices hold the same characters.
pub fn chars_eq(a: &[char], b: &[char]) -> (r: bool)
    ensures
        r == (a@ == b@),
{
    if a.len() != b.len() {
        return false;
    }
    let mut i: usize = 0;
    while i < a.len()
        invariant
            a@.len() == b@.len(),
            0 <= i <= a@.len(),
            forall|j: int| 0 <= j < i ==> a@[j] == b@[j],
        decreases a@.len() - i,
    {
        if a[i] != b[i] {
            return false;
        }
        i = i + 1;
    }
    assert(a@ =~= b@);
    true
}

/// A copy of `chars[from..to]`.
pub fn chars_range(chars: &[char], from: usize, to: usize) -> (r: Vec<char>)
    requires
        from <= to <= chars@.len(),
    ensures
        r@ == chars@.subrange(from as int, to as int),
{
    let mut out: Vec<char> = Vec::new();
    let mut i: usize = from;
    while i < to
        invariant
            from <= i <= to <= chars@.len(),
            out@ == chars@.subrange(from as int, i as int),
        decreases to - i,
    {
        out.push(chars[i]);
        assert(out@ =~= chars@.subrange(from as int, i + 1));
        i = i + 1;
    }
    out
}

/// Whether `s` begins with `prefix`.
pub open spec fn chars_prefix(s: Seq<char>, prefix: Seq<char>) -> bool {
    prefix.len() <= s.len() && s.take(prefix.len() as int) == prefix
}

/// Whether `s` ends with `suffix`.
pub open spec fn chars_suffix(s: Seq<char>, suffix: Seq<char>) -> bool {
    suffix.len() <= s.len() && s.skip(s.len() - suffix.len()) == suffix
}

/// Whether `s` begins with `prefix`.
pub fn chars_start_with(s: &[char], prefix: &[char]) -> (r: bool)
    ensures
        r == chars_prefix(s@, prefix@),
{
    if prefix.len() > s.len() {
        return false;
    }
    let head = chars_range(s, 0, prefix.len());
    assert(head@ =~= s@.take(prefix@.len() as int));
    chars_eq(&head, prefix)
}

/// Whether `s` ends with `suffix`.
pub fn chars_end_with(s: &[char], suffix: &[char]) -> (r: bool)
    ensures
        r == chars_suffix(s@, suffix@),
{
    if suffix.len() > s.len() {
        return false;
    }
    let tail = chars_range(s, s.len() - suffix.len(), s.len());
    assert(tail@ =~= s@.skip(s@.len() - suffix@.len()));
    chars_eq(&tail, suffix)
}

/// The index of the first `c` in `s`, or the length of `s` where there is none.
pub open spec fn position(s: Seq<char>, c: char) -> int
    decreases s.len(),
{
    if s.len() == 0 || s[0] == c {
        0
    } else {
        1 + position(s.drop_first(), c)
    }
}

/// What stands before and after the first `c`, where `s` holds one.
pub open spec fn split_at_first(s: Seq<char>, c: char) -> Option<(Seq<char>, Seq<char>)> {
    if position(s, c) < s.len() {
        Some((s.take(position(s, c)), s.skip(position(s, c) + 1)))
    } else {
        None
    }
}

proof fn lemma_position(s: Seq<char>, c: char, i: int)
    requires
        0 <= i <= s.len(),
        forall|j: int| 0 <= j < i ==> s[j] != c,
        i < s.len() ==> s[i] == c,
    ensures
        position(s, c) == i,
    decreases s.len(),
{
    if s.len() > 0 && s[0] != c {
        assert forall|j: int| 0 <= j < i - 1 implies s.drop_first()[j] != c by {
            assert(s.drop_first()[j] == s[j + 1]);
        }
        lemma_position(s.drop_first(), c, i - 1);
    }
}

/// What `position` means: nothing before it is `c`, and it is `c` itself unless it is the end.
pub proof fn lemma_position_meaning(s: Seq<char>, c: char)
    ensures
        0 <= position(s, c) <= s.len(),
        forall|j: int| 0 <= j < position(s, c) ==> s[j] != c,
        position(s, c) < s.len() ==> s[position(s, c)] == c,
    decreases s.len(),
{
    if s.len() > 0 && s[0] != c {
        let t = s.drop_first();
        lemma_position_meaning(t, c);
        assert forall|j: int| 0 <= j < position(s, c) implies s[j] != c by {
            if j > 0 {
                assert(s[j] == t[j - 1]);
            }
        }
    }
}

/// The index of the first `c` in `s`, or the length of `s` where there is none.
pub fn find_char(s: &[char], c: char) -> (r: usize)
    ensures
        r == position(s@, c),
        r <= s@.len(),
{
    let mut i: usize = 0;
    while i < s.len()
        invariant
            0 <= i <= s@.len(),
            forall|j: int| 0 <= j < i ==> s@[j] != c,
        decreases s@.len() - i,
    {
        if s[i] == c {
            proof {
                lemma_position(s@, c, i as int);
            }
            return i;
        }
        i = i + 1;
    }
    proof {
        lemma_position(s@, c, i as int);
    }
    i
}

/// Splits at the first `c`.
pub fn split_once(s: &[char], c: char) -> (r: Option<(Vec<char>, Vec<char>)>)
    ensures
        match (r, split_at_first(s@, c)) {
            (Some(a), Some(b)) => a.0@ == b.0 && a.1@ == b.1,
            (None, None) => true,
            _ => false,
        },
{
    let p: usize = find_char(s, c);
    if p < s.len() {
        let head = chars_range(s, 0, p);
        let tail = chars_range(s, p + 1, s.len());
        assert(head@ =~= s@.take(p as int));
        assert(tail@ =~= s@.skip(p + 1));
        Some((head, tail))
    } else {
        None
    }
}

/// The characters with the Unicode property White_Space.
pub open spec fn is_space(c: char) -> bool {
    let u = c as u32;
    ||| 0x9 <= u <= 0xD
    ||| u == 0x20
    ||| u == 0x85
    ||| u == 0xA0
    ||| u == 0x1680
    ||| 0x2000 <= u <= 0x200A
    ||| u == 0x2028
    ||| u == 0x2029
    ||| u == 0x202F
    ||| u == 0x205F
    ||| u == 0x3000
}

/// Whether `c` is white space.
pub fn char_is_space(c: char) -> (r: bool)
    ensures
        r == is_space(c),
{
    let u: u32 = c as u32;
    (0x9 <= u && u <= 0xD) || u == 0x20 || u == 0x85 || u == 0xA0 || u == 0x1680 || (0x2000 <= u && u
        <= 0x200A) || u == 0x2028 || u == 0x2029 || u == 0x202F || u == 0x205F || u == 0x3000
}

/// `s` without its leading white space.
pub open spec fn trim_start(s: Seq<char>) -> Seq<char>
    decreases s.len(),
{
    if s.len() > 0 && is_space(s[0]) {
        trim_start(s.drop_first())
    } else {
        s
    }
}

/// `s` without its trailing white space.
pub open spec fn trim_end(s: Seq<char>) -> Seq<char>
    decreases s.len(),
{
    if s.len() > 0 && is_space(s.last()) {
        trim_end(s.drop_last())
    } else {
        s
    }
}

/// `s` without the white space at either end.
pub open spec fn trimmed(s: Seq<char>) -> Seq<char> {
    trim_end(trim_start(s))
}

/// `s` without the white space at either end.
pub fn trim_chars(s: &[char]) -> (r: Vec<char>)
    ensures
        r@ == trimmed(s@),
{
    let mut from: usize = 0;
    assert(s@.skip(0) =~= s@);
    while from < s.len() && char_is_space(s[from])
        invariant
            0 <= from <= s@.len(),
            trim_start(s@) == trim_start(s@.skip(from as int)),
        decreases s@.len() - from,
    {
        assert(s@.skip(from as int).drop_first() =~= s@.skip(from + 1));
        from = from + 1;
    }
    let mut to: usize = s.len();
    assert(s@.subrange(from as int, to as int) =~= s@.skip(from as int));
    while to > from && char_is_space(s[to - 1])
        invariant
            from <= to <= s@.len(),
            trimmed(s@) == trim_end(s@.subrange(from as int, to as int)),
        decreases to,
    {
        assert(s@.subrange(from as int, to as int).drop_last() =~= s@.subrange(
            from as int,
            to - 1,
        ));
        to = to - 1;
    }
    chars_range(s, from, to)
}

/// Whether `c` is one of `0` to `9`.
pub open spec fn is_digit(c: char) -> bool {
    '0' <= c && c <= '9'
}

/// Whether `s` is made of decimal digits alone.
pub open spec fn all_digits(s: Seq<char>) -> bool {
    forall|i: int| 0 <= i < s.len() ==> is_digit(#[trigger] s[i])
}

/// The number that a row of decimal digits stands for.
pub open spec fn dec_value(s: Seq<char>) -> nat
    decreases s.len(),
{
    if s.len() == 0 {
        0
    } else {
        dec_value(s.drop_last()) * 10 + ((s.last() as u32 - '0' as u32) as nat)
    }
}

/// What `s` stands for as an unsigned 64-bit decimal numeral: at least one digit, an optional
/// `+` before them, nothing else, and a value that fits.
pub open spec fn parsed_u64(s: Seq<char>) -> Option<u64> {
    let d = if s.len() > 0 && s[0] == '+' {
        s.drop_first()
    } else {
        s
    };
    if d.len() > 0 && all_digits(d) && dec_value(d) <= u64::MAX {
        Some(dec_value(d) as u64)
    } else {
        None
    }
}

proof fn lemma_dec_value_grows(s: Seq<char>, i: int)
    requires
        0 <= i <= s.len(),
        all_digits(s),
    ensures
        dec_value(s.take(i)) <= dec_value(s),
    decreases s.len(),
{
    if i == s.len() {
        assert(s.take(i) =~= s);
    } else {
        assert(s.drop_last().take(i) =~= s.take(i));
        assert(all_digits(s.drop_last())) by {
            assert forall|j: int| 0 <= j < s.drop_last().len() implies is_digit(
                #[trigger] s.drop_last()[j],
            ) by {
                assert(s.drop_last()[j] == s[j]);
            }
        }
        lemma_dec_value_grows(s.drop_last(), i);
        assert(is_digit(s[s.len() - 1]));
    }
}

/// Reads an unsigned 64-bit decimal numeral.
pub fn parse_u64(s: &[char]) -> (r: Option<u64>)
    ensures
        r == parsed_u64(s@),
{
    let from: usize = if s.len() > 0 && s[0] == '+' {
        1
    } else {
        0
    };
    let ghost d = s@.skip(from as int);
    proof {
        if from == 1 {
            assert(d =~= s@.drop_first());
        } else {
            assert(d =~= s@);
        }
    }
    if from == s.len() {
        return None;
    }
    let mut value: u64 = 0;
    let mut i: usize = from;
    while i < s.len()
        invariant
            from <= i <= s@.len(),
            from <= 1,
            d == s@.skip(from as int),
            d == (if s@.len() > 0 && s@[0] == '+' {
                s@.drop_first()
            } else {
                s@
            }),
            forall|j: int| 0 <= j < i - from ==> is_digit(#[trigger] d[j]),
            value == dec_value(d.take(i - from)),
        decreases s@.len() - i,
    {
        let c = s[i];
        assert(d[i - from] == c);
        if !('0' <= c && c <= '9') {
            assert(!is_digit(d[i - from]));
            return None;
        }
        let digit: u64 = c as u64 - '0' as u64;
        assert(d.take(i - from + 1).drop_last() =~= d.take(i - from));
        assert(dec_value(d.take(i - from + 1)) == value * 10 + digit);
        let grown: Option<u64> = value.checked_mul(10);
        let next: Option<u64> = match grown {
            Some(g) => g.checked_add(digit),
            None => None,
        };
        match next {
            Some(n) => {
                value = n;
            },
            None => {
                proof {
                    if all_digits(d) {
                        lemma_dec_value_grows(d, i - from + 1);
                    }
                }
                return None;
            },
        }
        i = i + 1;
    }
    assert(d.take(d.len() as int) =~= d);
    Some(value)
}

/// The decimal digit `d`.
pub open spec fn digit_char(d: nat) -> char {
    (('0' as u32) + d) as char
}

/// The decimal numeral of `n`, without leading zeros.
pub open spec fn dec_digits(n: nat) -> Seq<char>
    decreases n,
{
    if n < 10 {
        seq![digit_char(n)]
    } else {
        dec_digits(n / 10).push(digit_char(n % 10))
    }
}

fn push_digit(out: &mut Vec<char>, d: u64)
    requires
        d < 10,
    ensures
        final(out)@ == old(out)@.push(digit_char(d as nat)),
{
    let b: u8 = 48 + d as u8;
    out.push(b as char);
}

/// Appends the decimal numeral of `n`.
pub fn push_decimal(out: &mut Vec<char>, n: u64)
    ensures
        final(out)@ == old(out)@ + dec_digits(n as nat),
    decreases n,
{
    if n >= 10 {
        push_decimal(out, n / 10);
    }
    push_digit(out, n % 10);
    assert(out@ =~= old(out)@ + dec_digits(n as nat));
}
/// The last `width` decimal digits of `n`, with leading zeros.
pub open spec fn padded_digits(n: nat, width: nat) -> Seq<char>
    decreases width,
{
    if width == 0 {
        Seq::empty()
    } else {
        padded_digits(n / 10, (width - 1) as nat).push(digit_char(n % 10))
    }
}

/// Appends `n` as a decimal numeral of exactly `width` digits.
pub fn push_padded(out: &mut Vec<char>, n: u64, width: u64)
    ensures
        final(out)@ == old(out)@ + padded_digits(n as nat, width as nat),
    decreases width,
{
    if width > 0 {
        push_padded(out, n / 10, width - 1);
        push_digit(out, n % 10);
    }
    assert(out@ =~= old(out)@ + padded_digits(n as nat, width as nat));
}

proof fn lemma_dec_digits(n: nat)
    ensures
        dec_digits(n).len() > 0,
        all_digits(dec_digits(n)),
        dec_value(dec_digits(n)) == n,
    decreases n,
{
    let s = dec_digits(n);
    if n < 10 {
        assert(is_digit(digit_char(n)));
        assert(s.drop_last() =~= Seq::<char>::empty());
        assert(dec_value(s.drop_last()) == 0);
    } else {
        lemma_dec_digits(n / 10);
        let t = dec_digits(n / 10);
        assert(s.drop_last() =~= t);
        assert(is_digit(digit_char(n % 10)));
        assert forall|i: int| 0 <= i < s.len() implies is_digit(#[trigger] s[i]) by {
            if i < t.len() {
                assert(s[i] == t[i]);
            }
        }
    }
}

/// Reading back the decimal numeral of a number gives the number.
pub proof fn lemma_decimal_round_trip(n: u64)
    ensures
        parsed_u64(dec_digits(n as nat)) == Some(n),
{
    lemma_dec_digits(n as nat);
    let s = dec_digits(n as nat);
    assert(is_digit(s[0]));
}

/// The lower-case hexadecimal digit of `d`.
pub open spec fn hex_char(d: int) -> char {
    if d < 10 {
        ('0' as u32 + d) as char
    } else {
        ('a' as u32 + (d - 10)) as char
    }
}

/// Two lower-case hexadecimal digits for each byte.
pub open spec fn hex_text(b: Seq<u8>) -> Seq<char> {
    Seq::new(
        b.len() * 2,
        |i: int|
            if i % 2 == 0 {
                hex_char(b[i / 2] as int / 16)
            } else {
                hex_char(b[i / 2] as int % 16)
            },
    )
}

fn hex_digit(d: u8) -> (r: char)
    requires
        d < 16,
    ensures
        r == hex_char(d as int),
{
    if d < 10 {
        (48 + d) as char
    } else {
        (87 + d) as char
    }
}

/// The lower-case hexadecimal text of `b`.
pub fn hex_encode(b: &[u8]) -> (r: Vec<char>)
    ensures
        r@ == hex_text(b@),
{
    let mut out: Vec<char> = Vec::new();
    let mut i: usize = 0;
    while i < b.len()
        invariant
            0 <= i <= b@.len(),
            out@ == hex_text(b@.take(i as int)),
        decreases b@.len() - i,
    {
        out.push(hex_digit(b[i] / 16));
        out.push(hex_digit(b[i] % 16));
        assert(out@ =~= hex_text(b@.take(i + 1)));
        i = i + 1;
    }
    assert(b@.take(i as int) =~= b@);
    out
}

/// The value of a hexadecimal digit of either case; `None` for any other character.
pub open spec fn hex_value(c: char) -> Option<int> {
    if '0' <= c && c <= '9' {
        Some(c as int - '0' as int)
    } else if 'a' <= c && c <= 'f' {
        Some(c as int - 'a' as int + 10)
    } else if 'A' <= c && c <= 'F' {
        Some(c as int - 'A' as int + 10)
    } else {
        None
    }
}

/// The bytes that `s` spells in hexadecimal: `None` unless it has an even number of characters
/// and each of them is a hexadecimal digit.
pub open spec fn hex_decoded(s: Seq<char>) -> Option<Seq<u8>> {
    if s.len() % 2 == 0 && forall|i: int| 0 <= i < s.len() ==> hex_value(#[trigger] s[i]) is Some {
        Some(
            Seq::new(
                s.len() / 2,
                |i: int| (hex_value(s[2 * i]).unwrap() * 16 + hex_value(s[2 * i + 1]).unwrap()) as u8,
            ),
        )
    } else {
        None
    }
}

fn hex_digit_value(c: char) -> (r: Option<u8>)
    ensures
        match r {
            Some(v) => v < 16 && hex_value(c) == Some(v as int),
            None => hex_value(c) is None,
        },
{
    let u: u32 = c as u32;
    if 48 <= u && u <= 57 {
        Some((u - 48) as u8)
    } else if 97 <= u && u <= 102 {
        Some((u - 87) as u8)
    } else if 65 <= u && u <= 70 {
        Some((u - 55) as u8)
    } else {
        None
    }
}

/// Reads hexadecimal text of either case.
pub fn hex_decode_chars(s: &[char]) -> (r: Option<Vec<u8>>)
    ensures
        match r {
            Some(b) => hex_decoded(s@) == Some(b@),
            None => hex_decoded(s@) is None,
        },
{
    if s.len() % 2 != 0 {
        return None;
    }
    let mut out: Vec<u8> = Vec::new();
    let mut i: usize = 0;
    while i < s.len()
        invariant
            0 <= i <= s@.len(),
            i % 2 == 0,
            s@.len() % 2 == 0,
            out@.len() == i / 2,
            forall|j: int| 0 <= j < i ==> hex_value(#[trigger] s@[j]) is Some,
            forall|j: int|
                0 <= j < i / 2 ==> #[trigger] out@[j] == (hex_value(s@[2 * j]).unwrap() * 16
                    + hex_value(s@[2 * j + 1]).unwrap()) as u8,
        decreases s@.len() - i,
    {
        let h: u8 = match hex_digit_value(s[i]) {
            Some(v) => v,
            None => {
                return None;
            },
        };
        let l: u8 = match hex_digit_value(s[i + 1]) {
            Some(v) => v,
            None => {
                return None;
            },
        };
        out.push(h * 16 + l);
        i = i + 2;
    }
    assert(out@ =~= hex_decoded(s@).unwrap());
    Some(out)
}

/// Reading back the hexadecimal text of a byte string gives the byte string.
pub proof fn lemma_hex_round_trip(b: Seq<u8>)
    ensures
        hex_decoded(hex_text(b)) == Some(b),
{
    let s = hex_text(b);
    assert forall|i: int| 0 <= i < s.len() implies hex_value(#[trigger] s[i]) is Some by {}
    assert forall|i: int| 0 <= i < b.len() implies #[trigger] hex_decoded(s).unwrap()[i]
        == b[i] by {
        assert(hex_value(s[2 * i]) == Some(b[i] as int / 16));
        assert(hex_value(s[2 * i + 1]) == Some(b[i] as int % 16));
    }
    assert(hex_decoded(s).unwrap() =~= b);
}

/// Appends the characters of `s`.
pub fn push_text(out: &mut Vec<char>, s: &str)
    ensures
        final(out)@ == old(out)@ + s@,
{
    let c = chars_of(s);
    push_chars(out, &c);
}

/// Appends characters.
pub fn push_chars(out: &mut Vec<char>, c: &[char])
    ensures
        final(out)@ == old(out)@ + c@,
{
    let ghost start = out@;
    let mut i: usize = 0;
    while i < c.len()
        invariant
            0 <= i <= c@.len(),
            out@ == start + c@.take(i as int),
        decreases c@.len() - i,
    {
        out.push(c[i]);
        assert(out@ =~= start + c@.take(i + 1));
        i = i + 1;
    }
    assert(c@.take(i as int) =~= c@);
}
/// One text behind another.
pub fn joined(a: &str, b: &str) -> (r: String)
    ensures
        r@ == a@ + b@,
{
    let mut out: Vec<char> = Vec::new();
    push_text(&mut out, a);
    push_text(&mut out, b);
    assert(out@ =~= a@ + b@);
    string_of(&out)
}

/// A text begins with another exactly where it is the other and something behind it, and ends
/// with another exactly where it is something and the other behind it.
pub proof fn lemma_prefix_and_suffix(s: Seq<char>, part: Seq<char>)
    ensures
        chars_prefix(s, part) <==> exists|rest: Seq<char>| s == #[trigger] (part + rest),
        chars_suffix(s, part) <==> exists|rest: Seq<char>| s == #[trigger] (rest + part),
{
    if chars_prefix(s, part) {
        assert(s =~= part + s.skip(part.len() as int));
    }
    if exists|rest: Seq<char>| s == #[trigger] (part + rest) {
        let rest = choose|rest: Seq<char>| s == #[trigger] (part + rest);
        assert((part + rest).take(part.len() as int) =~= part);
    }
    if chars_suffix(s, part) {
        assert(s =~= s.take(s.len() - part.len()) + part);
    }
    if exists|rest: Seq<char>| s == #[trigger] (rest + part) {
        let rest = choose|rest: Seq<char>| s == #[trigger] (rest + part);
        assert((rest + part).skip(rest.len() as int) =~= part);
    }
}

/// A text is cut at the first occurrence of a character: the parts and the character make up the
/// text, and the first part does not hold the character. It is not cut where the character is
/// absent.
pub proof fn lemma_cut_at_first(s: Seq<char>, c: char)
    ensures
        split_at_first(s, c) matches Some(p) ==> s == p.0.push(c) + p.1 && !p.0.contains(c),
        split_at_first(s, c) is None <==> !s.contains(c),
{
    lemma_position_meaning(s, c);
    let at = position(s, c);
    if at < s.len() {
        assert(s =~= s.take(at).push(c) + s.skip(at + 1));
        assert(s.contains(s[at]));
    } else {
        assert(!s.contains(c));
    }
}

/// A text that is put together of a part without the character, the character and a rest is cut
/// into that part and that rest.
pub proof fn lemma_cut_parts(a: Seq<char>, c: char, b: Seq<char>)
    requires
        !a.contains(c),
    ensures
        split_at_first(a.push(c) + b, c) == Some((a, b)),
{
    let s = a.push(c) + b;
    assert forall|j: int| 0 <= j < a.len() implies s[j] != c by {
        assert(s[j] == a[j]);
        assert(a.contains(a[j]));
    }
    assert(s[a.len() as int] == c);
    lemma_position(s, c, a.len() as int);
    assert(s.take(a.len() as int) =~= a);
    assert(s.skip(a.len() as int + 1) =~= b);
}

proof fn lemma_trim_start_run(s: Seq<char>) -> (a: int)
    ensures
        0 <= a <= s.len(),
        trim_start(s) == s.skip(a),
        forall|i: int| 0 <= i < a ==> is_space(#[trigger] s[i]),
        a < s.len() ==> !is_space(s[a]),
    decreases s.len(),
{
    if s.len() > 0 && is_space(s[0]) {
        let t = s.drop_first();
        let b = lemma_trim_start_run(t);
        assert(t.skip(b) =~= s.skip(b + 1));
        assert forall|i: int| 0 <= i < b + 1 implies is_space(#[trigger] s[i]) by {
            if i > 0 {
                assert(t[i - 1] == s[i]);
            }
        }
        b + 1
    } else {
        assert(s.skip(0) =~= s);
        0
    }
}

proof fn lemma_trim_end_run(s: Seq<char>) -> (b: int)
    ensures
        0 <= b <= s.len(),
        trim_end(s) == s.take(b),
        forall|i: int| b <= i < s.len() ==> is_space(#[trigger] s[i]),
        b > 0 ==> !is_space(s[b - 1]),
    decreases s.len(),
{
    if s.len() > 0 && is_space(s.last()) {
        let t = s.drop_last();
        let b = lemma_trim_end_run(t);
        assert(t.take(b) =~= s.take(b));
        assert forall|i: int| b <= i < s.len() implies is_space(#[trigger] s[i]) by {
            if i < t.len() {
                assert(t[i] == s[i]);
            }
        }
        b
    } else {
        assert(s.take(s.len() as int) =~= s);
        s.len() as int
    }
}

/// Trimming takes blanks away at both ends and nothing else: what is left is a run of the text,
/// all before and behind it is blank, and it neither begins nor ends with a blank.
pub proof fn lemma_trimmed_run(s: Seq<char>) -> (at: (int, int))
    ensures
        0 <= at.0 <= at.1 <= s.len(),
        trimmed(s) == s.subrange(at.0, at.1),
        forall|i: int| 0 <= i < at.0 || at.1 <= i < s.len() ==> is_space(#[trigger] s[i]),
        at.0 < at.1 ==> !is_space(s[at.0]) && !is_space(s[at.1 - 1]),
{
    let a = lemma_trim_start_run(s);
    let t = s.skip(a);
    let b = lemma_trim_end_run(t);
    assert(t.take(b) =~= s.subrange(a, a + b));
    assert forall|i: int| 0 <= i < a || a + b <= i < s.len() implies is_space(#[trigger] s[i]) by {
        if i >= a {
            assert(t[i - a] == s[i]);
        }
    }
    if b > 0 {
        assert(t[0] == s[a]);
        assert(t[b - 1] == s[a + b - 1]);
    }
    (a, a + b)
}

/// A text that neither begins nor ends with a blank is left as it is.
pub proof fn lemma_trimmed_keeps(s: Seq<char>)
    requires
        s.len() > 0 ==> !is_space(s[0]) && !is_space(s.last()),
    ensures
        trimmed(s) == s,
{
}

/// Space, tab, line feed and carriage return are blanks; no visible ASCII character is.
pub proof fn lemma_ascii_blanks(c: char)
    ensures
        c == ' ' || c == '\t' || c == '\n' || c == '\r' ==> is_space(c),
        0x21 <= c as u32 <= 0x7E ==> !is_space(c),
{
}

/// A numeral counts in tens: what stands before the last `b.len()` digits counts that power of
/// ten as often, and one digit is worth its distance from `'0'`.
pub proof fn lemma_decimal_places(a: Seq<char>, b: Seq<char>, c: char)
    requires
        is_digit(c),
    ensures
        dec_value(a + b) == dec_value(a) * pow(10, b.len()) + dec_value(b),
        dec_value(seq![c]) == c as u32 - 0x30,
    decreases b.len(),
{
    assert(seq![c].drop_last() =~= Seq::<char>::empty());
    assert(dec_value(seq![c].drop_last()) == 0);
    if b.len() == 0 {
        assert(a + b =~= a);
        lemma_pow0(10);
        assert(dec_value(a) * 1 == dec_value(a));
    } else {
        let t = b.drop_last();
        lemma_decimal_places(a, t, c);
        assert((a + b).drop_last() =~= a + t);
        assert((a + b).last() == b.last());
        assert(pow(10, b.len()) == 10 * pow(10, t.len())) by {
            reveal(pow);
        }
        let (x, y) = (dec_value(a) as int, pow(10, t.len()));
        assert(x * (10 * y) == (x * y) * 10) by (nonlinear_arith);
    }
}

/// A text is read as a number exactly where it is digits, behind at most one plus sign, and their
/// value fits.
pub proof fn lemma_numbers_read(d: Seq<char>)
    requires
        d.len() > 0,
        all_digits(d),
    ensures
        dec_value(d) <= 0xFFFF_FFFF_FFFF_FFFF ==> parsed_u64(d) == Some(dec_value(d) as u64)
            && parsed_u64(seq!['+'] + d) == Some(dec_value(d) as u64),
        dec_value(d) > 0xFFFF_FFFF_FFFF_FFFF ==> parsed_u64(d) is None && parsed_u64(
            seq!['+'] + d,
        ) is None,
{
    assert(is_digit(d[0]));
    assert((seq!['+'] + d).drop_first() =~= d);
}

/// No other text is read as a number.
pub proof fn lemma_numbers_refused(s: Seq<char>)
    requires
        s.len() == 0 || s == seq!['+'] || (!is_digit(s[0]) && s[0] != '+') || exists|i: int|
            1 <= i < s.len() && !is_digit(#[trigger] s[i]),
    ensures
        parsed_u64(s) is None,
{
    if s.len() > 0 && s[0] == '+' {
        let d = s.drop_first();
        if s.len() > 1 && exists|i: int| 1 <= i < s.len() && !is_digit(#[trigger] s[i]) {
            let i = choose|i: int| 1 <= i < s.len() && !is_digit(#[trigger] s[i]);
            assert(d[i - 1] == s[i]);
        }
    } else if s.len() > 0 {
        if !is_digit(s[0]) {
            assert(!all_digits(s));
        }
    }
}

/// The decimal numeral of a number is digits with that value, and its first digit is zero only
/// where the number is.
pub proof fn lemma_numeral(n: nat)
    ensures
        dec_digits(n).len() > 0,
        forall|i: int| 0 <= i < dec_digits(n).len() ==> '0' <= #[trigger] dec_digits(n)[i] <= '9',
        dec_value(dec_digits(n)) == n,
        n > 0 ==> dec_digits(n)[0] != '0',
    decreases n,
{
    lemma_dec_digits(n);
    assert forall|i: int| 0 <= i < dec_digits(n).len() implies '0' <= #[trigger] dec_digits(n)[i]
        <= '9' by {
        assert(is_digit(dec_digits(n)[i]));
    }
    if n >= 10 {
        lemma_numeral(n / 10);
        assert(dec_digits(n)[0] == dec_digits(n / 10)[0]);
    }
}

/// A padded numeral has the width asked for, consists of digits, and has the number's value
/// wherever the width can hold it.
pub proof fn lemma_padded_numeral(n: nat, width: nat)
    ensures
        padded_digits(n, width).len() == width,
        forall|i: int|
            0 <= i < width ==> '0' <= #[trigger] padded_digits(n, width)[i] <= '9',
        n < pow(10, width) ==> dec_value(padded_digits(n, width)) == n,
    decreases width,
{
    if width == 0 {
        lemma_pow0(10);
    } else {
        let w = (width - 1) as nat;
        let t = padded_digits(n / 10, w);
        lemma_padded_numeral(n / 10, w);
        assert(padded_digits(n, width).drop_last() =~= t);
        assert(is_digit(digit_char(n % 10)));
        assert forall|i: int| 0 <= i < width implies '0' <= #[trigger] padded_digits(n, width)[i]
            <= '9' by {
            if i < w {
                assert(padded_digits(n, width)[i] == t[i]);
            }
        }
        assert(pow(10, width) == 10 * pow(10, w)) by {
            reveal(pow);
        }
    }
}

/// Two numbers whose padded numerals agree are the same number.
pub proof fn lemma_padded_apart(m: u64, n: u64)
    requires
        padded_digits(m as nat, 20) == padded_digits(n as nat, 20),
    ensures
        m == n,
{
    lemma_padded_numeral(m as nat, 20);
    lemma_padded_numeral(n as nat, 20);
    assert(pow(10, 20) == 100_000_000_000_000_000_000) by {
        reveal_with_fuel(pow, 21);
    }
}

/// Each byte is written as two of the sixteen digits, its high half first.
pub proof fn lemma_hex_digits(b: Seq<u8>, i: int)
    requires
        0 <= i < b.len(),
    ensures
        hex_text(b).len() == 2 * b.len(),
        hex_text(b)[2 * i] == "0123456789abcdef"@[b[i] as int / 16],
        hex_text(b)[2 * i + 1] == "0123456789abcdef"@[b[i] as int % 16],
{
    reveal_strlit("0123456789abcdef");
    assert((2 * i) % 2 == 0 && (2 * i) / 2 == i);
    assert((2 * i + 1) % 2 == 1 && (2 * i + 1) / 2 == i);
    let h = b[i] as int / 16;
    let l = b[i] as int % 16;
    assert(0 <= h < 16 && 0 <= l < 16);
    lemma_hex_table(h);
    lemma_hex_table(l);
}

proof fn lemma_hex_table(d: int)
    requires
        0 <= d < 16,
    ensures
        hex_char(d) == "0123456789abcdef"@[d],
{
    reveal_strlit("0123456789abcdef");
    if d < 4 {
        assert(d == 0 || d == 1 || d == 2 || d == 3);
    } else if d < 8 {
        assert(d == 4 || d == 5 || d == 6 || d == 7);
    } else if d < 12 {
        assert(d == 8 || d == 9 || d == 10 || d == 11);
    } else {
        assert(d == 12 || d == 13 || d == 14 || d == 15);
    }
}

/// A hexadecimal digit is worth its place among the sixteen, in either case; no other character
/// is one.
pub proof fn lemma_hex_values(c: char)
    ensures
        forall|d: int|
            0 <= d < 16 && (c == #[trigger] "0123456789abcdef"@[d] || c == "0123456789ABCDEF"@[d])
                ==> hex_value(c) == Some(d),
        hex_value(c) is Some ==> "0123456789abcdefABCDEF"@.contains(c),
{
    reveal_strlit("0123456789abcdef");
    reveal_strlit("0123456789ABCDEF");
    reveal_strlit("0123456789abcdefABCDEF");
    assert forall|d: int|
        0 <= d < 16 && (c == #[trigger] "0123456789abcdef"@[d] || c == "0123456789ABCDEF"@[d]) implies hex_value(
        c,
    ) == Some(d) by {
        if d < 4 {
            assert(d == 0 || d == 1 || d == 2 || d == 3);
        } else if d < 8 {
            assert(d == 4 || d == 5 || d == 6 || d == 7);
        } else if d < 12 {
            assert(d == 8 || d == 9 || d == 10 || d == 11);
        } else {
            assert(d == 12 || d == 13 || d == 14 || d == 15);
        }
    }
    if hex_value(c) is Some {
        let t = "0123456789abcdefABCDEF"@;
        let u = c as u32;
        let i: int = if u < 0x40 {
            u - 0x30
        } else if u < 0x60 {
            u - 0x41 + 16
        } else {
            u - 0x61 + 10
        };
        assert(0 <= i < 22);
        lemma_hex_letters(i);
        assert(t[i] as u32 == u);
        assert(t[i] == c);
    }
}

proof fn lemma_hex_letters(i: int)
    requires
        0 <= i < 22,
    ensures
        "0123456789abcdefABCDEF"@.len() == 22,
        "0123456789abcdefABCDEF"@[i] as u32 == (if i < 10 {
            0x30 + i
        } else if i < 16 {
            0x61 + i - 10
        } else {
            0x41 + i - 16
        }),
{
    reveal_strlit("0123456789abcdefABCDEF");
    if i < 6 {
        assert(i == 0 || i == 1 || i == 2 || i == 3 || i == 4 || i == 5);
    } else if i < 12 {
        assert(i == 6 || i == 7 || i == 8 || i == 9 || i == 10 || i == 11);
    } else if i < 18 {
        assert(i == 12 || i == 13 || i == 14 || i == 15 || i == 16 || i == 17);
    } else {
        assert(i == 18 || i == 19 || i == 20 || i == 21);
    }
}

/// A decoded text has two digits for each byte: the sixteens, then the ones. A text of odd length,
/// or with a character that is no digit, is not decoded.
pub proof fn lemma_hex_decoding(s: Seq<char>)
    ensures
        hex_decoded(s) matches Some(b) ==> s.len() == 2 * b.len() && forall|i: int|
            0 <= i < b.len() ==> hex_value(s[2 * i]) is Some && hex_value(s[2 * i + 1]) is Some
                && #[trigger] b[i] == 16 * hex_value(s[2 * i]).unwrap() + hex_value(
                s[2 * i + 1],
            ).unwrap(),
        hex_decoded(s) is None <==> s.len() % 2 == 1 || exists|i: int|
            0 <= i < s.len() && hex_value(#[trigger] s[i]) is None,
{
}

} // verus!
