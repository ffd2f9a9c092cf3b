//! Byte strings: equality, lexicographic order, fixed-width integers.

use vstd::prelude::*;

verus! {

/// Whether two byte slices hold the same bytes.
pub fn bytes_eq(a: &[u8], b: &[u8]) -> (r: bool)
    ensures
        r == (a@ == b@),
{
    if a.len() != b.len() {
        return false;
    }
    let mut i: usize = 0;
    while i < a.len()
        invariant
            a@.len() == b@.len(),
            0 <= i <= a@.len(),
            forall|j: int| 0 <= j < i ==> a@[j] == b@[j],
        decreases a@.len() - i,
    {
        if a[i] != b[i] {
            return false;
        }
        i = i + 1;
    }
    assert(a@ =~= b@);
    true
}

/// Lexicographic order on byte strings: a proper prefix comes first, otherwise the
/// first differing byte decides.
pub open spec fn lex_lt(a: Seq<u8>, b: Seq<u8>) -> bool
    decreases a.len(),
{
    if b.len() == 0 {
        false
    } else if a.len() == 0 {
        true
    } else if a[0] != b[0] {
        a[0] < b[0]
    } else {
        lex_lt(a.drop_first(), b.drop_first())
    }
}

/// No byte string comes before itself.
pub proof fn lemma_lex_irreflexive(a: Seq<u8>)
    ensures
        !lex_lt(a, a),
    decreases a.len(),
{
    if a.len() > 0 {
        lemma_lex_irreflexive(a.drop_first());
    }
}

/// The order is transitive.
pub proof fn lemma_lex_transitive(a: Seq<u8>, b: Seq<u8>, c: Seq<u8>)
    requires
        lex_lt(a, b),
        lex_lt(b, c),
    ensures
        lex_lt(a, c),
    decreases a.len(),
{
    if a.len() > 0 && a[0] == b[0] && b[0] == c[0] {
        lemma_lex_transitive(a.drop_first(), b.drop_first(), c.drop_first());
    }
}

/// Of two different byte strings, one comes first.
pub proof fn lemma_lex_total(a: Seq<u8>, b: Seq<u8>)
    ensures
        a == b || lex_lt(a, b) || lex_lt(b, a),
    decreases a.len(),
{
    if a.len() == 0 {
        if b.len() == 0 {
            assert(a =~= b);
        }
    } else if b.len() > 0 && a[0] == b[0] {
        lemma_lex_total(a.drop_first(), b.drop_first());
        if a.drop_first() == b.drop_first() {
            assert(a =~= seq![a[0]] + a.drop_first());
            assert(b =~= seq![b[0]] + b.drop_first());
        }
    }
}

proof fn lemma_lex_skip(a: Seq<u8>, b: Seq<u8>, n: int)
    requires
        0 <= n <= a.len(),
        n <= b.len(),
        a.take(n) == b.take(n),
    ensures
        lex_lt(a, b) == lex_lt(a.skip(n), b.skip(n)),
    decreases n,
{
    if n == 0 {
        assert(a.skip(0) =~= a);
        assert(b.skip(0) =~= b);
    } else {
        assert(a[0] == a.take(n)[0] && b[0] == b.take(n)[0]);
        assert(a.drop_first().take(n - 1) =~= a.take(n).drop_first());
        assert(b.drop_first().take(n - 1) =~= b.take(n).drop_first());
        lemma_lex_skip(a.drop_first(), b.drop_first(), n - 1);
        assert(a.drop_first().skip(n - 1) =~= a.skip(n));
        assert(b.drop_first().skip(n - 1) =~= b.skip(n));
    }
}

/// Whether `a` comes before `b` in lexicographic order.
pub fn bytes_lt(a: &[u8], b: &[u8]) -> (r: bool)
    ensures
        r == lex_lt(a@, b@),
{
    let mut i: usize = 0;
    while i < a.len() && i < b.len()
        invariant
            0 <= i <= a@.len(),
            i <= b@.len(),
            a@.take(i as int) == b@.take(i as int),
        decreases a@.len() - i,
    {
        if a[i] != b[i] {
            proof {
                lemma_lex_skip(a@, b@, i as int);
            }
            return a[i] < b[i];
        }
        assert(a@.take(i + 1) =~= a@.take(i as int).push(a@[i as int]));
        assert(b@.take(i + 1) =~= b@.take(i as int).push(b@[i as int]));
        i = i + 1;
    }
    proof {
        lemma_lex_skip(a@, b@, i as int);
    }
    i < b.len()
}

/// Whether `s` begins with `prefix`.
pub open spec fn has_prefix(s: Seq<u8>, prefix: Seq<u8>) -> bool {
    prefix.len() <= s.len() && s.take(prefix.len() as int) == prefix
}

/// Whether `s` begins with `prefix`.
pub fn starts_with(s: &[u8], prefix: &[u8]) -> (r: bool)
    ensures
        r == has_prefix(s@, prefix@),
{
    if prefix.len() > s.len() {
        return false;
    }
    let mut i: usize = 0;
    while i < prefix.len()
        invariant
            prefix@.len() <= s@.len(),
            0 <= i <= prefix@.len(),
            forall|j: int| 0 <= j < i ==> s@[j] == prefix@[j],
        decreases prefix@.len() - i,
    {
        if s[i] != prefix[i] {
            assert(s@.take(prefix@.len() as int)[i as int] != prefix@[i as int]);
            return false;
        }
        i = i + 1;
    }
    assert(s@.take(prefix@.len() as int) =~= prefix@);
    true
}

/// `a` followed by `b`.
pub fn concat(a: &[u8], b: &[u8]) -> (r: Vec<u8>)
    ensures
        r@ == a@ + b@,
{
    let mut out: Vec<u8> = Vec::new();
    append(&mut out, a);
    append(&mut out, b);
    assert(out@ =~= a@ + b@);
    out
}

/// Appends `b` to `out`.
pub fn append(out: &mut Vec<u8>, b: &[u8])
    ensures
        final(out)@ == old(out)@ + b@,
{
    let ghost start = out@;
    let mut i: usize = 0;
    while i < b.len()
        invariant
            0 <= i <= b@.len(),
            out@ == start + b@.take(i as int),
        decreases b@.len() - i,
    {
        out.push(b[i]);
        assert(out@ =~= start + b@.take(i + 1));
        i = i + 1;
    }
    assert(b@.take(i as int) =~= b@);
}

/// A copy of the bytes of a slice.
pub fn to_vec(b: &[u8]) -> (r: Vec<u8>)
    ensures
        r@ == b@,
{
    let mut out: Vec<u8> = Vec::new();
    append(&mut out, b);
    assert(out@ =~= b@);
    out
}

/// A copy of `b[from..to]`.
pub fn slice_of(b: &[u8], from: usize, to: usize) -> (r: Vec<u8>)
    requires
        from <= to <= b@.len(),
    ensures
        r@ == b@.subrange(from as int, to as int),
{
    let mut out: Vec<u8> = Vec::new();
    let mut i: usize = from;
    while i < to
        invariant
            from <= i <= to <= b@.len(),
            out@ == b@.subrange(from as int, i as int),
        decreases to - i,
    {
        out.push(b[i]);
        assert(out@ =~= b@.subrange(from as int, i + 1));
        i = i + 1;
    }
    out
}

/// The bytes as an array of 32, where there are that many.
pub fn to_array32(b: &[u8]) -> (r: [u8; 32])
    requires
        b@.len() == 32,
    ensures
        r@ == b@,
{
    let mut out: [u8; 32] = [0u8; 32];
    let mut i: usize = 0;
    while i < 32
        invariant
            0 <= i <= 32,
            b@.len() == 32,
            forall|j: int| 0 <= j < i ==> out@[j] == b@[j],
        decreases 32 - i,
    {
        out[i] = b[i];
        i = i + 1;
    }
    assert(out@ =~= b@);
    out
}

/// The bytes as an array of 16, where there are that many.
pub fn to_array16(b: &[u8]) -> (r: [u8; 16])
    requires
        b@.len() == 16,
    ensures
        r@ == b@,
{
    let mut out: [u8; 16] = [0u8; 16];
    let mut i: usize = 0;
    while i < 16
        invariant
            0 <= i <= 16,
            b@.len() == 16,
            forall|j: int| 0 <= j < i ==> out@[j] == b@[j],
        decreases 16 - i,
    {
        out[i] = b[i];
        i = i + 1;
    }
    assert(out@ =~= b@);
    out
}

/// The bytes as an array of 12, where there are that many.
pub fn to_array12(b: &[u8]) -> (r: [u8; 12])
    requires
        b@.len() == 12,
    ensures
        r@ == b@,
{
    let mut out: [u8; 12] = [0u8; 12];
    let mut i: usize = 0;
    while i < 12
        invariant
            0 <= i <= 12,
            b@.len() == 12,
            forall|j: int| 0 <= j < i ==> out@[j] == b@[j],
        decreases 12 - i,
    {
        out[i] = b[i];
        i = i + 1;
    }
    assert(out@ =~= b@);
    out
}

/// Most significant byte first.
pub open spec fn be16(x: u16) -> Seq<u8> {
    seq![(x >> 8u16) as u8, x as u8]
}

/// Most significant byte first.
pub open spec fn be32(x: u32) -> Seq<u8> {
    be16((x >> 16u32) as u16) + be16(x as u16)
}

/// Most significant byte first.
pub open spec fn be64(x: u64) -> Seq<u8> {
    be32((x >> 32u64) as u32) + be32(x as u32)
}

/// Most significant byte first.
pub open spec fn be128(x: u128) -> Seq<u8> {
    be64((x >> 64u128) as u64) + be64(x as u64)
}

/// The number whose big-endian bytes are `s`.
pub open spec fn of_be32(s: Seq<u8>) -> u32 {
    ((s[0] as u32) << 24u32) | ((s[1] as u32) << 16u32) | ((s[2] as u32) << 8u32) | (s[3] as u32)
}

/// The number whose big-endian bytes are `s`.
pub open spec fn of_be64(s: Seq<u8>) -> u64 {
    ((of_be32(s.subrange(0, 4)) as u64) << 32u64) | (of_be32(s.subrange(4, 8)) as u64)
}

/// The number whose big-endian bytes are `s`.
pub open spec fn of_be128(s: Seq<u8>) -> u128 {
    ((of_be64(s.subrange(0, 8)) as u128) << 64u128) | (of_be64(s.subrange(8, 16)) as u128)
}

fn push_be16(out: &mut Vec<u8>, x: u16)
    ensures
        final(out)@ == old(out)@ + be16(x),
{
    out.push((x >> 8u16) as u8);
    #[verifier::truncate]
    let low = x as u8;
    out.push(low);
    assert(out@ =~= old(out)@ + be16(x));
}

/// Appends the big-endian bytes of `x`.
pub fn push_be32(out: &mut Vec<u8>, x: u32)
    ensures
        final(out)@ == old(out)@ + be32(x),
{
    push_be16(out, (x >> 16u32) as u16);
    push_be16(out, x as u16);
    assert(out@ =~= old(out)@ + be32(x));
}

/// Appends the big-endian bytes of `x`.
pub fn push_be64(out: &mut Vec<u8>, x: u64)
    ensures
        final(out)@ == old(out)@ + be64(x),
{
    push_be32(out, (x >> 32u64) as u32);
    push_be32(out, x as u32);
    assert(out@ =~= old(out)@ + be64(x));
}

/// Appends the big-endian bytes of `x`.
pub fn push_be128(out: &mut Vec<u8>, x: u128)
    ensures
        final(out)@ == old(out)@ + be128(x),
{
    push_be64(out, (x >> 64u128) as u64);
    push_be64(out, x as u64);
    assert(out@ =~= old(out)@ + be128(x));
}

/// The big-endian bytes of `x`.
pub fn be128_bytes(x: u128) -> (r: Vec<u8>)
    ensures
        r@ == be128(x),
{
    let mut out: Vec<u8> = Vec::new();
    push_be128(&mut out, x);
    assert(out@ =~= be128(x));
    out
}

/// The big-endian bytes of `x`.
pub fn be64_bytes(x: u64) -> (r: Vec<u8>)
    ensures
        r@ == be64(x),
{
    let mut out: Vec<u8> = Vec::new();
    push_be64(&mut out, x);
    assert(out@ =~= be64(x));
    out
}

/// Reads four big-endian bytes from position `at`.
pub fn read_be32(s: &[u8], at: usize) -> (r: u32)
    requires
        at + 4 <= s@.len(),
    ensures
        r == of_be32(s@.subrange(at as int, at + 4)),
{
    ((s[at] as u32) << 24u32) | ((s[at + 1] as u32) << 16u32) | ((s[at + 2] as u32) << 8u32) | (s[at
        + 3] as u32)
}

/// Reads eight big-endian bytes from position `at`.
pub fn read_be64(s: &[u8], at: usize) -> (r: u64)
    requires
        at + 8 <= s@.len(),
    ensures
        r == of_be64(s@.subrange(at as int, at + 8)),
{
    let ghost w = s@.subrange(at as int, at + 8);
    assert(w.subrange(0, 4) =~= s@.subrange(at as int, at + 4));
    assert(w.subrange(4, 8) =~= s@.subrange(at + 4, at + 8));
    let _len: usize = s.len();
    ((read_be32(s, at) as u64) << 32u64) | (read_be32(s, at + 4) as u64)
}

/// Reads sixteen big-endian bytes from position `at`.
pub fn read_be128(s: &[u8], at: usize) -> (r: u128)
    requires
        at + 16 <= s@.len(),
    ensures
        r == of_be128(s@.subrange(at as int, at + 16)),
{
    let ghost w = s@.subrange(at as int, at + 16);
    assert(w.subrange(0, 8) =~= s@.subrange(at as int, at + 8));
    assert(w.subrange(8, 16) =~= s@.subrange(at + 8, at + 16));
    let _len: usize = s.len();
    ((read_be64(s, at) as u128) << 64u128) | (read_be64(s, at + 8) as u128)
}

/// Reading back the big-endian bytes of a number gives the number.
pub proof fn lemma_be32_round_trip(x: u32)
    ensures
        be32(x).len() == 4,
        of_be32(be32(x)) == x,
{
    assert(x == ((((x >> 16u32) as u16) >> 8u16) as u8 as u32) << 24u32 | (((x >> 16u32) as u16) as u8 as u32)
        << 16u32 | (((x as u16) >> 8u16) as u8 as u32) << 8u32 | ((x as u16) as u8 as u32)) by (bit_vector);
}

/// Reading back the big-endian bytes of a number gives the number.
pub proof fn lemma_be64_round_trip(x: u64)
    ensures
        be64(x).len() == 8,
        of_be64(be64(x)) == x,
{
    let hi = (x >> 32u64) as u32;
    let lo = x as u32;
    lemma_be32_round_trip(hi);
    lemma_be32_round_trip(lo);
    assert(be64(x).subrange(0, 4) =~= be32(hi));
    assert(be64(x).subrange(4, 8) =~= be32(lo));
    assert(x == (((x >> 32u64) as u32) as u64) << 32u64 | ((x as u32) as u64)) by (bit_vector);
}

/// Reading back the big-endian bytes of a number gives the number.
pub proof fn lemma_be128_round_trip(x: u128)
    ensures
        be128(x).len() == 16,
        of_be128(be128(x)) == x,
{
    let hi = (x >> 64u128) as u64;
    let lo = x as u64;
    lemma_be64_round_trip(hi);
    lemma_be64_round_trip(lo);
    assert(be128(x).subrange(0, 8) =~= be64(hi));
    assert(be128(x).subrange(8, 16) =~= be64(lo));
    assert(x == (((x >> 64u128) as u64) as u128) << 64u128 | ((x as u64) as u128)) by (bit_vector);
}


/// The number whose little-endian bytes are `s`.
pub open spec fn of_le32(s: Seq<u8>) -> u32 {
    of_be32(seq![s[3], s[2], s[1], s[0]])
}

/// The number whose little-endian bytes are `s`.
pub open spec fn of_le64(s: Seq<u8>) -> u64 {
    ((of_le32(s.subrange(4, 8)) as u64) << 32u64) | (of_le32(s.subrange(0, 4)) as u64)
}

/// Reads four little-endian bytes from position `at`.
pub fn read_le32(s: &[u8], at: usize) -> (r: u32)
    requires
        at + 4 <= s@.len(),
    ensures
        r == of_le32(s@.subrange(at as int, at + 4)),
{
    let _len: usize = s.len();
    ((s[at + 3] as u32) << 24u32) | ((s[at + 2] as u32) << 16u32) | ((s[at + 1] as u32) << 8u32) | (
    s[at] as u32)
}

/// Reads eight little-endian bytes from position `at`.
pub fn read_le64(s: &[u8], at: usize) -> (r: u64)
    requires
        at + 8 <= s@.len(),
    ensures
        r == of_le64(s@.subrange(at as int, at + 8)),
{
    let ghost w = s@.subrange(at as int, at + 8);
    assert(w.subrange(0, 4) =~= s@.subrange(at as int, at + 4));
    assert(w.subrange(4, 8) =~= s@.subrange(at + 4, at + 8));
    let _len: usize = s.len();
    ((read_le32(s, at + 4) as u64) << 32u64) | (read_le32(s, at) as u64)
}

/// A byte string comes before every one that it begins, and otherwise the first byte in which two
/// differ decides, the lower one first.
pub proof fn lemma_lex_first_difference(a: Seq<u8>, b: Seq<u8>, at: int)
    requires
        0 <= at <= a.len(),
        at <= b.len(),
        forall|i: int| 0 <= i < at ==> a[i] == b[i],
        at < a.len() && at < b.len() ==> a[at] != b[at],
    ensures
        at == a.len() && at < b.len() ==> lex_lt(a, b),
        at == b.len() ==> !lex_lt(a, b),
        at < a.len() && at < b.len() ==> lex_lt(a, b) == (a[at] < b[at]),
    decreases at,
{
    if at > 0 {
        let x = a.drop_first();
        let y = b.drop_first();
        assert forall|i: int| 0 <= i < at - 1 implies x[i] == y[i] by {
            assert(a[i + 1] == b[i + 1]);
        }
        assert(at < a.len() ==> x[at - 1] == a[at]);
        assert(at < b.len() ==> y[at - 1] == b[at]);
        lemma_lex_first_difference(x, y, at - 1);
    }
}

/// The bytes of a number are its digits to the base 256, the highest first.
pub proof fn lemma_be32_digits(s: Seq<u8>)
    requires
        s.len() == 4,
    ensures
        of_be32(s) == s[0] * 0x100_0000 + s[1] * 0x1_0000 + s[2] * 0x100 + s[3],
{
    let (a, b, c, d) = (s[0], s[1], s[2], s[3]);
    assert((((a as u32) << 24u32) | ((b as u32) << 16u32) | ((c as u32) << 8u32) | (d as u32)) == (
    a as u32) * 0x100_0000u32 + (b as u32) * 0x1_0000u32 + (c as u32) * 0x100u32 + (d as u32))
        by (bit_vector);
}

/// The halves of a number of eight bytes are those of its first and its last four, the higher
/// first.
pub proof fn lemma_be64_digits(s: Seq<u8>)
    requires
        s.len() == 8,
    ensures
        of_be64(s) == of_be32(s.subrange(0, 4)) * 0x1_0000_0000 + of_be32(s.subrange(4, 8)),
{
    let h = of_be32(s.subrange(0, 4));
    let l = of_be32(s.subrange(4, 8));
    assert((((h as u64) << 32u64) | (l as u64)) == (h as u64) * 0x1_0000_0000u64 + (l as u64))
        by (bit_vector);
}

/// Little-endian bytes are big-endian ones from the other end.
pub proof fn lemma_le_is_reversed(s: Seq<u8>)
    requires
        s.len() == 8,
    ensures
        of_le32(s.subrange(0, 4)) == of_be32(s.subrange(0, 4).reverse()),
        of_le64(s) == of_be64(s.reverse()),
{
    let lo = s.subrange(0, 4);
    let hi = s.subrange(4, 8);
    assert(lo.reverse() =~= seq![lo[3], lo[2], lo[1], lo[0]]);
    assert(hi.reverse() =~= seq![hi[3], hi[2], hi[1], hi[0]]);
    assert(s.reverse().subrange(0, 4) =~= hi.reverse());
    assert(s.reverse().subrange(4, 8) =~= lo.reverse());
}

/// Different numbers have different bytes.
pub proof fn lemma_be32_injective(a: u32, b: u32)
    requires
        be32(a) == be32(b),
    ensures
        a == b,
{
    lemma_be32_round_trip(a);
    lemma_be32_round_trip(b);
}

/// Different numbers have different bytes.
pub proof fn lemma_be64_injective(a: u64, b: u64)
    requires
        be64(a) == be64(b),
    ensures
        a == b,
{
    lemma_be64_round_trip(a);
    lemma_be64_round_trip(b);
}

/// Different numbers have different bytes.
pub proof fn lemma_be128_injective(a: u128, b: u128)
    requires
        be128(a) == be128(b),
    ensures
        a == b,
{
    lemma_be128_round_trip(a);
    lemma_be128_round_trip(b);
}

/// A byte string begins with another exactly where it is the other and something behind it.
pub proof fn lemma_prefix_is_beginning(s: Seq<u8>, prefix: Seq<u8>)
    ensures
        has_prefix(s, prefix) <==> exists|rest: Seq<u8>| s == #[trigger] (prefix + rest),
{
    if has_prefix(s, prefix) {
        assert(s =~= prefix + s.skip(prefix.len() as int));
    }
    if exists|rest: Seq<u8>| s == #[trigger] (prefix + rest) {
        let rest = choose|rest: Seq<u8>| s == #[trigger] (prefix + rest);
        assert((prefix + rest).take(prefix.len() as int) =~= prefix);
    }
}

} // verus!
