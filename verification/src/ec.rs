//! Reed-Solomon erasure coding: any `k` of `n` shards give the payload back.

use vstd::prelude::*;

use crate::bytes::append;
use crate::text::dec_digits;
use crate::text::push_decimal;
use crate::text::push_text;
use crate::text::string_of;
use crate::types::ECScheme;

verus! {

/// Why coding failed.
#[derive(Clone, PartialEq, Eq, Debug)]
pub enum EcError {
    Scheme(String),
    Encode(String),
    Reconstruct(String),
    InsufficientShards { have: usize, need: usize },
}

/// The contents of a row of shards.
pub open spec fn shard_views(shards: Seq<Vec<u8>>) -> Seq<Seq<u8>> {
    shards.map_values(|s: Vec<u8>| s@)
}

/// The contents of a row of slots, each of which holds a shard or none.
pub open spec fn slot_views(slots: Seq<Option<Vec<u8>>>) -> Seq<Option<Seq<u8>>> {
    slots.map_values(
        |s: Option<Vec<u8>>|
            match s {
                Some(v) => Some(v@),
                None => None,
            },
    )
}

/// Whether every shard has `len` bytes.
pub open spec fn all_of_len(shards: Seq<Seq<u8>>, len: nat) -> bool {
    forall|i: int| 0 <= i < shards.len() ==> (#[trigger] shards[i]).len() == len
}

/// How many slots hold a shard.
pub open spec fn present(slots: Seq<Option<Seq<u8>>>) -> nat
    decreases slots.len(),
{
    if slots.len() == 0 {
        0
    } else {
        present(slots.drop_last()) + (if slots.last() is Some {
            1nat
        } else {
            0nat
        })
    }
}

/// Whether the shards that are there are not empty and have one length.
pub open spec fn consistent(slots: Seq<Option<Seq<u8>>>) -> bool {
    &&& forall|i: int| 0 <= i < slots.len() && (#[trigger] slots[i]) is Some ==> slots[i].unwrap().len() > 0
    &&& forall|i: int, j: int|
        0 <= i < slots.len() && 0 <= j < slots.len() && (#[trigger] slots[i]) is Some
            && (#[trigger] slots[j]) is Some ==> slots[i].unwrap().len() == slots[j].unwrap().len()
}

/// Whether a shard before the last has another length than `len`.
pub open spec fn differs_before(slots: Seq<Option<Seq<u8>>>, len: nat) -> bool {
    exists|j: int|
        0 <= j < slots.len() - 1 && (#[trigger] slots[j]) is Some && slots[j].unwrap().len() != len
}

/// What the first of the shards that cannot be used is refused with, where there is one.
pub open spec fn slot_fault(slots: Seq<Option<Seq<u8>>>) -> Option<Seq<char>>
    decreases slots.len(),
{
    if slots.len() == 0 {
        None
    } else {
        match (slot_fault(slots.drop_last()), slots.last()) {
            (Some(text), _) => Some(text),
            (None, None) => None,
            (None, Some(s)) => if s.len() == 0 {
                Some("The first shard provided is of zero length"@)
            } else if differs_before(slots, s.len()) {
                Some("At least one of the provided shards is not of the correct size"@)
            } else {
                None
            },
        }
    }
}

/// Whether every shard that is there is the one of that index in `shards`.
pub open spec fn slots_match(slots: Seq<Option<Seq<u8>>>, shards: Seq<Seq<u8>>) -> bool {
    &&& slots.len() == shards.len()
    &&& forall|i: int| 0 <= i < slots.len() && (#[trigger] slots[i]) is Some ==> slots[i].unwrap() == shards[i]
}

/// Names the parity shards that Reed-Solomon coding over GF(2^8) adds to data shards.
pub uninterp spec fn rs_parity(data: Seq<Seq<u8>>, parity: nat) -> Seq<Seq<u8>>;

/// Names the full row of shards that Reed-Solomon decoding finds from `data_count` or more of them.
pub uninterp spec fn rs_filled(slots: Seq<Option<Seq<u8>>>, data_count: nat) -> Seq<Seq<u8>>;

/// Names what Reed-Solomon coding says of numbers of data and parity shards that it does not take.
pub uninterp spec fn rs_refusal(k: nat, parity: nat) -> Option<Seq<char>>;

/// `ReedSolomon::new` of the crate `reed-solomon-erasure`: it takes at least one data and one parity
/// shard, and up to 256 together, and else says why not.
#[verifier::external_body]
fn rs_check(k: usize, parity: usize) -> (r: Option<String>)
    requires
        k + parity <= usize::MAX,
    ensures
        r is Some == (k == 0 || parity == 0 || k + parity > 256),
        match r {
            Some(m) => rs_refusal(k as nat, parity as nat) == Some(m@),
            None => rs_refusal(k as nat, parity as nat) is None,
        },
{
    reed_solomon_erasure::galois_8::ReedSolomon::new(k, parity).err().map(|e| e.to_string())
}

/// `ReedSolomon::new` and `encode` of the crate `reed-solomon-erasure`: the first `k` shards stay as
/// they are, and the parity shards of these take the place of the others.
#[verifier::external_body]
fn rs_encode(mut shards: Vec<Vec<u8>>, k: usize, parity: usize) -> (r: Result<Vec<Vec<u8>>, String>)
    requires
        1 <= k,
        1 <= parity,
        k + parity == shards@.len() <= 256,
        shards@[0]@.len() > 0,
        all_of_len(shard_views(shards@), shards@[0]@.len()),
    ensures
        r is Ok,
        shard_views(r.unwrap()@) == shard_views(shards@).take(k as int) + rs_parity(
            shard_views(shards@).take(k as int),
            parity as nat,
        ),
        r.unwrap()@.len() == shards@.len(),
        all_of_len(shard_views(r.unwrap()@), shards@[0]@.len()),
{
    let coder = reed_solomon_erasure::galois_8::ReedSolomon::new(k, parity).map_err(|e| e.to_string())?;
    coder.encode(&mut shards).map_err(|e| e.to_string())?;
    Ok(shards)
}

/// `ReedSolomon::new` and `reconstruct` of the crate `reed-solomon-erasure`, with at least as many
/// shards as there are data shards: it succeeds exactly where the shards are not empty and have
/// one length, and then fills every slot and keeps what was there; else it says what is wrong
/// with the first shard that is not so. Where the shards that are there come from one encoding,
/// the data shards come out as they went in.
#[verifier::external_body]
fn rs_reconstruct(mut slots: Vec<Option<Vec<u8>>>, k: usize, parity: usize) -> (r: Result<
    Vec<Option<Vec<u8>>>,
    String,
>)
    requires
        1 <= k,
        1 <= parity,
        k + parity == slots@.len() <= 256,
        present(slot_views(slots@)) >= k,
    ensures
        r is Ok == consistent(slot_views(slots@)),
        r matches Err(m) ==> slot_fault(slot_views(slots@)) == Some(m@),
        r matches Ok(out) ==> out@.len() == slots@.len() && (forall|i: int|
            0 <= i < out@.len() ==> (#[trigger] out@[i]) is Some && out@[i].unwrap()@ == rs_filled(
                slot_views(slots@),
                k as nat,
            )[i]) && (forall|i: int|
            0 <= i < out@.len() && (#[trigger] slots@[i]) is Some ==> out@[i].unwrap()@
                == slots@[i].unwrap()@),
        forall|data: Seq<Seq<u8>>|
            data.len() == k && data[0].len() > 0 && all_of_len(data, data[0].len()) && slots_match(
                slot_views(slots@),
                data + #[trigger] rs_parity(data, parity as nat),
            ) ==> (r matches Ok(out) && forall|i: int|
                0 <= i < k ==> (#[trigger] out@[i]).unwrap()@ == data[i]),
{
    let coder = reed_solomon_erasure::galois_8::ReedSolomon::new(k, parity).map_err(|e| e.to_string())?;
    coder.reconstruct(&mut slots).map_err(|e| e.to_string())?;
    Ok(slots)
}

/// The length of each shard: the payload divided among `k`, rounded up.
pub open spec fn shard_len(payload_len: nat, k: nat) -> nat {
    (payload_len + k - 1) as nat / k
}

/// The data shards of a payload: `k` equal runs of it, the last padded with zeros.
pub open spec fn data_shards(payload: Seq<u8>, k: nat) -> Seq<Seq<u8>> {
    let len = shard_len(payload.len(), k);
    Seq::new(
        k,
        |i: int|
            Seq::new(
                len,
                |j: int|
                    if i * len + j < payload.len() {
                        payload[i * len + j]
                    } else {
                        0u8
                    },
            ),
    )
}

/// All shards of a payload: its data shards, and parity shards where the scheme has any. Those of
/// an empty payload are empty.
pub open spec fn encoded(scheme: ECScheme, payload: Seq<u8>) -> Seq<Seq<u8>> {
    let data = data_shards(payload, scheme.k as nat);
    if scheme.k == scheme.n {
        data
    } else if payload.len() == 0 {
        Seq::new(scheme.n as nat, |i: int| Seq::empty())
    } else {
        data + rs_parity(data, (scheme.n - scheme.k) as nat)
    }
}

/// The first `n` shards, one behind the other.
pub open spec fn joined(shards: Seq<Seq<u8>>, n: int) -> Seq<u8>
    decreases n,
{
    if n <= 0 {
        Seq::empty()
    } else {
        joined(shards, n - 1) + shards[n - 1]
    }
}

/// `s` cut to at most `n` bytes.
pub open spec fn cut(s: Seq<u8>, n: nat) -> Seq<u8> {
    if s.len() <= n {
        s
    } else {
        s.take(n as int)
    }
}

proof fn lemma_shard_len(len: nat, k: nat)
    requires
        k > 0,
    ensures
        len > 0 ==> shard_len(len, k) >= 1,
        len == 0 ==> shard_len(len, k) == 0,
        shard_len(len, k) * k >= len,
        shard_len(len, k) == len / k + (if len % k == 0 {
            0int
        } else {
            1int
        }),
{
    if len == 0 {
        vstd::arithmetic::div_mod::lemma_basic_div(k - 1, k as int);
        vstd::arithmetic::div_mod::lemma_small_mod(0, k);
        vstd::arithmetic::div_mod::lemma_basic_div(0, k as int);
    } else {
        let l = shard_len(len, k);
        vstd::arithmetic::div_mod::lemma_fundamental_div_mod(len as int, k as int);
        let q = len as int / k as int;
        let m = len as int % k as int;
        assert(len + k - 1 == q * k + (m + k - 1)) by (nonlinear_arith)
            requires
                len == k * q + m,
        ;
        if m == 0 {
            vstd::arithmetic::div_mod::lemma_fundamental_div_mod_converse(
                len + k - 1,
                k as int,
                q,
                k - 1,
            );
            assert(q >= 1) by (nonlinear_arith)
                requires
                    len > 0,
                    len == k * q + 0,
                    k > 0,
            ;
        } else {
            assert(len + k - 1 == (q + 1) * k + (m - 1)) by (nonlinear_arith)
                requires
                    len + k - 1 == q * k + (m + k - 1),
            ;
            vstd::arithmetic::div_mod::lemma_fundamental_div_mod_converse(
                len + k - 1,
                k as int,
                q + 1,
                m - 1,
            );
            vstd::arithmetic::div_mod::lemma_div_pos_is_pos(len as int, k as int);
        }
        assert(l * k >= len) by (nonlinear_arith)
            requires
                len == k * q + m,
                0 <= m < k,
                l == q + (if m == 0 {
                    0int
                } else {
                    1int
                }),
        ;
    }
}

proof fn lemma_joined(payload: Seq<u8>, k: nat, i: int)
    requires
        k > 0,
        0 <= i <= k,
    ensures
        joined(data_shards(payload, k), i) == Seq::new(
            (i * shard_len(payload.len(), k)) as nat,
            |j: int|
                if j < payload.len() {
                    payload[j]
                } else {
                    0u8
                },
        ),
    decreases i,
{
    let len = shard_len(payload.len(), k);
    let whole = Seq::new(
        (i * len) as nat,
        |j: int|
            if j < payload.len() {
                payload[j]
            } else {
                0u8
            },
    );
    lemma_shard_len(payload.len(), k);
    if i > 0 {
        lemma_joined(payload, k, i - 1);
        assert((i - 1) * len + len == i * len && (i - 1) * len >= 0) by (nonlinear_arith)
            requires
                i > 0,
        ;
        assert(joined(data_shards(payload, k), i) =~= whole);
    } else {
        assert(i * len == 0) by (nonlinear_arith)
            requires
                i == 0,
        ;
        assert(joined(data_shards(payload, k), i) =~= whole);
    }
}

/// The data shards of a payload, one behind the other and cut to its length, are the payload.
pub proof fn lemma_data_shards_join(payload: Seq<u8>, k: nat)
    requires
        k > 0,
    ensures
        cut(joined(data_shards(payload, k), k as int), payload.len()) == payload,
{
    lemma_joined(payload, k, k as int);
    lemma_shard_len(payload.len(), k);
    let j = joined(data_shards(payload, k), k as int);
    let len = shard_len(payload.len(), k);
    assert(k * len >= payload.len()) by (nonlinear_arith)
        requires
            len * k >= payload.len(),
    ;
    assert(cut(j, payload.len()) =~= payload);
}

/// Divides a payload into `k` equal shards.
fn split_into_k(payload: &[u8], k: usize) -> (r: Vec<Vec<u8>>)
    requires
        k > 0,
    ensures
        shard_views(r@) == data_shards(payload@, k as nat),
        r@.len() == k,
{
    let total: usize = payload.len();
    proof {
        lemma_shard_len(total as nat, k as nat);
        if total % k != 0 {
            assert(total > 0) by {
                vstd::arithmetic::div_mod::lemma_small_mod(0, k as nat);
            }
            assert(k != 1) by {
                assert(total as int % 1 == 0);
            }
            vstd::arithmetic::div_mod::lemma_div_decreases(total as int, k as int);
        }
    }
    let len: usize = if total % k == 0 {
        total / k
    } else {
        total / k + 1
    };
    let ghost spec_shards = data_shards(payload@, k as nat);
    let mut out: Vec<Vec<u8>> = Vec::new();
    let mut start: usize = 0;
    let mut i: usize = 0;
    while i < k
        invariant
            k > 0,
            0 <= i <= k,
            total == payload@.len(),
            len == shard_len(total as nat, k as nat),
            start == (if i * len <= total {
                i * len
            } else {
                total as int
            }),
            out@.len() == i,
            spec_shards == data_shards(payload@, k as nat),
            forall|a: int| 0 <= a < i ==> (#[trigger] out@[a])@ == spec_shards[a],
        decreases k - i,
    {
        let mut s: Vec<u8> = Vec::new();
        let mut j: usize = 0;
        while j < len
            invariant
                0 <= j <= len,
                0 <= i < k,
                total == payload@.len(),
                len == shard_len(total as nat, k as nat),
                start == (if i * len <= total {
                    i * len
                } else {
                    total as int
                }),
                s@.len() == j,
                forall|b: int|
                    0 <= b < j ==> #[trigger] s@[b] == (if i * len + b < payload@.len() {
                        payload@[i * len + b]
                    } else {
                        0u8
                    }),
            decreases len - j,
        {
            if j < total - start {
                s.push(payload[start + j]);
            } else {
                s.push(0u8);
            }
            j = j + 1;
        }
        assert(s@ =~= spec_shards[i as int]);
        out.push(s);
        if len < total - start {
            start = start + len;
        } else {
            start = total;
        }
        assert((i + 1) * len == i * len + len) by (nonlinear_arith);
        i = i + 1;
    }
    assert(shard_views(out@) =~= spec_shards);
    out
}

/// Shards with empty ones of their length behind them, `n` in all.
fn with_room(mut shards: Vec<Vec<u8>>, n: usize) -> (r: Vec<Vec<u8>>)
    requires
        1 <= shards@.len() <= n,
        all_of_len(shard_views(shards@), shards@[0]@.len()),
    ensures
        r@.len() == n,
        r@.take(shards@.len() as int) == shards@,
        r@[0]@.len() == shards@[0]@.len(),
        all_of_len(shard_views(r@), shards@[0]@.len()),
{
    let ghost start = shards@;
    let len: usize = shards[0].len();
    assert(shards@.take(start.len() as int) =~= start);
    while shards.len() < n
        invariant
            1 <= start.len() <= shards@.len() <= n,
            len == start[0]@.len(),
            shards@.take(start.len() as int) == start,
            all_of_len(shard_views(shards@), len as nat),
        decreases n - shards@.len(),
    {
        let mut empty: Vec<u8> = Vec::new();
        while empty.len() < len
            invariant
                empty@.len() <= len,
            decreases len - empty@.len(),
        {
            empty.push(0u8);
        }
        let ghost before = shards@;
        shards.push(empty);
        proof {
            assert(shards@.take(start.len() as int) =~= before.take(start.len() as int));
            assert forall|i: int| 0 <= i < shards@.len() implies (
            #[trigger] shard_views(shards@)[i]).len() == len by {
                if i < before.len() {
                    assert(shard_views(before)[i].len() == len);
                }
            }
        }
    }
    assert(shards@[0] == shards@.take(start.len() as int)[0]);
    shards
}

/// Whether `e` refuses a scheme.
pub open spec fn is_scheme_refusal(scheme: ECScheme, e: EcError) -> bool {
    e matches EcError::Scheme(m) && m@ == "invalid k/n: "@ + dec_digits(scheme.k as nat) + "/"@
        + dec_digits(scheme.n as nat)
}

/// Encodes a payload into the shards of a scheme. The payload's length is not part of the shards;
/// whoever reconstructs must know it.
pub fn encode(scheme: ECScheme, payload: &[u8]) -> (r: Result<Vec<Vec<u8>>, EcError>)
    ensures
        if scheme.k == 0 || scheme.k > scheme.n {
            r matches Err(e) && is_scheme_refusal(scheme, e)
        } else {
            r matches Ok(shards) && shards@.len() == scheme.n && shard_views(shards@) == encoded(
                scheme,
                payload@,
            ) && all_of_len(shard_views(shards@), shard_len(payload@.len(), scheme.k as nat))
        },
        r matches Ok(shards) ==> shards@.len() == scheme.n && 1 <= scheme.k <= scheme.n && (forall|
            i: int,
        |
            #![trigger shards@[i]]
            0 <= i < shards@.len() ==> shards@[i]@.len() * scheme.k >= payload@.len() && (
            shards@[i]@.len() > 0 ==> (shards@[i]@.len() - 1) * scheme.k < payload@.len())) && (forall|
            i: int,
            j: int,
        |
            #![trigger shards@[i]@[j]]
            0 <= i < scheme.k && 0 <= j < shards@[i]@.len() ==> shards@[i]@[j] == (if i
                * shards@[i]@.len() + j < payload@.len() {
                payload@[i * shards@[i]@.len() + j]
            } else {
                0u8
            })),
        r matches Ok(shards) ==> scheme.k < scheme.n && payload@.len() > 0 ==> shard_views(
            shards@,
        ).skip(scheme.k as int) == rs_parity(
            shard_views(shards@).take(scheme.k as int),
            (scheme.n - scheme.k) as nat,
        ),
{
    let r = coded(scheme, payload);
    proof {
        if r is Ok {
            let shards = r->Ok_0;
            lemma_encoded_shape(scheme, payload@, shard_views(shards@));
            assert forall|i: int| #![trigger shards@[i]] 0 <= i < shards@.len() implies shards@[i]@
                == shard_views(shards@)[i] by {}
        }
    }
    r
}

/// What the shards of a payload look like.
proof fn lemma_encoded_shape(scheme: ECScheme, payload: Seq<u8>, shards: Seq<Seq<u8>>)
    requires
        1 <= scheme.k <= scheme.n,
        shards == encoded(scheme, payload),
        shards.len() == scheme.n,
        all_of_len(shards, shard_len(payload.len(), scheme.k as nat)),
    ensures
        forall|i: int|
            #![trigger shards[i]]
            0 <= i < shards.len() ==> shards[i].len() * scheme.k >= payload.len() && (shards[i].len() > 0
                ==> (shards[i].len() - 1) * scheme.k < payload.len()),
        forall|i: int, j: int|
            #![trigger shards[i][j]]
            0 <= i < scheme.k && 0 <= j < shards[i].len() ==> shards[i][j] == (if i * shards[i].len() + j
                < payload.len() {
                payload[i * shards[i].len() + j]
            } else {
                0u8
            }),
        scheme.k < scheme.n && payload.len() > 0 ==> shards.skip(scheme.k as int) == rs_parity(
            shards.take(scheme.k as int),
            (scheme.n - scheme.k) as nat,
        ),
{
    let k = scheme.k as nat;
    let len = shard_len(payload.len(), k);
    lemma_shard_len(payload.len(), k);
    vstd::arithmetic::div_mod::lemma_fundamental_div_mod(payload.len() as int, k as int);
    let q = payload.len() as int / k as int;
    let m = payload.len() as int % k as int;
    assert(len > 0 ==> (len - 1) * k < payload.len()) by (nonlinear_arith)
        requires
            payload.len() == k * q + m,
            0 <= m < k,
            len == q + (if m == 0 {
                0int
            } else {
                1int
            }),
    ;
    let data = data_shards(payload, k);
    assert forall|i: int, j: int|
        #![trigger shards[i][j]]
        0 <= i < scheme.k && 0 <= j < shards[i].len() implies shards[i][j] == (if i * shards[i].len() + j
        < payload.len() {
        payload[i * shards[i].len() + j]
    } else {
        0u8
    }) by {
        assert(shards[i].len() == len);
        assert(shards[i] == data[i]);
    }
    if scheme.k < scheme.n && payload.len() > 0 {
        assert(shards.take(k as int) =~= data);
        assert(shards.skip(k as int) =~= rs_parity(data, (scheme.n - scheme.k) as nat));
    }
}

fn coded(scheme: ECScheme, payload: &[u8]) -> (r: Result<Vec<Vec<u8>>, EcError>)
    ensures
        if scheme.k == 0 || scheme.k > scheme.n {
            r matches Err(e) && is_scheme_refusal(scheme, e)
        } else {
            r matches Ok(shards) && shards@.len() == scheme.n && shard_views(shards@) == encoded(
                scheme,
                payload@,
            ) && all_of_len(shard_views(shards@), shard_len(payload@.len(), scheme.k as nat))
        },
{
    let k: usize = scheme.k as usize;
    let n: usize = scheme.n as usize;
    if k == 0 || k > n {
        let mut m: Vec<char> = Vec::new();
        push_text(&mut m, "invalid k/n: ");
        push_decimal(&mut m, k as u64);
        push_text(&mut m, "/");
        push_decimal(&mut m, n as u64);
        assert(m@ =~= "invalid k/n: "@ + dec_digits(scheme.k as nat) + "/"@ + dec_digits(
            scheme.n as nat,
        ));
        return Err(EcError::Scheme(string_of(&m)));
    }
    let data = split_into_k(payload, k);
    proof {
        lemma_shard_len(payload@.len(), k as nat);
        assert(shard_views(data@)[0] == data@[0]@);
    }
    if k == n {
        return Ok(data);
    }
    if payload.len() == 0 {
        let empty = with_room(data, n);
        assert(shard_views(empty@) =~= encoded(scheme, payload@)) by {
            assert forall|i: int| 0 <= i < n implies #[trigger] shard_views(empty@)[i] =~= Seq::<
                u8,
            >::empty() by {
                assert(shard_views(empty@)[i].len() == 0);
            }
        }
        return Ok(empty);
    }
    let ghost views = shard_views(data@);
    let shards = with_room(data, n);
    assert(shard_views(shards@).take(k as int) =~= views);
    match rs_encode(shards, k, n - k) {
        Ok(shards) => Ok(shards),
        Err(m) => Err(EcError::Encode(m)),
    }
}

/// The first `k` slots behind one another, cut to the payload's length.
fn join_slots(slots: &Vec<Option<Vec<u8>>>, k: usize, original_len: usize) -> (r: Vec<u8>)
    requires
        k <= slots@.len(),
        forall|i: int| 0 <= i < k ==> (#[trigger] slots@[i]) is Some,
    ensures
        r@ == cut(
            joined(Seq::new(k as nat, |i: int| slots@[i].unwrap()@), k as int),
            original_len as nat,
        ),
{
    let ghost data = Seq::new(k as nat, |i: int| slots@[i].unwrap()@);
    let mut out: Vec<u8> = Vec::new();
    let mut i: usize = 0;
    while i < k
        invariant
            0 <= i <= k <= slots@.len(),
            forall|i: int| 0 <= i < k ==> (#[trigger] slots@[i]) is Some,
            data == Seq::new(k as nat, |i: int| slots@[i].unwrap()@),
            out@ == joined(data, i as int),
        decreases k - i,
    {
        if let Some(s) = &slots[i] {
            append(&mut out, s);
        }
        i = i + 1;
    }
    if out.len() > original_len {
        out.truncate(original_len);
    }
    out
}

fn count_present(slots: &Vec<Option<Vec<u8>>>) -> (r: usize)
    ensures
        r == present(slot_views(slots@)),
        r <= slots@.len(),
        r == slots@.len() ==> forall|i: int| 0 <= i < slots@.len() ==> (#[trigger] slots@[i]) is Some,
{
    let ghost views = slot_views(slots@);
    let mut have: usize = 0;
    let mut i: usize = 0;
    while i < slots.len()
        invariant
            0 <= i <= slots@.len(),
            views == slot_views(slots@),
            have <= i,
            have == present(views.take(i as int)),
            have == i ==> forall|a: int| 0 <= a < i ==> (#[trigger] slots@[a]) is Some,
        decreases slots@.len() - i,
    {
        assert(views.take(i + 1).drop_last() =~= views.take(i as int));
        if slots[i].is_some() {
            have = have + 1;
        }
        i = i + 1;
    }
    assert(views.take(i as int) =~= views);
    have
}

/// Whether every shard that is there is empty.
pub open spec fn all_empty(slots: Seq<Option<Seq<u8>>>) -> bool {
    forall|i: int| 0 <= i < slots.len() && (#[trigger] slots[i]) is Some ==> slots[i].unwrap().len() == 0
}

fn none_filled(slots: &Vec<Option<Vec<u8>>>) -> (r: bool)
    ensures
        r == all_empty(slot_views(slots@)),
{
    let ghost views = slot_views(slots@);
    let mut i: usize = 0;
    while i < slots.len()
        invariant
            0 <= i <= slots@.len(),
            views == slot_views(slots@),
            forall|j: int| 0 <= j < i && (#[trigger] views[j]) is Some ==> views[j].unwrap().len() == 0,
        decreases slots@.len() - i,
    {
        if let Some(s) = &slots[i] {
            if s.len() > 0 {
                assert(views[i as int] is Some);
                return false;
            }
        }
        i = i + 1;
    }
    true
}

/// The data shards behind one another, cut to the payload's length.
pub open spec fn rebuilt(scheme: ECScheme, slots: Seq<Option<Seq<u8>>>, original_len: nat) -> Seq<u8> {
    let k = scheme.k as nat;
    if scheme.k == scheme.n {
        cut(joined(Seq::new(k, |i: int| slots[i].unwrap()), k as int), original_len)
    } else if original_len == 0 {
        Seq::empty()
    } else {
        cut(joined(Seq::new(k, |i: int| rs_filled(slots, k)[i]), k as int), original_len)
    }
}

/// Whether a row of slots can be rebuilt under a scheme into a payload of a given length. Empty
/// shards are those of an empty payload.
pub open spec fn rebuildable(
    scheme: ECScheme,
    slots: Seq<Option<Seq<u8>>>,
    original_len: nat,
) -> bool {
    &&& slots.len() == scheme.n
    &&& present(slots) >= scheme.k
    &&& scheme.k == scheme.n || (scheme.k > 0 && (consistent(slots) || (original_len == 0
        && all_empty(slots))))
}

/// Whether `e` says why a row of slots cannot be rebuilt under a scheme.
pub open spec fn is_rebuild_refusal(scheme: ECScheme, slots: Seq<Option<Seq<u8>>>, e: EcError) -> bool {
    if slots.len() != scheme.n {
        e matches EcError::Reconstruct(m) && m@ == "expected "@ + dec_digits(scheme.n as nat)
            + " shard slots, got "@ + dec_digits(slots.len())
    } else if present(slots) < scheme.k {
        e == (EcError::InsufficientShards { have: present(slots) as usize, need: scheme.k as usize })
    } else if scheme.k == 0 {
        e matches EcError::Scheme(m) && rs_refusal(0, scheme.n as nat) == Some(m@)
    } else {
        e matches EcError::Reconstruct(m) && slot_fault(slots) == Some(m@)
    }
}

proof fn lemma_empty_slots(scheme: ECScheme, slots: Seq<Option<Seq<u8>>>, payload: Seq<u8>)
    requires
        scheme.k < scheme.n,
        payload.len() == 0,
        slots_match(slots, encoded(scheme, payload)),
    ensures
        all_empty(slots),
{
    assert forall|i: int| 0 <= i < slots.len() && (#[trigger] slots[i]) is Some implies slots[i].unwrap().len()
        == 0 by {
        assert(slots[i].unwrap() == encoded(scheme, payload)[i]);
    }
}

/// Rebuilds a payload from its shards; slot `i` holds the shard of index `i` or nothing. Any `k`
/// shards that `encode` made of a payload give the payload back.
pub fn reconstruct(scheme: ECScheme, shards_in: Vec<Option<Vec<u8>>>, original_len: usize) -> (r: Result<
    Vec<u8>,
    EcError,
>)
    ensures
        if rebuildable(scheme, slot_views(shards_in@), original_len as nat) {
            r matches Ok(p) && p@ == rebuilt(scheme, slot_views(shards_in@), original_len as nat)
        } else {
            r matches Err(e) && is_rebuild_refusal(scheme, slot_views(shards_in@), e)
        },
        forall|payload: Seq<u8>|
            1 <= scheme.k <= scheme.n && payload.len() == original_len && shards_in@.len() == scheme.n
                && slots_match(slot_views(shards_in@), #[trigger] encoded(scheme, payload))
                && present(slot_views(shards_in@)) >= scheme.k ==> (r matches Ok(p) && p@ == payload),
{
    let k: usize = scheme.k as usize;
    let n: usize = scheme.n as usize;
    let ghost views = slot_views(shards_in@);
    if shards_in.len() != n {
        let mut m: Vec<char> = Vec::new();
        push_text(&mut m, "expected ");
        push_decimal(&mut m, n as u64);
        push_text(&mut m, " shard slots, got ");
        push_decimal(&mut m, shards_in.len() as u64);
        assert(m@ =~= "expected "@ + dec_digits(scheme.n as nat) + " shard slots, got "@ + dec_digits(
            shards_in@.len(),
        ));
        return Err(EcError::Reconstruct(string_of(&m)));
    }
    let have: usize = count_present(&shards_in);
    if have < k {
        return Err(EcError::InsufficientShards { have, need: k });
    }
    if k == n {
        let out = join_slots(&shards_in, k, original_len);
        proof {
            let d = Seq::new(k as nat, |i: int| shards_in@[i].unwrap()@);
            assert(d =~= Seq::new(k as nat, |i: int| views[i].unwrap()));
            assert forall|payload: Seq<u8>|
                1 <= k && payload.len() == original_len && slots_match(
                    views,
                    #[trigger] encoded(scheme, payload),
                ) implies out@ == payload by {
                assert forall|i: int| 0 <= i < k implies d[i] == data_shards(payload, k as nat)[i] by {
                    assert(shards_in@[i] is Some);
                    assert(views[i] is Some);
                }
                assert(d =~= data_shards(payload, k as nat));
                lemma_data_shards_join(payload, k as nat);
            }
        }
        return Ok(out);
    }
    if let Some(m) = rs_check(k, n - k) {
        return Err(EcError::Scheme(m));
    }
    if original_len == 0 && none_filled(&shards_in) {
        let out: Vec<u8> = Vec::new();
        proof {
            assert(out@ =~= Seq::<u8>::empty());
            assert forall|payload: Seq<u8>| payload.len() == 0 implies #[trigger] encoded(scheme, payload)
                == encoded(scheme, payload) && out@ == payload by {
                assert(payload =~= out@);
            }
        }
        return Ok(out);
    }
    match rs_reconstruct(shards_in, k, n - k) {
        Ok(full) => {
            let out = join_slots(&full, k, original_len);
            proof {
                let d = Seq::new(k as nat, |i: int| full@[i].unwrap()@);
                assert(d =~= Seq::new(k as nat, |i: int| rs_filled(views, k as nat)[i]));
                if original_len == 0 {
                    assert(out@ =~= Seq::<u8>::empty());
                }
                assert forall|payload: Seq<u8>|
                    1 <= k && payload.len() == original_len && slots_match(
                        views,
                        #[trigger] encoded(scheme, payload),
                    ) implies out@ == payload by {
                    let data = data_shards(payload, k as nat);
                    lemma_shard_len(payload.len(), k as nat);
                    if payload.len() == 0 {
                        lemma_empty_slots(scheme, views, payload);
                    }
                    assert(data[0].len() == shard_len(payload.len(), k as nat));
                    assert(slots_match(views, data + rs_parity(data, (n - k) as nat)));
                    assert(d =~= data);
                    lemma_data_shards_join(payload, k as nat);
                }
            }
            Ok(out)
        },
        Err(m) => {
            proof {
                assert forall|payload: Seq<u8>|
                    1 <= k && payload.len() == original_len && slots_match(
                        views,
                        #[trigger] encoded(scheme, payload),
                    ) implies false by {
                    let data = data_shards(payload, k as nat);
                    lemma_shard_len(payload.len(), k as nat);
                    if payload.len() == 0 {
                        lemma_empty_slots(scheme, views, payload);
                    }
                    assert(data[0].len() == shard_len(payload.len(), k as nat));
                    assert(slots_match(views, data + rs_parity(data, (n - k) as nat)));
                }
            }
            Err(EcError::Reconstruct(m))
        },
    }
}

proof fn lemma_joined_agrees(a: Seq<Seq<u8>>, b: Seq<Seq<u8>>, n: int)
    requires
        0 <= n <= a.len(),
        n <= b.len(),
        forall|i: int| 0 <= i < n ==> a[i] == b[i],
    ensures
        joined(a, n) == joined(b, n),
    decreases n,
{
    if n > 0 {
        lemma_joined_agrees(a, b, n - 1);
    }
}

/// The first `k` shards that a payload is encoded to are the payload, filled up at the end.
pub proof fn lemma_first_shards_are_payload(scheme: ECScheme, payload: Seq<u8>)
    requires
        1 <= scheme.k <= scheme.n,
        encoded(scheme, payload).len() == scheme.n,
    ensures
        cut(joined(encoded(scheme, payload), scheme.k as int), payload.len()) == payload,
{
    let k = scheme.k as nat;
    let data = data_shards(payload, k);
    lemma_shard_len(payload.len(), k);
    assert forall|i: int| 0 <= i < k implies encoded(scheme, payload)[i] == data[i] by {
        if payload.len() == 0 && scheme.k < scheme.n {
            assert(data[i] =~= Seq::<u8>::empty());
        }
    }
    lemma_joined_agrees(encoded(scheme, payload), data, k as int);
    lemma_data_shards_join(payload, k);
}

/// Slots are counted that hold a shard.
pub proof fn lemma_present_counts(slots: Seq<Option<Seq<u8>>>)
    ensures
        present(slots) == slots.filter(|s: Option<Seq<u8>>| s is Some).len(),
        present(slots) <= slots.len(),
        present(slots) == slots.len() <==> forall|i: int|
            0 <= i < slots.len() ==> (#[trigger] slots[i]) is Some,
    decreases slots.len(),
{
    reveal(Seq::filter);
    if slots.len() > 0 {
        let head = slots.drop_last();
        lemma_present_counts(head);
        if present(slots) == slots.len() {
            assert forall|i: int| 0 <= i < slots.len() implies (#[trigger] slots[i]) is Some by {
                if i < head.len() {
                    assert(head[i] is Some);
                }
            }
        }
        if forall|i: int| 0 <= i < slots.len() ==> (#[trigger] slots[i]) is Some {
            assert forall|i: int| 0 <= i < head.len() implies (#[trigger] head[i]) is Some by {
                assert(slots[i] is Some);
            }
            assert(slots[slots.len() - 1] is Some);
        }
    }
}

/// A data shard is as long as the payload divided by the number of shards, rounded up: together
/// they hold the payload, and with shards one byte shorter they would not.
pub proof fn lemma_shards_no_longer_than_needed(len: nat, k: nat)
    requires
        k > 0,
    ensures
        shard_len(len, k) * k >= len,
        len > 0 ==> (shard_len(len, k) - 1) * k < len,
        len == 0 ==> shard_len(len, k) == 0,
{
    let q = shard_len(len, k) as int;
    let a = len + k - 1;
    vstd::arithmetic::div_mod::lemma_fundamental_div_mod(a, k as int);
    vstd::arithmetic::div_mod::lemma_mod_bound(a, k as int);
    assert(q == a / (k as int));
    assert(k * q == q * k) by (nonlinear_arith);
    assert((q - 1) * k == q * k - k) by (nonlinear_arith);
    if len == 0 {
        vstd::arithmetic::div_mod::lemma_basic_div(a, k as int);
    }
}

/// Slots fit together exactly where nothing is wrong with them: every shard has bytes, and all have
/// the same number.
pub proof fn lemma_no_fault_exactly(slots: Seq<Option<Seq<u8>>>)
    ensures
        slot_fault(slots) is None <==> (forall|i: int|
            0 <= i < slots.len() && (#[trigger] slots[i]) is Some ==> slots[i].unwrap().len() > 0)
            && (forall|i: int, j: int|
            0 <= i < slots.len() && 0 <= j < slots.len() && (#[trigger] slots[i]) is Some && (
            #[trigger] slots[j]) is Some ==> slots[i].unwrap().len() == slots[j].unwrap().len()),
    decreases slots.len(),
{
    if slots.len() > 0 {
        let head = slots.drop_last();
        let n = slots.len() - 1;
        lemma_no_fault_exactly(head);
        if slot_fault(slots) is None {
            assert(slot_fault(head) is None);
            assert forall|i: int| 0 <= i < slots.len() && (#[trigger] slots[i]) is Some implies
                slots[i].unwrap().len() > 0 by {
                if i < n {
                    assert(head[i] is Some);
                }
            }
            assert forall|i: int, j: int|
                0 <= i < slots.len() && 0 <= j < slots.len() && (#[trigger] slots[i]) is Some && (
                #[trigger] slots[j]) is Some implies slots[i].unwrap().len()
                == slots[j].unwrap().len() by {
                if i < n && j < n {
                    assert(head[i] is Some && head[j] is Some);
                } else if i < n {
                    assert(!differs_before(slots, slots[n].unwrap().len()));
                } else if j < n {
                    assert(!differs_before(slots, slots[n].unwrap().len()));
                }
            }
        }
        if consistent(slots) {
            assert forall|i: int| 0 <= i < head.len() && (#[trigger] head[i]) is Some implies
                head[i].unwrap().len() > 0 by {
                assert(slots[i] is Some);
            }
            assert forall|i: int, j: int|
                0 <= i < head.len() && 0 <= j < head.len() && (#[trigger] head[i]) is Some && (
                #[trigger] head[j]) is Some implies head[i].unwrap().len()
                == head[j].unwrap().len() by {
                assert(slots[i] is Some && slots[j] is Some);
            }
            assert(slot_fault(head) is None);
            if slots[n] is Some {
                assert(!differs_before(slots, slots[n].unwrap().len()));
            }
        }
    }
}

/// A payload can be rebuilt exactly where there is a slot for each shard, enough slots hold a shard
/// and, unless nothing was added to the data, the shards fit together or there is nothing to
/// rebuild.
pub proof fn lemma_rebuildable_exactly(scheme: ECScheme, slots: Seq<Option<Seq<u8>>>, len: nat)
    requires
        1 <= scheme.k < scheme.n,
        len > 0,
    ensures
        rebuildable(scheme, slots, len) <==> slots.len() == scheme.n && slots.filter(
            |s: Option<Seq<u8>>| s is Some,
        ).len() >= scheme.k && (forall|i: int|
            0 <= i < slots.len() && (#[trigger] slots[i]) is Some ==> slots[i].unwrap().len() > 0)
            && (forall|i: int, j: int|
            0 <= i < slots.len() && 0 <= j < slots.len() && (#[trigger] slots[i]) is Some && (
            #[trigger] slots[j]) is Some ==> slots[i].unwrap().len() == slots[j].unwrap().len()),
{
    lemma_present_counts(slots);
}

/// Slots and shards are told by their bytes, each in its place.
pub proof fn lemma_slots_told(slots: Seq<Option<Vec<u8>>>, shards: Seq<Vec<u8>>, i: int)
    ensures
        slot_views(slots).len() == slots.len(),
        0 <= i < slots.len() ==> (slots[i] matches Some(v) ==> slot_views(slots)[i] == Some(v@)),
        0 <= i < slots.len() ==> (slots[i] is None ==> slot_views(slots)[i] is None),
        shard_views(shards).len() == shards.len(),
        0 <= i < shards.len() ==> shard_views(shards)[i] == shards[i]@,
{
}

} // verus!
