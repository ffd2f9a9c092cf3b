//! File routes: partial writes, moves, and hexadecimal arguments.

use vstd::prelude::*;

use super::ApiError;
use crate::text::chars_end_with;
use crate::text::chars_of;
use crate::text::chars_prefix;
use crate::text::chars_range;
use crate::text::chars_start_with;
use crate::text::chars_suffix;
use crate::text::hex_decode_chars;
use crate::text::hex_decoded;
use crate::text::parse_u64;
use crate::text::parsed_u64;
use crate::text::push_text;
use crate::text::push_decimal;
use crate::text::dec_digits;
use crate::text::lemma_ascii_blanks;
use crate::text::lemma_cut_at_first;
use crate::text::lemma_cut_parts;
use crate::text::lemma_decimal_round_trip;
use crate::text::lemma_numeral;
use crate::text::lemma_trimmed_keeps;
use crate::text::split_at_first;
use crate::text::split_once;
use crate::text::string_of;
use crate::text::trim_chars;
use crate::text::trimmed;
use crate::types::parse_uuid;
use crate::types::uuid_parsed;
use crate::types::uuid_text;
use crate::types::ProviderId;
use crate::types::VaultId;

verus! {

/// What a `Content-Range` header says: the first and last byte of a span and the total length, or
/// why it is refused.
pub open spec fn content_range(s: Seq<char>) -> Result<(u64, u64, u64), Seq<char>> {
    let t = trimmed(s);
    if !chars_prefix(t, "bytes "@) {
        Err("Content-Range must start with 'bytes '"@)
    } else {
        match split_at_first(t.skip("bytes "@.len() as int), '/') {
            None => Err("Content-Range missing '/total'"@),
            Some((range, total)) => match parsed_u64(total) {
                None => Err("Content-Range total not a number"@),
                Some(total) => match split_at_first(range, '-') {
                    None => Err("Content-Range missing '-'"@),
                    Some((start, end)) => match (parsed_u64(start), parsed_u64(end)) {
                        (None, _) => Err("Content-Range start not a number"@),
                        (_, None) => Err("Content-Range end not a number"@),
                        (Some(start), Some(end)) => if end < start {
                            Err("Content-Range end < start"@)
                        } else if end >= total {
                            Err("Content-Range end >= total"@)
                        } else {
                            Ok((start, end, total))
                        },
                    },
                },
            },
        }
    }
}

/// Reads a `Content-Range: bytes <start>-<end>/<total>` header.
pub fn parse_content_range(s: &str) -> (r: Result<(u64, u64, u64), ApiError>)
    ensures
        match content_range(s@) {
            Ok(t) => r == Ok::<(u64, u64, u64), ApiError>(t),
            Err(why) => r matches Err(e) && e.says(400, why),
        },
{
    let t = trim_chars(&chars_of(s));
    let p = chars_of("bytes ");
    if !chars_start_with(&t, &p) {
        return Err(ApiError::bad("Content-Range must start with 'bytes '"));
    }
    let rest = chars_range(&t, p.len(), t.len());
    assert(rest@ =~= t@.skip(p@.len() as int));
    let (range, total) = match split_once(&rest, '/') {
        Some(x) => x,
        None => {
            return Err(ApiError::bad("Content-Range missing '/total'"));
        },
    };
    let total: u64 = match parse_u64(&total) {
        Some(n) => n,
        None => {
            return Err(ApiError::bad("Content-Range total not a number"));
        },
    };
    let (start, end) = match split_once(&range, '-') {
        Some(x) => x,
        None => {
            return Err(ApiError::bad("Content-Range missing '-'"));
        },
    };
    let start: u64 = match parse_u64(&start) {
        Some(n) => n,
        None => {
            return Err(ApiError::bad("Content-Range start not a number"));
        },
    };
    let end: u64 = match parse_u64(&end) {
        Some(n) => n,
        None => {
            return Err(ApiError::bad("Content-Range end not a number"));
        },
    };
    if end < start {
        return Err(ApiError::bad("Content-Range end < start"));
    }
    if end >= total {
        return Err(ApiError::bad("Content-Range end >= total"));
    }
    Ok((start, end, total))
}

/// An accepted header names a span that is not empty and lies within the total.
pub proof fn lemma_content_range_sound(s: Seq<char>)
    ensures
        content_range(s) matches Ok(t) ==> t.0 <= t.1 < t.2,
{
}

/// A file of `total` bytes: the body in the span from `start`, and elsewhere what was there, or
/// zero where nothing was.
pub open spec fn spliced(current: Seq<u8>, start: int, total: nat, body: Seq<u8>) -> Seq<u8> {
    Seq::new(
        total,
        |i: int|
            if start <= i < start + body.len() {
                body[i - start]
            } else if i < current.len() {
                current[i]
            } else {
                0u8
            },
    )
}

/// Checks that a body fills the span of its header.
pub fn check_body_len(body_len: usize, start: u64, end: u64) -> (r: Result<(), ApiError>)
    requires
        start <= end,
        end < u64::MAX,
    ensures
        if body_len == end - start + 1 {
            r is Ok
        } else {
            r matches Err(e) && e.says(
                400,
                "body length "@ + dec_digits(body_len as nat)
                    + " does not match Content-Range span "@ + dec_digits((end - start + 1) as nat),
            )
        },
{
    let span: u64 = end - start + 1;
    if body_len as u64 == span {
        return Ok(());
    }
    let mut m: Vec<char> = Vec::new();
    push_text(&mut m, "body length ");
    push_decimal(&mut m, body_len as u64);
    push_text(&mut m, " does not match Content-Range span ");
    push_decimal(&mut m, span);
    assert(m@ =~= "body length "@ + dec_digits(body_len as nat)
        + " does not match Content-Range span "@ + dec_digits(span as nat));
    Err(ApiError { status: 400, message: string_of(&m) })
}

/// Puts a body into the span of a file, which becomes `total` bytes long.
pub fn splice(current: Vec<u8>, start: usize, total: usize, body: &[u8]) -> (r: Vec<u8>)
    requires
        start + body@.len() <= total,
    ensures
        r@ == spliced(current@, start as int, total as nat, body@),
{
    let ghost before = current@;
    let mut out = current;
    if out.len() > total {
        out.truncate(total);
    }
    while out.len() < total
        invariant
            out@.len() <= total,
            forall|i: int|
                0 <= i < out@.len() ==> #[trigger] out@[i] == (if i < before.len() {
                    before[i]
                } else {
                    0u8
                }),
            out@.len() >= before.len() || out@.len() == total,
        decreases total - out@.len(),
    {
        out.push(0u8);
    }
    let mut i: usize = 0;
    while i < body.len()
        invariant
            0 <= i <= body@.len(),
            start + body@.len() <= total,
            out@.len() == total,
            forall|j: int|
                0 <= j < total ==> #[trigger] out@[j] == (if start <= j < start + i {
                    body@[j - start]
                } else if j < before.len() {
                    before[j]
                } else {
                    0u8
                }),
        decreases body@.len() - i,
    {
        out.set(start + i, body[i]);
        i = i + 1;
    }
    assert(out@ =~= spliced(before, start as int, total as nat, body@));
    out
}

/// A partial write leaves what is outside its span, and reading the span gives the body back.
pub proof fn lemma_splice_reads_back(current: Seq<u8>, start: int, total: nat, body: Seq<u8>)
    requires
        0 <= start,
        start + body.len() <= total,
    ensures
        spliced(current, start, total, body).subrange(start, start + body.len()) == body,
        forall|i: int|
            0 <= i < total && i < current.len() && !(start <= i < start + body.len())
                ==> #[trigger] spliced(current, start, total, body)[i] == current[i],
{
    assert(spliced(current, start, total, body).subrange(start, start + body.len()) =~= body);
}

/// The source and target of a move: the path without its `/move`, and a target that begins with a
/// slash; or why the request is refused.
pub open spec fn move_paths(path: Seq<char>, to: Seq<char>) -> Result<
    (Seq<char>, Seq<char>),
    Seq<char>,
> {
    let full = seq!['/'] + path;
    if !chars_suffix(full, "/move"@) {
        Err("move requires URL ending in /move"@)
    } else if full.len() == "/move"@.len() {
        Err("source path is empty"@)
    } else {
        Ok(
            (
                full.take(full.len() - "/move"@.len()),
                if to.len() > 0 && to[0] == '/' {
                    to
                } else {
                    seq!['/'] + to
                },
            ),
        )
    }
}

/// Reads the source and target of a move from the rest of the URL and the body.
pub fn parse_move(path: &str, to: &str) -> (r: Result<(String, String), ApiError>)
    ensures
        match move_paths(path@, to@) {
            Ok(p) => r matches Ok(q) && q.0@ == p.0 && q.1@ == p.1,
            Err(why) => r matches Err(e) && e.says(400, why),
        },
{
    let mut full: Vec<char> = Vec::new();
    full.push('/');
    push_text(&mut full, path);
    assert(full@ =~= seq!['/'] + path@);
    let suffix = chars_of("/move");
    if !chars_end_with(&full, &suffix) {
        return Err(ApiError::bad("move requires URL ending in /move"));
    }
    if full.len() == suffix.len() {
        return Err(ApiError::bad("source path is empty"));
    }
    let src = chars_range(&full, 0, full.len() - suffix.len());
    assert(src@ =~= full@.take(full@.len() - suffix@.len()));
    let t = chars_of(to);
    let mut dst: Vec<char> = Vec::new();
    if !(t.len() > 0 && t[0] == '/') {
        dst.push('/');
    }
    push_text(&mut dst, to);
    proof {
        if to@.len() > 0 && to@[0] == '/' {
            assert(dst@ =~= to@);
        } else {
            assert(dst@ =~= seq!['/'] + to@);
        }
    }
    Ok((string_of(&src), string_of(&dst)))
}

/// The bytes that a hexadecimal argument spells.
pub fn hex_decode(s: &str) -> (r: Option<Vec<u8>>)
    ensures
        match r {
            Some(b) => hex_decoded(s@) == Some(b@),
            None => hex_decoded(s@) is None,
        },
{
    hex_decode_chars(&chars_of(s))
}

/// Reads the vault of a route. The canonical text of a vault's identifier is accepted.
pub fn parse_vault_id(s: &str) -> (r: Result<VaultId, ApiError>)
    ensures
        match uuid_parsed(s@) {
            Some(u) => r == Ok::<VaultId, ApiError>(VaultId(u)),
            None => r matches Err(e) && e.says(400, "invalid vault_id"@),
        },
        forall|u: u128| s@ == #[trigger] uuid_text(u) ==> r == Ok::<VaultId, ApiError>(VaultId(u)),
{
    match parse_uuid(s) {
        Some(u) => Ok(VaultId(u)),
        None => Err(ApiError::bad("invalid vault_id")),
    }
}

/// Reads the provider of a route. The canonical text of a provider's identifier is accepted.
pub fn parse_provider_id(s: &str) -> (r: Result<ProviderId, ApiError>)
    ensures
        match uuid_parsed(s@) {
            Some(u) => r == Ok::<ProviderId, ApiError>(ProviderId(u)),
            None => r matches Err(e) && e.says(400, "invalid provider_id"@),
        },
        forall|u: u128| s@ == #[trigger] uuid_text(u) ==> r == Ok::<ProviderId, ApiError>(ProviderId(u)),
{
    match parse_uuid(s) {
        Some(u) => Ok(ProviderId(u)),
        None => Err(ApiError::bad("invalid provider_id")),
    }
}

/// A header that names a span within a total is read as that span and that total.
pub proof fn lemma_content_range_read(start: u64, end: u64, total: u64)
    requires
        start <= end < total,
    ensures
        content_range(
            "bytes "@ + ((dec_digits(start as nat).push('-') + dec_digits(end as nat)).push('/')
                + dec_digits(total as nat)),
        ) == Ok::<(u64, u64, u64), Seq<char>>((start, end, total)),
{
    reveal_strlit("bytes ");
    let p = "bytes "@;
    let (a, b, c) = (dec_digits(start as nat), dec_digits(end as nat), dec_digits(total as nat));
    let range = a.push('-') + b;
    let rest = range.push('/') + c;
    let s = p + rest;
    lemma_numeral(start as nat);
    lemma_numeral(end as nat);
    lemma_numeral(total as nat);
    lemma_decimal_round_trip(start);
    lemma_decimal_round_trip(end);
    lemma_decimal_round_trip(total);
    assert(s[0] == 'b');
    assert(s.last() == c.last());
    assert('0' <= c[c.len() - 1] <= '9');
    lemma_ascii_blanks(s[0]);
    lemma_ascii_blanks(s.last());
    lemma_trimmed_keeps(s);
    assert(s.take(p.len() as int) =~= p);
    assert(s.skip(p.len() as int) =~= rest);
    assert(!range.contains('/')) by {
        assert forall|i: int| 0 <= i < range.len() implies range[i] != '/' by {
            if i < a.len() {
                assert(range[i] == a[i]);
            } else if i > a.len() {
                assert(range[i] == b[i - a.len() - 1]);
            }
        }
    }
    lemma_cut_parts(range, '/', c);
    assert(!a.contains('-')) by {
        assert forall|i: int| 0 <= i < a.len() implies a[i] != '-' by {
            assert('0' <= a[i]);
        }
    }
    lemma_cut_parts(a, '-', b);
}

/// An accepted header is, but for blanks around it, `bytes`, a first and a last position with a
/// hyphen between them, a slash and a total, each a number.
pub proof fn lemma_content_range_form(s: Seq<char>)
    ensures
        content_range(s) matches Ok(t) ==> exists|a: Seq<char>, b: Seq<char>, c: Seq<char>|
            trimmed(s) == #[trigger] ("bytes "@ + ((a.push('-') + b).push('/') + c)) && parsed_u64(a)
                == Some(t.0) && parsed_u64(b) == Some(t.1) && parsed_u64(c) == Some(t.2),
{
    if content_range(s) is Ok {
        let p = "bytes "@;
        let t = trimmed(s);
        let rest = t.skip(p.len() as int);
        assert(t =~= p + rest);
        lemma_cut_at_first(rest, '/');
        let (range, c) = split_at_first(rest, '/').unwrap();
        lemma_cut_at_first(range, '-');
        let (a, b) = split_at_first(range, '-').unwrap();
        assert(t == p + ((a.push('-') + b).push('/') + c));
    }
}

/// A partial write makes the file as long as the total, and fills a gap behind the old end with
/// zeros.
pub proof fn lemma_splice_fills(current: Seq<u8>, start: int, total: nat, body: Seq<u8>)
    ensures
        spliced(current, start, total, body).len() == total,
        forall|i: int|
            0 <= i < total && i >= current.len() && !(start <= i < start + body.len())
                ==> #[trigger] spliced(current, start, total, body)[i] == 0,
{
}

/// Writing a file in two adjoining spans gives what writing them as one gives.
pub proof fn lemma_splices_join(current: Seq<u8>, start: int, total: nat, a: Seq<u8>, b: Seq<u8>)
    requires
        0 <= start,
        start + a.len() + b.len() <= total,
    ensures
        spliced(spliced(current, start, total, a), start + a.len(), total, b) == spliced(
            current,
            start,
            total,
            a + b,
        ),
{
    assert(spliced(spliced(current, start, total, a), start + a.len(), total, b) =~= spliced(
        current,
        start,
        total,
        a + b,
    ));
}

/// The route of a move is the path of the file and `/move`; the target gets a slash in front where
/// it has none.
pub proof fn lemma_move_read(path: Seq<char>, source: Seq<char>, to: Seq<char>)
    requires
        source.len() > 0,
        seq!['/'] + path == source + "/move"@,
    ensures
        move_paths(path, seq!['/'] + to) == Ok::<(Seq<char>, Seq<char>), Seq<char>>(
            (source, seq!['/'] + to),
        ),
        to.len() == 0 || to[0] != '/' ==> move_paths(path, to) == Ok::<
            (Seq<char>, Seq<char>),
            Seq<char>,
        >((source, seq!['/'] + to)),
{
    let m = "/move"@;
    let full = seq!['/'] + path;
    assert(full.skip(full.len() - m.len()) =~= m);
    assert(full.take(full.len() - m.len()) =~= source);
}

/// No other route is a move.
pub proof fn lemma_move_form(path: Seq<char>, to: Seq<char>)
    ensures
        move_paths(path, to) matches Ok(p) ==> p.0.len() > 0 && seq!['/'] + path == p.0 + "/move"@
            && (p.1 == to || p.1 == seq!['/'] + to) && p.1[0] == '/',
{
    let m = "/move"@;
    let full = seq!['/'] + path;
    if move_paths(path, to) is Ok {
        assert(full =~= full.take(full.len() - m.len()) + m);
    }
}

} // verus!
