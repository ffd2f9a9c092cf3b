//! The decisions of the provider that keeps objects in a local directory: file names, listings,
//! spans and compare-and-swap.

use vstd::prelude::*;
use vstd::utf8::*;

use super::contract::CasOutcome;
use super::contract::CasResult;
use crate::byte_map::has_key;
use crate::byte_map::lemma_contents_at;
use crate::byte_map::ByteMap;
use crate::bytes::bytes_eq;
use crate::bytes::bytes_lt;
use crate::bytes::lemma_lex_irreflexive;
use crate::bytes::lex_lt;
use crate::bytes::slice_of;
use crate::bytes::to_vec;
use crate::crypto::hash::blake3_32;
use crate::crypto::hash::blake3_digest;
use crate::entities::records::NativeHandle;
use crate::text::chars_end_with;
use crate::text::chars_of;
use crate::text::chars_prefix;
use crate::text::chars_range;
use crate::text::chars_start_with;
use crate::text::chars_suffix;
use crate::text::hex_encode;
use crate::text::hex_text;
use crate::text::push_chars;
use crate::text::push_text;
use crate::text::string_of;
use crate::types::BlakeHash;
use crate::types::Range;

verus! {

/// A name with every slash written `%2F`, so that it is one path segment.
pub open spec fn flattened(s: Seq<char>) -> Seq<char>
    decreases s.len(),
{
    if s.len() == 0 {
        Seq::empty()
    } else if s[0] == '/' {
        seq!['%', '2', 'F'] + flattened(s.drop_first())
    } else {
        seq![s[0]] + flattened(s.drop_first())
    }
}

/// Whether a text begins with `%2F`.
pub open spec fn escape_at(s: Seq<char>) -> bool {
    s.len() >= 3 && s[0] == '%' && s[1] == '2' && s[2] == 'F'
}

/// A flattened name with its slashes back.
pub open spec fn unflattened(s: Seq<char>) -> Seq<char>
    decreases s.len(),
{
    if s.len() == 0 {
        Seq::empty()
    } else if escape_at(s) {
        seq!['/'] + unflattened(s.skip(3))
    } else {
        seq![s[0]] + unflattened(s.drop_first())
    }
}

/// Whether `%2F` stands nowhere in a name.
pub open spec fn no_escape(s: Seq<char>) -> bool {
    forall|i: int| 0 <= i <= s.len() ==> !escape_at(#[trigger] s.skip(i))
}

proof fn lemma_no_escape_tail(s: Seq<char>)
    requires
        no_escape(s),
        s.len() > 0,
    ensures
        no_escape(s.drop_first()),
{
    let t = s.drop_first();
    assert forall|i: int| 0 <= i <= t.len() implies !escape_at(#[trigger] t.skip(i)) by {
        assert(t.skip(i) =~= s.skip(i + 1));
    }
}

proof fn lemma_flat_head(s: Seq<char>)
    requires
        no_escape(s),
        s.len() > 0,
        s[0] != '/',
    ensures
        !escape_at(flattened(s)),
{
    let t = s.drop_first();
    let f = flattened(s);
    if escape_at(f) {
        assert(s[0] == '%');
        assert(f[1] == flattened(t)[0]);
        assert(t.len() > 0);
        assert(t[0] != '/') by {
            if t[0] == '/' {
                assert(flattened(t)[0] == '%');
            }
        }
        assert(flattened(t)[0] == t[0]);
        let u = t.drop_first();
        assert(f[2] == flattened(t)[1]);
        assert(flattened(t)[1] == flattened(u)[0]);
        assert(u.len() > 0);
        assert(u[0] != '/') by {
            if u[0] == '/' {
                assert(flattened(u)[0] == '%');
            }
        }
        assert(flattened(u)[0] == u[0]);
        assert(s.skip(0) =~= s);
        assert(s[1] == t[0] && s[2] == u[0]);
        assert(escape_at(s.skip(0)));
    }
}

/// A flattened name reads back as the name, unless the name itself holds `%2F`.
pub proof fn lemma_flatten_round_trip(s: Seq<char>)
    requires
        no_escape(s),
    ensures
        unflattened(flattened(s)) == s,
    decreases s.len(),
{
    if s.len() == 0 {
        assert(unflattened(flattened(s)) =~= s);
    } else {
        let t = s.drop_first();
        lemma_no_escape_tail(s);
        lemma_flatten_round_trip(t);
        let f = flattened(s);
        if s[0] == '/' {
            assert(f.skip(3) =~= flattened(t));
            assert(unflattened(f) =~= s);
        } else {
            lemma_flat_head(s);
            assert(f.drop_first() =~= flattened(t));
            assert(unflattened(f) =~= s);
        }
    }
}

/// A name with every slash written `%2F`.
pub fn flatten(name: &str) -> (r: String)
    ensures
        r@ == flattened(name@),
{
    let n = chars_of(name);
    let mut out: Vec<char> = Vec::new();
    let mut i: usize = 0;
    assert(n@.skip(0) =~= n@);
    while i < n.len()
        invariant
            0 <= i <= n@.len(),
            out@ + flattened(n@.skip(i as int)) == flattened(n@),
        decreases n@.len() - i,
    {
        let ghost rest = n@.skip(i as int);
        assert(rest.drop_first() =~= n@.skip(i + 1));
        let ghost before = out@;
        if n[i] == '/' {
            out.push('%');
            out.push('2');
            out.push('F');
            assert(out@ =~= before + seq!['%', '2', 'F']);
        } else {
            out.push(n[i]);
            assert(out@ =~= before + seq![rest[0]]);
        }
        assert(out@ + flattened(n@.skip(i + 1)) =~= before + flattened(rest));
        i = i + 1;
    }
    assert(flattened(n@.skip(i as int)) =~= Seq::<char>::empty());
    assert(out@ =~= flattened(n@));
    string_of(&out)
}

/// A flattened name with its slashes back.
pub fn unflatten(name: &[char]) -> (r: String)
    ensures
        r@ == unflattened(name@),
{
    let mut out: Vec<char> = Vec::new();
    let mut i: usize = 0;
    assert(name@.skip(0) =~= name@);
    while i < name.len()
        invariant
            0 <= i <= name@.len(),
            out@ + unflattened(name@.skip(i as int)) == unflattened(name@),
        decreases name@.len() - i,
    {
        let ghost rest = name@.skip(i as int);
        let ghost before = out@;
        if name.len() - i >= 3 && name[i] == '%' && name[i + 1] == '2' && name[i + 2] == 'F' {
            assert(rest.skip(3) =~= name@.skip(i + 3));
            out.push('/');
            assert(out@ + unflattened(name@.skip(i + 3)) =~= before + unflattened(rest));
            i = i + 3;
        } else {
            assert(rest.drop_first() =~= name@.skip(i + 1));
            out.push(name[i]);
            assert(out@ + unflattened(name@.skip(i + 1)) =~= before + unflattened(rest));
            i = i + 1;
        }
    }
    assert(unflattened(name@.skip(i as int)) =~= Seq::<char>::empty());
    assert(out@ =~= unflattened(name@));
    string_of(&out)
}

/// The file name of a handle.
pub fn handle_file(handle: &NativeHandle) -> (r: String)
    ensures
        r@ == hex_text(handle.0@),
{
    string_of(&hex_encode(&handle.0))
}

/// The file name of a named object.
pub fn name_file(name: &str) -> (r: String)
    ensures
        r@ == "name:"@ + flattened(name@),
{
    let mut out: Vec<char> = Vec::new();
    push_text(&mut out, "name:");
    push_text(&mut out, flatten(name).as_str());
    assert(out@ =~= "name:"@ + flattened(name@));
    string_of(&out)
}

/// A file of a directory, as a path.
pub open spec fn path_in(dir: Seq<char>, file: Seq<char>) -> Seq<char> {
    if dir.len() == 0 || chars_suffix(dir, "/"@) {
        dir + file
    } else {
        dir + "/"@ + file
    }
}

/// The provider that keeps objects in a directory.
#[derive(Clone, PartialEq, Eq, Debug)]
pub struct LocalDirPlugin {
    root: String,
}

impl LocalDirPlugin {
    /// The directory.
    pub closed spec fn dir(self) -> Seq<char> {
        self.root@
    }

    /// The provider with a directory.
    pub fn new(root: &str) -> (r: Self)
        ensures
            r.dir() == root@,
    {
        LocalDirPlugin { root: root.to_owned() }
    }

    /// The directory.
    pub fn root(&self) -> (r: &str)
        ensures
            r@ == self.dir(),
    {
        self.root.as_str()
    }

    fn path_of(&self, file: &str) -> (r: String)
        ensures
            r@ == path_in(self.dir(), file@),
    {
        let dir = chars_of(self.root.as_str());
        let mut out: Vec<char> = Vec::new();
        push_chars(&mut out, &dir);
        if dir.len() > 0 && !chars_end_with(&dir, &chars_of("/")) {
            push_text(&mut out, "/");
        }
        push_text(&mut out, file);
        assert(out@ =~= path_in(self.dir(), file@));
        string_of(&out)
    }

    /// Where the object of a handle is kept.
    pub fn handle_to_path(&self, handle: &NativeHandle) -> (r: String)
        ensures
            r@ == path_in(self.dir(), hex_text(handle.0@)),
    {
        self.path_of(handle_file(handle).as_str())
    }

    /// Where a named object is kept.
    pub fn name_to_path(&self, name: &str) -> (r: String)
        ensures
            r@ == path_in(self.dir(), "name:"@ + flattened(name@)),
    {
        self.path_of(name_file(name).as_str())
    }
}

/// The name that a file name stands for.
pub open spec fn bare_name(file: Seq<char>) -> Seq<char> {
    unflattened(
        if chars_prefix(file, "name:"@) {
            file.skip("name:"@.len() as int)
        } else {
            file
        },
    )
}

/// The name that a file name stands for.
pub fn file_name(file: &str) -> (r: String)
    ensures
        r@ == bare_name(file@),
{
    let f = chars_of(file);
    let p = chars_of("name:");
    if chars_start_with(&f, &p) {
        let rest = chars_range(&f, p.len(), f.len());
        assert(rest@ =~= f@.skip(p@.len() as int));
        unflatten(&rest)
    } else {
        unflatten(&f)
    }
}

/// The file name of a named object stands for the name, unless the name holds `%2F`.
pub proof fn lemma_file_name_round_trip(name: Seq<char>)
    requires
        no_escape(name),
    ensures
        bare_name("name:"@ + flattened(name)) == name,
{
    let f = "name:"@ + flattened(name);
    assert(f.take("name:"@.len() as int) =~= "name:"@);
    assert(f.skip("name:"@.len() as int) =~= flattened(name));
    lemma_flatten_round_trip(name);
}

/// The part of an object that a span covers, as far as the object goes. A span must not end before
/// it begins within the object.
pub fn span_of(bytes: &[u8], range: Option<Range>) -> (r: Vec<u8>)
    requires
        range matches Some(s) ==> s.start <= s.end || bytes@.len() <= s.end,
    ensures
        r@ == (match range {
            Some(s) => bytes@.subrange(
                if s.start < bytes@.len() {
                    s.start as int
                } else {
                    bytes@.len() as int
                },
                if s.end < bytes@.len() {
                    s.end as int
                } else {
                    bytes@.len() as int
                },
            ),
            None => bytes@,
        }),
{
    match range {
        Some(s) => {
            let n: usize = bytes.len();
            let start: usize = if s.start < n as u64 {
                s.start as usize
            } else {
                n
            };
            let end: usize = if s.end < n as u64 {
                s.end as usize
            } else {
                n
            };
            slice_of(bytes, start, end)
        },
        None => to_vec(bytes),
    }
}

/// The etag of an object, where there is one.
pub open spec fn etag_of(object: Option<Seq<u8>>) -> Option<Seq<u8>> {
    match object {
        Some(b) => Some(blake3_digest(b)),
        None => None,
    }
}

/// The bytes of an etag, where there is one.
pub open spec fn etag_bytes(e: Option<BlakeHash>) -> Option<Seq<u8>> {
    match e {
        Some(h) => Some(h.0@),
        None => None,
    }
}

/// The contents of an object, where there is one.
pub open spec fn object_bytes(o: Option<&[u8]>) -> Option<Seq<u8>> {
    match o {
        Some(b) => Some(b@),
        None => None,
    }
}

/// Decides a compare-and-swap: the write is made exactly where the caller expects what is there,
/// and the answer holds the etag of what is there afterwards.
pub fn cas_decision(current: Option<&[u8]>, expected_etag: Option<BlakeHash>, payload: &[u8]) -> (r: CasResult)
    ensures
        if etag_bytes(expected_etag) == etag_of(object_bytes(current)) {
            r.outcome == CasOutcome::Written && etag_bytes(r.new_etag) == Some(blake3_digest(payload@))
        } else {
            r.outcome == CasOutcome::EtagMismatch && etag_bytes(r.new_etag) == etag_of(
                object_bytes(current),
            )
        },
{
    let have: Option<BlakeHash> = match current {
        Some(b) => Some(blake3_32(b)),
        None => None,
    };
    let agrees: bool = match (expected_etag, have) {
        (Some(a), Some(b)) => bytes_eq(&a.0, &b.0),
        (None, None) => true,
        _ => false,
    };
    if agrees {
        CasResult { outcome: CasOutcome::Written, new_etag: Some(blake3_32(payload)) }
    } else {
        CasResult { outcome: CasOutcome::EtagMismatch, new_etag: have }
    }
}

/// Of two writers that expect the same object, the one that comes second is refused, unless the
/// first wrote what was there before.
pub proof fn lemma_cas_one_winner(before: Option<Seq<u8>>, first: Seq<u8>, expected: Option<Seq<u8>>)
    requires
        expected == etag_of(before),
        etag_of(Some(first)) != etag_of(before),
    ensures
        expected != etag_of(Some(first)),
{
}

/// Whether a file is on a page: it has the prefix and comes after the cursor.
pub open spec fn is_listed(file: Seq<char>, prefix: Seq<char>, cursor: Seq<u8>) -> bool {
    chars_prefix(file, "name:"@ + flattened(prefix)) && lex_lt(cursor, encode_utf8(file))
}

/// A page of a listing: files in order of their bytes, and the cursor of the next page where there
/// is one.
pub struct Page {
    pub files: Vec<String>,
    pub next_cursor: Option<Vec<u8>>,
}

/// Whether a page holds a file with these bytes.
pub open spec fn on_page(page: Seq<String>, file: Seq<u8>) -> bool {
    exists|i: int| 0 <= i < page.len() && encode_utf8((#[trigger] page[i])@) == file
}

/// Lists the files that hold named objects under a prefix, from after a cursor on, at most `limit`
/// of them. Where more are left, the cursor of the next page is the last file of this one.
pub fn list_page(files: &Vec<String>, prefix: &str, limit: u32, cursor: &[u8]) -> (r: Page)
    ensures
        r.files@.len() <= limit,
        forall|i: int|
            0 <= i < r.files@.len() ==> is_listed((#[trigger] r.files@[i])@, prefix@, cursor@)
                && exists|k: int| 0 <= k < files@.len() && (#[trigger] files@[k])@ == r.files@[i]@,
        forall|i: int, j: int|
            0 <= i < j < r.files@.len() ==> lex_lt(
                encode_utf8((#[trigger] r.files@[i])@),
                encode_utf8((#[trigger] r.files@[j])@),
            ),
        r.next_cursor matches Some(c) ==> r.files@.len() == limit && c@ == (if limit > 0 {
            encode_utf8(r.files@.last()@)
        } else {
            cursor@
        }) && exists|k: int|
            0 <= k < files@.len() && is_listed((#[trigger] files@[k])@, prefix@, cursor@) && !on_page(
                r.files@,
                encode_utf8(files@[k]@),
            ),
        forall|k: int|
            0 <= k < files@.len() && is_listed((#[trigger] files@[k])@, prefix@, cursor@) ==> on_page(
                r.files@,
                encode_utf8(files@[k]@),
            ) || (r.next_cursor is Some && (limit > 0 ==> lex_lt(
                encode_utf8(r.files@.last()@),
                encode_utf8(files@[k]@),
            ))),
{
    let want = chars_of(name_file(prefix).as_str());
    let mut found: ByteMap<String> = ByteMap::new();
    let mut k: usize = 0;
    while k < files.len()
        invariant
            0 <= k <= files@.len(),
            want@ == "name:"@ + flattened(prefix@),
            found.wf(),
            forall|b: Seq<u8>| #[trigger]
                found.contents().contains_key(b) ==> b == encode_utf8(found.contents()[b]@) && is_listed(
                    found.contents()[b]@,
                    prefix@,
                    cursor@,
                ) && exists|m: int|
                    0 <= m < files@.len() && (#[trigger] files@[m])@ == found.contents()[b]@,
            forall|m: int|
                0 <= m < k && is_listed((#[trigger] files@[m])@, prefix@, cursor@)
                    ==> found.contents().contains_key(encode_utf8(files@[m]@)),
        decreases files@.len() - k,
    {
        let f = &files[k];
        let chars = chars_of(f.as_str());
        if chars_start_with(&chars, &want) && bytes_lt(cursor, f.as_str().as_bytes()) {
            let ghost before = found.contents();
            found.insert(to_vec(f.as_str().as_bytes()), f.clone());
            proof {
                let b = encode_utf8(files@[k as int]@);
                assert(found.contents() == before.insert(b, files@[k as int]));
                assert(files@[k as int]@ == found.contents()[b]@);
            }
        }
        k = k + 1;
    }
    let ghost rows = found.rows@;
    let total: usize = found.rows.len();
    let mut out: Vec<String> = Vec::new();
    let mut i: usize = 0;
    while i < total && (i as u64) < limit as u64
        invariant
            found.rows@ == rows,
            found.wf(),
            total == rows.len(),
            0 <= i <= total,
            i <= limit,
            out@.len() == i,
            forall|j: int| 0 <= j < i ==> #[trigger] out@[j] == rows[j].1,
        decreases total - i,
    {
        out.push(found.rows[i].1.clone());
        i = i + 1;
    }
    proof {
        assert forall|j: int| 0 <= j < out@.len() implies encode_utf8((#[trigger] out@[j])@) == rows[j].0@
            && is_listed(out@[j]@, prefix@, cursor@) && exists|m: int|
            0 <= m < files@.len() && (#[trigger] files@[m])@ == out@[j]@ by {
            lemma_contents_at(rows, j);
            assert(found.contents().contains_key(rows[j].0@));
            assert(out@[j] == rows[j].1);
            assert(found.contents()[rows[j].0@] == out@[j]);
        }
        assert forall|a: int, b: int| 0 <= a < b < out@.len() implies lex_lt(
            encode_utf8((#[trigger] out@[a])@),
            encode_utf8((#[trigger] out@[b])@),
        ) by {
            assert(lex_lt(rows[a].0@, rows[b].0@));
        }
    }
    let next_cursor: Option<Vec<u8>> = if i < total {
        if i > 0 {
            Some(to_vec(out[i - 1].as_str().as_bytes()))
        } else {
            Some(to_vec(cursor))
        }
    } else {
        None
    };
    proof {
        assert forall|m: int|
            0 <= m < files@.len() && is_listed((#[trigger] files@[m])@, prefix@, cursor@) implies on_page(
            out@,
            encode_utf8(files@[m]@),
        ) || (next_cursor is Some && (limit > 0 ==> lex_lt(
            encode_utf8(out@.last()@),
            encode_utf8(files@[m]@),
        ))) by {
            let b = encode_utf8(files@[m]@);
            assert(found.contents().contains_key(b));
            assert(has_key(rows, b));
            let a = choose|a: int| 0 <= a < rows.len() && (#[trigger] rows[a]).0@ == b;
            if a < out@.len() {
                assert(encode_utf8(out@[a]@) == rows[a].0@);
            } else if limit > 0 {
                assert(encode_utf8(out@[i - 1]@) == rows[i - 1].0@);
                assert(lex_lt(rows[i - 1].0@, rows[a].0@));
            }
        }
    }
    proof {
        if i < total {
            lemma_contents_at(rows, i as int);
            let b = rows[i as int].0@;
            assert(found.contents().contains_key(b));
            let m = choose|m: int|
                0 <= m < files@.len() && (#[trigger] files@[m])@ == found.contents()[b]@;
            assert(encode_utf8(files@[m]@) == b);
            assert(is_listed(files@[m]@, prefix@, cursor@));
            if on_page(out@, b) {
                let a = choose|a: int| 0 <= a < out@.len() && encode_utf8((#[trigger] out@[a])@) == b;
                assert(lex_lt(rows[a].0@, rows[i as int].0@));
                lemma_lex_irreflexive(b);
            }
        }
    }
    Page { files: out, next_cursor }
}

/// The file name of an object holds no slash, and names are written part by part: each slash as
/// `%2F`, and each other character as itself.
pub proof fn lemma_flat_names(a: Seq<char>, b: Seq<char>, c: char)
    ensures
        !flattened(a).contains('/'),
        flattened(a + b) == flattened(a) + flattened(b),
        flattened(seq!['/']) == seq!['%', '2', 'F'],
        c != '/' ==> flattened(seq![c]) == seq![c],
    decreases a.len(),
{
    assert(seq!['/'].drop_first() =~= Seq::<char>::empty());
    assert(seq![c].drop_first() =~= Seq::<char>::empty());
    assert(flattened(Seq::<char>::empty()) =~= Seq::<char>::empty());
    assert(flattened(seq!['/']) =~= seq!['%', '2', 'F']);
    if c != '/' {
        assert(flattened(seq![c]) =~= seq![c]);
    }
    if a.len() == 0 {
        assert(a + b =~= b);
        assert(flattened(a + b) =~= flattened(a) + flattened(b));
    } else {
        let t = a.drop_first();
        lemma_flat_names(t, b, c);
        assert((a + b).drop_first() =~= t + b);
        assert((a + b)[0] == a[0]);
        assert(flattened(a + b) =~= flattened(a) + flattened(b));
        let f = flattened(a);
        assert forall|i: int| 0 <= i < f.len() implies f[i] != '/' by {
            let n: int = if a[0] == '/' {
                3
            } else {
                1
            };
            if i >= n {
                assert(f[i] == flattened(t)[i - n]);
                assert(flattened(t).contains(flattened(t)[i - n]));
            }
        }
    }
}

/// A file stands in its directory with exactly one slash between them, or none where the directory
/// has no name.
pub proof fn lemma_path_in_directory(dir: Seq<char>, file: Seq<char>)
    ensures
        dir.len() == 0 ==> path_in(dir, file) == file,
        dir.len() > 0 && dir.last() == '/' ==> path_in(dir, file) == dir + file,
        dir.len() > 0 && dir.last() != '/' ==> path_in(dir, file) == dir.push('/') + file,
{
    reveal_strlit("/");
    let t = "/"@;
    assert(t =~= seq!['/']);
    if dir.len() == 0 {
        assert(dir + file =~= file);
    } else {
        assert(dir.skip(dir.len() - 1) =~= seq![dir.last()]);
        assert(seq![dir.last()][0] == dir.last());
        assert(t[0] == '/');
        assert(dir + t =~= dir.push('/'));
    }
}

/// A listing gives the objects whose name begins with the prefix and whose file comes behind the
/// cursor, and no file that is no named object's.
pub proof fn lemma_listed_names(prefix: Seq<char>, rest: Seq<char>, file: Seq<char>, cursor: Seq<u8>)
    ensures
        is_listed("name:"@ + flattened(prefix + rest), prefix, cursor) <==> lex_lt(
            cursor,
            encode_utf8("name:"@ + flattened(prefix + rest)),
        ),
        is_listed(file, prefix, cursor) ==> lex_lt(cursor, encode_utf8(file)) && exists|
            tail: Seq<char>,
        | file == #[trigger] ("name:"@ + flattened(prefix) + tail),
{
    lemma_flat_names(prefix, rest, 'a');
    let p = "name:"@ + flattened(prefix);
    let f = "name:"@ + flattened(prefix + rest);
    assert(f.take(p.len() as int) =~= p);
    if is_listed(file, prefix, cursor) {
        assert(file =~= p + file.skip(p.len() as int));
    }
}

/// The tag of an object tells its bytes: a missing object has none, and an object has the digest
/// of its bytes.
pub proof fn lemma_tags(b: Seq<u8>)
    ensures
        etag_of(Some(b)) == Some(blake3_digest(b)),
        etag_of(None) is None,
{
}

/// Two files of a directory have one path only where they are one file.
pub proof fn lemma_paths_apart(dir: Seq<char>, f: Seq<char>, g: Seq<char>)
    requires
        path_in(dir, f) == path_in(dir, g),
    ensures
        f == g,
{
    lemma_path_in_directory(dir, f);
    lemma_path_in_directory(dir, g);
    let (x, y) = (path_in(dir, f), path_in(dir, g));
    let n: int = x.len() - f.len();
    assert(x.skip(n) =~= f);
    assert(y.skip(n) =~= g);
}

/// Objects are kept in files of their own: different handles in different files, a handle and a
/// name never in one, and different names in different files unless a name holds `%2F`.
pub proof fn lemma_object_files_apart(h: Seq<u8>, k: Seq<u8>, name: Seq<char>, other: Seq<char>)
    ensures
        hex_text(h) == hex_text(k) ==> h == k,
        hex_text(h) != "name:"@ + flattened(name),
        no_escape(name) && no_escape(other) && "name:"@ + flattened(name) == "name:"@ + flattened(
            other,
        ) ==> name == other,
{
    crate::text::lemma_hex_round_trip(h);
    crate::text::lemma_hex_round_trip(k);
    reveal_strlit("name:");
    let f = "name:"@ + flattened(name);
    assert(f[4] == ':');
    if hex_text(h) == f {
        assert(4 < hex_text(h).len());
        crate::text::lemma_hex_digits(h, 2);
        assert(hex_text(h)[4] != ':');
    }
    if no_escape(name) && no_escape(other) {
        lemma_file_name_round_trip(name);
        lemma_file_name_round_trip(other);
    }
}

/// Tags and objects are told by their bytes.
pub proof fn lemma_objects_told(e: BlakeHash, b: &[u8])
    ensures
        etag_bytes(Some(e)) == Some(e.0@),
        etag_bytes(None) is None,
        object_bytes(Some(b)) == Some(b@),
        object_bytes(None) is None,
{
}

} // verus!
