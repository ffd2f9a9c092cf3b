//! Exchange of write-ahead log entries through a vault provider: each entry is a named object, and
//! a device reads those of the others.

use vstd::prelude::*;

use crate::entities::wal_entry::WalEntry;
use crate::text::chars_of;
use crate::text::chars_prefix;
use crate::text::chars_range;
use crate::text::chars_start_with;
use crate::text::find_char;
use crate::text::hex_text;
use crate::text::dec_value;
use crate::text::lemma_padded_apart;
use crate::text::lemma_padded_numeral;
use crate::text::lemma_position_meaning;
use crate::text::padded_digits;
use crate::text::position;
use crate::text::push_chars;
use crate::text::push_padded;
use crate::text::push_text;
use crate::text::string_of;
use crate::types::lemma_uuid_texts_apart;
use crate::types::parse_uuid;
use crate::types::uuid_chars;
use crate::types::uuid_parsed;
use crate::types::uuid_text;
use crate::types::DeviceId;

verus! {

/// The name of an entry: the device that wrote it and its position in that device's log.
pub open spec fn wal_blob_text(device: DeviceId, seq: u64) -> Seq<char> {
    "wal/"@ + uuid_text(device.0) + seq!['/'] + padded_digits(seq as nat, 20)
}

/// The name of an entry.
pub fn wal_blob_name(device: DeviceId, seq: u64) -> (r: String)
    ensures
        r@ == wal_blob_text(device, seq),
{
    let mut out: Vec<char> = Vec::new();
    push_text(&mut out, "wal/");
    push_chars(&mut out, &uuid_chars(device.0));
    out.push('/');
    push_padded(&mut out, seq, 20);
    assert(out@ =~= wal_blob_text(device, seq));
    string_of(&out)
}

/// The text between the prefix and the next slash, where a name has the prefix.
pub open spec fn device_text(name: Seq<char>) -> Option<Seq<char>> {
    if chars_prefix(name, "wal/"@) {
        let rest = name.skip("wal/"@.len() as int);
        Some(rest.take(position(rest, '/')))
    } else {
        None
    }
}

/// The device that wrote an entry, as its name says; `None` where the name is none of an entry.
pub open spec fn writer_of(name: Seq<char>) -> Option<DeviceId> {
    match device_text(name) {
        Some(t) => match uuid_parsed(t) {
            Some(u) => Some(DeviceId(u)),
            None => None,
        },
        None => None,
    }
}

proof fn lemma_uuid_text_has_no_slash(u: u128)
    ensures
        uuid_text(u).len() == 36,
        forall|i: int| 0 <= i < 36 ==> uuid_text(u)[i] != '/',
{
    crate::bytes::lemma_be128_round_trip(u);
    let h = hex_text(crate::bytes::be128(u));
    assert(h.len() == 32);
    assert forall|i: int| 0 <= i < 32 implies #[trigger] h[i] != '/' by {}
    let t = uuid_text(u);
    assert forall|i: int| 0 <= i < 36 implies t[i] != '/' by {
        let j = if i < 8 {
            i
        } else if i < 13 {
            i - 1
        } else if i < 18 {
            i - 2
        } else if i < 23 {
            i - 3
        } else {
            i - 4
        };
        if i != 8 && i != 13 && i != 18 && i != 23 {
            assert(t[i] == h[j]);
        }
    }
}

/// The name of an entry holds the canonical text of its writer.
pub proof fn lemma_device_text_of_name(device: DeviceId, seq: u64)
    ensures
        device_text(wal_blob_text(device, seq)) == Some(uuid_text(device.0)),
{
    let name = wal_blob_text(device, seq);
    let p = "wal/"@;
    let u = uuid_text(device.0);
    lemma_uuid_text_has_no_slash(device.0);
    assert(name.take(p.len() as int) =~= p);
    let rest = name.skip(p.len() as int);
    assert(rest =~= u + seq!['/'] + padded_digits(seq as nat, 20));
    lemma_position_meaning(rest, '/');
    assert(rest[36] == '/');
    assert forall|i: int| 0 <= i < 36 implies rest[i] != '/' by {
        assert(rest[i] == u[i]);
    }
    assert(position(rest, '/') == 36);
    assert(rest.take(36) =~= u);
}

/// Whether an entry is another device's, and whose. The names that `wal_blob_name` makes are
/// understood.
pub fn foreign_writer(name: &str, local: DeviceId) -> (r: Option<DeviceId>)
    ensures
        r == (match writer_of(name@) {
            Some(d) => if d == local {
                None
            } else {
                Some(d)
            },
            None => None,
        }),
        forall|d: DeviceId, seq: u64|
            name@ == #[trigger] wal_blob_text(d, seq) ==> r == (if d == local {
                None
            } else {
                Some(d)
            }),
{
    let n = chars_of(name);
    let p = chars_of("wal/");
    proof {
        assert forall|d: DeviceId, seq: u64| name@ == #[trigger] wal_blob_text(d, seq) implies device_text(
            name@,
        ) == Some(uuid_text(d.0)) by {
            lemma_device_text_of_name(d, seq);
        }
    }
    if !chars_start_with(&n, &p) {
        return None;
    }
    let rest = chars_range(&n, p.len(), n.len());
    assert(rest@ =~= n@.skip(p@.len() as int));
    let at: usize = find_char(&rest, '/');
    let t = chars_range(&rest, 0, at);
    assert(t@ =~= rest@.take(at as int));
    match parse_uuid(string_of(&t).as_str()) {
        Some(u) => {
            let d = DeviceId(u);
            if d == local {
                None
            } else {
                Some(d)
            }
        },
        None => None,
    }
}

/// What a pull has gathered so far.
pub struct WalPull {
    pub local: DeviceId,
    pub listed: usize,
    pub devices: Vec<DeviceId>,
    pub entries: Vec<WalEntry>,
}

impl WalPull {
    /// A pull on behalf of a device.
    pub fn new(local: DeviceId) -> (r: Self)
        ensures
            r.wf(),
            r.local == local,
            r.listed == 0,
            r.devices@.len() == 0,
            r.entries@.len() == 0,
    {
        WalPull { local, listed: 0, devices: Vec::new(), entries: Vec::new() }
    }

    /// No device is named twice, and none is the device itself.
    pub open spec fn wf(self) -> bool {
        self.devices@.no_duplicates() && !self.devices@.contains(self.local)
    }

    /// Counts a listed name. The result says whose entry to fetch, where it is another device's.
    pub fn visit(&mut self, name: &str) -> (r: Option<DeviceId>)
        requires
            old(self).wf(),
            old(self).listed < usize::MAX,
        ensures
            final(self).wf(),
            final(self).listed == old(self).listed + 1,
            final(self).local == old(self).local,
            final(self).devices@ == old(self).devices@,
            final(self).entries@ == old(self).entries@,
            r == (match writer_of(name@) {
                Some(d) => if d == old(self).local {
                    None
                } else {
                    Some(d)
                },
                None => None,
            }),
    {
        self.listed = self.listed + 1;
        foreign_writer(name, self.local)
    }

    /// Takes an entry that was fetched for another device.
    pub fn take(&mut self, device: DeviceId, entry: WalEntry)
        requires
            old(self).wf(),
            device != old(self).local,
        ensures
            final(self).wf(),
            final(self).listed == old(self).listed,
            final(self).local == old(self).local,
            final(self).entries@ == old(self).entries@.push(entry),
            final(self).devices@ == (if old(self).devices@.contains(device) {
                old(self).devices@
            } else {
                old(self).devices@.push(device)
            }),
    {
        let mut known: bool = false;
        let mut i: usize = 0;
        while i < self.devices.len()
            invariant
                0 <= i <= self.devices@.len(),
                self.devices@ == old(self).devices@,
                self.entries@ == old(self).entries@,
                self.local == old(self).local,
                self.listed == old(self).listed,
                known ==> self.devices@.contains(device),
                !known ==> forall|j: int| 0 <= j < i ==> self.devices@[j] != device,
            decreases self.devices@.len() - i,
        {
            if self.devices[i] == device {
                known = true;
            }
            i = i + 1;
        }
        if !known {
            self.devices.push(device);
            proof {
                let a = old(self).devices@;
                let b = self.devices@;
                assert forall|x: DeviceId| b.contains(x) implies a.contains(x) || x == device by {
                    let k = choose|k: int| 0 <= k < b.len() && b[k] == x;
                    if k < a.len() {
                        assert(a[k] == x);
                    }
                }
            }
        }
        self.entries.push(entry);
    }
}

/// How a push has gone so far. An entry whose name is taken has been pushed before.
#[derive(Clone, Copy, PartialEq, Eq, Structural, Debug)]
pub struct WalPush {
    pub pushed: usize,
    pub already_present: usize,
}

impl WalPush {
    /// A push before its first entry.
    pub fn new() -> (r: Self)
        ensures
            r == (WalPush { pushed: 0, already_present: 0 }),
    {
        WalPush { pushed: 0, already_present: 0 }
    }

    /// Counts an entry that was offered.
    pub fn count(&mut self, written: bool)
        requires
            old(self).pushed < usize::MAX,
            old(self).already_present < usize::MAX,
        ensures
            *final(self) == (if written {
                WalPush { pushed: (old(self).pushed + 1) as usize, ..*old(self) }
            } else {
                WalPush { already_present: (old(self).already_present + 1) as usize, ..*old(self) }
            }),
    {
        if written {
            self.pushed = self.pushed + 1;
        } else {
            self.already_present = self.already_present + 1;
        }
    }
}

/// The names of two entries agree only where writer and number do.
pub proof fn lemma_entry_names_apart(d: DeviceId, m: u64, e: DeviceId, n: u64)
    requires
        wal_blob_text(d, m) == wal_blob_text(e, n),
    ensures
        d == e,
        m == n,
{
    lemma_device_text_of_name(d, m);
    lemma_device_text_of_name(e, n);
    lemma_uuid_texts_apart(d.0, e.0);
    let p = "wal/"@ + uuid_text(d.0) + seq!['/'];
    assert((p + padded_digits(m as nat, 20)).skip(p.len() as int) =~= padded_digits(m as nat, 20));
    assert((p + padded_digits(n as nat, 20)).skip(p.len() as int) =~= padded_digits(n as nat, 20));
    lemma_padded_apart(m, n);
}

/// The names of one writer's entries sort as their numbers do: they are equally long, and where
/// they first differ the later number has the larger digit.
pub proof fn lemma_entry_names_sort(d: DeviceId, m: u64, n: u64)
    requires
        m < n,
    ensures
        wal_blob_text(d, m).len() == wal_blob_text(d, n).len(),
        exists|at: int|
            0 <= at < wal_blob_text(d, m).len() && wal_blob_text(d, m).take(at) == wal_blob_text(
                d,
                n,
            ).take(at) && #[trigger] wal_blob_text(d, m)[at] < wal_blob_text(d, n)[at],
{
    let p = "wal/"@ + uuid_text(d.0) + seq!['/'];
    let (a, b) = (padded_digits(m as nat, 20), padded_digits(n as nat, 20));
    lemma_padded_numeral(m as nat, 20);
    lemma_padded_numeral(n as nat, 20);
    assert(vstd::arithmetic::power::pow(10, 20) == 100_000_000_000_000_000_000) by {
        reveal_with_fuel(vstd::arithmetic::power::pow, 21);
    }
    let at = lemma_smaller_numeral(a, b);
    let (s, t) = (wal_blob_text(d, m), wal_blob_text(d, n));
    assert(s == p + a);
    assert(t == p + b);
    let w = p.len() + at;
    assert(s.take(w) =~= p + a.take(at));
    assert(t.take(w) =~= p + b.take(at));
    assert(s[w] == a[at]);
    assert(t[w] == b[at]);
}

proof fn lemma_smaller_numeral(a: Seq<char>, b: Seq<char>) -> (at: int)
    requires
        a.len() == b.len(),
        forall|i: int| 0 <= i < a.len() ==> '0' <= #[trigger] a[i] <= '9',
        forall|i: int| 0 <= i < b.len() ==> '0' <= #[trigger] b[i] <= '9',
        dec_value(a) < dec_value(b),
    ensures
        0 <= at < a.len(),
        a.take(at) == b.take(at),
        a[at] < b[at],
    decreases a.len(),
{
    let (s, t) = (a.drop_last(), b.drop_last());
    if a.len() == 0 {
        assert(a =~= b);
        0
    } else if s == t {
        a.len() - 1
    } else {
        assert('0' <= a[a.len() - 1] <= '9');
        assert('0' <= b[b.len() - 1] <= '9');
        assert(dec_value(s) <= dec_value(t));
        assert forall|i: int| 0 <= i < s.len() implies '0' <= #[trigger] s[i] <= '9' by {
            assert(s[i] == a[i]);
        }
        assert forall|i: int| 0 <= i < t.len() implies '0' <= #[trigger] t[i] <= '9' by {
            assert(t[i] == b[i]);
        }
        if dec_value(s) == dec_value(t) {
            lemma_same_value(s, t);
        }
        let at = lemma_smaller_numeral(s, t);
        assert(s.take(at) =~= a.take(at));
        assert(t.take(at) =~= b.take(at));
        at
    }
}

proof fn lemma_same_value(a: Seq<char>, b: Seq<char>)
    requires
        a.len() == b.len(),
        forall|i: int| 0 <= i < a.len() ==> '0' <= #[trigger] a[i] <= '9',
        forall|i: int| 0 <= i < b.len() ==> '0' <= #[trigger] b[i] <= '9',
        dec_value(a) == dec_value(b),
    ensures
        a == b,
    decreases a.len(),
{
    if a.len() > 0 {
        let (s, t) = (a.drop_last(), b.drop_last());
        assert('0' <= a[a.len() - 1] <= '9');
        assert('0' <= b[b.len() - 1] <= '9');
        assert forall|i: int| 0 <= i < s.len() implies '0' <= #[trigger] s[i] <= '9' by {
            assert(s[i] == a[i]);
        }
        assert forall|i: int| 0 <= i < t.len() implies '0' <= #[trigger] t[i] <= '9' by {
            assert(t[i] == b[i]);
        }
        assert(dec_value(s) == dec_value(t));
        lemma_same_value(s, t);
        assert(a.last() as u32 == b.last() as u32);
        assert(a =~= s.push(a.last()));
        assert(b =~= t.push(b.last()));
    } else {
        assert(a =~= b);
    }
}

/// A pull names each device once, and never its own.
pub proof fn lemma_pull_names_others_once(pull: WalPull, i: int, j: int)
    requires
        pull.wf(),
        0 <= i < j < pull.devices@.len(),
    ensures
        pull.devices@[i] != pull.devices@[j],
        pull.devices@[i] != pull.local,
        pull.devices@[j] != pull.local,
{
    assert(pull.devices@.contains(pull.devices@[i]));
    assert(pull.devices@.contains(pull.devices@[j]));
}

} // verus!
