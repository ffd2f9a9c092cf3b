//! Transactions and the backends that keep them.

use vstd::prelude::*;

use super::cf::lemma_position_injective;
use super::cf::ColumnFamily;
use super::cf::COLUMN_FAMILIES;
use super::table::lists_prefix;
use super::table::Row;
use super::table::Table;
use super::MetadataError;

verus! {

/// What a backend holds: for each column family a map from keys to values.
pub type DbState = Map<ColumnFamily, Map<Seq<u8>, Seq<u8>>>;

/// A write that waits in a transaction.
#[derive(Clone, Debug)]
pub enum WriteOp {
    Put { cf: ColumnFamily, key: Vec<u8>, value: Vec<u8> },
    Delete { cf: ColumnFamily, key: Vec<u8> },
}

impl WriteOp {
    /// Whether this puts `value` under `key`.
    pub open spec fn is_put(self, cf: ColumnFamily, key: Seq<u8>, value: Seq<u8>) -> bool {
        match self {
            WriteOp::Put { cf: c, key: k, value: v } => c == cf && k@ == key && v@ == value,
            WriteOp::Delete { .. } => false,
        }
    }

    /// Whether this deletes `key`.
    pub open spec fn is_delete(self, cf: ColumnFamily, key: Seq<u8>) -> bool {
        match self {
            WriteOp::Put { .. } => false,
            WriteOp::Delete { cf: c, key: k } => c == cf && k@ == key,
        }
    }
}

/// The bytes of a key or of the beginning of keys.
pub type KeyBytes = Seq<u8>;

/// Writes, in order.
pub type Writes = Seq<WriteOp>;

/// A state after one write.
pub open spec fn op_applied(s: DbState, op: WriteOp) -> DbState {
    match op {
        WriteOp::Put { cf, key, value } => s.insert(cf, s[cf].insert(key@, value@)),
        WriteOp::Delete { cf, key } => s.insert(cf, s[cf].remove(key@)),
    }
}

/// A state after a row of writes, in order.
pub open spec fn ops_applied(s: DbState, ops: Seq<WriteOp>) -> DbState
    decreases ops.len(),
{
    if ops.len() == 0 {
        s
    } else {
        op_applied(ops_applied(s, ops.drop_last()), ops.last())
    }
}

/// Writes that are committed together. Later ones win.
#[derive(Clone, Debug)]
pub struct Txn {
    pub ops: Vec<WriteOp>,
}

impl Default for Txn {
    fn default() -> (r: Self)
        ensures
            r.ops@.len() == 0,
    {
        Txn { ops: Vec::new() }
    }
}

impl Txn {
    /// A transaction without writes.
    pub fn new() -> (r: Self)
        ensures
            r.ops@.len() == 0,
    {
        Txn { ops: Vec::new() }
    }

    /// Adds a write of a value under a key.
    pub fn put(&mut self, cf: ColumnFamily, key: Vec<u8>, value: Vec<u8>)
        ensures
            final(self).ops@ == old(self).ops@.push(WriteOp::Put { cf, key, value }),
    {
        self.ops.push(WriteOp::Put { cf, key, value });
    }

    /// Adds the removal of a key.
    pub fn delete(&mut self, cf: ColumnFamily, key: Vec<u8>)
        ensures
            final(self).ops@ == old(self).ops@.push(WriteOp::Delete { cf, key }),
    {
        self.ops.push(WriteOp::Delete { cf, key });
    }

    /// Whether there are no writes.
    pub fn is_empty(&self) -> (r: bool)
        ensures
            r == (self.ops@.len() == 0),
    {
        self.ops.len() == 0
    }
}

/// The value of a key in a state, where it is there.
pub open spec fn value_in(s: DbState, cf: ColumnFamily, key: Seq<u8>) -> Option<Seq<u8>> {
    if s[cf].contains_key(key) {
        Some(s[cf][key])
    } else {
        None
    }
}

/// What was read.
pub open spec fn read_of(r: Option<Vec<u8>>) -> Option<Seq<u8>> {
    match r {
        Some(v) => Some(v@),
        None => None,
    }
}

/// A keeper of column families. A commit is done whole or not at all.
pub trait Backend: Sized {
    /// What the backend holds.
    spec fn state(&self) -> DbState;

    /// Whether the backend's own order is intact.
    spec fn wf(&self) -> bool;

    /// Whether the backend never fails.
    spec fn reliable(&self) -> bool;

    /// Whether a read of a key may give this result.
    spec fn get_gives(
        &self,
        cf: ColumnFamily,
        key: KeyBytes,
        r: Result<Option<Vec<u8>>, MetadataError>,
    ) -> bool;

    /// Whether a commit of these writes may leave `after` and give this result.
    spec fn commit_gives(
        &self,
        writes: Writes,
        after: &Self,
        r: Result<(), MetadataError>,
    ) -> bool;

    /// Whether a listing of a prefix may give this result.
    spec fn scan_gives(
        &self,
        cf: ColumnFamily,
        prefix: KeyBytes,
        r: Result<Vec<Row>, MetadataError>,
    ) -> bool;

    /// Whether a flush may leave `after` and give this result.
    spec fn flush_gives(&self, after: &Self, r: Result<(), MetadataError>) -> bool;

    /// Reads a key.
    fn get(&self, cf: ColumnFamily, key: &[u8]) -> (r: Result<Option<Vec<u8>>, MetadataError>)
        requires
            self.wf(),
        ensures
            self.get_gives(cf, key@, r),
            r matches Ok(v) ==> read_of(v) == value_in(self.state(), cf, key@),
            self.reliable() ==> r is Ok,
    ;

    /// Applies the writes of a transaction in order.
    fn commit(&mut self, txn: Txn) -> (r: Result<(), MetadataError>)
        requires
            old(self).wf(),
        ensures
            final(self).wf(),
            old(self).commit_gives(txn.ops@, final(self), r),
            r is Ok ==> final(self).state() == ops_applied(old(self).state(), txn.ops@),
            r is Err ==> final(self).state() == old(self).state(),
            final(self).reliable() == old(self).reliable(),
            old(self).reliable() ==> r is Ok,
    ;

    /// Lists the entries whose keys begin with `prefix`, by increasing key.
    fn scan_prefix(&self, cf: ColumnFamily, prefix: &[u8]) -> (r: Result<Vec<Row>, MetadataError>)
        requires
            self.wf(),
        ensures
            self.scan_gives(cf, prefix@, r),
            r matches Ok(rows) ==> lists_prefix(rows@, self.state()[cf], prefix@),
            self.reliable() ==> r is Ok,
    ;

    /// Makes what has been committed durable.
    fn flush(&mut self) -> (r: Result<(), MetadataError>)
        requires
            old(self).wf(),
        ensures
            final(self).wf(),
            old(self).flush_gives(final(self), r),
            final(self).state() == old(self).state(),
            final(self).reliable() == old(self).reliable(),
            old(self).reliable() ==> r is Ok,
    ;
}

/// A backend in memory. It never fails.
pub struct MemoryBackend {
    tables: Vec<Table>,
}

impl MemoryBackend {
    /// A backend that holds nothing.
    pub fn new() -> (r: Self)
        ensures
            r.wf(),
            forall|cf: ColumnFamily| #[trigger] r.state()[cf] == Map::<Seq<u8>, Seq<u8>>::empty(),
            forall|cf: ColumnFamily| #[trigger] r.state().contains_key(cf),
    {
        let mut tables: Vec<Table> = Vec::new();
        let mut i: usize = 0;
        while i < COLUMN_FAMILIES
            invariant
                0 <= i <= COLUMN_FAMILIES,
                tables@.len() == i,
                forall|j: int|
                    0 <= j < i ==> (#[trigger] tables@[j]).wf() && tables@[j].contents() == Map::<
                        Seq<u8>,
                        Seq<u8>,
                    >::empty(),
            decreases COLUMN_FAMILIES - i,
        {
            tables.push(Table::new());
            i = i + 1;
        }
        MemoryBackend { tables }
    }

    fn apply(&mut self, op: WriteOp)
        requires
            old(self).wf(),
        ensures
            final(self).wf(),
            final(self).state() == op_applied(old(self).state(), op),
    {
        let ghost before = *self;
        match op {
            WriteOp::Put { cf, key, value } => {
                let at: usize = cf.index();
                self.tables[at].insert(key, value);
                assert forall|c: ColumnFamily| c != cf implies #[trigger] self.tables@[c.position()]
                    == before.tables@[c.position()] by {
                    if c.position() == at {
                        lemma_position_injective(c, cf);
                    }
                }
            },
            WriteOp::Delete { cf, key } => {
                let at: usize = cf.index();
                self.tables[at].remove(&key);
                assert forall|c: ColumnFamily| c != cf implies #[trigger] self.tables@[c.position()]
                    == before.tables@[c.position()] by {
                    if c.position() == at {
                        lemma_position_injective(c, cf);
                    }
                }
            },
        }
        assert(self.state() =~= op_applied(before.state(), op));
    }
}

impl Default for MemoryBackend {
    fn default() -> (r: Self)
        ensures
            r.wf(),
            forall|cf: ColumnFamily| #[trigger] r.state()[cf] == Map::<Seq<u8>, Seq<u8>>::empty(),
    {
        MemoryBackend::new()
    }
}

impl Backend for MemoryBackend {
    closed spec fn state(&self) -> DbState {
        Map::new(|cf: ColumnFamily| true, |cf: ColumnFamily| self.tables@[cf.position()].contents())
    }

    closed spec fn wf(&self) -> bool {
        &&& self.tables@.len() == COLUMN_FAMILIES
        &&& forall|i: int| 0 <= i < COLUMN_FAMILIES ==> (#[trigger] self.tables@[i]).wf()
    }

    open spec fn reliable(&self) -> bool {
        true
    }

    open spec fn get_gives(
        &self,
        cf: ColumnFamily,
        key: KeyBytes,
        r: Result<Option<Vec<u8>>, MetadataError>,
    ) -> bool {
        r matches Ok(v) && read_of(v) == value_in(self.state(), cf, key)
    }

    open spec fn commit_gives(
        &self,
        writes: Writes,
        after: &Self,
        r: Result<(), MetadataError>,
    ) -> bool {
        r is Ok && after.state() == ops_applied(self.state(), writes)
    }

    open spec fn scan_gives(
        &self,
        cf: ColumnFamily,
        prefix: KeyBytes,
        r: Result<Vec<Row>, MetadataError>,
    ) -> bool {
        r matches Ok(rows) && lists_prefix(rows@, self.state()[cf], prefix)
    }

    open spec fn flush_gives(&self, after: &Self, r: Result<(), MetadataError>) -> bool {
        r is Ok && after.state() == self.state()
    }

    fn get(&self, cf: ColumnFamily, key: &[u8]) -> (r: Result<Option<Vec<u8>>, MetadataError>)
    {
        Ok(self.tables[cf.index()].get(key))
    }

    fn commit(&mut self, txn: Txn) -> (r: Result<(), MetadataError>)
    {
        let ghost start = self.state();
        let ghost all = txn.ops@;
        let mut ops = txn.ops;
        let ghost mut done: int = 0;
        while ops.len() > 0
            invariant
                self.wf(),
                0 <= done <= all.len(),
                ops@ == all.skip(done),
                self.state() == ops_applied(start, all.take(done)),
            decreases ops@.len(),
        {
            let op = ops.remove(0);
            proof {
                assert(op == all[done]);
                assert(all.take(done + 1).drop_last() =~= all.take(done));
                assert(all.skip(done).remove(0) =~= all.skip(done + 1));
            }
            self.apply(op);
            proof {
                done = done + 1;
            }
        }
        assert(all.take(done) =~= all);
        Ok(())
    }

    fn scan_prefix(&self, cf: ColumnFamily, prefix: &[u8]) -> (r: Result<Vec<Row>, MetadataError>)
    {
        Ok(self.tables[cf.index()].scan(prefix))
    }

    fn flush(&mut self) -> (r: Result<(), MetadataError>)
    {
        Ok(())
    }
}

/// The last write of a transaction to a key is what a read then finds, and it leaves every other
/// key as the writes before it left it.
pub proof fn lemma_last_put_wins(
    s: DbState,
    ops: Seq<WriteOp>,
    op: WriteOp,
    cf: ColumnFamily,
    key: Seq<u8>,
    value: Seq<u8>,
)
    requires
        op.is_put(cf, key, value),
    ensures
        value_in(ops_applied(s, ops.push(op)), cf, key) == Some(value),
        forall|c: ColumnFamily, k: Seq<u8>|
            (c != cf || k != key) ==> value_in(#[trigger] ops_applied(s, ops.push(op)), c, k)
                == #[trigger] value_in(ops_applied(s, ops), c, k),
{
    assert(ops.push(op).drop_last() =~= ops);
}

/// A key whose removal is the last write is not found, and every other key is left alone.
pub proof fn lemma_last_delete_wins(
    s: DbState,
    ops: Seq<WriteOp>,
    op: WriteOp,
    cf: ColumnFamily,
    key: Seq<u8>,
)
    requires
        op.is_delete(cf, key),
    ensures
        value_in(ops_applied(s, ops.push(op)), cf, key) is None,
        forall|c: ColumnFamily, k: Seq<u8>|
            (c != cf || k != key) ==> value_in(#[trigger] ops_applied(s, ops.push(op)), c, k)
                == #[trigger] value_in(ops_applied(s, ops), c, k),
{
    assert(ops.push(op).drop_last() =~= ops);
}

/// What is committed to memory is read from it: the last write to a key decides, and keys that are
/// not written keep what they had.
pub proof fn lemma_memory_reads_writes(
    before: MemoryBackend,
    after: MemoryBackend,
    ops: Seq<WriteOp>,
    op: WriteOp,
    cf: ColumnFamily,
    key: Seq<u8>,
    value: Seq<u8>,
    r: Result<Option<Vec<u8>>, MetadataError>,
)
    requires
        before.commit_gives(ops.push(op), &after, Ok(())),
        op.is_put(cf, key, value),
        after.get_gives(cf, key, r),
    ensures
        r matches Ok(Some(v)) && v@ == value,
{
    lemma_last_put_wins(before.state(), ops, op, cf, key, value);
}

/// What was read is told by its bytes.
pub proof fn lemma_read_told(v: Vec<u8>)
    ensures
        read_of(Some(v)) == Some(v@),
        read_of(None) is None,
{
}

} // verus!
