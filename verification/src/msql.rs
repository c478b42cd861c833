//! The request grammar: table-and-operation annotations (`TableOp`,
//! `TableOps`), the three request kinds (`MsqlBeginTx`, `MsqlQuery`,
//! `MsqlEndTx`) and the tagged reply union `MsqlResponse`.

use vstd::prelude::*;

verus! {

/// Read or write access to a single table.
#[derive(Clone, Copy, Debug, PartialEq, Eq, Structural)]
pub enum RWOperation {
    R,
    W,
}

/// Access pattern derived from a set of table operations: `Mixed` iff both
/// read and write tables appear.
#[derive(Clone, Copy, Debug, PartialEq, Eq, Structural)]
pub enum AccessPattern {
    ReadOnly,
    WriteOnly,
    Mixed,
}

impl AccessPattern {
    pub fn is_read_only(&self) -> (r: bool)
        ensures
            r == (*self == AccessPattern::ReadOnly),
    {
        matches!(*self, AccessPattern::ReadOnly)
    }

    pub fn is_write_only(&self) -> (r: bool)
        ensures
            r == (*self == AccessPattern::WriteOnly),
    {
        matches!(*self, AccessPattern::WriteOnly)
    }

    pub fn is_mixed(&self) -> (r: bool)
        ensures
            r == (*self == AccessPattern::Mixed),
    {
        matches!(*self, AccessPattern::Mixed)
    }
}

/// Mathematical value of a `TableOp`.
pub struct TableOpV {
    pub table: Seq<char>,
    pub op: RWOperation,
}

/// One table together with the operation a statement performs on it.
#[derive(Debug, PartialEq, Eq)]
pub struct TableOp {
    table: String,
    op: RWOperation,
}

impl View for TableOp {
    type V = TableOpV;

    closed spec fn view(&self) -> TableOpV {
        TableOpV { table: self.table@, op: self.op }
    }
}

impl Clone for TableOp {
    fn clone(&self) -> (r: Self)
        ensures
            r@ == self@,
    {
        TableOp { table: self.table.clone(), op: self.op }
    }
}

impl TableOp {
    pub fn new(table: &str, op: RWOperation) -> (r: Self)
        ensures
            r@.table == table@,
            r@.op == op,
    {
        TableOp { table: table.to_owned(), op }
    }

    pub fn table(&self) -> (r: &String)
        ensures
            r@ == self@.table,
    {
        &self.table
    }

    pub fn op(&self) -> (r: RWOperation)
        ensures
            r == self@.op,
    {
        self.op
    }
}

/// A sequence of `TableOpV` values has unique table names.
pub open spec fn tableops_unique(s: Seq<TableOpV>) -> bool {
    forall|i: int, j: int| 0 <= i < j < s.len() ==> s[i].table != s[j].table
}

/// Some entry of `s` is on table `t`.
pub open spec fn has_table(s: Seq<TableOpV>, t: Seq<char>) -> bool {
    exists|i: int| 0 <= i < s.len() && s[i].table == t
}

/// The index of the entry of `s` on table `t` (meaningful when `has_table`).
pub open spec fn index_of_table(s: Seq<TableOpV>, t: Seq<char>) -> int {
    choose|i: int| 0 <= i < s.len() && s[i].table == t
}

/// The stronger of two operations: a write wins over a read.
pub open spec fn stronger_op(a: RWOperation, b: RWOperation) -> RWOperation {
    if a == RWOperation::W || b == RWOperation::W {
        RWOperation::W
    } else {
        RWOperation::R
    }
}

/// Adding one operation to an accumulated sequence: a duplicate table keeps
/// one entry with the stronger mode, a fresh table is appended.
pub open spec fn spec_add(acc: Seq<TableOpV>, t: TableOpV) -> Seq<TableOpV> {
    if has_table(acc, t.table) {
        let k = index_of_table(acc, t.table);
        acc.update(k, TableOpV { table: t.table, op: stronger_op(acc[k].op, t.op) })
    } else {
        acc.push(t)
    }
}

/// Adding a whole list of operations, first to last.
pub open spec fn spec_add_all(acc: Seq<TableOpV>, list: Seq<TableOpV>) -> Seq<TableOpV>
    decreases list.len(),
{
    if list.len() == 0 {
        acc
    } else {
        spec_add_all(spec_add(acc, list[0]), list.subrange(1, list.len() as int))
    }
}

/// The last added operation can be peeled off the back of the fold.
pub proof fn lemma_add_all_snoc(acc: Seq<TableOpV>, list: Seq<TableOpV>, x: TableOpV)
    ensures
        spec_add_all(acc, list.push(x)) == spec_add(spec_add_all(acc, list), x),
    decreases list.len(),
{
    let whole = list.push(x);
    if list.len() == 0 {
        assert(whole[0] == x);
        assert(whole.subrange(1, whole.len() as int) =~= Seq::<TableOpV>::empty());
        assert(spec_add_all(spec_add(acc, x), whole.subrange(1, whole.len() as int)) == spec_add(
            acc,
            x,
        ));
        assert(spec_add_all(acc, list) == acc);
    } else {
        assert(whole[0] == list[0]);
        assert(whole.subrange(1, whole.len() as int) =~= list.subrange(
            1,
            list.len() as int,
        ).push(x));
        lemma_add_all_snoc(spec_add(acc, list[0]), list.subrange(1, list.len() as int), x);
    }
}

/// The access pattern of a sequence of table operations.
pub open spec fn spec_access_pattern(s: Seq<TableOpV>) -> AccessPattern {
    if (exists|i: int| 0 <= i < s.len() && s[i].op == RWOperation::R) && (exists|i: int|
        0 <= i < s.len() && s[i].op == RWOperation::W) {
        AccessPattern::Mixed
    } else if exists|i: int| 0 <= i < s.len() && s[i].op == RWOperation::W {
        AccessPattern::WriteOnly
    } else {
        AccessPattern::ReadOnly
    }
}

/// The ordered set of table operations a statement touches. Table names are
/// unique; a table seen under both operations is kept once, as a write.
#[derive(Debug, PartialEq, Eq)]
pub struct TableOps {
    ops: Vec<TableOp>,
}

impl View for TableOps {
    type V = Seq<TableOpV>;

    closed spec fn view(&self) -> Seq<TableOpV> {
        self.ops@.map_values(|t: TableOp| t@)
    }
}

impl Clone for TableOps {
    fn clone(&self) -> (r: Self)
        ensures
            r@ == self@,
    {
        let mut ops: Vec<TableOp> = Vec::new();
        let n = self.ops.len();
        let mut i: usize = 0;
        while i < n
            invariant
                n == self.ops.len(),
                i <= n,
                ops@.len() == i,
                forall|j: int| 0 <= j < i ==> ops@[j]@ == self.ops@[j]@,
            decreases n - i,
        {
            ops.push(self.ops[i].clone());
            i += 1;
        }
        let r = TableOps { ops };
        assert(r@ =~= self@);
        r
    }
}

impl TableOps {
    pub open spec fn wf(&self) -> bool {
        tableops_unique(self@)
    }

    pub fn new() -> (r: Self)
        ensures
            r@ =~= Seq::<TableOpV>::empty(),
            r.wf(),
    {
        TableOps { ops: Vec::new() }
    }

    pub fn get(&self) -> (r: &Vec<TableOp>)
        ensures
            r@.map_values(|t: TableOp| t@) == self@,
    {
        &self.ops
    }

    pub fn len(&self) -> (r: usize)
        ensures
            r == self@.len(),
    {
        self.ops.len()
    }

    /// Add one operation, collapsing a duplicate table name and keeping the
    /// stronger mode (a write wins over a read).
    pub fn add(&mut self, tableop: TableOp)
        requires
            old(self).wf(),
        ensures
            final(self).wf(),
            !has_table(old(self)@, tableop@.table) ==> final(self)@ == old(self)@.push(tableop@),
            has_table(old(self)@, tableop@.table) ==> {
                let k = index_of_table(old(self)@, tableop@.table);
                final(self)@ == old(self)@.update(
                    k,
                    TableOpV {
                        table: tableop@.table,
                        op: stronger_op(old(self)@[k].op, tableop@.op),
                    },
                )
            },
            forall|t: Seq<char>|
                #[trigger] has_table(final(self)@, t) <==> (t == tableop@.table || has_table(
                    old(self)@,
                    t,
                )),
    {
        let n = self.ops.len();
        let mut i: usize = 0;
        while i < n
            invariant
                n == self.ops.len(),
                i <= n,
                self.wf(),
                self@ == old(self)@,
                forall|j: int| 0 <= j < i ==> self@[j].table != tableop@.table,
            decreases n - i,
        {
            if self.ops[i].table == tableop.table {
                let ghost prev = self@;
                let name = self.ops[i].table.clone();
                if matches!(tableop.op, RWOperation::W) {
                    self.ops.set(i, TableOp { table: name, op: RWOperation::W });
                } else {
                    let op = self.ops[i].op;
                    self.ops.set(i, TableOp { table: name, op });
                }
                proof {
                    assert(prev[i as int].table == tableop@.table);
                    assert(has_table(prev, tableop@.table));
                    let k = index_of_table(prev, tableop@.table);
                    assert(0 <= k < prev.len() && prev[k].table == tableop@.table);
                    assert(k == i) by {
                        if k != i {
                            assert(prev[k].table == prev[i as int].table);
                        }
                    }
                    assert(self@ =~= prev.update(
                        k,
                        TableOpV {
                            table: tableop@.table,
                            op: stronger_op(prev[k].op, tableop@.op),
                        },
                    ));
                    assert forall|t: Seq<char>| #[trigger] has_table(self@, t) implies (t
                        == tableop@.table || has_table(prev, t)) by {
                        let m = choose|m: int| 0 <= m < self@.len() && self@[m].table == t;
                        if m != k {
                            assert(prev[m].table == t);
                        }
                    }
                    assert forall|t: Seq<char>| has_table(prev, t) implies #[trigger] has_table(
                        self@,
                        t,
                    ) by {
                        let m = choose|m: int| 0 <= m < prev.len() && prev[m].table == t;
                        assert(self@[m].table == t);
                    }
                }
                return ;
            }
            i += 1;
        }
        self.ops.push(tableop);
        proof {
            assert(self@ =~= old(self)@.push(tableop@));
            assert(self@[old(self)@.len() as int].table == tableop@.table);
            assert forall|t: Seq<char>| #[trigger] has_table(self@, t) implies (t == tableop@.table
                || has_table(old(self)@, t)) by {
                let k = choose|k: int| 0 <= k < self@.len() && self@[k].table == t;
                if k < old(self)@.len() {
                    assert(old(self)@[k].table == t);
                }
            }
            assert forall|t: Seq<char>| has_table(old(self)@, t) implies #[trigger] has_table(
                self@,
                t,
            ) by {
                let k = choose|k: int| 0 <= k < old(self)@.len() && old(self)@[k].table == t;
                assert(self@[k].table == t);
            }
        }
    }

    /// Build from a list, deduplicating as `add` does: the result is the
    /// whole list folded in, first to last.
    pub fn from_iter(list: Vec<TableOp>) -> (r: Self)
        ensures
            r.wf(),
            r@ == spec_add_all(Seq::empty(), list@.map_values(|t: TableOp| t@)),
            // exactly the tables of the input appear
            forall|t: Seq<char>|
                #[trigger] has_table(r@, t) <==> (exists|i: int|
                    #![auto]
                    0 <= i < list@.len() && list@[i]@.table == t),
    {
        let ghost views = list@.map_values(|t: TableOp| t@);
        let mut r = TableOps::new();
        let n = list.len();
        let mut i: usize = 0;
        proof {
            assert(views.subrange(0, 0) =~= Seq::<TableOpV>::empty());
            assert(r@ == spec_add_all(Seq::empty(), views.subrange(0, 0)));
        }
        while i < n
            invariant
                n == list@.len(),
                views == list@.map_values(|t: TableOp| t@),
                i <= n,
                r.wf(),
                r@ == spec_add_all(Seq::empty(), views.subrange(0, i as int)),
                forall|t: Seq<char>|
                    #[trigger] has_table(r@, t) <==> (exists|k: int|
                        #![auto]
                        0 <= k < i && list@[k]@.table == t),
            decreases n - i,
        {
            let op = list[i].clone();
            proof {
                assert(views[i as int] == list@[i as int]@);
                lemma_add_all_snoc(Seq::empty(), views.subrange(0, i as int), views[i as int]);
                assert(views.subrange(0, i + 1 as int) =~= views.subrange(0, i as int).push(
                    views[i as int],
                ));
            }
            r.add(op);
            i += 1;
        }
        proof {
            assert(views.subrange(0, n as int) =~= views);
        }
        r
    }

    /// The derived access pattern: `Mixed` iff both reads and writes appear.
    pub fn access_pattern(&self) -> (r: AccessPattern)
        ensures
            r == spec_access_pattern(self@),
    {
        let n = self.ops.len();
        let mut has_r = false;
        let mut has_w = false;
        let mut i: usize = 0;
        while i < n
            invariant
                n == self@.len(),
                i <= n,
                has_r == exists|j: int| 0 <= j < i && self@[j].op == RWOperation::R,
                has_w == exists|j: int| 0 <= j < i && self@[j].op == RWOperation::W,
            decreases n - i,
        {
            if matches!(self.ops[i].op, RWOperation::R) {
                has_r = true;
            } else {
                has_w = true;
            }
            assert(self@[i as int].op == RWOperation::R || self@[i as int].op == RWOperation::W);
            i += 1;
        }
        if has_r && has_w {
            AccessPattern::Mixed
        } else if has_w {
            AccessPattern::WriteOnly
        } else {
            AccessPattern::ReadOnly
        }
    }
}

/// Mathematical value of an `MsqlQuery`.
pub struct MsqlQueryV {
    pub sql: Seq<char>,
    pub tableops: Seq<TableOpV>,
    pub early_release: Seq<Seq<char>>,
}

/// A query statement together with the tables it touches and the tables it
/// asks to release early.
#[derive(Debug, PartialEq, Eq)]
pub struct MsqlQuery {
    sql: String,
    tableops: TableOps,
    early_release: Vec<String>,
}

impl View for MsqlQuery {
    type V = MsqlQueryV;

    closed spec fn view(&self) -> MsqlQueryV {
        MsqlQueryV {
            sql: self.sql@,
            tableops: self.tableops@,
            early_release: self.early_release@.map_values(|t: String| t@),
        }
    }
}

impl Clone for MsqlQuery {
    fn clone(&self) -> (r: Self)
        ensures
            r@ == self@,
    {
        let mut early_release: Vec<String> = Vec::new();
        let n = self.early_release.len();
        let mut i: usize = 0;
        while i < n
            invariant
                n == self.early_release.len(),
                i <= n,
                early_release@.len() == i,
                forall|j: int| 0 <= j < i ==> early_release@[j]@ == self.early_release@[j]@,
            decreases n - i,
        {
            early_release.push(self.early_release[i].clone());
            i += 1;
        }
        let r = MsqlQuery {
            sql: self.sql.clone(),
            tableops: self.tableops.clone(),
            early_release,
        };
        assert(r@.early_release =~= self@.early_release);
        r
    }
}

impl MsqlQuery {
    pub open spec fn wf(&self) -> bool {
        tableops_unique(self@.tableops)
    }

    pub fn new(sql: String, tableops: TableOps, early_release: Vec<String>) -> (r: Self)
        ensures
            r@.sql == sql@,
            r@.tableops == tableops@,
            r@.early_release == early_release@.map_values(|t: String| t@),
    {
        MsqlQuery { sql, tableops, early_release }
    }

    pub fn sql(&self) -> (r: &String)
        ensures
            r@ == self@.sql,
    {
        &self.sql
    }

    pub fn tableops(&self) -> (r: &TableOps)
        ensures
            r@ == self@.tableops,
    {
        &self.tableops
    }

    pub fn early_release_tables(&self) -> (r: &Vec<String>)
        ensures
            r@.map_values(|t: String| t@) == self@.early_release,
    {
        &self.early_release
    }

    pub fn has_early_release(&self) -> (r: bool)
        ensures
            r == (self@.early_release.len() > 0),
    {
        self.early_release.len() > 0
    }

    /// Strip every early-release annotation from the query.
    pub fn drop_early_release(&mut self)
        ensures
            final(self)@.sql == old(self)@.sql,
            final(self)@.tableops == old(self)@.tableops,
            final(self)@.early_release.len() == 0,
    {
        self.early_release = Vec::new();
        assert(self@.early_release =~= Seq::<Seq<char>>::empty());
    }

    pub fn access_pattern(&self) -> (r: AccessPattern)
        ensures
            r == spec_access_pattern(self@.tableops),
    {
        self.tableops.access_pattern()
    }
}

/// Mathematical value of an `MsqlBeginTx`.
pub struct MsqlBeginTxV {
    pub tx_name: Option<Seq<char>>,
    pub tableops: Seq<TableOpV>,
}

/// A begin-transaction request over the tables the transaction will touch.
#[derive(Debug, PartialEq, Eq)]
pub struct MsqlBeginTx {
    tx_name: Option<String>,
    tableops: TableOps,
}

impl View for MsqlBeginTx {
    type V = MsqlBeginTxV;

    closed spec fn view(&self) -> MsqlBeginTxV {
        MsqlBeginTxV {
            tx_name: match self.tx_name {
                Some(n) => Some(n@),
                None => None,
            },
            tableops: self.tableops@,
        }
    }
}

impl Clone for MsqlBeginTx {
    fn clone(&self) -> (r: Self)
        ensures
            r@ == self@,
    {
        MsqlBeginTx {
            tx_name: match &self.tx_name {
                Some(n) => Some(n.clone()),
                None => None,
            },
            tableops: self.tableops.clone(),
        }
    }
}

impl MsqlBeginTx {
    pub open spec fn wf(&self) -> bool {
        tableops_unique(self@.tableops)
    }

    pub fn new(tx_name: Option<String>, tableops: TableOps) -> (r: Self)
        ensures
            r@.tx_name == (match tx_name {
                Some(n) => Some(n@),
                None => None::<Seq<char>>,
            }),
            r@.tableops == tableops@,
    {
        MsqlBeginTx { tx_name, tableops }
    }

    /// Wrap a bare set of table operations, as the single-write fast path does.
    pub fn from_tableops(tableops: TableOps) -> (r: Self)
        ensures
            r@.tx_name is None,
            r@.tableops == tableops@,
    {
        MsqlBeginTx { tx_name: None, tableops }
    }

    pub fn tableops(&self) -> (r: &TableOps)
        ensures
            r@ == self@.tableops,
    {
        &self.tableops
    }

    pub fn tx_name(&self) -> (r: &Option<String>)
        ensures
            (match r {
                Some(n) => Some(n@),
                None => None::<Seq<char>>,
            }) == self@.tx_name,
    {
        &self.tx_name
    }
}

/// Whether a transaction ends by committing or by rolling back.
#[derive(Clone, Copy, Debug, PartialEq, Eq, Structural)]
pub enum EndTxMode {
    Commit,
    Rollback,
}

/// Mathematical value of an `MsqlEndTx`.
pub struct MsqlEndTxV {
    pub tx_name: Option<Seq<char>>,
    pub mode: EndTxMode,
}

/// An end-transaction request.
#[derive(Debug, PartialEq, Eq)]
pub struct MsqlEndTx {
    tx_name: Option<String>,
    mode: EndTxMode,
}

impl View for MsqlEndTx {
    type V = MsqlEndTxV;

    closed spec fn view(&self) -> MsqlEndTxV {
        MsqlEndTxV {
            tx_name: match self.tx_name {
                Some(n) => Some(n@),
                None => None,
            },
            mode: self.mode,
        }
    }
}

impl Clone for MsqlEndTx {
    fn clone(&self) -> (r: Self)
        ensures
            r@ == self@,
    {
        MsqlEndTx {
            tx_name: match &self.tx_name {
                Some(n) => Some(n.clone()),
                None => None,
            },
            mode: self.mode,
        }
    }
}

impl MsqlEndTx {
    pub fn new(tx_name: Option<String>, mode: EndTxMode) -> (r: Self)
        ensures
            r@.tx_name == (match tx_name {
                Some(n) => Some(n@),
                None => None::<Seq<char>>,
            }),
            r@.mode == mode,
    {
        MsqlEndTx { tx_name, mode }
    }

    pub fn tx_name(&self) -> (r: &Option<String>)
        ensures
            (match r {
                Some(n) => Some(n@),
                None => None::<Seq<char>>,
            }) == self@.tx_name,
    {
        &self.tx_name
    }

    pub fn commit() -> (r: Self)
        ensures
            r@.mode == EndTxMode::Commit,
            r@.tx_name is None,
    {
        MsqlEndTx { tx_name: None, mode: EndTxMode::Commit }
    }

    pub fn rollback() -> (r: Self)
        ensures
            r@.mode == EndTxMode::Rollback,
            r@.tx_name is None,
    {
        MsqlEndTx { tx_name: None, mode: EndTxMode::Rollback }
    }

    pub fn mode(&self) -> (r: EndTxMode)
        ensures
            r == self@.mode,
    {
        self.mode
    }
}

/// The three request kinds of the grammar.
#[derive(Debug)]
pub enum Msql {
    BeginTx(MsqlBeginTx),
    Query(MsqlQuery),
    EndTx(MsqlEndTx),
}

/// The kind of a request or of a reply, for matching one against the other.
#[derive(Clone, Copy, Debug, PartialEq, Eq, Structural)]
pub enum MsqlKind {
    BeginTx,
    Query,
    EndTx,
}

impl Clone for Msql {
    fn clone(&self) -> (r: Self)
        ensures
            r@ == self@,
    {
        match self {
            Msql::BeginTx(b) => Msql::BeginTx(b.clone()),
            Msql::Query(q) => Msql::Query(q.clone()),
            Msql::EndTx(e) => Msql::EndTx(e.clone()),
        }
    }
}

impl View for Msql {
    type V = MsqlV;

    open spec fn view(&self) -> MsqlV {
        match self {
            Msql::BeginTx(b) => MsqlV::BeginTx(b@),
            Msql::Query(q) => MsqlV::Query(q@),
            Msql::EndTx(e) => MsqlV::EndTx(e@),
        }
    }
}

/// Mathematical value of an `Msql` request.
pub enum MsqlV {
    BeginTx(MsqlBeginTxV),
    Query(MsqlQueryV),
    EndTx(MsqlEndTxV),
}

impl MsqlV {
    pub open spec fn kind(self) -> MsqlKind {
        match self {
            MsqlV::BeginTx(_) => MsqlKind::BeginTx,
            MsqlV::Query(_) => MsqlKind::Query,
            MsqlV::EndTx(_) => MsqlKind::EndTx,
        }
    }
}

impl Msql {
    pub open spec fn wf(&self) -> bool {
        match self {
            Msql::BeginTx(b) => b.wf(),
            Msql::Query(q) => q.wf(),
            Msql::EndTx(_) => true,
        }
    }

    pub fn kind(&self) -> (r: MsqlKind)
        ensures
            r == self@.kind(),
    {
        match self {
            Msql::BeginTx(_) => MsqlKind::BeginTx,
            Msql::Query(_) => MsqlKind::Query,
            Msql::EndTx(_) => MsqlKind::EndTx,
        }
    }

    pub fn try_get_query(&self) -> (r: Option<&MsqlQuery>)
        ensures
            match r {
                Some(q) => self@ == MsqlV::Query(q@),
                None => !(self@ is Query),
            },
    {
        match self {
            Msql::Query(q) => Some(q),
            _ => None,
        }
    }
}

/// Mathematical value of an `MsqlResponse`.
pub enum MsqlResponseV {
    BeginTx(Result<Seq<char>, Seq<char>>),
    Query(Result<Seq<char>, Seq<char>>),
    EndTx(Result<Seq<char>, Seq<char>>),
}

impl MsqlResponseV {
    pub open spec fn kind(self) -> MsqlKind {
        match self {
            MsqlResponseV::BeginTx(_) => MsqlKind::BeginTx,
            MsqlResponseV::Query(_) => MsqlKind::Query,
            MsqlResponseV::EndTx(_) => MsqlKind::EndTx,
        }
    }

    pub open spec fn is_ok(self) -> bool {
        match self {
            MsqlResponseV::BeginTx(r) => r is Ok,
            MsqlResponseV::Query(r) => r is Ok,
            MsqlResponseV::EndTx(r) => r is Ok,
        }
    }

    pub open spec fn err_msg(self) -> Seq<char> {
        match self {
            MsqlResponseV::BeginTx(r) => r->Err_0,
            MsqlResponseV::Query(r) => r->Err_0,
            MsqlResponseV::EndTx(r) => r->Err_0,
        }
    }
}

/// The tagged reply union: one variant per request kind, each carrying the
/// request's success body or its error message.
#[derive(Debug, PartialEq, Eq)]
pub enum MsqlResponse {
    BeginTx(Result<String, String>),
    Query(Result<String, String>),
    EndTx(Result<String, String>),
}

impl View for MsqlResponse {
    type V = MsqlResponseV;

    open spec fn view(&self) -> MsqlResponseV {
        match self {
            MsqlResponse::BeginTx(r) => MsqlResponseV::BeginTx(
                match r {
                    Ok(m) => Ok(m@),
                    Err(m) => Err(m@),
                },
            ),
            MsqlResponse::Query(r) => MsqlResponseV::Query(
                match r {
                    Ok(m) => Ok(m@),
                    Err(m) => Err(m@),
                },
            ),
            MsqlResponse::EndTx(r) => MsqlResponseV::EndTx(
                match r {
                    Ok(m) => Ok(m@),
                    Err(m) => Err(m@),
                },
            ),
        }
    }
}

impl Clone for MsqlResponse {
    fn clone(&self) -> (r: Self)
        ensures
            r@ == self@,
    {
        match self {
            MsqlResponse::BeginTx(b) => MsqlResponse::BeginTx(clone_result(b)),
            MsqlResponse::Query(b) => MsqlResponse::Query(clone_result(b)),
            MsqlResponse::EndTx(b) => MsqlResponse::EndTx(clone_result(b)),
        }
    }
}

fn clone_result(r: &Result<String, String>) -> (o: Result<String, String>)
    ensures
        o == r,
{
    match r {
        Ok(m) => Ok(m.clone()),
        Err(m) => Err(m.clone()),
    }
}

impl MsqlResponse {
    pub fn kind(&self) -> (r: MsqlKind)
        ensures
            r == self@.kind(),
    {
        match self {
            MsqlResponse::BeginTx(_) => MsqlKind::BeginTx,
            MsqlResponse::Query(_) => MsqlKind::Query,
            MsqlResponse::EndTx(_) => MsqlKind::EndTx,
        }
    }

    pub fn begintx_ok() -> (r: Self)
        ensures
            r@ == MsqlResponseV::BeginTx(Ok::<Seq<char>, Seq<char>>(Seq::<char>::empty())),
    {
        let s = String::new();
        MsqlResponse::BeginTx(Ok(s))
    }

    pub fn begintx_err(msg: String) -> (r: Self)
        ensures
            r@ == MsqlResponseV::BeginTx(Err::<Seq<char>, Seq<char>>(msg@)),
    {
        MsqlResponse::BeginTx(Err(msg))
    }

    pub fn query_ok(body: String) -> (r: Self)
        ensures
            r@ == MsqlResponseV::Query(Ok::<Seq<char>, Seq<char>>(body@)),
    {
        MsqlResponse::Query(Ok(body))
    }

    pub fn query_err(msg: String) -> (r: Self)
        ensures
            r@ == MsqlResponseV::Query(Err::<Seq<char>, Seq<char>>(msg@)),
    {
        MsqlResponse::Query(Err(msg))
    }

    pub fn endtx_ok(body: String) -> (r: Self)
        ensures
            r@ == MsqlResponseV::EndTx(Ok::<Seq<char>, Seq<char>>(body@)),
    {
        MsqlResponse::EndTx(Ok(body))
    }

    pub fn endtx_err(msg: String) -> (r: Self)
        ensures
            r@ == MsqlResponseV::EndTx(Err::<Seq<char>, Seq<char>>(msg@)),
    {
        MsqlResponse::EndTx(Err(msg))
    }

    /// An error reply whose variant matches the kind of `msql`.
    pub fn err(msg: String, msql: &Msql) -> (r: Self)
        ensures
            r@.kind() == msql@.kind(),
            !r@.is_ok(),
            r@.err_msg() == msg@,
    {
        match msql {
            Msql::BeginTx(_) => MsqlResponse::BeginTx(Err(msg)),
            Msql::Query(_) => MsqlResponse::Query(Err(msg)),
            Msql::EndTx(_) => MsqlResponse::EndTx(Err(msg)),
        }
    }
}

} // verus!
