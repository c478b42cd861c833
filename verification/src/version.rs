//! The version-number vocabulary: the versions a transaction holds
//! (`TxTableVN`, `TxVN`), a replica's per-table counter value (`DbTableVN`)
//! and the release request sent to a replica when versions are given up.

use vstd::prelude::*;

use crate::msql::{RWOperation, TableOpV, TableOps};

verus! {

/// Mathematical value of a `TxTableVN`.
pub struct TxTableVNV {
    pub table: Seq<char>,
    pub vn: u64,
    pub op: RWOperation,
}

/// The version a transaction holds on one table, for one operation.
#[derive(Debug, PartialEq, Eq)]
pub struct TxTableVN {
    table: String,
    vn: u64,
    op: RWOperation,
}

impl View for TxTableVN {
    type V = TxTableVNV;

    closed spec fn view(&self) -> TxTableVNV {
        TxTableVNV { table: self.table@, vn: self.vn, op: self.op }
    }
}

impl Clone for TxTableVN {
    fn clone(&self) -> (r: Self)
        ensures
            r@ == self@,
    {
        TxTableVN { table: self.table.clone(), vn: self.vn, op: self.op }
    }
}

/// An entry satisfies a table operation when it is on the same table and its
/// held operation is at least as strong: a held write serves both kinds of
/// access, a held read serves only reads.
pub open spec fn entry_matches(e: TxTableVNV, t: TableOpV) -> bool {
    e.table == t.table && (t.op == RWOperation::R || e.op == RWOperation::W)
}

/// Some entry of `s` is on table `t`.
pub open spec fn entries_have_table(s: Seq<TxTableVNV>, t: Seq<char>) -> bool {
    exists|i: int| 0 <= i < s.len() && s[i].table == t
}

/// The index of the entry of `s` on table `t` (meaningful when present).
pub open spec fn entry_index_of(s: Seq<TxTableVNV>, t: Seq<char>) -> int {
    choose|i: int| 0 <= i < s.len() && s[i].table == t
}

/// A sequence of held versions has unique table names.
pub open spec fn entries_unique(s: Seq<TxTableVNV>) -> bool {
    forall|i: int, j: int| 0 <= i < j < s.len() ==> s[i].table != s[j].table
}

/// Every operation of the statement is satisfied by the version the
/// transaction holds on that table.
pub open spec fn tableops_covered(entries: Seq<TxTableVNV>, tableops: Seq<TableOpV>) -> bool {
    forall|i: int|
        0 <= i < tableops.len() ==> entries_have_table(entries, (#[trigger] tableops[i]).table)
            && entry_matches(entries[entry_index_of(entries, tableops[i].table)], tableops[i])
}

/// The versions the transaction holds for the tables of a statement, in
/// statement order (meaningful when the statement is covered).
pub open spec fn selected_entries(entries: Seq<TxTableVNV>, tableops: Seq<TableOpV>) -> Seq<
    TxTableVNV,
> {
    Seq::new(tableops.len(), |i: int| entries[entry_index_of(entries, tableops[i].table)])
}

/// The statement's operation on `t` has no satisfying entry among the held
/// versions.
pub open spec fn uncovered(entries: Seq<TxTableVNV>, t: TableOpV) -> bool {
    !(entries_have_table(entries, t.table) && entry_matches(
        entries[entry_index_of(entries, t.table)],
        t,
    ))
}

/// The tables of the statement that the transaction does not cover, in
/// statement order.
pub open spec fn spec_missing_tables(
    entries: Seq<TxTableVNV>,
    tableops: Seq<TableOpV>,
) -> Seq<Seq<char>> {
    tableops.filter(|t: TableOpV| uncovered(entries, t)).map_values(|t: TableOpV| t.table)
}

/// The quoted names after the first, each behind a separator.
pub open spec fn spec_render_rest(names: Seq<Seq<char>>) -> Seq<char>
    decreases names.len(),
{
    if names.len() == 0 {
        Seq::empty()
    } else {
        ", "@ + "\""@ + names[0] + "\""@ + spec_render_rest(names.subrange(1, names.len() as int))
    }
}

/// A list of names rendered as quoted text, separated by commas.
pub open spec fn spec_render_names(names: Seq<Seq<char>>) -> Seq<char> {
    if names.len() == 0 {
        Seq::empty()
    } else {
        "\""@ + names[0] + "\""@ + spec_render_rest(names.subrange(1, names.len() as int))
    }
}

/// The rejection for a statement naming tables the transaction did not
/// declare: the message lists exactly the uncovered tables, in statement
/// order.
pub open spec fn spec_mismatch_message(
    entries: Seq<TxTableVNV>,
    tableops: Seq<TableOpV>,
) -> Seq<char> {
    "Query is using tables not declared in the BeginTx: ["@ + spec_render_names(
        spec_missing_tables(entries, tableops),
    ) + "]"@
}

/// Render the quoted, comma-separated list of names.
fn render_names(names: &Vec<String>) -> (r: String)
    ensures
        r@ == spec_render_names(names@.map_values(|t: String| t@)),
{
    let ghost views = names@.map_values(|t: String| t@);
    let n = names.len();
    let mut out = String::new();
    let mut i: usize = 0;
    proof {
        assert(views.subrange(0, 0) =~= Seq::<Seq<char>>::empty());
        assert(out@ =~= spec_render_names(views.subrange(0, 0)));
    }
    while i < n
        invariant
            n == names@.len(),
            views == names@.map_values(|t: String| t@),
            i <= n,
            out@ == spec_render_names(views.subrange(0, i as int)),
        decreases n - i,
    {
        proof {
            assert(views[i as int] == names@[i as int]@);
            lemma_render_snoc(views.subrange(0, i as int), views[i as int]);
            assert(views.subrange(0, i + 1 as int) =~= views.subrange(0, i as int).push(
                views[i as int],
            ));
        }
        if i > 0 {
            out.append(", ");
        }
        out.append("\"");
        out.append(names[i].as_str());
        out.append("\"");
        i += 1;
    }
    proof {
        assert(views.subrange(0, n as int) =~= views);
    }
    out
}

/// One more name extends the rendering at the back.
proof fn lemma_render_snoc(names: Seq<Seq<char>>, x: Seq<char>)
    ensures
        spec_render_names(names.push(x)) == spec_render_names(names) + (if names.len() == 0 {
            "\""@ + x + "\""@
        } else {
            ", "@ + "\""@ + x + "\""@
        }),
{
    let whole = names.push(x);
    if names.len() == 0 {
        assert(whole[0] == x);
        assert(whole.subrange(1, whole.len() as int) =~= Seq::<Seq<char>>::empty());
        assert(spec_render_rest(whole.subrange(1, whole.len() as int)) =~= Seq::<char>::empty());
        assert(spec_render_names(whole) =~= "\""@ + x + "\""@);
        assert(spec_render_names(names) =~= Seq::<char>::empty());
        assert(spec_render_names(names) + ("\""@ + x + "\""@) =~= "\""@ + x + "\""@);
    } else {
        assert(whole[0] == names[0]);
        assert(whole.subrange(1, whole.len() as int) =~= names.subrange(
            1,
            names.len() as int,
        ).push(x));
        lemma_render_rest_snoc(names.subrange(1, names.len() as int), x);
        assert(spec_render_names(whole) =~= spec_render_names(names) + (", "@ + "\""@ + x
            + "\""@));
    }
}

/// One more name extends the tail rendering at the back.
proof fn lemma_render_rest_snoc(names: Seq<Seq<char>>, x: Seq<char>)
    ensures
        spec_render_rest(names.push(x)) == spec_render_rest(names) + (", "@ + "\""@ + x
            + "\""@),
    decreases names.len(),
{
    let whole = names.push(x);
    if names.len() == 0 {
        assert(whole[0] == x);
        assert(whole.subrange(1, whole.len() as int) =~= Seq::<Seq<char>>::empty());
        assert(spec_render_rest(whole.subrange(1, whole.len() as int)) =~= Seq::<char>::empty());
        assert(spec_render_rest(whole) =~= ", "@ + "\""@ + x + "\""@);
        assert(spec_render_rest(names) =~= Seq::<char>::empty());
        assert(spec_render_rest(names) + (", "@ + "\""@ + x + "\""@) =~= ", "@ + "\""@ + x
            + "\""@);
    } else {
        assert(whole[0] == names[0]);
        assert(whole.subrange(1, whole.len() as int) =~= names.subrange(
            1,
            names.len() as int,
        ).push(x));
        lemma_render_rest_snoc(names.subrange(1, names.len() as int), x);
        assert(spec_render_rest(whole) =~= spec_render_rest(names) + (", "@ + "\""@ + x
            + "\""@));
    }
}

/// The full mismatch rejection text, naming the uncovered tables.
pub fn mismatch_message(txvn: &TxVN, tableops: &TableOps) -> (r: String)
    requires
        txvn.wf(),
    ensures
        r@ == spec_mismatch_message(txvn@.txtablevns, tableops@),
{
    let names = txvn.missing_table_names(tableops);
    let mut out = "Query is using tables not declared in the BeginTx: [".to_owned();
    let rendered = render_names(&names);
    out.append(rendered.as_str());
    out.append("]");
    out
}

/// Every early-release name is held by the transaction as a write.
pub open spec fn ertables_covered(entries: Seq<TxTableVNV>, ertables: Seq<Seq<char>>) -> bool {
    forall|i: int|
        0 <= i < ertables.len() ==> entries_have_table(entries, #[trigger] ertables[i])
            && entries[entry_index_of(entries, ertables[i])].op == RWOperation::W
}

impl TxTableVN {
    pub fn new(table: &str, vn: u64, op: RWOperation) -> (r: Self)
        ensures
            r@ == (TxTableVNV { table: table@, vn, op }),
    {
        TxTableVN { table: table.to_owned(), vn, op }
    }

    pub fn table(&self) -> (r: &String)
        ensures
            r@ == self@.table,
    {
        &self.table
    }

    pub fn vn(&self) -> (r: u64)
        ensures
            r == self@.vn,
    {
        self.vn
    }

    pub fn op(&self) -> (r: RWOperation)
        ensures
            r == self@.op,
    {
        self.op
    }
}

/// Mathematical value of a `TxVN`.
pub struct TxVNV {
    pub tx_name: Option<Seq<char>>,
    pub uuid: u64,
    pub txtablevns: Seq<TxTableVNV>,
}

/// A transaction's handle: the versions it holds, one per declared table.
#[derive(Debug, PartialEq, Eq)]
pub struct TxVN {
    tx_name: Option<String>,
    uuid: u64,
    txtablevns: Vec<TxTableVN>,
}

impl View for TxVN {
    type V = TxVNV;

    closed spec fn view(&self) -> TxVNV {
        TxVNV {
            tx_name: match self.tx_name {
                Some(n) => Some(n@),
                None => None,
            },
            uuid: self.uuid,
            txtablevns: self.txtablevns@.map_values(|e: TxTableVN| e@),
        }
    }
}

impl Clone for TxVN {
    fn clone(&self) -> (r: Self)
        ensures
            r@ == self@,
    {
        let mut txtablevns: Vec<TxTableVN> = Vec::new();
        let n = self.txtablevns.len();
        let mut i: usize = 0;
        while i < n
            invariant
                n == self.txtablevns.len(),
                i <= n,
                txtablevns@.len() == i,
                forall|j: int| 0 <= j < i ==> txtablevns@[j]@ == self.txtablevns@[j]@,
            decreases n - i,
        {
            txtablevns.push(self.txtablevns[i].clone());
            i += 1;
        }
        let r = TxVN {
            tx_name: match &self.tx_name {
                Some(n) => Some(n.clone()),
                None => None,
            },
            uuid: self.uuid,
            txtablevns,
        };
        assert(r@.txtablevns =~= self@.txtablevns);
        r
    }
}

impl TxVN {
    /// Table names are unique within the held set.
    pub open spec fn wf(&self) -> bool {
        entries_unique(self@.txtablevns)
    }

    pub fn new() -> (r: Self)
        ensures
            r@ == (TxVNV {
                tx_name: None::<Seq<char>>,
                uuid: 0u64,
                txtablevns: Seq::<TxTableVNV>::empty(),
            }),
            r.wf(),
    {
        let r = TxVN { tx_name: None, uuid: 0, txtablevns: Vec::new() };
        assert(r@.txtablevns =~= Seq::<TxTableVNV>::empty());
        r
    }

    /// Assemble a handle, as the Sequencer does when it assigns versions.
    pub fn assemble(tx_name: Option<String>, uuid: u64, txtablevns: Vec<TxTableVN>) -> (r: Self)
        ensures
            r@.tx_name == (match tx_name {
                Some(n) => Some(n@),
                None => None::<Seq<char>>,
            }),
            r@.uuid == uuid,
            r@.txtablevns == txtablevns@.map_values(|e: TxTableVN| e@),
    {
        TxVN { tx_name, uuid, txtablevns }
    }

    /// Builder used by tests: replace the held set.
    pub fn set_txtablevns(self, txtablevns: Vec<TxTableVN>) -> (r: Self)
        ensures
            r@.tx_name == self@.tx_name,
            r@.uuid == self@.uuid,
            r@.txtablevns == txtablevns@.map_values(|e: TxTableVN| e@),
    {
        TxVN { tx_name: self.tx_name, uuid: self.uuid, txtablevns }
    }

    /// Builder used by tests: forget the transaction identifier.
    pub fn erase_uuid(self) -> (r: Self)
        ensures
            r@.tx_name == self@.tx_name,
            r@.uuid == 0u64,
            r@.txtablevns == self@.txtablevns,
    {
        TxVN { tx_name: self.tx_name, uuid: 0, txtablevns: self.txtablevns }
    }

    pub fn uuid(&self) -> (r: u64)
        ensures
            r == self@.uuid,
    {
        self.uuid
    }

    pub fn tx_name(&self) -> (r: &Option<String>)
        ensures
            (match r {
                Some(n) => Some(n@),
                None => None::<Seq<char>>,
            }) == self@.tx_name,
    {
        &self.tx_name
    }

    pub fn txtablevns(&self) -> (r: &Vec<TxTableVN>)
        ensures
            r@.map_values(|e: TxTableVN| e@) == self@.txtablevns,
    {
        &self.txtablevns
    }

    /// The entry satisfying one table operation, if any.
    pub fn get_from_tableop(&self, tableop: &crate::msql::TableOp) -> (r: Option<&TxTableVN>)
        requires
            self.wf(),
        ensures
            match r {
                Some(e) => {
                    &&& entries_have_table(self@.txtablevns, tableop@.table)
                    &&& e@ == self@.txtablevns[entry_index_of(self@.txtablevns, tableop@.table)]
                    &&& entry_matches(e@, tableop@)
                },
                None => !(exists|i: int|
                    0 <= i < self@.txtablevns.len() && entry_matches(
                        #[trigger] self@.txtablevns[i],
                        tableop@,
                    )),
            },
    {
        let n = self.txtablevns.len();
        let mut i: usize = 0;
        while i < n
            invariant
                n == self@.txtablevns.len(),
                i <= n,
                self.wf(),
                forall|j: int|
                    0 <= j < i ==> !entry_matches(#[trigger] self@.txtablevns[j], tableop@),
            decreases n - i,
        {
            let e = &self.txtablevns[i];
            if e.table == *tableop.table()
                && (matches!(tableop.op(), RWOperation::R) || matches!(e.op, RWOperation::W)) {
                proof {
                    assert(entry_matches(self@.txtablevns[i as int], tableop@));
                    assert(entries_have_table(self@.txtablevns, tableop@.table));
                    let k = entry_index_of(self@.txtablevns, tableop@.table);
                    assert(0 <= k < self@.txtablevns.len() && self@.txtablevns[k].table
                        == tableop@.table);
                    assert(k == i) by {
                        if k != i {
                            assert(self@.txtablevns[k].table == self@.txtablevns[i as int].table);
                        }
                    }
                }
                return Some(e);
            }
            i += 1;
        }
        None
    }
}

/// Mathematical value of a `DbTableVN`.
pub struct DbTableVNV {
    pub table: Seq<char>,
    pub vn: u64,
}

/// A replica's current version on one table: the next version it will serve.
#[derive(Debug, PartialEq, Eq)]
pub struct DbTableVN {
    table: String,
    vn: u64,
}

impl View for DbTableVN {
    type V = DbTableVNV;

    closed spec fn view(&self) -> DbTableVNV {
        DbTableVNV { table: self.table@, vn: self.vn }
    }
}

impl Clone for DbTableVN {
    fn clone(&self) -> (r: Self)
        ensures
            r@ == self@,
    {
        DbTableVN { table: self.table.clone(), vn: self.vn }
    }
}

impl DbTableVN {
    pub fn new(table: &str, vn: u64) -> (r: Self)
        ensures
            r@ == (DbTableVNV { table: table@, vn }),
    {
        DbTableVN { table: table.to_owned(), vn }
    }

    pub fn table(&self) -> (r: &String)
        ensures
            r@ == self@.table,
    {
        &self.table
    }

    pub fn vn(&self) -> (r: u64)
        ensures
            r == self@.vn,
    {
        self.vn
    }
}

/// Mathematical value of a `DbVNReleaseRequest`.
pub struct DbVNReleaseRequestV {
    pub tx_uuid: u64,
    pub entries: Seq<TxTableVNV>,
}

/// Asks a replica to give up the versions a transaction held: the
/// transaction's identifier and its held set.
#[derive(Debug, PartialEq, Eq)]
pub struct DbVNReleaseRequest {
    tx_uuid: u64,
    entries: Vec<TxTableVN>,
}

impl View for DbVNReleaseRequest {
    type V = DbVNReleaseRequestV;

    closed spec fn view(&self) -> DbVNReleaseRequestV {
        DbVNReleaseRequestV {
            tx_uuid: self.tx_uuid,
            entries: self.entries@.map_values(|e: TxTableVN| e@),
        }
    }
}

impl Clone for DbVNReleaseRequest {
    fn clone(&self) -> (r: Self)
        ensures
            r@ == self@,
    {
        let mut entries: Vec<TxTableVN> = Vec::new();
        let n = self.entries.len();
        let mut i: usize = 0;
        while i < n
            invariant
                n == self.entries.len(),
                i <= n,
                entries@.len() == i,
                forall|j: int| 0 <= j < i ==> entries@[j]@ == self.entries@[j]@,
            decreases n - i,
        {
            entries.push(self.entries[i].clone());
            i += 1;
        }
        let r = DbVNReleaseRequest { tx_uuid: self.tx_uuid, entries };
        assert(r@.entries =~= self@.entries);
        r
    }
}

impl DbVNReleaseRequest {
    pub fn new(tx_uuid: u64, entries: Vec<TxTableVN>) -> (r: Self)
        ensures
            r@.tx_uuid == tx_uuid,
            r@.entries == entries@.map_values(|e: TxTableVN| e@),
    {
        DbVNReleaseRequest { tx_uuid, entries }
    }

    pub fn tx_uuid(&self) -> (r: u64)
        ensures
            r == self@.tx_uuid,
    {
        self.tx_uuid
    }

    pub fn entries(&self) -> (r: &Vec<TxTableVN>)
        ensures
            r@.map_values(|e: TxTableVN| e@) == self@.entries,
    {
        &self.entries
    }
}

impl TxVN {
    /// Turn the handle into the release request its `EndTx` sends to every
    /// replica.
    pub fn into_dbvn_release_request(self) -> (r: DbVNReleaseRequest)
        ensures
            r@.tx_uuid == self@.uuid,
            r@.entries == self@.txtablevns,
    {
        DbVNReleaseRequest { tx_uuid: self.uuid, entries: self.txtablevns }
    }

    /// The tables of a statement this transaction does not cover, in
    /// statement order, for naming them in a rejection.
    pub fn missing_table_names(&self, tableops: &TableOps) -> (r: Vec<String>)
        requires
            self.wf(),
        ensures
            r@.map_values(|t: String| t@) == spec_missing_tables(self@.txtablevns, tableops@),
    {
        let ghost entries = self@.txtablevns;
        let ghost pred = |t: TableOpV| uncovered(entries, t);
        let ops = tableops.get();
        let n = ops.len();
        let mut out: Vec<String> = Vec::new();
        let mut i: usize = 0;
        proof {
            reveal(Seq::filter);
            assert(tableops@.subrange(0, 0) =~= Seq::<TableOpV>::empty());
            assert(Seq::<TableOpV>::empty().filter(pred) =~= Seq::<TableOpV>::empty());
            assert(out@.map_values(|t: String| t@) =~= Seq::<Seq<char>>::empty());
            assert(Seq::<TableOpV>::empty().map_values(|t: TableOpV| t.table) =~= Seq::<
                Seq<char>,
            >::empty());
        }
        while i < n
            invariant
                n == ops@.len(),
                ops@.map_values(|t: crate::msql::TableOp| t@) == tableops@,
                entries == self@.txtablevns,
                pred == (|t: TableOpV| uncovered(entries, t)),
                i <= n,
                self.wf(),
                out@.map_values(|t: String| t@) == tableops@.subrange(0, i as int).filter(
                    pred,
                ).map_values(|t: TableOpV| t.table),
            decreases n - i,
        {
            let ghost prev = out@.map_values(|t: String| t@);
            let missing = match self.get_from_tableop(&ops[i]) {
                Some(_) => false,
                None => true,
            };
            if missing {
                out.push(ops[i].table().clone());
            }
            proof {
                reveal(Seq::filter);
                assert(ops@[i as int]@ == tableops@[i as int]);
                let t = tableops@[i as int];
                assert(missing == uncovered(entries, t)) by {
                    if missing {
                        if entries_have_table(entries, t.table) {
                            let k = entry_index_of(entries, t.table);
                            if entry_matches(entries[k], t) {
                                assert(false);
                            }
                        }
                    } else {
                        assert(entries_have_table(entries, t.table));
                        assert(entry_matches(entries[entry_index_of(entries, t.table)], t));
                    }
                }
                let pre = tableops@.subrange(0, i as int);
                let cur = tableops@.subrange(0, i + 1 as int);
                assert(cur.drop_last() =~= pre);
                assert(cur.last() == t);
                if missing {
                    assert(cur.filter(pred) == pre.filter(pred).push(t));
                    assert(out@.map_values(|t2: String| t2@) =~= prev.push(t.table));
                    assert(cur.filter(pred).map_values(|t2: TableOpV| t2.table) =~= pre.filter(
                        pred,
                    ).map_values(|t2: TableOpV| t2.table).push(t.table));
                } else {
                    assert(cur.filter(pred) == pre.filter(pred));
                }
            }
            i += 1;
        }
        proof {
            assert(tableops@.subrange(0, n as int) =~= tableops@);
        }
        out
    }

    /// The entries satisfying every operation of a statement, in statement
    /// order; an error when some table was not declared by the transaction.
    pub fn get_from_tableops(&self, tableops: &TableOps) -> (r: Result<Vec<TxTableVN>, String>)
        requires
            self.wf(),
        ensures
            match r {
                Ok(v) => {
                    &&& tableops_covered(self@.txtablevns, tableops@)
                    &&& v@.len() == tableops@.len()
                    &&& forall|i: int|
                        0 <= i < tableops@.len() ==> entry_matches(
                            #[trigger] v@[i]@,
                            tableops@[i],
                        ) && v@[i]@ == self@.txtablevns[entry_index_of(
                            self@.txtablevns,
                            tableops@[i].table,
                        )]
                },
                Err(m) => !tableops_covered(self@.txtablevns, tableops@) && m@
                    == spec_mismatch_message(self@.txtablevns, tableops@),
            },
    {
        let ops = tableops.get();
        let n = ops.len();
        let mut out: Vec<TxTableVN> = Vec::new();
        let mut i: usize = 0;
        while i < n
            invariant
                n == ops@.len(),
                ops@.map_values(|t: crate::msql::TableOp| t@) == tableops@,
                i <= n,
                self.wf(),
                out@.len() == i,
                forall|j: int|
                    0 <= j < i ==> entries_have_table(
                        self@.txtablevns,
                        (#[trigger] tableops@[j]).table,
                    ),
                forall|j: int|
                    0 <= j < i ==> entry_matches(#[trigger] out@[j]@, tableops@[j]) && out@[j]@
                        == self@.txtablevns[entry_index_of(self@.txtablevns, tableops@[j].table)],
            decreases n - i,
        {
            assert(ops@[i as int]@ == tableops@[i as int]);
            match self.get_from_tableop(&ops[i]) {
                Some(e) => {
                    out.push(e.clone());
                    assert(entries_have_table(self@.txtablevns, tableops@[i as int].table));
                    assert(out@[i as int]@ == self@.txtablevns[entry_index_of(
                        self@.txtablevns,
                        tableops@[i as int].table,
                    )]);
                },
                None => {
                    proof {
                        if tableops_covered(self@.txtablevns, tableops@) {
                            assert(entries_have_table(
                                self@.txtablevns,
                                tableops@[i as int].table,
                            ));
                            let k = entry_index_of(self@.txtablevns, tableops@[i as int].table);
                            assert(entry_matches(self@.txtablevns[k], tableops@[i as int]));
                            assert(false);
                        }
                    }
                    return Err(mismatch_message(self, tableops));
                },
            }
            i += 1;
        }
        proof {
            assert forall|i: int| 0 <= i < tableops@.len() implies entries_have_table(
                self@.txtablevns,
                (#[trigger] tableops@[i]).table,
            ) && entry_matches(
                self@.txtablevns[entry_index_of(self@.txtablevns, tableops@[i].table)],
                tableops@[i],
            ) by {
                assert(out@[i]@ == self@.txtablevns[entry_index_of(
                    self@.txtablevns,
                    tableops@[i].table,
                )]);
                assert(entry_matches(out@[i]@, tableops@[i]));
            }
        }
        Ok(out)
    }

    /// The write entries for a set of early-release table names; an error
    /// when some name is not held as a write.
    pub fn get_from_ertables(&self, ertables: &Vec<String>) -> (r: Result<Vec<TxTableVN>, String>)
        requires
            self.wf(),
        ensures
            match r {
                Ok(v) => {
                    &&& ertables_covered(
                        self@.txtablevns,
                        ertables@.map_values(|t: String| t@),
                    )
                    &&& v@.len() == ertables@.len()
                    &&& forall|i: int|
                        0 <= i < ertables@.len() ==> entry_matches(
                            #[trigger] v@[i]@,
                            (TableOpV { table: ertables@[i]@, op: RWOperation::W }),
                        ) && v@[i]@ == self@.txtablevns[entry_index_of(
                            self@.txtablevns,
                            ertables@[i]@,
                        )]
                },
                Err(_) => !ertables_covered(
                    self@.txtablevns,
                    ertables@.map_values(|t: String| t@),
                ),
            },
    {
        let n = ertables.len();
        let mut out: Vec<TxTableVN> = Vec::new();
        let mut i: usize = 0;
        while i < n
            invariant
                n == ertables@.len(),
                i <= n,
                self.wf(),
                out@.len() == i,
                forall|j: int|
                    0 <= j < i ==> entries_have_table(self@.txtablevns, (#[trigger] ertables@[j])@),
                forall|j: int|
                    0 <= j < i ==> entry_matches(
                        #[trigger] out@[j]@,
                        (TableOpV { table: ertables@[j]@, op: RWOperation::W }),
                    ) && out@[j]@ == self@.txtablevns[entry_index_of(
                        self@.txtablevns,
                        ertables@[j]@,
                    )],
            decreases n - i,
        {
            let t = crate::msql::TableOp::new(ertables[i].as_str(), RWOperation::W);
            match self.get_from_tableop(&t) {
                Some(e) => {
                    out.push(e.clone());
                    assert(entries_have_table(self@.txtablevns, ertables@[i as int]@));
                    assert(out@[i as int]@ == self@.txtablevns[entry_index_of(
                        self@.txtablevns,
                        ertables@[i as int]@,
                    )]);
                },
                None => {
                    proof {
                        let ghost ers = ertables@.map_values(|t: String| t@);
                        assert(ers[i as int] == ertables@[i as int]@);
                        if ertables_covered(self@.txtablevns, ers) {
                            assert(entries_have_table(self@.txtablevns, ers[i as int]));
                            let k = entry_index_of(self@.txtablevns, ers[i as int]);
                            assert(self@.txtablevns[k].op == RWOperation::W);
                            assert(entry_matches(
                                self@.txtablevns[k],
                                (TableOpV { table: ertables@[i as int]@, op: RWOperation::W }),
                            ));
                            assert(false);
                        }
                    }
                    return Err(
                        "Tables marked for early release was not declared in the BeginTx or has already been released".to_owned(),
                    );
                },
            }
            i += 1;
        }
        proof {
            let ghost ers = ertables@.map_values(|t: String| t@);
            assert forall|i: int| 0 <= i < ers.len() implies entries_have_table(
                self@.txtablevns,
                #[trigger] ers[i],
            ) && self@.txtablevns[entry_index_of(self@.txtablevns, ers[i])].op == RWOperation::W by {
                assert(ers[i] == ertables@[i]@);
                assert(out@[i]@ == self@.txtablevns[entry_index_of(
                    self@.txtablevns,
                    ertables@[i]@,
                )]);
                assert(entry_matches(
                    out@[i]@,
                    (TableOpV { table: ertables@[i]@, op: RWOperation::W }),
                ));
            }
        }
        Ok(out)
    }
}

/// A table name occurs in a list of names.
pub open spec fn names_contain(names: Seq<Seq<char>>, t: Seq<char>) -> bool {
    exists|i: int| 0 <= i < names.len() && names[i] == t
}

/// Whether `t` occurs among the names.
fn names_contain_exec(names: &Vec<String>, t: &String) -> (r: bool)
    ensures
        r == names_contain(names@.map_values(|x: String| x@), t@),
{
    let n = names.len();
    let mut i: usize = 0;
    while i < n
        invariant
            n == names@.len(),
            i <= n,
            forall|j: int| 0 <= j < i ==> (#[trigger] names@[j])@ != t@,
        decreases n - i,
    {
        if names[i] == *t {
            proof {
                assert(names@.map_values(|x: String| x@)[i as int] == t@);
            }
            return true;
        }
        i += 1;
    }
    proof {
        if names_contain(names@.map_values(|x: String| x@), t@) {
            let mapped = names@.map_values(|x: String| x@);
            let c = choose|k: int| 0 <= k < mapped.len() && mapped[k] == t@;
            assert(mapped[c] == names@[c]@);
            assert(names@[c]@ == t@);
        }
    }
    false
}

/// Every filtered entry occurs in the original sequence.
proof fn lemma_filter_sub(s: Seq<TxTableVNV>, pred: spec_fn(TxTableVNV) -> bool)
    ensures
        forall|i: int|
            0 <= i < s.filter(pred).len() ==> s.contains(#[trigger] s.filter(pred)[i]),
    decreases s.len(),
{
    reveal(Seq::filter);
    if s.len() > 0 {
        let fd = s.drop_last().filter(pred);
        lemma_filter_sub(s.drop_last(), pred);
        assert forall|i: int| 0 <= i < s.filter(pred).len() implies s.contains(
            #[trigger] s.filter(pred)[i],
        ) by {
            if i < fd.len() {
                assert(s.filter(pred)[i] == fd[i]);
                assert(s.drop_last().contains(fd[i]));
                let k = choose|k: int| 0 <= k < s.drop_last().len() && s.drop_last()[k] == fd[i];
                assert(s[k] == fd[i]);
            } else {
                assert(s.filter(pred)[i] == s.last());
                assert(s[s.len() - 1] == s.last());
            }
        }
    }
}

/// Filtering keeps table names unique.
proof fn lemma_filter_unique(s: Seq<TxTableVNV>, pred: spec_fn(TxTableVNV) -> bool)
    requires
        entries_unique(s),
    ensures
        entries_unique(s.filter(pred)),
    decreases s.len(),
{
    reveal(Seq::filter);
    if s.len() > 0 {
        let head = s.drop_last();
        assert(entries_unique(head)) by {
            assert(forall|i: int| 0 <= i < head.len() ==> head[i] == s[i]);
        }
        lemma_filter_unique(head, pred);
        lemma_filter_sub(head, pred);
        let fd = head.filter(pred);
        if pred(s.last()) {
            let f = s.filter(pred);
            assert(f == fd.push(s.last()));
            assert forall|a: int, b: int| 0 <= a < b < f.len() implies f[a].table != f[b].table by {
                if b < fd.len() {
                    assert(f[a] == fd[a] && f[b] == fd[b]);
                } else {
                    assert(f[b] == s.last());
                    assert(f[a] == fd[a]);
                    assert(head.contains(fd[a]));
                    let k = choose|k: int| 0 <= k < head.len() && head[k] == fd[a];
                    assert(s[k] == fd[a]);
                    assert(s[s.len() - 1] == s.last());
                    if fd[a].table == s.last().table {
                        assert(false);
                    }
                }
            }
        }
    }
}

impl TxVN {
    /// The handle without the given tables, as early release shrinks it.
    pub fn remove_tables(self, tables: &Vec<String>) -> (r: TxVN)
        ensures
            r@.tx_name == self@.tx_name,
            r@.uuid == self@.uuid,
            r@.txtablevns == self@.txtablevns.filter(
                |e: TxTableVNV| !names_contain(tables@.map_values(|t: String| t@), e.table),
            ),
            self.wf() ==> r.wf(),
    {
        let ghost names = tables@.map_values(|t: String| t@);
        let ghost pred = |e: TxTableVNV| !names_contain(names, e.table);
        let TxVN { tx_name, uuid, txtablevns } = self;
        let ghost all = txtablevns@.map_values(|e: TxTableVN| e@);
        let n = txtablevns.len();
        let mut out: Vec<TxTableVN> = Vec::new();
        let mut i: usize = 0;
        proof {
            reveal(Seq::filter);
            assert(all.subrange(0, 0) =~= Seq::<TxTableVNV>::empty());
            assert(out@.map_values(|e: TxTableVN| e@) =~= Seq::<TxTableVNV>::empty());
            assert(Seq::<TxTableVNV>::empty().filter(pred) =~= Seq::<TxTableVNV>::empty());
        }
        while i < n
            invariant
                n == txtablevns@.len(),
                all == txtablevns@.map_values(|e: TxTableVN| e@),
                names == tables@.map_values(|t: String| t@),
                pred == (|e: TxTableVNV| !names_contain(names, e.table)),
                i <= n,
                out@.map_values(|e: TxTableVN| e@) == all.subrange(0, i as int).filter(pred),
            decreases n - i,
        {
            let e = &txtablevns[i];
            let listed = names_contain_exec(tables, e.table());
            let ghost prev = out@.map_values(|e2: TxTableVN| e2@);
            if !listed {
                out.push(e.clone());
            }
            proof {
                reveal(Seq::filter);
                assert(txtablevns@[i as int]@ == all[i as int]);
                assert(all.subrange(0, i + 1 as int).drop_last() =~= all.subrange(0, i as int));
                assert(all.subrange(0, i + 1 as int).last() == all[i as int]);
                assert(listed == !pred(all[i as int]));
                if !listed {
                    assert(out@.map_values(|e2: TxTableVN| e2@) =~= prev.push(all[i as int]));
                }
            }
            i += 1;
        }
        proof {
            assert(all.subrange(0, n as int) =~= all);
        }
        let r = TxVN { tx_name, uuid, txtablevns: out };
        proof {
            if entries_unique(all) {
                lemma_filter_unique(all, pred);
            }
        }
        r
    }

    /// Whether the held set names each table once: exactly this type's
    /// well-formedness, for callers that receive a handle from outside.
    pub fn has_unique_tables(&self) -> (r: bool)
        ensures
            r == self.wf(),
    {
        let n = self.txtablevns.len();
        let mut i: usize = 0;
        while i < n
            invariant
                n == self.txtablevns@.len(),
                i <= n,
                forall|a: int, b: int|
                    0 <= a < b < self.txtablevns@.len() && a < i ==> self@.txtablevns[a].table
                        != self@.txtablevns[b].table,
            decreases n - i,
        {
            let mut j: usize = i + 1;
            while j < n
                invariant
                    n == self.txtablevns@.len(),
                    i < j <= n,
                    forall|b: int|
                        i < b < j ==> self@.txtablevns[i as int].table != self@.txtablevns[b].table,
                decreases n - j,
            {
                if self.txtablevns[i].table == self.txtablevns[j].table {
                    proof {
                        assert(self@.txtablevns[i as int].table == self@.txtablevns[j as int].table);
                    }
                    return false;
                }
                j += 1;
            }
            i += 1;
        }
        true
    }

    /// The release request for a successful early release: the write entries
    /// of the given tables. An error when a name is not held as a write.
    pub fn early_release_request(&self, ertables: &Vec<String>) -> (r: Result<
        DbVNReleaseRequest,
        String,
    >)
        requires
            self.wf(),
        ensures
            match r {
                Ok(req) => {
                    &&& ertables_covered(
                        self@.txtablevns,
                        ertables@.map_values(|t: String| t@),
                    )
                    &&& req@.tx_uuid == self@.uuid
                    &&& req@.entries.len() == ertables@.len()
                    &&& forall|i: int|
                        0 <= i < ertables@.len() ==> (#[trigger] req@.entries[i])
                            == self@.txtablevns[entry_index_of(
                            self@.txtablevns,
                            ertables@[i]@,
                        )]
                },
                Err(_) => !ertables_covered(
                    self@.txtablevns,
                    ertables@.map_values(|t: String| t@),
                ),
            },
    {
        match self.get_from_ertables(ertables) {
            Ok(entries) => Ok(DbVNReleaseRequest::new(self.uuid, entries)),
            Err(m) => Err(m),
        }
    }
}

} // verus!
