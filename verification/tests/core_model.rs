use o2versioner::legality::Legality;
use o2versioner::msql::{
    AccessPattern, Msql, MsqlBeginTx, MsqlEndTx, MsqlQuery, MsqlResponse, RWOperation, TableOp,
    TableOps,
};
use o2versioner::msqltext::{parse_tableops, serialize_tableops};
use o2versioner::version::{TxTableVN, TxVN};

fn tableops(ops: Vec<(&str, RWOperation)>) -> TableOps {
    TableOps::from_iter(ops.into_iter().map(|(t, op)| TableOp::new(t, op)).collect())
}

#[test]
fn test_tableops_dedup_write_wins() {
    let t = tableops(vec![
        ("t0", RWOperation::R),
        ("t1", RWOperation::W),
        ("t0", RWOperation::W),
        ("t1", RWOperation::R),
    ]);
    assert_eq!(t.len(), 2);
    let ops = t.get();
    assert_eq!(*ops[0].table(), "t0".to_string());
    assert_eq!(ops[0].op(), RWOperation::W);
    assert_eq!(*ops[1].table(), "t1".to_string());
    assert_eq!(ops[1].op(), RWOperation::W);
}

#[test]
fn test_access_pattern() {
    assert_eq!(tableops(vec![]).access_pattern(), AccessPattern::ReadOnly);
    assert_eq!(
        tableops(vec![("a", RWOperation::R)]).access_pattern(),
        AccessPattern::ReadOnly
    );
    assert_eq!(
        tableops(vec![("a", RWOperation::W)]).access_pattern(),
        AccessPattern::WriteOnly
    );
    assert_eq!(
        tableops(vec![("a", RWOperation::R), ("b", RWOperation::W)]).access_pattern(),
        AccessPattern::Mixed
    );
}

#[test]
fn test_parse_tableops_grammar() {
    let t = parse_tableops("READ table0 WRIte table1 table2 read table3").unwrap();
    let ops = t.get();
    assert_eq!(ops.len(), 4);
    assert_eq!(*ops[0].table(), "table0".to_string());
    assert_eq!(ops[0].op(), RWOperation::R);
    assert_eq!(*ops[1].table(), "table1".to_string());
    assert_eq!(ops[1].op(), RWOperation::W);
    assert_eq!(*ops[2].table(), "table2".to_string());
    assert_eq!(ops[2].op(), RWOperation::W);
    assert_eq!(*ops[3].table(), "table3".to_string());
    assert_eq!(ops[3].op(), RWOperation::R);
}

#[test]
fn test_parse_tableops_dedup_and_case() {
    // a table seen as both R and W collapses to one entry with W
    let t = parse_tableops("r t0 w t0 T1").unwrap();
    let ops = t.get();
    assert_eq!(ops.len(), 2);
    assert_eq!(*ops[0].table(), "t0".to_string());
    assert_eq!(ops[0].op(), RWOperation::W);
    // table names keep their case
    assert_eq!(*ops[1].table(), "T1".to_string());
}

#[test]
fn test_parse_tableops_errors() {
    // a table before any mode keyword is rejected
    assert!(parse_tableops("t0 read t1").is_err());
    // non-ASCII text is rejected
    assert!(parse_tableops("read t\u{e9}").is_err());
    // an empty string parses to no operations
    assert_eq!(parse_tableops("").unwrap().len(), 0);
}

#[test]
fn test_tableops_roundtrip() {
    // parse, serialize back, re-parse: the same TableOps
    let first = parse_tableops("READ r0 WRITE w1 w2 read r3").unwrap();
    let text = serialize_tableops(&first);
    assert_eq!(text, "READ r0 WRITE w1 WRITE w2 READ r3 ".to_string());
    let second = parse_tableops(&text).unwrap();
    assert_eq!(first, second);
}

fn txvn_of(entries: Vec<(&str, u64, RWOperation)>) -> TxVN {
    TxVN::new().set_txtablevns(
        entries
            .into_iter()
            .map(|(t, vn, op)| TxTableVN::new(t, vn, op))
            .collect(),
    )
}

#[test]
fn test_get_from_tableop_strength() {
    let txvn = txvn_of(vec![("t0", 5, RWOperation::W), ("t1", 6, RWOperation::R)]);
    // a held write serves a read
    let r = txvn.get_from_tableop(&TableOp::new("t0", RWOperation::R));
    assert_eq!(r.unwrap().vn(), 5);
    // a held read does not serve a write
    assert!(txvn.get_from_tableop(&TableOp::new("t1", RWOperation::W)).is_none());
    // an undeclared table matches nothing
    assert!(txvn.get_from_tableop(&TableOp::new("t2", RWOperation::R)).is_none());
}

#[test]
fn test_legality_final_check() {
    let begin = Msql::BeginTx(MsqlBeginTx::from_tableops(tableops(vec![(
        "t0",
        RWOperation::W,
    )])));
    let open_tx = Some(txvn_of(vec![("t0", 0, RWOperation::W)]));

    // BeginTx with an open transaction is rejected, the session stays alive
    match Legality::final_check(&begin, &open_tx) {
        Legality::Critical(m) => assert_eq!(
            m,
            "Cannot begin new transaction because previous transaction not finished yet."
        ),
        other => panic!("expected Critical, got {:?}", other),
    }
    // BeginTx with no open transaction is legal
    assert_eq!(Legality::final_check(&begin, &None), Legality::Legal);

    // a mixed query is always rejected
    let mixed = Msql::Query(MsqlQuery::new(
        "SELECT t0 JOIN t1".to_string(),
        tableops(vec![("t0", RWOperation::R), ("t1", RWOperation::W)]),
        vec![],
    ));
    match Legality::final_check(&mixed, &open_tx) {
        Legality::Critical(m) => assert_eq!(m, "Does not support query with mixed R and W"),
        other => panic!("expected Critical, got {:?}", other),
    }

    // a read on undeclared tables is rejected, naming exactly those tables
    let stray = Msql::Query(MsqlQuery::new(
        "SELECT * FROM t9".to_string(),
        tableops(vec![("t9", RWOperation::R)]),
        vec![],
    ));
    match Legality::final_check(&stray, &open_tx) {
        Legality::Critical(m) => {
            assert_eq!(
                m,
                "Query is using tables not declared in the BeginTx: [\"t9\"]"
            )
        }
        other => panic!("expected Critical, got {:?}", other),
    }
    let stray2 = Msql::Query(MsqlQuery::new(
        "SELECT * FROM t0, t8, t9".to_string(),
        tableops(vec![
            ("t0", RWOperation::R),
            ("t8", RWOperation::R),
            ("t9", RWOperation::R),
        ]),
        vec![],
    ));
    match Legality::final_check(&stray2, &open_tx) {
        Legality::Critical(m) => {
            // the covered table is not listed; the missing ones come in
            // statement order
            assert_eq!(
                m,
                "Query is using tables not declared in the BeginTx: [\"t8\", \"t9\"]"
            )
        }
        other => panic!("expected Critical, got {:?}", other),
    }

    // early release on a read-only query is rejected
    let er_read = Msql::Query(MsqlQuery::new(
        "SELECT * FROM t0".to_string(),
        tableops(vec![("t0", RWOperation::R)]),
        vec!["t0".to_string()],
    ));
    match Legality::final_check(&er_read, &open_tx) {
        Legality::Critical(m) => assert_eq!(m, "Does not support early release on R queries"),
        other => panic!("expected Critical, got {:?}", other),
    }

    // early release of a table held only for read is rejected
    let tx_r = Some(txvn_of(vec![("t0", 0, RWOperation::W), ("t1", 1, RWOperation::R)]));
    let er_bad = Msql::Query(MsqlQuery::new(
        "UPDATE t0".to_string(),
        tableops(vec![("t0", RWOperation::W)]),
        vec!["t1".to_string()],
    ));
    match Legality::final_check(&er_bad, &tx_r) {
        Legality::Critical(m) => assert_eq!(
            m,
            "Tables marked for early release was not declared in the BeginTx or has already been released"
        ),
        other => panic!("expected Critical, got {:?}", other),
    }

    // a write with no transaction signals a programming error
    let lone_write = Msql::Query(MsqlQuery::new(
        "UPDATE t0".to_string(),
        tableops(vec![("t0", RWOperation::W)]),
        vec![],
    ));
    assert!(matches!(
        Legality::final_check(&lone_write, &None),
        Legality::Panic(_)
    ));
    // a read with no transaction is the optimized single read
    let lone_read = Msql::Query(MsqlQuery::new(
        "SELECT * FROM t0".to_string(),
        tableops(vec![("t0", RWOperation::R)]),
        vec![],
    ));
    assert_eq!(Legality::final_check(&lone_read, &None), Legality::Legal);

    // EndTx without a transaction is rejected
    match Legality::final_check(&Msql::EndTx(MsqlEndTx::commit()), &None) {
        Legality::Critical(m) => assert_eq!(m, "There is not transaction to end"),
        other => panic!("expected Critical, got {:?}", other),
    }
    assert_eq!(
        Legality::final_check(&Msql::EndTx(MsqlEndTx::rollback()), &open_tx),
        Legality::Legal
    );
}

#[test]
fn test_remove_tables_and_release_request() {
    let txvn = txvn_of(vec![
        ("t0", 0, RWOperation::W),
        ("t1", 1, RWOperation::W),
        ("t2", 2, RWOperation::R),
    ]);
    let req = txvn.early_release_request(&vec!["t1".to_string()]).unwrap();
    assert_eq!(req.entries().len(), 1);
    assert_eq!(*req.entries()[0].table(), "t1".to_string());
    assert_eq!(req.entries()[0].vn(), 1);

    // a read-held table cannot be released early
    assert!(txvn.early_release_request(&vec!["t2".to_string()]).is_err());

    let rest = txvn.remove_tables(&vec!["t1".to_string()]);
    let remaining = rest.txtablevns();
    assert_eq!(remaining.len(), 2);
    assert_eq!(*remaining[0].table(), "t0".to_string());
    assert_eq!(*remaining[1].table(), "t2".to_string());
}

#[test]
fn test_msql_response_kinds() {
    let q = Msql::Query(MsqlQuery::new(
        "SELECT 1".to_string(),
        TableOps::new(),
        vec![],
    ));
    let r = MsqlResponse::err("boom".to_string(), &q);
    assert_eq!(r, MsqlResponse::Query(Err("boom".to_string())));
}
