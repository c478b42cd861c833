use o2versioner::dbvn::DbVN;
use o2versioner::manager::DbVNManager;
use o2versioner::msql::{MsqlBeginTx, RWOperation, TableOp, TableOps};
use o2versioner::sequencer::SequencerState;
use o2versioner::session::ConnectionState;
use o2versioner::version::{DbTableVN, TxTableVN, TxVN};

fn tableops(ops: Vec<(&str, RWOperation)>) -> TableOps {
    TableOps::from_iter(ops.into_iter().map(|(t, op)| TableOp::new(t, op)).collect())
}

fn txvn_of(entries: Vec<(&str, u64, RWOperation)>) -> TxVN {
    TxVN::new().set_txtablevns(
        entries
            .into_iter()
            .map(|(t, vn, op)| TxTableVN::new(t, vn, op))
            .collect(),
    )
}

#[test]
fn test_replace_txvn() {
    let client_addr = "127.0.0.1:6666";
    let mut conn_state = ConnectionState::new(client_addr.to_string());
    assert_eq!(*conn_state.current_txvn(), None);

    assert_eq!(conn_state.replace_txvn(Some(TxVN::new().erase_uuid())), None);
    assert_eq!(
        *conn_state.current_txvn(),
        Some(TxVN::new()).map(|txvn| txvn.erase_uuid())
    );
    assert_eq!(
        conn_state.replace_txvn(None),
        Some(TxVN::new()).map(|txvn| txvn.erase_uuid())
    );
    assert_eq!(*conn_state.current_txvn(), None);
}

#[test]
fn test_from_iter() {
    let dbvnmanager = DbVNManager::from_iter(vec![
        "127.0.0.1:10000".to_string(),
        "127.0.0.1:10001".to_string(),
        "127.0.0.1:10002".to_string(),
    ]);

    assert!(dbvnmanager.contains_replica(&"127.0.0.1:10000".to_string()));
    assert!(dbvnmanager.contains_replica(&"127.0.0.1:10001".to_string()));
    assert!(dbvnmanager.contains_replica(&"127.0.0.1:10002".to_string()));
    assert!(!dbvnmanager.contains_replica(&"127.0.0.1:10003".to_string()));
}

#[test]
fn test_get_all_that_can_execute_read_query() {
    let dbvnmanager = DbVNManager::from_iter(vec![
        "127.0.0.1:10000".to_string(),
        "127.0.0.1:10001".to_string(),
    ]);

    assert_eq!(
        dbvnmanager.get_all_that_can_execute_read_query(
            &tableops(vec![("t0", RWOperation::R), ("t1", RWOperation::R)]),
            &txvn_of(vec![("t0", 0, RWOperation::R), ("t1", 0, RWOperation::R)])
        ),
        vec![
            (
                "127.0.0.1:10000".to_string(),
                vec![DbTableVN::new("t0", 0), DbTableVN::new("t1", 0)]
            ),
            (
                "127.0.0.1:10001".to_string(),
                vec![DbTableVN::new("t0", 0), DbTableVN::new("t1", 0)]
            )
        ]
    );

    assert_eq!(
        dbvnmanager.get_all_that_can_execute_read_query(
            &tableops(vec![("t0", RWOperation::R), ("t1", RWOperation::R)]),
            &txvn_of(vec![("t0", 0, RWOperation::R), ("t1", 1, RWOperation::R)])
        ),
        vec![]
    );

    assert_eq!(
        dbvnmanager.get_all_that_can_execute_read_query(
            &tableops(vec![("t0", RWOperation::R)]),
            &txvn_of(vec![("t0", 0, RWOperation::R), ("t1", 1, RWOperation::R)])
        ),
        vec![
            ("127.0.0.1:10000".to_string(), vec![DbTableVN::new("t0", 0)]),
            ("127.0.0.1:10001".to_string(), vec![DbTableVN::new("t0", 0)])
        ]
    );

    assert_eq!(
        dbvnmanager.get_all_that_can_execute_read_query(
            &tableops(vec![("t1", RWOperation::R)]),
            &txvn_of(vec![("t0", 0, RWOperation::R), ("t1", 1, RWOperation::R)])
        ),
        vec![]
    );
}

#[test]
fn test_release_version() {
    let mut dbvnmanager = DbVNManager::from_iter(vec![
        "127.0.0.1:10000".to_string(),
        "127.0.0.1:10001".to_string(),
    ]);

    let txvn0 = txvn_of(vec![("t0", 0, RWOperation::R), ("t1", 0, RWOperation::R)]);
    assert_eq!(
        dbvnmanager.get_all_that_can_execute_read_query(
            &tableops(vec![("t0", RWOperation::R), ("t1", RWOperation::R)]),
            &txvn0
        ),
        vec![
            (
                "127.0.0.1:10000".to_string(),
                vec![DbTableVN::new("t0", 0), DbTableVN::new("t1", 0)]
            ),
            (
                "127.0.0.1:10001".to_string(),
                vec![DbTableVN::new("t0", 0), DbTableVN::new("t1", 0)]
            )
        ]
    );

    let txvn1 = txvn_of(vec![("t0", 0, RWOperation::R), ("t1", 1, RWOperation::R)]);
    assert_eq!(
        dbvnmanager.get_all_that_can_execute_read_query(
            &tableops(vec![("t0", RWOperation::R), ("t1", RWOperation::R)]),
            &txvn1
        ),
        vec![]
    );

    dbvnmanager.release_version(
        &"127.0.0.1:10000".to_string(),
        txvn0.clone().into_dbvn_release_request(),
    );
    assert_eq!(
        dbvnmanager.get_all_that_can_execute_read_query(
            &tableops(vec![("t0", RWOperation::R), ("t1", RWOperation::R)]),
            &txvn1
        ),
        vec![(
            "127.0.0.1:10000".to_string(),
            vec![DbTableVN::new("t0", 1), DbTableVN::new("t1", 1)]
        )]
    );

    dbvnmanager.release_version(
        &"127.0.0.1:10001".to_string(),
        txvn0.clone().into_dbvn_release_request(),
    );
    assert_eq!(
        dbvnmanager.get_all_that_can_execute_read_query(
            &tableops(vec![("t0", RWOperation::R), ("t1", RWOperation::R)]),
            &txvn1
        ),
        vec![
            (
                "127.0.0.1:10000".to_string(),
                vec![DbTableVN::new("t0", 1), DbTableVN::new("t1", 1)]
            ),
            (
                "127.0.0.1:10001".to_string(),
                vec![DbTableVN::new("t0", 1), DbTableVN::new("t1", 1)]
            )
        ]
    );
}

#[test]
fn test_release_is_idempotent() {
    // releasing the same TxVN twice advances DbVN exactly as far as once
    let mut dbvn = DbVN::default();
    let txvn = txvn_of(vec![("t0", 0, RWOperation::W), ("t1", 0, RWOperation::R)]);
    let req = txvn.clone().into_dbvn_release_request();
    dbvn.release_version(&req);
    assert_eq!(dbvn.get_version(&"t0".to_string()), 1);
    assert_eq!(dbvn.get_version(&"t1".to_string()), 1);
    dbvn.release_version(&req);
    assert_eq!(dbvn.get_version(&"t0".to_string()), 1);
    assert_eq!(dbvn.get_version(&"t1".to_string()), 1);
}

#[test]
fn test_release_out_of_order_gap() {
    // a later version released first waits until the gap closes
    let mut dbvn = DbVN::default();
    let second = TxVN::assemble(None, 2, vec![TxTableVN::new("t0", 1, RWOperation::W)]);
    dbvn.release_version(&second.into_dbvn_release_request());
    assert_eq!(dbvn.get_version(&"t0".to_string()), 0);
    let first = TxVN::assemble(None, 1, vec![TxTableVN::new("t0", 0, RWOperation::W)]);
    dbvn.release_version(&first.into_dbvn_release_request());
    // both releases are now in: the counter jumps past the whole run
    assert_eq!(dbvn.get_version(&"t0".to_string()), 2);
}

#[test]
fn test_can_execute_query() {
    let mut dbvn = DbVN::default();
    // a read needs the counter to have reached its version; a write, exactly
    assert!(dbvn.can_execute_query(&vec![TxTableVN::new("t0", 0, RWOperation::R)]));
    assert!(dbvn.can_execute_query(&vec![TxTableVN::new("t0", 0, RWOperation::W)]));
    assert!(!dbvn.can_execute_query(&vec![TxTableVN::new("t0", 1, RWOperation::R)]));
    let tx = TxVN::assemble(None, 7, vec![TxTableVN::new("t0", 0, RWOperation::W)]);
    dbvn.release_version(&tx.into_dbvn_release_request());
    assert!(dbvn.can_execute_query(&vec![TxTableVN::new("t0", 0, RWOperation::R)]));
    assert!(!dbvn.can_execute_query(&vec![TxTableVN::new("t0", 0, RWOperation::W)]));
    assert!(dbvn.can_execute_query(&vec![TxTableVN::new("t0", 1, RWOperation::W)]));
}

#[test]
fn test_version_sum() {
    let mut dbvn = DbVN::default();
    assert_eq!(dbvn.get_version_sum(), 0);
    let t1 = TxVN::assemble(None, 1, vec![TxTableVN::new("t0", 0, RWOperation::W)]);
    let t2 = TxVN::assemble(
        None,
        2,
        vec![
            TxTableVN::new("t0", 1, RWOperation::W),
            TxTableVN::new("t1", 0, RWOperation::W),
        ],
    );
    dbvn.release_version(&t1.into_dbvn_release_request());
    dbvn.release_version(&t2.into_dbvn_release_request());
    assert_eq!(dbvn.get_version_sum(), 3);
}

#[test]
fn test_sequencer_assign_vn() {
    let mut state = SequencerState::new();
    let begin = MsqlBeginTx::from_tableops(tableops(vec![
        ("table0", RWOperation::R),
        ("table1", RWOperation::W),
    ]));
    let tx0 = state.assign_vn(&begin);
    let e0 = tx0.txtablevns();
    assert_eq!(e0.len(), 2);
    assert_eq!(*e0[0].table(), "table0".to_string());
    assert_eq!(e0[0].vn(), 0);
    assert_eq!(e0[0].op(), RWOperation::R);
    assert_eq!(*e0[1].table(), "table1".to_string());
    assert_eq!(e0[1].vn(), 0);

    // two requests touching the same tables receive distinct, increasing
    // versions on the overlap, and distinct transaction identifiers
    let tx1 = state.assign_vn(&begin);
    let e1 = tx1.txtablevns();
    assert_eq!(e1[0].vn(), 1);
    assert_eq!(e1[1].vn(), 1);
    assert_ne!(tx0.uuid(), tx1.uuid());

    // a request touching other tables starts those counters at 0
    let other = MsqlBeginTx::from_tableops(tableops(vec![("table2", RWOperation::W)]));
    let tx2 = state.assign_vn(&other);
    assert_eq!(tx2.txtablevns()[0].vn(), 0);
}

#[test]
fn test_sequencer_block_unblock_stop() {
    let mut state = SequencerState::new();
    assert!(!state.is_blocked());
    state.set_blocked(true);
    assert!(state.is_blocked());
    state.set_blocked(false);
    assert!(!state.is_blocked());
    assert!(!state.stop_requested());
    state.request_stop();
    assert!(state.stop_requested());
}

#[test]
fn test_two_writers_serialize_on_one_table() {
    // two transactions write t0: their versions differ, and after the first
    // commits, every replica serves t0 at the second's version
    let mut sequencer = SequencerState::new();
    let begin = MsqlBeginTx::from_tableops(tableops(vec![("t0", RWOperation::W)]));
    let tx_a = sequencer.assign_vn(&begin);
    let tx_b = sequencer.assign_vn(&begin);
    let vn_a = tx_a.txtablevns()[0].vn();
    let vn_b = tx_b.txtablevns()[0].vn();
    assert_ne!(vn_a, vn_b);
    assert_eq!(vn_b, vn_a + 1);

    let mut manager = DbVNManager::from_iter(vec![
        "127.0.0.1:10000".to_string(),
        "127.0.0.1:10001".to_string(),
    ]);
    manager.release_version_on_all(&tx_a.into_dbvn_release_request());
    // the later writer now sees t0 at its own version on both replicas
    let cand = manager.get_all_that_can_execute_read_query(
        &tableops(vec![("t0", RWOperation::R)]),
        &txvn_of(vec![("t0", vn_b, RWOperation::R)]),
    );
    assert_eq!(
        cand,
        vec![
            ("127.0.0.1:10000".to_string(), vec![DbTableVN::new("t0", vn_b)]),
            ("127.0.0.1:10001".to_string(), vec![DbTableVN::new("t0", vn_b)])
        ]
    );
}

#[test]
fn test_read_becomes_eligible_after_commit() {
    // a read assigned after a write waits until the writer's release
    let mut sequencer = SequencerState::new();
    let tx_w = sequencer.assign_vn(&MsqlBeginTx::from_tableops(tableops(vec![(
        "t0",
        RWOperation::W,
    )])));
    let tx_r = sequencer.assign_vn(&MsqlBeginTx::from_tableops(tableops(vec![(
        "t0",
        RWOperation::R,
    )])));

    let mut manager = DbVNManager::from_iter(vec![
        "127.0.0.1:10000".to_string(),
        "127.0.0.1:10001".to_string(),
    ]);
    let read_tableops = tableops(vec![("t0", RWOperation::R)]);
    assert_eq!(
        manager.get_all_that_can_execute_read_query(&read_tableops, &tx_r),
        vec![]
    );
    // the writer commits: its versions are released on every replica
    manager.release_version_on_all(&tx_w.into_dbvn_release_request());
    let eligible = manager.get_all_that_can_execute_read_query(&read_tableops, &tx_r);
    assert_eq!(eligible.len(), 2);
    assert_eq!(eligible[0].0, "127.0.0.1:10000".to_string());
    assert_eq!(eligible[1].0, "127.0.0.1:10001".to_string());
}

#[test]
fn test_read_candidates_sorted_by_address() {
    // replicas configured out of order still come back in address order
    let dbvnmanager = DbVNManager::from_iter(vec![
        "127.0.0.1:10001".to_string(),
        "127.0.0.1:10000".to_string(),
    ]);
    let eligible = dbvnmanager.get_all_that_can_execute_read_query(
        &tableops(vec![("t0", RWOperation::R)]),
        &txvn_of(vec![("t0", 0, RWOperation::R)]),
    );
    assert_eq!(
        eligible,
        vec![
            ("127.0.0.1:10000".to_string(), vec![DbTableVN::new("t0", 0)]),
            ("127.0.0.1:10001".to_string(), vec![DbTableVN::new("t0", 0)])
        ]
    );
}
