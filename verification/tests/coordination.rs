use o2versioner::admin::{admin_continues, parse_admin_command, AdminCommand};
use o2versioner::msql::EndTxMode;
use o2versioner::msqltext::{msql_from_text, MsqlText};
use o2versioner::sequencer::SequencerState;
use o2versioner::dispatch::{consolidate_write_replies, select_read_replica, write_query_targets};
use o2versioner::frame::{decode_frame, encode_frame};
use o2versioner::manager::DbVNManager;
use o2versioner::msql::{
    Msql, MsqlBeginTx, MsqlQuery, MsqlResponse, RWOperation, TableOp, TableOps,
};
use o2versioner::session::{
    DispatcherReply, Session, SessionAction, SessionConf, SessionEvent,
};
use o2versioner::transceiver::{
    next_backoff, submit_decision, LinkState, Outstanding, SubmitOutcome,
};
use o2versioner::version::{DbTableVN, TxTableVN, TxVN};

fn tableops(ops: Vec<(&str, RWOperation)>) -> TableOps {
    TableOps::from_iter(ops.into_iter().map(|(t, op)| TableOp::new(t, op)).collect())
}

fn conf() -> SessionConf {
    SessionConf { disable_early_release: false, disable_single_read_optimization: false }
}

fn txvn_of(uuid: u64, entries: Vec<(&str, u64, RWOperation)>) -> TxVN {
    TxVN::assemble(
        None,
        uuid,
        entries
            .into_iter()
            .map(|(t, vn, op)| TxTableVN::new(t, vn, op))
            .collect(),
    )
}

#[test]
fn test_write_targets_are_all_replicas() {
    let manager = DbVNManager::from_iter(vec![
        "127.0.0.1:10000".to_string(),
        "127.0.0.1:10001".to_string(),
        "127.0.0.1:10002".to_string(),
    ]);
    let targets = write_query_targets(&manager);
    assert_eq!(
        targets,
        vec![
            "127.0.0.1:10000".to_string(),
            "127.0.0.1:10001".to_string(),
            "127.0.0.1:10002".to_string()
        ]
    );
}

#[test]
fn test_select_read_replica() {
    let candidates = vec![
        ("a".to_string(), vec![DbTableVN::new("t0", 0)]),
        ("b".to_string(), vec![DbTableVN::new("t0", 0)]),
        ("c".to_string(), vec![DbTableVN::new("t0", 0)]),
    ];
    let load = vec![("a".to_string(), 3u64), ("b".to_string(), 1u64), ("c".to_string(), 1u64)];
    // fewest outstanding wins; a tie goes to the first (smallest address)
    assert_eq!(select_read_replica(&candidates, &load), Some(1));
    let empty: Vec<(String, Vec<DbTableVN>)> = vec![];
    assert_eq!(select_read_replica(&empty, &load), None);
}

#[test]
fn test_consolidate_write_replies() {
    let all_ok = vec![Ok("QUERY GOOD".to_string()), Ok("QUERY GOOD".to_string())];
    assert_eq!(consolidate_write_replies(&all_ok), Ok("QUERY GOOD".to_string()));

    let one_bad = vec![Ok("fine".to_string()), Err("nope".to_string())];
    assert_eq!(consolidate_write_replies(&one_bad), Err("nope; ".to_string()));

    let two_bad = vec![Err("a".to_string()), Err("b".to_string())];
    assert_eq!(consolidate_write_replies(&two_bad), Err("a; b; ".to_string()));

    let none: Vec<Result<String, String>> = vec![];
    assert!(consolidate_write_replies(&none).is_err());
}

#[test]
fn test_frame_roundtrip() {
    let payload: Vec<u8> = b"{\"k\":\"v\"}".to_vec();
    let frame = encode_frame(&payload).unwrap();
    assert_eq!(frame.len(), payload.len() + 4);
    let (decoded, consumed) = decode_frame(&frame).unwrap();
    assert_eq!(decoded, payload);
    assert_eq!(consumed, frame.len());

    // a short buffer yields nothing
    assert!(decode_frame(&frame[..3].to_vec()).is_none());
    assert!(decode_frame(&frame[..frame.len() - 1].to_vec()).is_none());
}

#[test]
fn test_admin_commands() {
    assert_eq!(parse_admin_command("block"), AdminCommand::Block);
    assert_eq!(parse_admin_command("BLOCK"), AdminCommand::Block);
    assert_eq!(parse_admin_command("Unblock"), AdminCommand::Unblock);
    assert_eq!(parse_admin_command("kill"), AdminCommand::Kill);
    assert_eq!(parse_admin_command("exit"), AdminCommand::Kill);
    assert_eq!(parse_admin_command("QUIT"), AdminCommand::Kill);
    assert_eq!(parse_admin_command("perf"), AdminCommand::Perf);
    assert_eq!(parse_admin_command("help"), AdminCommand::Unknown);
    assert!(admin_continues(AdminCommand::Block));
    assert!(!admin_continues(AdminCommand::Kill));
}

#[test]
fn test_backoff_doubles_to_cap() {
    let mut d = next_backoff(0);
    assert_eq!(d, 100);
    let mut seen = vec![d];
    for _ in 0..8 {
        d = next_backoff(d);
        seen.push(d);
    }
    assert_eq!(seen, vec![100, 200, 400, 800, 1600, 3200, 5000, 5000, 5000]);
}

#[test]
fn test_submit_decision() {
    assert_eq!(submit_decision(LinkState::Connected, 0, 4), SubmitOutcome::Send);
    assert_eq!(submit_decision(LinkState::Disconnected, 3, 4), SubmitOutcome::Queue);
    assert_eq!(
        submit_decision(LinkState::Disconnected, 4, 4),
        SubmitOutcome::Backpressure
    );
    assert_eq!(submit_decision(LinkState::Connecting, 0, 4), SubmitOutcome::Queue);
    assert_eq!(submit_decision(LinkState::Closing, 0, 4), SubmitOutcome::Backpressure);
}

#[test]
fn test_outstanding_correlation() {
    let mut out: Outstanding<u32> = Outstanding::new();
    assert_eq!(out.len(), 0);
    assert!(out.insert("127.0.0.1:2345".to_string(), 0, 10));
    assert!(out.insert("127.0.0.1:2345".to_string(), 1, 11));
    assert!(out.insert("127.0.0.2:2345".to_string(), 0, 20));
    // a colliding correlation key is refused
    assert!(!out.insert("127.0.0.1:2345".to_string(), 0, 99));
    assert_eq!(out.len(), 3);
    // replies may arrive out of order: they are matched by key
    assert_eq!(out.take(&"127.0.0.1:2345".to_string(), 1), Some(11));
    assert_eq!(out.take(&"127.0.0.1:2345".to_string(), 0), Some(10));
    // an unknown key is dropped
    assert_eq!(out.take(&"127.0.0.1:2345".to_string(), 7), None);
    assert_eq!(out.len(), 1);
}

#[test]
fn test_session_single_read_fast_path() {
    // a lone read goes straight to the dispatcher with no transaction
    let session = Session::new("127.0.0.1:6666".to_string());
    let query = Msql::Query(MsqlQuery::new(
        "SELECT * FROM t0".to_string(),
        tableops(vec![("t0", RWOperation::R)]),
        vec![],
    ));
    let (session, action) = session.session_request(conf(), query);
    match action {
        SessionAction::ToDispatcher(Msql::Query(_), txvn) => assert!(txvn.is_none()),
        other => panic!("expected a dispatcher forward, got {:?}", other),
    }
    let (_, action) = session.session_event(SessionEvent::Dispatcher(Ok(DispatcherReply {
        msql_res: MsqlResponse::Query(Ok("rows".to_string())),
        txvn_res: None,
    })));
    match action {
        SessionAction::Reply(r) => assert_eq!(r, MsqlResponse::Query(Ok("rows".to_string()))),
        other => panic!("expected a reply, got {:?}", other),
    }
}

#[test]
fn test_session_single_write_fast_path() {
    // a lone write is wrapped: begin, the write, then a commit; the client
    // sees one Query reply
    let session = Session::new("127.0.0.1:6666".to_string());
    let query = Msql::Query(MsqlQuery::new(
        "UPDATE t0 SET x = 1".to_string(),
        tableops(vec![("t0", RWOperation::W)]),
        vec![],
    ));
    let (session, action) = session.session_request(conf(), query);
    assert!(matches!(action, SessionAction::ToSequencer(_)));
    let assigned = txvn_of(3, vec![("t0", 0, RWOperation::W)]);
    let (session, action) = session.session_event(SessionEvent::Sequencer(Ok(Some(assigned))));
    match &action {
        SessionAction::ToDispatcher(Msql::Query(_), Some(txvn)) => assert_eq!(txvn.uuid(), 3),
        other => panic!("expected the write forward, got {:?}", other),
    }
    let (session, action) = session.session_event(SessionEvent::Dispatcher(Ok(DispatcherReply {
        msql_res: MsqlResponse::Query(Ok("1 row".to_string())),
        txvn_res: Some(txvn_of(3, vec![("t0", 0, RWOperation::W)])),
    })));
    assert!(matches!(action, SessionAction::ToDispatcher(Msql::EndTx(_), Some(_))));
    let (_, action) = session.session_event(SessionEvent::Dispatcher(Ok(DispatcherReply {
        msql_res: MsqlResponse::EndTx(Ok("committed".to_string())),
        txvn_res: None,
    })));
    match action {
        SessionAction::Reply(r) => assert_eq!(r, MsqlResponse::Query(Ok("1 row".to_string()))),
        other => panic!("expected the saved query reply, got {:?}", other),
    }
}

#[test]
fn test_session_mixed_query_rejected() {
    // the session survives a mixed query and answers with a Query error
    let session = Session::new("127.0.0.1:6666".to_string());
    let begin = Msql::BeginTx(MsqlBeginTx::from_tableops(tableops(vec![
        ("t0", RWOperation::R),
        ("t1", RWOperation::W),
    ])));
    let (session, action) = session.session_request(conf(), begin);
    assert!(matches!(action, SessionAction::ToSequencer(_)));
    let assigned = txvn_of(
        1,
        vec![("t0", 0, RWOperation::R), ("t1", 0, RWOperation::W)],
    );
    let (session, action) = session.session_event(SessionEvent::Sequencer(Ok(Some(assigned))));
    match action {
        SessionAction::Reply(r) => assert_eq!(r, MsqlResponse::BeginTx(Ok("".to_string()))),
        other => panic!("expected the begin reply, got {:?}", other),
    }
    let mixed = Msql::Query(MsqlQuery::new(
        "SELECT t0 JOIN t1".to_string(),
        tableops(vec![("t0", RWOperation::R), ("t1", RWOperation::W)]),
        vec![],
    ));
    let (_, action) = session.session_request(conf(), mixed);
    match action {
        SessionAction::Reply(r) => assert_eq!(
            r,
            MsqlResponse::Query(Err("Does not support query with mixed R and W".to_string()))
        ),
        other => panic!("expected a rejection, got {:?}", other),
    }
}

#[test]
fn test_session_reply_kind_matches_request() {
    // one full begin / query / commit round: each reply matches its request
    let session = Session::new("127.0.0.1:6666".to_string());
    let begin = Msql::BeginTx(MsqlBeginTx::from_tableops(tableops(vec![(
        "t0",
        RWOperation::W,
    )])));
    let (session, action) = session.session_request(conf(), begin);
    assert!(matches!(action, SessionAction::ToSequencer(_)));
    let (session, action) = session.session_event(SessionEvent::Sequencer(Ok(Some(txvn_of(
        1,
        vec![("t0", 0, RWOperation::W)],
    )))));
    assert!(matches!(action, SessionAction::Reply(MsqlResponse::BeginTx(Ok(_)))));

    let query = Msql::Query(MsqlQuery::new(
        "UPDATE t0".to_string(),
        tableops(vec![("t0", RWOperation::W)]),
        vec![],
    ));
    let (session, action) = session.session_request(conf(), query);
    assert!(matches!(action, SessionAction::ToDispatcher(Msql::Query(_), Some(_))));
    let (session, action) = session.session_event(SessionEvent::Dispatcher(Ok(DispatcherReply {
        msql_res: MsqlResponse::Query(Ok("ok".to_string())),
        txvn_res: Some(txvn_of(1, vec![("t0", 0, RWOperation::W)])),
    })));
    assert!(matches!(action, SessionAction::Reply(MsqlResponse::Query(Ok(_)))));

    let end = Msql::EndTx(o2versioner::msql::MsqlEndTx::commit());
    let (session, action) = session.session_request(conf(), end);
    assert!(matches!(action, SessionAction::ToDispatcher(Msql::EndTx(_), Some(_))));
    let (session, action) = session.session_event(SessionEvent::Dispatcher(Ok(DispatcherReply {
        msql_res: MsqlResponse::EndTx(Ok("committed".to_string())),
        txvn_res: None,
    })));
    assert!(matches!(action, SessionAction::Reply(MsqlResponse::EndTx(Ok(_)))));
    assert_eq!(session.connection_state().client_meta().current_txid(), 1);
}

#[test]
fn test_session_sequencer_failure() {
    // a begin the Sequencer cannot serve surfaces a BeginTx error
    let session = Session::new("127.0.0.1:6666".to_string());
    let begin = Msql::BeginTx(MsqlBeginTx::from_tableops(tableops(vec![(
        "t0",
        RWOperation::W,
    )])));
    let (session, action) = session.session_request(conf(), begin);
    assert!(matches!(action, SessionAction::ToSequencer(_)));
    let (_, action) = session.session_event(SessionEvent::Sequencer(Ok(None)));
    match action {
        SessionAction::Reply(r) => assert_eq!(
            r,
            MsqlResponse::BeginTx(Err("Can't get a TxVN from Sequencer".to_string()))
        ),
        other => panic!("expected a begin error, got {:?}", other),
    }
}

#[test]
fn test_session_strips_early_release_on_read() {
    // early-release tags on a read-only query are stripped, the query runs
    let session = Session::new("127.0.0.1:6666".to_string());
    let begin = Msql::BeginTx(MsqlBeginTx::from_tableops(tableops(vec![(
        "t0",
        RWOperation::R,
    )])));
    let (session, _) = session.session_request(conf(), begin);
    let (session, _) = session.session_event(SessionEvent::Sequencer(Ok(Some(txvn_of(
        1,
        vec![("t0", 0, RWOperation::R)],
    )))));
    let query = Msql::Query(MsqlQuery::new(
        "SELECT * FROM t0".to_string(),
        tableops(vec![("t0", RWOperation::R)]),
        vec!["t0".to_string()],
    ));
    let (_, action) = session.session_request(conf(), query);
    match action {
        SessionAction::ToDispatcher(Msql::Query(q), Some(_)) => {
            assert!(!q.has_early_release());
        }
        other => panic!("expected the read forward, got {:?}", other),
    }
}

#[test]
fn test_session_mixed_query_never_enters_fast_path() {
    // even with the single-read optimization disabled, a mixed query with no
    // open transaction is rejected outright: no sequencer, no dispatcher
    let session = Session::new("127.0.0.1:6666".to_string());
    let conf = SessionConf {
        disable_early_release: false,
        disable_single_read_optimization: true,
    };
    let mixed = Msql::Query(MsqlQuery::new(
        "SELECT t0 JOIN t1".to_string(),
        tableops(vec![("t0", RWOperation::R), ("t1", RWOperation::W)]),
        vec![],
    ));
    let (session, action) = session.session_request(conf, mixed);
    match action {
        SessionAction::Reply(r) => assert_eq!(
            r,
            MsqlResponse::Query(Err("Does not support query with mixed R and W".to_string()))
        ),
        other => panic!("expected a rejection, got {:?}", other),
    }
    // the session survives and is still idle: the next request is accepted
    let read = Msql::Query(MsqlQuery::new(
        "SELECT * FROM t0".to_string(),
        tableops(vec![("t0", RWOperation::R)]),
        vec![],
    ));
    let (_, action) = session.session_request(conf, read);
    assert!(matches!(action, SessionAction::ToSequencer(_)));
}

#[test]
fn test_session_endtx_failure_keeps_txid() {
    // a failed EndTx forfeits the handle but does not count the transaction
    let session = Session::new("127.0.0.1:6666".to_string());
    let begin = Msql::BeginTx(MsqlBeginTx::from_tableops(tableops(vec![(
        "t0",
        RWOperation::W,
    )])));
    let (session, _) = session.session_request(conf(), begin);
    let (session, _) = session.session_event(SessionEvent::Sequencer(Ok(Some(txvn_of(
        1,
        vec![("t0", 0, RWOperation::W)],
    )))));
    let end = Msql::EndTx(o2versioner::msql::MsqlEndTx::commit());
    let (session, action) = session.session_request(conf(), end);
    assert!(matches!(action, SessionAction::ToDispatcher(Msql::EndTx(_), Some(_))));
    let (session, action) =
        session.session_event(SessionEvent::Dispatcher(Err("proxy down".to_string())));
    match action {
        SessionAction::Reply(r) => {
            assert_eq!(r, MsqlResponse::EndTx(Err("proxy down".to_string())))
        }
        other => panic!("expected the EndTx error, got {:?}", other),
    }
    assert_eq!(session.connection_state().client_meta().current_txid(), 0);
    assert!(session.connection_state().current_txvn().is_none());
}

#[test]
fn test_tx_names_are_kept() {
    let mut sequencer = SequencerState::new();
    let begin = o2versioner::msql::MsqlBeginTx::new(
        Some("tx1".to_string()),
        tableops(vec![("t0", RWOperation::W)]),
    );
    let txvn: TxVN = sequencer.assign_vn(&begin);
    assert_eq!(*txvn.tx_name(), Some("tx1".to_string()));
    assert!(txvn.has_unique_tables());

    let end = msql_from_text(MsqlText::EndTx {
        tx_name: Some("tx1".to_string()),
        mode: EndTxMode::Commit,
    })
    .unwrap();
    match end {
        Msql::EndTx(e) => assert_eq!(*e.tx_name(), Some("tx1".to_string())),
        other => panic!("expected an EndTx, got {:?}", other),
    }
}

#[test]
fn test_session_endtx_rejects_returned_handle() {
    // the dispatcher returns no handle after an EndTx; one coming back is an
    // invalid reply: the transaction does not count and nothing is stored
    let session = Session::new("127.0.0.1:6666".to_string());
    let begin = Msql::BeginTx(MsqlBeginTx::from_tableops(tableops(vec![(
        "t0",
        RWOperation::W,
    )])));
    let (session, _) = session.session_request(conf(), begin);
    let (session, _) = session.session_event(SessionEvent::Sequencer(Ok(Some(txvn_of(
        1,
        vec![("t0", 0, RWOperation::W)],
    )))));
    let end = Msql::EndTx(o2versioner::msql::MsqlEndTx::commit());
    let (session, _) = session.session_request(conf(), end);
    let (session, action) = session.session_event(SessionEvent::Dispatcher(Ok(DispatcherReply {
        msql_res: MsqlResponse::EndTx(Ok("committed".to_string())),
        txvn_res: Some(txvn_of(1, vec![("t0", 0, RWOperation::W)])),
    })));
    match action {
        SessionAction::Reply(MsqlResponse::EndTx(Err(m))) => {
            assert_eq!(m, "Invalid response from dispatcher: EndTx returned a transaction")
        }
        other => panic!("expected the invalid-reply error, got {:?}", other),
    }
    assert!(session.connection_state().current_txvn().is_none());
    assert_eq!(session.connection_state().client_meta().current_txid(), 0);
}

#[test]
fn test_outstanding_drain() {
    // losing the link hands every waiter back, and the map is empty after
    let mut out: Outstanding<u32> = Outstanding::new();
    assert!(out.insert("127.0.0.1:2345".to_string(), 0, 10));
    assert!(out.insert("127.0.0.1:2345".to_string(), 1, 11));
    let mut drained = out.drain();
    drained.sort();
    assert_eq!(
        drained,
        vec![
            ("127.0.0.1:2345".to_string(), 0, 10),
            ("127.0.0.1:2345".to_string(), 1, 11)
        ]
    );
    assert_eq!(out.len(), 0);
    assert_eq!(out.take(&"127.0.0.1:2345".to_string(), 0), None);
}
