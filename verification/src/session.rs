//! The Scheduler's per-connection session machine: strictly serial, one
//! request fully handled before the next, with the single-read and
//! single-write fast paths. Each request produces exactly one reply, of the
//! request's own kind.

use vstd::prelude::*;

use crate::legality::{LegalityV, spec_final_check};
use crate::msql::{
    AccessPattern, EndTxMode, Msql, MsqlBeginTx, MsqlBeginTxV, MsqlEndTx, MsqlEndTxV, MsqlKind,
    MsqlQuery, MsqlQueryV, MsqlResponse, MsqlResponseV, MsqlV, spec_access_pattern,
};
use crate::version::{TxVN, TxVNV};

verus! {

/// The two settings the session logic reads.
#[derive(Clone, Copy, Debug, PartialEq, Eq, Structural)]
pub struct SessionConf {
    pub disable_early_release: bool,
    pub disable_single_read_optimization: bool,
}

/// Mathematical value of the session's progress on the current request.
pub enum PendingV {
    Idle,
    Begin,
    Query,
    EndTx,
    FastBegin(MsqlQueryV),
    FastQuery,
    FastEndTx(MsqlResponseV),
}

/// Mathematical value of a session.
pub struct SessionV {
    pub client_addr: Seq<char>,
    pub current_txid: u64,
    pub txvn: Option<TxVNV>,
    pub pending: PendingV,
}

/// Mathematical value of what the session asks its surroundings to do next.
pub enum ActionV {
    Reply(MsqlResponseV),
    ToSequencer(MsqlBeginTxV),
    ToDispatcher(MsqlV, Option<TxVNV>),
}

/// Mathematical value of what came back from the surroundings.
pub enum EventV {
    Sequencer(Result<Option<TxVNV>, Seq<char>>),
    Dispatcher(Result<(MsqlResponseV, Option<TxVNV>), Seq<char>>),
}

/// The request kind a pending phase answers for.
pub open spec fn pending_kind(p: PendingV) -> MsqlKind {
    match p {
        PendingV::Idle => MsqlKind::Query,
        PendingV::Begin => MsqlKind::BeginTx,
        PendingV::Query => MsqlKind::Query,
        PendingV::EndTx => MsqlKind::EndTx,
        PendingV::FastBegin(_) => MsqlKind::Query,
        PendingV::FastQuery => MsqlKind::Query,
        PendingV::FastEndTx(_) => MsqlKind::Query,
    }
}

/// A query's early-release annotations are stripped when the setting forbids
/// them or the query only reads.
pub open spec fn spec_preprocess(conf: SessionConf, q: MsqlQueryV) -> MsqlQueryV {
    if q.early_release.len() > 0 && (conf.disable_early_release || spec_access_pattern(q.tableops)
        == AccessPattern::ReadOnly) {
        MsqlQueryV { sql: q.sql, tableops: q.tableops, early_release: Seq::empty() }
    } else {
        q
    }
}

/// An error reply of a given kind.
pub open spec fn err_of_kind(k: MsqlKind, msg: Seq<char>) -> MsqlResponseV {
    match k {
        MsqlKind::BeginTx => MsqlResponseV::BeginTx(Err(msg)),
        MsqlKind::Query => MsqlResponseV::Query(Err(msg)),
        MsqlKind::EndTx => MsqlResponseV::EndTx(Err(msg)),
    }
}

/// A dispatcher reply body, coerced to the kind the session awaits.
pub open spec fn coerce_kind(k: MsqlKind, r: MsqlResponseV) -> MsqlResponseV {
    if r.kind() == k {
        r
    } else {
        err_of_kind(k, "Invalid response kind from dispatcher"@)
    }
}

/// Accepting a new request: decide to reject it, forward it, or enter a fast
/// path. Only an idle session accepts a request.
pub open spec fn spec_session_request(conf: SessionConf, st: SessionV, req: MsqlV) -> (
    SessionV,
    ActionV,
) {
    match req {
        MsqlV::BeginTx(b) => match spec_final_check(req, st.txvn) {
            LegalityV::Legal => (
                SessionV { pending: PendingV::Begin, ..st },
                ActionV::ToSequencer(b),
            ),
            LegalityV::Critical(m) => (st, ActionV::Reply(MsqlResponseV::BeginTx(Err(m)))),
            LegalityV::Panic(m) => (st, ActionV::Reply(MsqlResponseV::BeginTx(Err(m)))),
        },
        MsqlV::Query(q0) => {
            let q = spec_preprocess(conf, q0);
            if spec_access_pattern(q.tableops) == AccessPattern::Mixed {
                // a mixed query is rejected before any routing, fast path
                // included: the session survives and replies the error
                (
                    st,
                    ActionV::Reply(
                        MsqlResponseV::Query(Err("Does not support query with mixed R and W"@)),
                    ),
                )
            } else if st.txvn is None && (spec_access_pattern(q.tableops)
                == AccessPattern::WriteOnly || conf.disable_single_read_optimization) {
                (
                    SessionV { pending: PendingV::FastBegin(q), ..st },
                    ActionV::ToSequencer(
                        MsqlBeginTxV { tx_name: None, tableops: q.tableops },
                    ),
                )
            } else {
                match spec_final_check(MsqlV::Query(q), st.txvn) {
                    LegalityV::Legal => (
                        SessionV { pending: PendingV::Query, ..st },
                        ActionV::ToDispatcher(MsqlV::Query(q), st.txvn),
                    ),
                    LegalityV::Critical(m) => (st, ActionV::Reply(MsqlResponseV::Query(Err(m)))),
                    LegalityV::Panic(m) => (st, ActionV::Reply(MsqlResponseV::Query(Err(m)))),
                }
            }
        },
        MsqlV::EndTx(e) => match st.txvn {
            None => (
                st,
                ActionV::Reply(MsqlResponseV::EndTx(Err("There is not transaction to end"@))),
            ),
            Some(v) => (
                SessionV { txvn: None, pending: PendingV::EndTx, ..st },
                ActionV::ToDispatcher(MsqlV::EndTx(e), Some(v)),
            ),
        },
    }
}

/// The transaction counter after one transaction finishes.
pub open spec fn txid_bump(txid: u64) -> u64 {
    if txid < u64::MAX {
        (txid + 1) as u64
    } else {
        txid
    }
}

/// Feeding one backend reply to the session: produce the client's reply or
/// the next backend action of the same request.
pub open spec fn spec_session_event(st: SessionV, ev: EventV) -> (SessionV, ActionV) {
    match (st.pending, ev) {
        (PendingV::Begin, EventV::Sequencer(res)) => {
            let idle = SessionV { pending: PendingV::Idle, ..st };
            match res {
                Ok(Some(v)) => (
                    SessionV { txvn: Some(v), ..idle },
                    ActionV::Reply(MsqlResponseV::BeginTx(Ok(Seq::empty()))),
                ),
                Ok(None) => (
                    idle,
                    ActionV::Reply(
                        MsqlResponseV::BeginTx(Err("Can't get a TxVN from Sequencer"@)),
                    ),
                ),
                Err(m) => (idle, ActionV::Reply(MsqlResponseV::BeginTx(Err(m)))),
            }
        },
        (PendingV::Query, EventV::Dispatcher(res)) => {
            let idle = SessionV { pending: PendingV::Idle, ..st };
            match res {
                Ok((body, txvn_res)) => (
                    SessionV { txvn: txvn_res, ..idle },
                    ActionV::Reply(coerce_kind(MsqlKind::Query, body)),
                ),
                Err(m) => (idle, ActionV::Reply(MsqlResponseV::Query(Err(m)))),
            }
        },
        (PendingV::EndTx, EventV::Dispatcher(res)) => {
            let idle = SessionV { pending: PendingV::Idle, ..st };
            match res {
                // after an EndTx the dispatcher returns no handle; one coming
                // back is an invalid reply and the transaction does not count
                Ok((body, None)) => (
                    SessionV {
                        txvn: None,
                        current_txid: txid_bump(st.current_txid),
                        ..idle
                    },
                    ActionV::Reply(coerce_kind(MsqlKind::EndTx, body)),
                ),
                Ok((_, Some(_))) => (
                    SessionV { txvn: None, ..idle },
                    ActionV::Reply(
                        MsqlResponseV::EndTx(
                            Err("Invalid response from dispatcher: EndTx returned a transaction"@),
                        ),
                    ),
                ),
                Err(m) => (idle, ActionV::Reply(MsqlResponseV::EndTx(Err(m)))),
            }
        },
        (PendingV::FastBegin(q), EventV::Sequencer(res)) => {
            match res {
                Ok(Some(v)) => (
                    SessionV { txvn: Some(v), pending: PendingV::FastQuery, ..st },
                    ActionV::ToDispatcher(MsqlV::Query(q), Some(v)),
                ),
                Ok(None) => (
                    SessionV { pending: PendingV::Idle, ..st },
                    ActionV::Reply(
                        MsqlResponseV::Query(Err("Can't get a TxVN from Sequencer"@)),
                    ),
                ),
                Err(m) => (
                    SessionV { pending: PendingV::Idle, ..st },
                    ActionV::Reply(MsqlResponseV::Query(Err(m))),
                ),
            }
        },
        (PendingV::FastQuery, EventV::Dispatcher(res)) => {
            let (resp, txvn2) = match res {
                Ok((body, txvn_res)) => (coerce_kind(MsqlKind::Query, body), txvn_res),
                Err(m) => (MsqlResponseV::Query(Err(m)), st.txvn),
            };
            match txvn2 {
                Some(v) => (
                    SessionV { txvn: None, pending: PendingV::FastEndTx(resp), ..st },
                    ActionV::ToDispatcher(
                        MsqlV::EndTx(
                            MsqlEndTxV { tx_name: None, mode: EndTxMode::Commit },
                        ),
                        Some(v),
                    ),
                ),
                None => (
                    SessionV { txvn: None, pending: PendingV::Idle, ..st },
                    ActionV::Reply(resp),
                ),
            }
        },
        (PendingV::FastEndTx(resp), EventV::Dispatcher(res)) => (
            SessionV {
                pending: PendingV::Idle,
                current_txid: if res is Ok {
                    txid_bump(st.current_txid)
                } else {
                    st.current_txid
                },
                ..st
            },
            ActionV::Reply(coerce_kind(MsqlKind::Query, resp)),
        ),
        // a reply of the wrong sort for the phase: answer the request with an
        // error of its own kind and return to idle
        (p, _) => (
            SessionV { pending: PendingV::Idle, ..st },
            ActionV::Reply(
                err_of_kind(pending_kind(p), "Invalid response kind from backend"@),
            ),
        ),
    }
}

/// Feed events to the session until the current request is answered.
pub open spec fn spec_settle(
    st: SessionV,
    action: ActionV,
    evs: Seq<EventV>,
    fuel: nat,
) -> Option<(SessionV, MsqlResponseV, Seq<EventV>)>
    decreases fuel,
{
    match action {
        ActionV::Reply(r) => Some((st, r, evs)),
        _ => {
            if evs.len() == 0 || fuel == 0 {
                None
            } else {
                let (st2, a2) = spec_session_event(st, evs[0]);
                spec_settle(st2, a2, evs.subrange(1, evs.len() as int), (fuel - 1) as nat)
            }
        },
    }
}

/// The reply sequence of a whole session run: each request is accepted in
/// turn and driven to its reply with the events the surroundings supply.
pub open spec fn spec_session_run(
    conf: SessionConf,
    st: SessionV,
    reqs: Seq<MsqlV>,
    evs: Seq<EventV>,
) -> Option<Seq<MsqlResponseV>>
    decreases reqs.len(),
{
    if reqs.len() == 0 {
        Some(Seq::empty())
    } else {
        let (st1, a) = spec_session_request(conf, st, reqs[0]);
        match spec_settle(st1, a, evs, 3) {
            None => None,
            Some((st2, r, evs2)) => match spec_session_run(
                conf,
                st2,
                reqs.subrange(1, reqs.len() as int),
                evs2,
            ) {
                None => None,
                Some(rs) => Some(seq![r] + rs),
            },
        }
    }
}

/// The single-write fast path is entered only for a query that reads only or
/// writes only: a mixed query is rejected before any routing.
pub proof fn lemma_fast_path_not_mixed(conf: SessionConf, st: SessionV, req: MsqlV)
    requires
        st.pending is Idle,
    ensures
        ({
            let (st1, _) = spec_session_request(conf, st, req);
            match st1.pending {
                PendingV::FastBegin(q) => spec_access_pattern(q.tableops)
                    == AccessPattern::ReadOnly || spec_access_pattern(q.tableops)
                    == AccessPattern::WriteOnly,
                _ => true,
            }
        }),
{
}

/// Accepting a request leaves the session answering for that request's kind:
/// either an immediate reply of the kind, or a pending phase of the kind.
proof fn lemma_request_kind(conf: SessionConf, st: SessionV, req: MsqlV)
    ensures
        ({
            let (st1, a) = spec_session_request(conf, st, req);
            match a {
                ActionV::Reply(r) => r.kind() == req.kind(),
                _ => pending_kind(st1.pending) == req.kind(),
            }
        }),
{
}

/// Each event keeps the session answering for the same request kind.
proof fn lemma_event_kind(st: SessionV, ev: EventV)
    ensures
        ({
            let (st2, a) = spec_session_event(st, ev);
            match a {
                ActionV::Reply(r) => r.kind() == pending_kind(st.pending),
                _ => pending_kind(st2.pending) == pending_kind(st.pending),
            }
        }),
{
}

/// A settled reply answers with the kind the session was answering for.
proof fn lemma_settle_kind(
    st: SessionV,
    action: ActionV,
    evs: Seq<EventV>,
    fuel: nat,
    k: MsqlKind,
)
    requires
        match action {
            ActionV::Reply(r) => r.kind() == k,
            _ => pending_kind(st.pending) == k,
        },
    ensures
        match spec_settle(st, action, evs, fuel) {
            Some((st2, r, evs2)) => r.kind() == k && evs2.len() <= evs.len(),
            None => true,
        },
    decreases fuel,
{
    match action {
        ActionV::Reply(_) => {},
        _ => {
            if evs.len() > 0 && fuel > 0 {
                let (st2, a2) = spec_session_event(st, evs[0]);
                lemma_event_kind(st, evs[0]);
                lemma_settle_kind(st2, a2, evs.subrange(1, evs.len() as int), (fuel - 1) as nat, k);
            }
        },
    }
}

/// For any request sequence a session accepts, the reply sequence has the
/// same length and each reply's variant matches its request's kind.
pub proof fn lemma_session_replies_match(
    conf: SessionConf,
    st: SessionV,
    reqs: Seq<MsqlV>,
    evs: Seq<EventV>,
    replies: Seq<MsqlResponseV>,
)
    requires
        spec_session_run(conf, st, reqs, evs) == Some(replies),
    ensures
        replies.len() == reqs.len(),
        forall|i: int| 0 <= i < reqs.len() ==> (#[trigger] replies[i]).kind() == reqs[i].kind(),
    decreases reqs.len(),
{
    if reqs.len() > 0 {
        let (st1, a) = spec_session_request(conf, st, reqs[0]);
        lemma_request_kind(conf, st, reqs[0]);
        lemma_settle_kind(st1, a, evs, 3, reqs[0].kind());
        let (st2, r, evs2) = spec_settle(st1, a, evs, 3).unwrap();
        let rest = reqs.subrange(1, reqs.len() as int);
        let rs = spec_session_run(conf, st2, rest, evs2).unwrap();
        lemma_session_replies_match(conf, st2, rest, evs2, rs);
        assert(replies =~= seq![r] + rs);
        assert(forall|i: int| 1 <= i < reqs.len() ==> replies[i] == rs[i - 1] && reqs[i] == rest[i
            - 1]);
        assert(replies[0] == r);
    }
}

/// Per-client bookkeeping: the address and how many transactions finished.
#[derive(Debug, PartialEq, Eq)]
pub struct ClientMeta {
    client_addr: String,
    current_txid: u64,
}

impl Clone for ClientMeta {
    fn clone(&self) -> (r: Self)
        ensures
            r == self,
    {
        ClientMeta { client_addr: self.client_addr.clone(), current_txid: self.current_txid }
    }
}

impl ClientMeta {
    pub fn new(client_addr: String) -> (r: Self)
        ensures
            r.spec_client_addr() == client_addr@,
            r.spec_current_txid() == 0u64,
    {
        ClientMeta { client_addr, current_txid: 0 }
    }

    pub closed spec fn spec_client_addr(&self) -> Seq<char> {
        self.client_addr@
    }

    pub closed spec fn spec_current_txid(&self) -> u64 {
        self.current_txid
    }

    pub fn client_addr(&self) -> (r: &String)
        ensures
            r@ == self.spec_client_addr(),
    {
        &self.client_addr
    }

    pub fn current_txid(&self) -> (r: u64)
        ensures
            r == self.spec_current_txid(),
    {
        self.current_txid
    }

    /// One more transaction has finished on this connection.
    pub fn transaction_finished(&mut self)
        ensures
            final(self).spec_client_addr() == old(self).spec_client_addr(),
            final(self).spec_current_txid() == txid_bump(old(self).spec_current_txid()),
    {
        if self.current_txid < u64::MAX {
            self.current_txid = self.current_txid + 1;
        }
    }
}

/// Session-local state: the client and the at-most-one open transaction.
#[derive(Debug)]
pub struct ConnectionState {
    client_meta: ClientMeta,
    cur_txvn: Option<TxVN>,
}

impl ConnectionState {
    pub open spec fn wf(&self) -> bool {
        match self.spec_current_txvn() {
            Some(v) => crate::version::entries_unique(v.txtablevns),
            None => true,
        }
    }

    pub closed spec fn spec_client_meta(&self) -> ClientMeta {
        self.client_meta
    }

    pub closed spec fn spec_current_txvn(&self) -> Option<TxVNV> {
        match self.cur_txvn {
            Some(v) => Some(v@),
            None => None,
        }
    }

    pub fn new(client_addr: String) -> (r: Self)
        ensures
            r.spec_client_meta().spec_client_addr() == client_addr@,
            r.spec_client_meta().spec_current_txid() == 0u64,
            r.spec_current_txvn() is None,
            r.wf(),
    {
        ConnectionState { client_meta: ClientMeta::new(client_addr), cur_txvn: None }
    }

    pub fn client_meta(&self) -> (r: &ClientMeta)
        ensures
            r == self.spec_client_meta(),
    {
        &self.client_meta
    }

    pub fn client_meta_as_mut(&mut self) -> (r: &mut ClientMeta)
        ensures
            *r == old(self).spec_client_meta(),
            final(self).spec_client_meta() == *final(r),
            final(self).spec_current_txvn() == old(self).spec_current_txvn(),
    {
        &mut self.client_meta
    }

    pub fn current_txvn(&self) -> (r: &Option<TxVN>)
        ensures
            (match r {
                Some(v) => Some(v@),
                None => None,
            }) == self.spec_current_txvn(),
    {
        &self.cur_txvn
    }

    /// Swap the open transaction, returning the previous one.
    pub fn replace_txvn(&mut self, new_txvn: Option<TxVN>) -> (r: Option<TxVN>)
        ensures
            final(self).spec_current_txvn() == (match new_txvn {
                Some(v) => Some(v@),
                None => None::<TxVNV>,
            }),
            (match r {
                Some(v) => Some(v@),
                None => None::<TxVNV>,
            }) == old(self).spec_current_txvn(),
            final(self).spec_client_meta() == old(self).spec_client_meta(),
    {
        let old_txvn = self.cur_txvn.take();
        self.cur_txvn = new_txvn;
        old_txvn
    }
}

/// What the Dispatcher hands back for one request: the reply body and the
/// possibly shrunk transaction handle.
#[derive(Debug)]
pub struct DispatcherReply {
    pub msql_res: MsqlResponse,
    pub txvn_res: Option<TxVN>,
}

/// The session's progress on the request in flight.
#[derive(Debug)]
pub enum SessionPending {
    Idle,
    Begin,
    Query,
    EndTx,
    FastBegin(MsqlQuery),
    FastQuery,
    FastEndTx(MsqlResponse),
}

/// What the session asks its surroundings to do next.
#[derive(Debug)]
pub enum SessionAction {
    Reply(MsqlResponse),
    ToSequencer(MsqlBeginTx),
    ToDispatcher(Msql, Option<TxVN>),
}

/// What the surroundings hand back.
#[derive(Debug)]
pub enum SessionEvent {
    Sequencer(Result<Option<TxVN>, String>),
    Dispatcher(Result<DispatcherReply, String>),
}

pub open spec fn txvn_opt_v(o: Option<TxVN>) -> Option<TxVNV> {
    match o {
        Some(v) => Some(v@),
        None => None,
    }
}

impl View for SessionPending {
    type V = PendingV;

    open spec fn view(&self) -> PendingV {
        match self {
            SessionPending::Idle => PendingV::Idle,
            SessionPending::Begin => PendingV::Begin,
            SessionPending::Query => PendingV::Query,
            SessionPending::EndTx => PendingV::EndTx,
            SessionPending::FastBegin(q) => PendingV::FastBegin(q@),
            SessionPending::FastQuery => PendingV::FastQuery,
            SessionPending::FastEndTx(r) => PendingV::FastEndTx(r@),
        }
    }
}

impl View for SessionAction {
    type V = ActionV;

    open spec fn view(&self) -> ActionV {
        match self {
            SessionAction::Reply(r) => ActionV::Reply(r@),
            SessionAction::ToSequencer(b) => ActionV::ToSequencer(b@),
            SessionAction::ToDispatcher(m, t) => ActionV::ToDispatcher(m@, txvn_opt_v(*t)),
        }
    }
}

impl View for SessionEvent {
    type V = EventV;

    open spec fn view(&self) -> EventV {
        match self {
            SessionEvent::Sequencer(Ok(t)) => EventV::Sequencer(Ok(txvn_opt_v(*t))),
            SessionEvent::Sequencer(Err(m)) => EventV::Sequencer(Err(m@)),
            SessionEvent::Dispatcher(Ok(r)) => EventV::Dispatcher(
                Ok((r.msql_res@, txvn_opt_v(r.txvn_res))),
            ),
            SessionEvent::Dispatcher(Err(m)) => EventV::Dispatcher(Err(m@)),
        }
    }
}

/// Whether the transaction handles an event carries are well formed.
pub open spec fn event_wf(ev: EventV) -> bool {
    match ev {
        EventV::Sequencer(Ok(Some(v))) => crate::version::entries_unique(v.txtablevns),
        EventV::Dispatcher(Ok((_, Some(v)))) => crate::version::entries_unique(v.txtablevns),
        _ => true,
    }
}

/// One client's session, strictly serial: accepts a request only when idle,
/// then consumes backend events until it can reply.
#[derive(Debug)]
pub struct Session {
    conn: ConnectionState,
    pending: SessionPending,
}

impl View for Session {
    type V = SessionV;

    closed spec fn view(&self) -> SessionV {
        SessionV {
            client_addr: self.conn.spec_client_meta().spec_client_addr(),
            current_txid: self.conn.spec_client_meta().spec_current_txid(),
            txvn: self.conn.spec_current_txvn(),
            pending: self.pending@,
        }
    }
}

/// An error reply whose variant is the given kind.
fn exec_err_of_kind(k: MsqlKind, msg: &str) -> (r: MsqlResponse)
    ensures
        r@ == err_of_kind(k, msg@),
{
    match k {
        MsqlKind::BeginTx => MsqlResponse::BeginTx(Err(msg.to_owned())),
        MsqlKind::Query => MsqlResponse::Query(Err(msg.to_owned())),
        MsqlKind::EndTx => MsqlResponse::EndTx(Err(msg.to_owned())),
    }
}

/// A backend reply body, coerced to the kind the session awaits.
fn exec_coerce_kind(k: MsqlKind, r: MsqlResponse) -> (o: MsqlResponse)
    ensures
        o@ == coerce_kind(k, r@),
{
    let matches_kind = match (&r, k) {
        (MsqlResponse::BeginTx(_), MsqlKind::BeginTx) => true,
        (MsqlResponse::Query(_), MsqlKind::Query) => true,
        (MsqlResponse::EndTx(_), MsqlKind::EndTx) => true,
        _ => false,
    };
    if matches_kind {
        r
    } else {
        exec_err_of_kind(k, "Invalid response kind from dispatcher")
    }
}

impl Session {
    pub open spec fn wf(&self) -> bool {
        match self@.txvn {
            Some(v) => crate::version::entries_unique(v.txtablevns),
            None => true,
        }
    }

    pub fn new(client_addr: String) -> (r: Self)
        ensures
            r@.client_addr == client_addr@,
            r@.current_txid == 0u64,
            r@.txvn is None,
            r@.pending is Idle,
            r.wf(),
    {
        Session { conn: ConnectionState::new(client_addr), pending: SessionPending::Idle }
    }

    pub fn connection_state(&self) -> (r: &ConnectionState)
        ensures
            r.spec_current_txvn() == self@.txvn,
            r.spec_client_meta().spec_client_addr() == self@.client_addr,
            r.spec_client_meta().spec_current_txid() == self@.current_txid,
    {
        &self.conn
    }

    /// Accept one request: reject it, forward it, or enter a fast path.
    pub fn session_request(self, conf: SessionConf, msql: Msql) -> (r: (Self, SessionAction))
        requires
            self@.pending is Idle,
            self.wf(),
            msql.wf(),
        ensures
            ((r.0)@, (r.1)@) == spec_session_request(conf, self@, msql@),
            r.0.wf(),
    {
        let Session { mut conn, pending } = self;
        match msql {
            Msql::BeginTx(b) => {
                match crate::legality::Legality::final_check(
                    &Msql::BeginTx(b.clone()),
                    conn.current_txvn(),
                ) {
                    crate::legality::Legality::Legal => (
                        Session { conn, pending: SessionPending::Begin },
                        SessionAction::ToSequencer(b),
                    ),
                    crate::legality::Legality::Critical(m) => (
                        Session { conn, pending: SessionPending::Idle },
                        SessionAction::Reply(MsqlResponse::BeginTx(Err(m))),
                    ),
                    crate::legality::Legality::Panic(m) => (
                        Session { conn, pending: SessionPending::Idle },
                        SessionAction::Reply(MsqlResponse::BeginTx(Err(m))),
                    ),
                }
            },
            Msql::Query(q0) => {
                let mut q = q0;
                if q.has_early_release() && ({
                    let ro = q.access_pattern().is_read_only();
                    conf.disable_early_release || ro
                }) {
                    q.drop_early_release();
                    proof {
                        assert(q@.early_release =~= Seq::<Seq<char>>::empty());
                    }
                }
                let no_txvn = conn.current_txvn().is_none();
                if q.access_pattern().is_mixed() {
                    // a mixed query never reaches the fast path: reject it
                    // here, as the legality checker would
                    (
                        Session { conn, pending: SessionPending::Idle },
                        SessionAction::Reply(
                            MsqlResponse::Query(
                                Err("Does not support query with mixed R and W".to_owned()),
                            ),
                        ),
                    )
                } else if no_txvn && (q.access_pattern().is_write_only()
                    || conf.disable_single_read_optimization) {
                    let begin = MsqlBeginTx::from_tableops(q.tableops().clone());
                    (
                        Session { conn, pending: SessionPending::FastBegin(q) },
                        SessionAction::ToSequencer(begin),
                    )
                } else {
                    match crate::legality::Legality::final_check(
                        &Msql::Query(q.clone()),
                        conn.current_txvn(),
                    ) {
                        crate::legality::Legality::Legal => {
                            let txvn = clone_txvn_opt(conn.current_txvn());
                            (
                                Session { conn, pending: SessionPending::Query },
                                SessionAction::ToDispatcher(Msql::Query(q), txvn),
                            )
                        },
                        crate::legality::Legality::Critical(m) => (
                            Session { conn, pending: SessionPending::Idle },
                            SessionAction::Reply(MsqlResponse::Query(Err(m))),
                        ),
                        crate::legality::Legality::Panic(m) => (
                            Session { conn, pending: SessionPending::Idle },
                            SessionAction::Reply(MsqlResponse::Query(Err(m))),
                        ),
                    }
                }
            },
            Msql::EndTx(e) => {
                let taken = conn.replace_txvn(None);
                match taken {
                    None => (
                        Session { conn, pending: SessionPending::Idle },
                        SessionAction::Reply(
                            MsqlResponse::EndTx(
                                Err("There is not transaction to end".to_owned()),
                            ),
                        ),
                    ),
                    Some(v) => (
                        Session { conn, pending: SessionPending::EndTx },
                        SessionAction::ToDispatcher(Msql::EndTx(e), Some(v)),
                    ),
                }
            },
        }
    }

    /// Feed one backend reply: produce the client's reply or the next backend
    /// action of the same request.
    pub fn session_event(self, ev: SessionEvent) -> (r: (Self, SessionAction))
        requires
            self.wf(),
            event_wf(ev@),
        ensures
            ((r.0)@, (r.1)@) == spec_session_event(self@, ev@),
            r.0.wf(),
    {
        let Session { mut conn, pending } = self;
        match (pending, ev) {
            (SessionPending::Begin, SessionEvent::Sequencer(res)) => {
                match res {
                    Ok(Some(v)) => {
                        conn.replace_txvn(Some(v));
                        (
                            Session { conn, pending: SessionPending::Idle },
                            SessionAction::Reply(MsqlResponse::begintx_ok()),
                        )
                    },
                    Ok(None) => (
                        Session { conn, pending: SessionPending::Idle },
                        SessionAction::Reply(
                            MsqlResponse::begintx_err(
                                "Can't get a TxVN from Sequencer".to_owned(),
                            ),
                        ),
                    ),
                    Err(m) => (
                        Session { conn, pending: SessionPending::Idle },
                        SessionAction::Reply(MsqlResponse::begintx_err(m)),
                    ),
                }
            },
            (SessionPending::Query, SessionEvent::Dispatcher(res)) => {
                match res {
                    Ok(reply) => {
                        conn.replace_txvn(reply.txvn_res);
                        (
                            Session { conn, pending: SessionPending::Idle },
                            SessionAction::Reply(
                                exec_coerce_kind(MsqlKind::Query, reply.msql_res),
                            ),
                        )
                    },
                    Err(m) => (
                        Session { conn, pending: SessionPending::Idle },
                        SessionAction::Reply(MsqlResponse::query_err(m)),
                    ),
                }
            },
            (SessionPending::EndTx, SessionEvent::Dispatcher(res)) => {
                match res {
                    Ok(reply) => {
                        match reply.txvn_res {
                            None => {
                                conn.client_meta_as_mut().transaction_finished();
                                conn.replace_txvn(None);
                                (
                                    Session { conn, pending: SessionPending::Idle },
                                    SessionAction::Reply(
                                        exec_coerce_kind(MsqlKind::EndTx, reply.msql_res),
                                    ),
                                )
                            },
                            Some(_) => {
                                conn.replace_txvn(None);
                                (
                                    Session { conn, pending: SessionPending::Idle },
                                    SessionAction::Reply(
                                        MsqlResponse::endtx_err(
                                            "Invalid response from dispatcher: EndTx returned a transaction".to_owned(),
                                        ),
                                    ),
                                )
                            },
                        }
                    },
                    Err(m) => (
                        Session { conn, pending: SessionPending::Idle },
                        SessionAction::Reply(MsqlResponse::endtx_err(m)),
                    ),
                }
            },
            (SessionPending::FastBegin(q), SessionEvent::Sequencer(res)) => {
                match res {
                    Ok(Some(v)) => {
                        conn.replace_txvn(Some(v.clone()));
                        (
                            Session { conn, pending: SessionPending::FastQuery },
                            SessionAction::ToDispatcher(Msql::Query(q), Some(v)),
                        )
                    },
                    Ok(None) => (
                        Session { conn, pending: SessionPending::Idle },
                        SessionAction::Reply(
                            MsqlResponse::query_err(
                                "Can't get a TxVN from Sequencer".to_owned(),
                            ),
                        ),
                    ),
                    Err(m) => (
                        Session { conn, pending: SessionPending::Idle },
                        SessionAction::Reply(MsqlResponse::query_err(m)),
                    ),
                }
            },
            (SessionPending::FastQuery, SessionEvent::Dispatcher(res)) => {
                let resp: MsqlResponse = match &res {
                    Ok(reply) => exec_coerce_kind(MsqlKind::Query, reply.msql_res.clone()),
                    Err(m) => MsqlResponse::query_err(m.clone()),
                };
                match res {
                    Ok(reply) => {
                        conn.replace_txvn(reply.txvn_res);
                    },
                    Err(_) => {},
                }
                let txvn2 = conn.replace_txvn(None);
                match txvn2 {
                    Some(v) => (
                        Session { conn, pending: SessionPending::FastEndTx(resp) },
                        SessionAction::ToDispatcher(Msql::EndTx(MsqlEndTx::commit()), Some(v)),
                    ),
                    None => (
                        Session { conn, pending: SessionPending::Idle },
                        SessionAction::Reply(resp),
                    ),
                }
            },
            (SessionPending::FastEndTx(resp), SessionEvent::Dispatcher(res)) => {
                if res.is_ok() {
                    conn.client_meta_as_mut().transaction_finished();
                }
                (
                    Session { conn, pending: SessionPending::Idle },
                    SessionAction::Reply(exec_coerce_kind(MsqlKind::Query, resp)),
                )
            },
            (p, _) => {
                let k = match &p {
                    SessionPending::Idle => MsqlKind::Query,
                    SessionPending::Begin => MsqlKind::BeginTx,
                    SessionPending::Query => MsqlKind::Query,
                    SessionPending::EndTx => MsqlKind::EndTx,
                    SessionPending::FastBegin(_) => MsqlKind::Query,
                    SessionPending::FastQuery => MsqlKind::Query,
                    SessionPending::FastEndTx(_) => MsqlKind::Query,
                };
                (
                    Session { conn, pending: SessionPending::Idle },
                    SessionAction::Reply(
                        exec_err_of_kind(k, "Invalid response kind from backend"),
                    ),
                )
            },
        }
    }
}

/// A copy of the open transaction handle, for handing to the Dispatcher.
fn clone_txvn_opt(t: &Option<TxVN>) -> (r: Option<TxVN>)
    ensures
        txvn_opt_v(r) == (match t {
            Some(v) => Some(v@),
            None => None::<TxVNV>,
        }),
{
    match t {
        Some(v) => Some(v.clone()),
        None => None,
    }
}

} // verus!
