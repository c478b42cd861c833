//! The legality checker: the single authority that decides whether a request
//! is admissible in the session's current transaction state.

use vstd::prelude::*;

use crate::msql::{AccessPattern, Msql, MsqlQuery, MsqlQueryV, MsqlV, spec_access_pattern};
use crate::version::{
    TxVN, TxVNV, ertables_covered, mismatch_message, spec_mismatch_message, tableops_covered,
};

verus! {

/// Mathematical value of a `Legality`.
pub enum LegalityV {
    Legal,
    Critical(Seq<char>),
    Panic(Seq<char>),
}

/// The legality level of a given request.
#[derive(Debug, PartialEq, Eq)]
pub enum Legality {
    /// Legal.
    Legal,
    /// The request must be rejected, but the session stays alive.
    Critical(String),
    /// The request must be rejected and signals a programming error.
    Panic(String),
}

impl View for Legality {
    type V = LegalityV;

    open spec fn view(&self) -> LegalityV {
        match self {
            Legality::Legal => LegalityV::Legal,
            Legality::Critical(m) => LegalityV::Critical(m@),
            Legality::Panic(m) => LegalityV::Panic(m@),
        }
    }
}

/// What `final_check` decides for a query when a transaction is open.
pub open spec fn spec_check_query_in_tx(query: MsqlQueryV, txvn: TxVNV) -> LegalityV {
    match spec_access_pattern(query.tableops) {
        AccessPattern::Mixed => LegalityV::Critical("Does not support query with mixed R and W"@),
        AccessPattern::ReadOnly => if !tableops_covered(txvn.txtablevns, query.tableops) {
            LegalityV::Critical(spec_mismatch_message(txvn.txtablevns, query.tableops))
        } else if query.early_release.len() > 0 {
            LegalityV::Critical("Does not support early release on R queries"@)
        } else {
            LegalityV::Legal
        },
        AccessPattern::WriteOnly => if !tableops_covered(txvn.txtablevns, query.tableops) {
            LegalityV::Critical(spec_mismatch_message(txvn.txtablevns, query.tableops))
        } else if !ertables_covered(txvn.txtablevns, query.early_release) {
            LegalityV::Critical(
                "Tables marked for early release was not declared in the BeginTx or has already been released"@,
            )
        } else {
            LegalityV::Legal
        },
    }
}

/// What `final_check` decides, for every request and session state.
pub open spec fn spec_final_check(msql: MsqlV, txvn: Option<TxVNV>) -> LegalityV {
    match msql {
        MsqlV::BeginTx(_) => if txvn is Some {
            LegalityV::Critical(
                "Cannot begin new transaction because previous transaction not finished yet."@,
            )
        } else {
            LegalityV::Legal
        },
        MsqlV::Query(query) => match txvn {
            Some(v) => spec_check_query_in_tx(query, v),
            None => match spec_access_pattern(query.tableops) {
                AccessPattern::Mixed => LegalityV::Critical(
                    "Does not support query with mixed R and W"@,
                ),
                AccessPattern::ReadOnly => LegalityV::Legal,
                AccessPattern::WriteOnly => LegalityV::Panic(
                    "Query does not have a valid BeginTx"@,
                ),
            },
        },
        MsqlV::EndTx(_) => if txvn is None {
            LegalityV::Critical("There is not transaction to end"@)
        } else {
            LegalityV::Legal
        },
    }
}

/// The view of the transaction state an `Option<TxVN>` holds.
pub open spec fn txvn_opt_view(txvn_opt: Option<TxVN>) -> Option<TxVNV> {
    match txvn_opt {
        Some(v) => Some(v@),
        None => None,
    }
}

impl Legality {
    /// Returns a `Legality::Legal` variant.
    pub fn legal() -> (r: Self)
        ensures
            r@ == LegalityV::Legal,
    {
        Legality::Legal
    }

    /// Returns a `Legality::Critical` variant with the argument.
    pub fn critical(s: &str) -> (r: Self)
        ensures
            r@ == LegalityV::Critical(s@),
    {
        Legality::Critical(s.to_owned())
    }

    /// Returns a `Legality::Panic` variant with the argument.
    pub fn panic(s: &str) -> (r: Self)
        ensures
            r@ == LegalityV::Panic(s@),
    {
        Legality::Panic(s.to_owned())
    }

    /// Check whether the tables within the query match the versions the
    /// transaction holds.
    pub fn check_tableops_match_txvn(query: &MsqlQuery, txvn: &TxVN) -> (r: Result<(), Legality>)
        requires
            txvn.wf(),
        ensures
            r is Ok <==> tableops_covered(txvn@.txtablevns, query@.tableops),
            r is Err ==> r->Err_0@ == LegalityV::Critical(
                spec_mismatch_message(txvn@.txtablevns, query@.tableops),
            ),
    {
        match txvn.get_from_tableops(query.tableops()) {
            Ok(_) => Ok(()),
            Err(_) => Err(
                Legality::Critical(mismatch_message(txvn, query.tableops())),
            ),
        }
    }

    /// A single point for query diagnostics: decides, for every request and
    /// current transaction state, whether the request is legal, must be
    /// rejected, or signals a programming error.
    pub fn final_check(msql: &Msql, txvn_opt: &Option<TxVN>) -> (r: Self)
        requires
            match txvn_opt {
                Some(v) => v.wf(),
                None => true,
            },
        ensures
            r@ == spec_final_check(msql@, txvn_opt_view(*txvn_opt)),
    {
        match msql {
            Msql::BeginTx(_begintx) => {
                if txvn_opt.is_some() {
                    Self::critical(
                        "Cannot begin new transaction because previous transaction not finished yet.",
                    )
                } else {
                    Self::legal()
                }
            },
            Msql::Query(query) => {
                match txvn_opt {
                    Some(txvn) => {
                        match query.tableops().access_pattern() {
                            AccessPattern::Mixed => Self::critical(
                                "Does not support query with mixed R and W",
                            ),
                            AccessPattern::ReadOnly => {
                                if let Err(err) = Self::check_tableops_match_txvn(query, txvn) {
                                    err
                                } else if query.has_early_release() {
                                    Self::critical("Does not support early release on R queries")
                                } else {
                                    Self::legal()
                                }
                            },
                            AccessPattern::WriteOnly => {
                                if let Err(err) = Self::check_tableops_match_txvn(query, txvn) {
                                    err
                                } else if check_ertables(query, txvn).is_err() {
                                    Self::critical(
                                        "Tables marked for early release was not declared in the BeginTx or has already been released",
                                    )
                                } else {
                                    Self::legal()
                                }
                            },
                        }
                    },
                    None => {
                        match query.tableops().access_pattern() {
                            AccessPattern::Mixed => Self::critical(
                                "Does not support query with mixed R and W",
                            ),
                            AccessPattern::ReadOnly => Self::legal(),
                            AccessPattern::WriteOnly => Self::panic(
                                "Query does not have a valid BeginTx",
                            ),
                        }
                    },
                }
            },
            Msql::EndTx(_endtx) => {
                if txvn_opt.is_none() {
                    Self::critical("There is not transaction to end")
                } else {
                    Self::legal()
                }
            },
        }
    }
}

/// Whether every early-release name of the query is held as a write.
fn check_ertables(query: &MsqlQuery, txvn: &TxVN) -> (r: Result<(), ()>)
    requires
        txvn.wf(),
    ensures
        r is Ok <==> ertables_covered(txvn@.txtablevns, query@.early_release),
{
    match txvn.get_from_ertables(query.early_release_tables()) {
        Ok(_) => Ok(()),
        Err(_) => Err(()),
    }
}

} // verus!
