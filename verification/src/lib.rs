//! Verified core of a three-tier transaction coordinator: a Sequencer that
//! hands out per-table version numbers, a Scheduler session machine with a
//! legality checker, a Dispatcher that places reads and fans out writes by
//! version readiness, and the per-replica version bookkeeping they share.

pub mod msql;
pub mod admin;
pub mod dbvn;
pub mod dispatch;
pub mod executor;
pub mod frame;
pub mod legality;
pub mod manager;
pub mod msqltext;
pub mod proxies;
pub mod sequencer;
pub mod transceiver;
pub mod session;
pub mod version;

