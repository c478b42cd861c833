//! The admin command channel's vocabulary: raw ASCII lines matched without
//! regard to case.

use vstd::prelude::*;

use crate::msqltext::lower_code;

verus! {

/// Two ASCII texts are equal up to ASCII case.
pub open spec fn caseless_eq(a: Seq<char>, b: Seq<char>) -> bool {
    a.len() == b.len() && (forall|i: int|
        0 <= i < a.len() ==> lower_code(#[trigger] a[i]) == lower_code(#[trigger] b[i]))
}

/// Relies on unicase's `eq`: it compares case-insensitively, and on ASCII
/// input its folding is exactly ASCII case folding.
#[verifier::external_body]
fn unicase_eq(a: &str, b: &str) -> (r: bool)
    requires
        a.is_ascii(),
        b.is_ascii(),
    ensures
        r == caseless_eq(a@, b@),
{
    unicase::eq(a, b)
}

/// What an admin line asks for.
#[derive(Clone, Copy, Debug, PartialEq, Eq, Structural)]
pub enum AdminCommand {
    /// Close the Sequencer's admission gate.
    Block,
    /// Open the Sequencer's admission gate.
    Unblock,
    /// Shut the Scheduler down in order.
    Kill,
    /// Dump the performance records.
    Perf,
    /// Anything else: echo the help text.
    Unknown,
}

/// What a command line means once matched.
pub open spec fn spec_parse_admin(msg: Seq<char>) -> AdminCommand {
    if caseless_eq(msg, "block"@) {
        AdminCommand::Block
    } else if caseless_eq(msg, "unblock"@) {
        AdminCommand::Unblock
    } else if caseless_eq(msg, "kill"@) || caseless_eq(msg, "exit"@) || caseless_eq(msg, "quit"@) {
        AdminCommand::Kill
    } else if caseless_eq(msg, "perf"@) {
        AdminCommand::Perf
    } else {
        AdminCommand::Unknown
    }
}

/// Whether the scheduler keeps serving after answering this command.
pub open spec fn spec_admin_continues(cmd: AdminCommand) -> bool {
    cmd != AdminCommand::Kill
}

/// Match one admin line, without regard to ASCII case. Non-ASCII lines are
/// unknown commands.
pub fn parse_admin_command(msg: &str) -> (r: AdminCommand)
    ensures
        msg.is_ascii() ==> r == spec_parse_admin(msg@),
        !msg.is_ascii() ==> r == AdminCommand::Unknown,
{
    if !msg.is_ascii() {
        return AdminCommand::Unknown;
    }
    proof {
        reveal_strlit("block");
        reveal_strlit("unblock");
        reveal_strlit("kill");
        reveal_strlit("exit");
        reveal_strlit("quit");
        reveal_strlit("perf");
    }
    if unicase_eq(msg, "block") {
        AdminCommand::Block
    } else if unicase_eq(msg, "unblock") {
        AdminCommand::Unblock
    } else if unicase_eq(msg, "kill") || unicase_eq(msg, "exit") || unicase_eq(msg, "quit") {
        AdminCommand::Kill
    } else if unicase_eq(msg, "perf") {
        AdminCommand::Perf
    } else {
        AdminCommand::Unknown
    }
}

/// Whether the scheduler keeps serving after answering this command.
pub fn admin_continues(cmd: AdminCommand) -> (r: bool)
    ensures
        r == spec_admin_continues(cmd),
{
    !matches!(cmd, AdminCommand::Kill)
}

} // verus!
