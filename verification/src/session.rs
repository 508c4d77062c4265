//! The broker's response and error vocabulary: the embedding program
//! performs the I/O of an evaluation — spawning a child, or the connect,
//! framed write and two reads of a persistent call — and turns each
//! outcome into the final result through these functions.

use crate::text::{lossy_decode, utf8_lossy};
use vstd::prelude::*;
use vstd::string::StringExecFns;
use vstd::utf8::{decode_utf8, valid_utf8};

verus! {

/// The result when the reply-length read outlives the client-side deadline:
/// rendered like any other evaluator response, not as a transport error.
pub fn timeout_response() -> (r: Result<String, String>)
    ensures
        r matches Ok(s) && s@ == "time limit exceeded"@,
{
    Ok("time limit exceeded".to_owned())
}

/// The result for a fully read response body: the payload decoded as UTF-8,
/// invalid sequences replaced.
pub fn payload_response(body: &[u8]) -> (r: Result<String, String>)
    ensures
        r matches Ok(s) && s@ == lossy_decode(body@),
        valid_utf8(body@) ==> (r matches Ok(s) && s@ == decode_utf8(body@)),
{
    Ok(utf8_lossy(body))
}

/// Where the exec backend failed before its child's output could be
/// collected.
pub enum ExecFailure {
    /// The child could not be spawned.
    Spawn,
    /// The spawned child exposed no stdin handle.
    MissingStdin,
    /// Writing the wrapped code to the child's stdin failed.
    StdinWrite,
    /// Waiting for the child to finish failed.
    Wait,
}

/// The error text for each way the exec backend can fail.
pub open spec fn spec_exec_error(failure: ExecFailure, detail: Seq<char>) -> Seq<char> {
    match failure {
        ExecFailure::Spawn => "failed to exec: "@ + detail,
        ExecFailure::MissingStdin => "stdin missing"@,
        ExecFailure::StdinWrite => "failed to write to stdin: "@ + detail,
        ExecFailure::Wait => "failed to wait for process: "@ + detail,
    }
}

/// An exec-backend failure, always an `Err` with its exact text.
pub fn exec_error(failure: ExecFailure, detail: &str) -> (r: Result<String, String>)
    ensures
        r matches Err(e) && e@ == spec_exec_error(failure, detail@),
{
    match failure {
        ExecFailure::Spawn => {
            let mut e = "failed to exec: ".to_owned();
            e.append(detail);
            Err(e)
        },
        ExecFailure::MissingStdin => Err("stdin missing".to_owned()),
        ExecFailure::StdinWrite => {
            let mut e = "failed to write to stdin: ".to_owned();
            e.append(detail);
            Err(e)
        },
        ExecFailure::Wait => {
            let mut e = "failed to wait for process: ".to_owned();
            e.append(detail);
            Err(e)
        },
    }
}

/// A transport failure: `error <what>: <detail>`, always an `Err`.
pub fn transport_error(what: &str, detail: &str) -> (r: Result<String, String>)
    ensures
        r matches Err(e) && e@ == "error "@ + what@ + ": "@ + detail@,
{
    let mut e = "error ".to_owned();
    e.append(what);
    e.append(": ");
    e.append(detail);
    proof {
        assert(e@ =~= "error "@ + what@ + ": "@ + detail@);
    }
    Err(e)
}

} // verus!
