//! The failure taxonomy of the report pipeline. Every failure is terminal
//! for a run; each carries exactly the data its user-visible message needs.

use vstd::prelude::*;
use vstd::string::*;
use crate::bytes::{dec_spec, push_bytes, push_dec_u64, push_str};

verus! {

/// What can end a report run early.
#[derive(Debug)]
pub enum ReportError {
    /// The working directory is not inside a repository, or the tool is unavailable.
    NotARepository,
    /// A history query failed or produced undecodable output.
    HistoryQueryFailed,
    /// An explicit reference matched no commit hash; carries the reference.
    CommitNotFound(Vec<u8>),
    /// The operator abandoned the interactive pick.
    SelectionAborted,
    /// The generation endpoint could not be reached; carries the model name.
    AiServiceUnreachable(Vec<u8>),
    /// The generation endpoint answered with a non-success status;
    /// carries the status and the model name.
    AiServiceError(u16, Vec<u8>),
    /// The generation endpoint's answer had no usable text field;
    /// carries the model name.
    AiResponseMalformed(Vec<u8>),
}

impl ReportError {
    /// The user-visible message for this failure.
    pub open spec fn message_spec(&self) -> Seq<u8> {
        match self {
            ReportError::NotARepository => "Not in a git repository".spec_bytes(),
            ReportError::HistoryQueryFailed => "Failed to query commit history".spec_bytes(),
            ReportError::CommitNotFound(r) => "Commit '".spec_bytes() + r@
                + "' not found".spec_bytes(),
            ReportError::SelectionAborted => "Failed to get user selection".spec_bytes(),
            ReportError::AiServiceUnreachable(m) => "Failed to connect to Ollama with model '".spec_bytes()
                + m@ + "'. Make sure Ollama is running on localhost:11434".spec_bytes(),
            ReportError::AiServiceError(s, m) => "Ollama API request failed with status: ".spec_bytes()
                + dec_spec(*s as nat) + " for model '".spec_bytes() + m@ + "'".spec_bytes(),
            ReportError::AiResponseMalformed(m) => "Invalid response format from Ollama for model '".spec_bytes()
                + m@ + "'".spec_bytes(),
        }
    }

    /// Renders the user-visible message.
    pub fn message(&self) -> (r: Vec<u8>)
        ensures
            r@ == self.message_spec(),
    {
        let mut out: Vec<u8> = Vec::new();
        match self {
            ReportError::NotARepository => {
                push_str(&mut out, "Not in a git repository");
            },
            ReportError::HistoryQueryFailed => {
                push_str(&mut out, "Failed to query commit history");
            },
            ReportError::CommitNotFound(r) => {
                push_str(&mut out, "Commit '");
                push_bytes(&mut out, r.as_slice());
                push_str(&mut out, "' not found");
            },
            ReportError::SelectionAborted => {
                push_str(&mut out, "Failed to get user selection");
            },
            ReportError::AiServiceUnreachable(m) => {
                push_str(&mut out, "Failed to connect to Ollama with model '");
                push_bytes(&mut out, m.as_slice());
                push_str(&mut out, "'. Make sure Ollama is running on localhost:11434");
            },
            ReportError::AiServiceError(s, m) => {
                push_str(&mut out, "Ollama API request failed with status: ");
                push_dec_u64(&mut out, *s as u64);
                push_str(&mut out, " for model '");
                push_bytes(&mut out, m.as_slice());
                push_str(&mut out, "'");
            },
            ReportError::AiResponseMalformed(m) => {
                push_str(&mut out, "Invalid response format from Ollama for model '");
                push_bytes(&mut out, m.as_slice());
                push_str(&mut out, "'");
            },
        }
        proof {
            assert(out@ =~= self.message_spec());
        }
        out
    }
}

/// The failure message for a non-success service status holds both the
/// numeric status and the requested model name, verbatim.
pub proof fn lemma_status_message_contains(status: u16, model: Vec<u8>)
    ensures
        ({
            let msg = ReportError::AiServiceError(status, model).message_spec();
            let d = dec_spec(status as nat);
            exists|i: int|
                0 <= i && i + d.len() <= msg.len() && #[trigger] msg.subrange(
                    i,
                    i + d.len() as int,
                ) == d
        }),
        ({
            let msg = ReportError::AiServiceError(status, model).message_spec();
            exists|i: int|
                0 <= i && i + model@.len() <= msg.len() && #[trigger] msg.subrange(
                    i,
                    i + model@.len() as int,
                ) == model@
        }),
{
    let msg = ReportError::AiServiceError(status, model).message_spec();
    let a = "Ollama API request failed with status: ".spec_bytes();
    let d = dec_spec(status as nat);
    let b = " for model '".spec_bytes();
    let c = "'".spec_bytes();
    assert(msg == a + d + b + model@ + c);
    let i1 = a.len() as int;
    assert(msg.subrange(i1, i1 + d.len() as int) =~= d);
    let i2 = (a.len() + d.len() + b.len()) as int;
    assert(msg.subrange(i2, i2 + model@.len() as int) =~= model@);
}

} // verus!
