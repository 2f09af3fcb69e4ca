//! Why the connection to the control plane failed, in words.

use vstd::prelude::*;

use crate::text::{contains_text, has_part, opt_view};

verus! {

/// What a call to the control plane was answered in place of a result.
#[derive(Clone, Debug, PartialEq, Eq)]
pub struct StatusReport {
    /// The code, in words.
    pub code: String,
    pub message: String,
    /// The message in quotes, with what cannot be shown escaped.
    pub quoted_message: String,
    /// The details, where they are text.
    pub details: Option<String>,
    /// What lies at the bottom of it.
    pub source: Option<String>,
}

/// A hint, where a text names a fault that has a usual cause.
pub open spec fn hint(text: Seq<char>, fault: Seq<char>, hint: Seq<char>) -> Seq<char> {
    if has_part(text, fault) {
        hint
    } else {
        Seq::empty()
    }
}

/// The details, where there are any.
pub open spec fn details_text(details: Option<Seq<char>>) -> Seq<char> {
    match details {
        Some(d) => if d.len() > 0 {
            ", details: "@ + d
        } else {
            Seq::empty()
        },
        None => Seq::empty(),
    }
}

/// What lies at the bottom, where it is known.
pub open spec fn source_text(source: Option<Seq<char>>) -> Seq<char> {
    match source {
        Some(s) => ", source: "@ + s + hint(
            s,
            "Temporary failure in name resolution"@,
            " (hint: is the DNS server reachable?)"@,
        ),
        None => Seq::empty(),
    }
}

/// The answer in words, with hints.
pub open spec fn status_text(status: StatusReport) -> Seq<char> {
    "status: "@ + status.code@ + ", message: "@ + status.quoted_message@ + hint(
        status.message@,
        "authentication failure"@,
        " (hint: check the control plane logs for more information)"@,
    ) + details_text(opt_view(status.details)) + source_text(opt_view(status.source))
}

/// The answer in words, with hints.
pub fn display_status(status: &StatusReport) -> (r: String)
    ensures
        r@ == status_text(*status),
{
    let mut out: String = "status: ".to_owned();
    out.append(status.code.as_str());
    out.append(", message: ");
    out.append(status.quoted_message.as_str());
    let ghost start = out@;
    if contains_text(status.message.as_str(), "authentication failure") {
        out.append(" (hint: check the control plane logs for more information)");
    } else {
        assert(start + Seq::<char>::empty() =~= start);
    }
    let ghost second = out@;
    assert(second + Seq::<char>::empty() =~= second);
    if let Some(details) = &status.details {
        if !details.is_empty() {
            out.append(", details: ");
            out.append(details.as_str());
            assert(out@ =~= second + details_text(opt_view(status.details)));
        }
    }
    let ghost third = out@;
    assert(third + Seq::<char>::empty() =~= third);
    if let Some(source) = &status.source {
        out.append(", source: ");
        out.append(source.as_str());
        if contains_text(source.as_str(), "Temporary failure in name resolution") {
            out.append(" (hint: is the DNS server reachable?)");
        }
        assert(out@ =~= third + source_text(opt_view(status.source)));
    }
    out
}

/// Why the control plane cannot be asked.
#[derive(Clone, Debug, PartialEq, Eq)]
pub enum Error {
    /// A call was answered by a status.
    GrpcStatus(StatusReport),
    /// The connection to this address was answered by a status.
    Connection(String, StatusReport),
    /// A request could not be handed over.
    RequestFailure(String),
    /// A resource could not be asked for.
    OnDemandSend,
    TLSError(String),
}

/// The failure in words.
pub open spec fn error_text(error: Error) -> Seq<char> {
    match error {
        Error::GrpcStatus(status) => "gRPC error "@ + status_text(status),
        Error::Connection(address, status) => "gRPC connection error connecting to "@ + address@
            + ": "@ + status_text(status),
        Error::RequestFailure(text) => text@,
        Error::OnDemandSend => "failed to send on demand resource"@,
        Error::TLSError(text) => "TLS Error: "@ + text@,
    }
}

impl Error {
    /// The failure in words.
    pub fn message(&self) -> (r: String)
        ensures
            r@ == error_text(*self),
    {
        match self {
            Error::GrpcStatus(status) => {
                let mut out: String = "gRPC error ".to_owned();
                let text: String = display_status(status);
                out.append(text.as_str());
                out
            },
            Error::Connection(address, status) => {
                let mut out: String = "gRPC connection error connecting to ".to_owned();
                out.append(address.as_str());
                out.append(": ");
                let text: String = display_status(status);
                out.append(text.as_str());
                out
            },
            Error::RequestFailure(text) => text.clone(),
            Error::OnDemandSend => "failed to send on demand resource".to_owned(),
            Error::TLSError(text) => {
                let mut out: String = "TLS Error: ".to_owned();
                out.append(text.as_str());
                out
            },
        }
    }
}

/// An answer in words begins with its code and its message. A hint stands behind the
/// message exactly where it names a failed authentication; details follow where there are
/// any; and what lies at the bottom comes last, with a hint exactly where a name could not
/// be resolved.
pub proof fn law_answers_in_words(status: StatusReport)
    ensures
        ({
            let start = "status: "@ + status.code@ + ", message: "@ + status.quoted_message@;
            let with_hint = if has_part(status.message@, "authentication failure"@) {
                start + " (hint: check the control plane logs for more information)"@
            } else {
                start
            };
            let with_details = match status.details {
                Some(details) => if details@.len() > 0 {
                    with_hint + ", details: "@ + details@
                } else {
                    with_hint
                },
                None => with_hint,
            };
            status_text(status) == (match status.source {
                Some(source) => with_details + ", source: "@ + source@ + (if has_part(
                    source@,
                    "Temporary failure in name resolution"@,
                ) {
                    " (hint: is the DNS server reachable?)"@
                } else {
                    Seq::empty()
                }),
                None => with_details,
            })
        }),
{
    let start = "status: "@ + status.code@ + ", message: "@ + status.quoted_message@;
    assert(start + Seq::<char>::empty() =~= start);
    let second = start + hint(
        status.message@,
        "authentication failure"@,
        " (hint: check the control plane logs for more information)"@,
    );
    assert(second + Seq::<char>::empty() =~= second);
    let third = second + details_text(opt_view(status.details));
    assert(third + Seq::<char>::empty() =~= third);
    if let Some(details) = status.details {
        assert(second + (", details: "@ + details@) =~= second + ", details: "@ + details@);
    }
    if let Some(source) = status.source {
        let h = hint(
            source@,
            "Temporary failure in name resolution"@,
            " (hint: is the DNS server reachable?)"@,
        );
        assert(third + (", source: "@ + source@ + h) =~= third + ", source: "@ + source@ + h);
    }
}

/// A failure in words says what failed, and ends with what was told of it.
pub proof fn law_failures_in_words(status: StatusReport, text: String)
    ensures
        error_text(Error::GrpcStatus(status)) == "gRPC error "@ + status_text(status),
        error_text(Error::Connection(text, status)) == "gRPC connection error connecting to "@
            + text@ + ": "@ + status_text(status),
        error_text(Error::RequestFailure(text)) == text@,
        error_text(Error::OnDemandSend) == "failed to send on demand resource"@,
        error_text(Error::TLSError(text)) == "TLS Error: "@ + text@,
{
}

} // verus!
