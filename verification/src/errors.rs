//! How a consultation can fail.

use vstd::prelude::*;
use vstd::string::*;
use vstd::utf8::*;

use crate::decimal::{decimal, decimal_text};
use crate::text::{fit, fitting, fitting_is_the_longest};

verus! {

/// How many bytes of a reply an error message quotes at most.
pub const QUOTED_BYTES: usize = 200;

/// Why a consultation gave no answer.
#[derive(Debug)]
pub enum ConsultError {
    /// The reply has no empty line that ends its head.
    NoHeadEnd,
    /// The peer did not answer with success.
    Status { code: u16, reply: String },
    /// The body of the reply is not JSON.
    NotJson { reason: String, body: String },
    /// The reply holds no text.
    EmptyReply,
    /// There is no user message to ask about.
    NoUserMessage,
    /// The peer did not answer in time.
    TimedOut { seconds: u64 },
}

/// What a [`ConsultError`] stands for.
pub enum ErrorView {
    NoHeadEnd,
    Status { code: nat, reply: Seq<char> },
    NotJson { reason: Seq<char>, body: Seq<char> },
    EmptyReply,
    NoUserMessage,
    TimedOut { seconds: nat },
}

impl View for ConsultError {
    type V = ErrorView;

    open spec fn view(&self) -> ErrorView {
        match *self {
            ConsultError::NoHeadEnd => ErrorView::NoHeadEnd,
            ConsultError::Status { code, reply } => ErrorView::Status {
                code: code as nat,
                reply: reply@,
            },
            ConsultError::NotJson { reason, body } => ErrorView::NotJson {
                reason: reason@,
                body: body@,
            },
            ConsultError::EmptyReply => ErrorView::EmptyReply,
            ConsultError::NoUserMessage => ErrorView::NoUserMessage,
            ConsultError::TimedOut { seconds } => ErrorView::TimedOut { seconds: seconds as nat },
        }
    }
}

/// What an error message quotes of a text: as much of its beginning as fits.
pub open spec fn quotation(text: Seq<char>) -> Seq<char> {
    fitting(text, QUOTED_BYTES as nat)
}

/// The message of an error.
pub open spec fn message(error: ErrorView) -> Seq<char> {
    match error {
        ErrorView::NoHeadEnd => "malformed HTTP response: no header terminator"@,
        ErrorView::Status { code, reply } => "peer returned HTTP "@ + decimal(code) + ": "@
            + quotation(reply),
        ErrorView::NotJson { reason, body } => "failed to parse peer response body: "@ + reason
            + "\nraw: "@ + quotation(body),
        ErrorView::EmptyReply => "peer returned empty response"@,
        ErrorView::NoUserMessage => "no user message found for second opinion"@,
        ErrorView::TimedOut { seconds } => "consultation timed out after "@ + decimal(seconds)
            + "s"@,
    }
}

impl ConsultError {
    /// The message of this error.
    pub fn describe(&self) -> (text: String)
        ensures
            text@ == message(self@),
    {
        match self {
            ConsultError::NoHeadEnd => {
                "malformed HTTP response: no header terminator".to_string()
            },
            ConsultError::Status { code, reply } => {
                let mut text = "peer returned HTTP ".to_string();
                text.append(decimal_text(*code as u64).as_str());
                text.append(": ");
                text.append(fit(reply.as_str(), QUOTED_BYTES).as_str());
                text
            },
            ConsultError::NotJson { reason, body } => {
                let mut text = "failed to parse peer response body: ".to_string();
                text.append(reason.as_str());
                text.append("\nraw: ");
                text.append(fit(body.as_str(), QUOTED_BYTES).as_str());
                text
            },
            ConsultError::EmptyReply => "peer returned empty response".to_string(),
            ConsultError::NoUserMessage => "no user message found for second opinion".to_string(),
            ConsultError::TimedOut { seconds } => {
                let mut text = "consultation timed out after ".to_string();
                text.append(decimal_text(*seconds).as_str());
                text.append("s");
                text
            },
        }
    }
}

/// Whatever the reply, the message of a refusal tells the status, and quotes of the
/// reply as many characters as fit into 200 bytes.
pub proof fn refusal_message_tells_the_status(
    error: &ConsultError,
    code: u16,
    reply: String,
    text: String,
)
    requires
        *error == (ConsultError::Status { code, reply }),
        call_ensures(ConsultError::describe, (error,), text),
    ensures
        exists|count: int|
            0 <= count <= reply@.len() && text@ == "peer returned HTTP "@ + decimal(code as nat)
                + ": "@ + #[trigger] reply@.take(count) && encode_utf8(reply@.take(count)).len()
                <= 200 && (count < reply@.len() ==> encode_utf8(reply@.take(count + 1)).len()
                > 200),
{
    fitting_is_the_longest(reply@, 200);
    let count = fitting(reply@, 200).len() as int;
    assert(fitting(reply@, 200) =~= reply@.take(count));
    assert(text@ == "peer returned HTTP "@ + decimal(code as nat) + ": "@ + reply@.take(count));
}

/// Whatever the body, the message about one that is not JSON tells the reason, and
/// quotes of the body as many characters as fit into 200 bytes.
pub proof fn unreadable_body_message_tells_the_reason(
    error: &ConsultError,
    reason: String,
    body: String,
    text: String,
)
    requires
        *error == (ConsultError::NotJson { reason, body }),
        call_ensures(ConsultError::describe, (error,), text),
    ensures
        exists|count: int|
            0 <= count <= body@.len() && text@ == "failed to parse peer response body: "@ + reason@
                + "\nraw: "@ + #[trigger] body@.take(count) && encode_utf8(body@.take(count)).len()
                <= 200 && (count < body@.len() ==> encode_utf8(body@.take(count + 1)).len() > 200),
{
    fitting_is_the_longest(body@, 200);
    let count = fitting(body@, 200).len() as int;
    assert(fitting(body@, 200) =~= body@.take(count));
    assert(text@ == "failed to parse peer response body: "@ + reason@ + "\nraw: "@ + body@.take(
        count,
    ));
}

/// However long the wait was, the message about a late reply tells it in seconds.
pub proof fn late_reply_message_tells_the_seconds(error: &ConsultError, seconds: u64, text: String)
    requires
        *error == (ConsultError::TimedOut { seconds }),
        call_ensures(ConsultError::describe, (error,), text),
    ensures
        text@ == "consultation timed out after "@ + decimal(seconds as nat) + "s"@,
{
}

} // verus!
