//! Chat completions by a peer: what to send, and what to make of the reply.

use serde_json::Value;
use vstd::prelude::*;
use vstd::string::*;
use vstd::utf8::*;

use crate::decimal::{decimal, signed_decimal};
use crate::errors::{message, quotation, ConsultError, ErrorView};
use crate::http::{
    find_head_end, first_stands_at, frame_request, framed, head_end, head_terminator, is_space,
    read_status, reply_splits, request_head, request_splits, stands_at, status_of,
    status_reads_back,
};
use crate::json::{
    element, is_plain, is_tenths, json_array, json_bool, json_bytes, json_element, json_member,
    json_number, json_object, json_text, json_view, json_views, member, members_of, parse_json,
    parsed_json, reads_as, render_json, text_of, JsonView, READABLE_DEPTH,
};
use crate::peers::EndpointId;
use crate::text::characters;

verus! {

/// How many seconds a consultation may take.
pub const TIMEOUT_CONSULTATION: u64 = 20;

/// How many bytes of a reply are read at most.
pub const MAX_REPLY_BYTES: usize = 65536;

/// A request that is to be sent to a peer, and how long to wait for the reply.
#[derive(Debug)]
pub struct Consultation {
    pub peer_id: EndpointId,
    pub request: Vec<u8>,
    pub timeout_secs: u64,
}

/// The body of a request: the conversation, and how the peer is to answer. The peer
/// is to answer at once and in full, and must not consult others in turn.
pub open spec fn chat_body(
    model: Seq<char>,
    messages: Seq<JsonView>,
    max_tokens: nat,
) -> JsonView {
    JsonView::Object(
        map![
            "model"@ => JsonView::Text(model),
            "messages"@ => JsonView::Array(messages),
            "max_tokens"@ => JsonView::Number(decimal(max_tokens)),
            "temperature"@ => JsonView::Number("0.3"@),
            "stream"@ => JsonView::Bool(false),
            "mesh_hooks"@ => JsonView::Bool(false),
        ],
    )
}

/// Whether a request, taken apart at its first empty line, has a body that reads as a
/// value with these contents.
pub open spec fn request_says(request: Seq<u8>, body: JsonView) -> bool {
    exists|at: int| #[trigger]
        first_stands_at(request, encode_utf8(head_terminator()), at) && reads_as(
            request.skip(at + 4),
            body,
        )
}

/// The keys of the body of a request are told apart by their lengths, or by their second
/// characters.
proof fn body_keys_differ()
    ensures
        "model"@.len() == 5,
        "messages"@.len() == 8,
        "max_tokens"@.len() == 10,
        "temperature"@.len() == 11,
        "stream"@.len() == 6,
        "mesh_hooks"@.len() == 10,
        "max_tokens"@[1] != "mesh_hooks"@[1],
{
    reveal_strlit("model");
    reveal_strlit("messages");
    reveal_strlit("max_tokens");
    reveal_strlit("temperature");
    reveal_strlit("stream");
    reveal_strlit("mesh_hooks");
}

/// Writes the body of a request.
fn request_body(model: &str, messages: Vec<Value>, max_tokens: u32) -> (body: Value)
    ensures
        json_view(body) == chat_body(model@, json_views(messages@), max_tokens as nat),
{
    proof {
        reveal_strlit("0.3");
        assert(is_tenths("0.3"@));
    }
    let temperature = parse_json("0.3").unwrap();
    let members: Vec<(String, Value)> = vec![
        ("model".to_string(), json_text(model)),
        ("messages".to_string(), json_array(messages)),
        ("max_tokens".to_string(), json_number(max_tokens)),
        ("temperature".to_string(), temperature),
        ("stream".to_string(), json_bool(false)),
        ("mesh_hooks".to_string(), json_bool(false)),
    ];
    proof {
        let all = members@;
        let m5 = all.drop_last();
        let m4 = m5.drop_last();
        let m3 = m4.drop_last();
        let m2 = m3.drop_last();
        let m1 = m2.drop_last();
        assert(m1.drop_last().len() == 0);
        reveal_with_fuel(members_of, 7);
        body_keys_differ();
    }
    json_object(members)
}

/// Asks a peer for a chat completion. The body of the request reads back as it was,
/// unless the messages are nested too deep for `serde_json` to read or hold numbers of
/// which that is not known.
pub fn chat_completion(
    peer_id: EndpointId,
    model: &str,
    messages: Vec<Value>,
    max_tokens: u32,
    timeout_secs: u64,
) -> (consultation: Consultation)
    ensures
        consultation.peer_id == peer_id,
        consultation.timeout_secs == timeout_secs,
        consultation.request@ == framed(
            json_bytes(chat_body(model@, json_views(messages@), max_tokens as nat)),
        ),
        is_plain(
            chat_body(model@, json_views(messages@), max_tokens as nat),
            READABLE_DEPTH as nat,
        ) ==> request_says(
            consultation.request@,
            chat_body(model@, json_views(messages@), max_tokens as nat),
        ),
{
    let body = request_body(model, messages, max_tokens);
    let bytes = render_json(&body);
    proof {
        let head = encode_utf8(request_head(bytes@.len()));
        request_splits(bytes@);
        assert(framed(bytes@).skip(head.len() - 4 + 4) == bytes@);
    }
    Consultation { peer_id, request: frame_request(&bytes), timeout_secs }
}

/// The text that `String::from_utf8_lossy` makes of bytes.
pub uninterp spec fn lossy_text(bytes: Seq<u8>) -> Seq<char>;

/// `String::from_utf8_lossy`: the text that the bytes encode, with replacement
/// characters where they are not UTF-8. How many there are is left unsaid.
#[verifier::external_body]
fn text_from(bytes: &[u8]) -> (text: String)
    ensures
        text@ == lossy_text(bytes@),
        valid_utf8(bytes@) ==> text@ == decode_utf8(bytes@),
{
    String::from_utf8_lossy(bytes).into_owned()
}

/// How a consultation ended.
pub open spec fn concluded(result: Result<String, ConsultError>) -> Result<Seq<char>, ErrorView> {
    match result {
        Ok(text) => Ok(text@),
        Err(error) => Err(error@),
    }
}

/// What the assistant says in the body of a reply. Empty where it holds no such text.
pub open spec fn assistant_text(body: JsonView) -> Seq<char> {
    let content = member(
        member(element(member(body, "choices"@), 0), "message"@),
        "content"@,
    );
    match text_of(content) {
        Some(text) => text,
        None => Seq::empty(),
    }
}

/// What to make of the body of a reply, given what it was parsed into.
pub open spec fn body_outcome(
    body: Seq<char>,
    parsed: Result<JsonView, Seq<char>>,
) -> Result<Seq<char>, ErrorView> {
    match parsed {
        Ok(view) => if assistant_text(view).len() == 0 {
            Err(ErrorView::EmptyReply)
        } else {
            Ok(assistant_text(view))
        },
        Err(reason) => Err(ErrorView::NotJson { reason, body }),
    }
}

/// What to make of a reply: the text of the assistant, where the reply is one of
/// success and its body holds such a text.
pub open spec fn reply_outcome(reply: Seq<char>) -> Result<Seq<char>, ErrorView> {
    match head_end(reply) {
        Some(end) => {
            let code = status_of(reply.take(end));
            let body = reply.skip(end + 4);
            if code != 200 {
                Err(ErrorView::Status { code, reply })
            } else {
                body_outcome(body, parsed_json(body))
            }
        },
        None => Err(ErrorView::NoHeadEnd),
    }
}

/// Reads what the assistant says out of the body of a reply.
pub fn assistant_content(body: &Value) -> (text: String)
    ensures
        text@ == assistant_text(json_view(*body)),
{
    let choice = json_element(json_member(body, "choices"), 0);
    let content = json_member(json_member(choice, "message"), "content");
    match content.as_str() {
        Some(text) => text.to_string(),
        None => String::new(),
    }
}

/// Reads the body of a reply, given what it was parsed into.
pub fn read_body(body: &str, parsed: Result<Value, String>) -> (result: Result<
    String,
    ConsultError,
>)
    ensures
        concluded(result) == body_outcome(
            body@,
            match parsed {
                Ok(value) => Ok(json_view(value)),
                Err(reason) => Err(reason@),
            },
        ),
{
    match parsed {
        Ok(value) => {
            let text = assistant_content(&value);
            if text.as_str().is_empty() {
                Err(ConsultError::EmptyReply)
            } else {
                Ok(text)
            }
        },
        Err(reason) => Err(ConsultError::NotJson { reason, body: body.to_string() }),
    }
}

/// Reads a reply.
pub fn read_reply(reply: &str) -> (result: Result<String, ConsultError>)
    ensures
        concluded(result) == reply_outcome(reply@),
{
    let list = characters(reply);
    match find_head_end(&list) {
        Some(end) => {
            let code = read_status(&list, end);
            if code != 200 {
                return Err(ConsultError::Status { code, reply: reply.to_string() });
            }
            assert(stands_at(reply@, head_terminator(), end as int));
            assert(head_terminator().len() == 4);
            assert(end + 4 <= list.len());
            let body = reply.substring_char(end + 4, list.len());
            assert(body@ =~= reply@.skip(end + 4));
            read_body(body, parse_json(body))
        },
        None => Err(ConsultError::NoHeadEnd),
    }
}

/// Reads the bytes of a reply.
pub fn chat_reply(reply: &[u8]) -> (result: Result<String, ConsultError>)
    ensures
        concluded(result) == reply_outcome(lossy_text(reply@)),
        valid_utf8(reply@) ==> concluded(result) == reply_outcome(decode_utf8(reply@)),
{
    let text = text_from(reply);
    read_reply(text.as_str())
}

impl Consultation {
    /// Concludes this consultation, with the bytes of the reply, or with `None` where
    /// none came in time.
    pub fn conclude(&self, reply: Option<&[u8]>) -> (result: Result<String, ConsultError>)
        ensures
            concluded(result) == match reply {
                Some(bytes) => reply_outcome(lossy_text(bytes@)),
                None => Err(ErrorView::TimedOut { seconds: self.timeout_secs as nat }),
            },
            reply matches Some(bytes) ==> valid_utf8(bytes@) ==> concluded(result)
                == reply_outcome(decode_utf8(bytes@)),
    {
        match reply {
            Some(bytes) => chat_reply(bytes),
            None => Err(ConsultError::TimedOut { seconds: self.timeout_secs }),
        }
    }
}

/// A peer that is consulted neither streams nor consults others: whatever the
/// conversation, the request says so.
pub proof fn consulted_peer_does_not_consult(
    model: Seq<char>,
    messages: Seq<JsonView>,
    max_tokens: nat,
)
    ensures
        member(chat_body(model, messages, max_tokens), "mesh_hooks"@) == JsonView::Bool(false),
        member(chat_body(model, messages, max_tokens), "stream"@) == JsonView::Bool(false),
        member(chat_body(model, messages, max_tokens), "model"@) == JsonView::Text(model),
        member(chat_body(model, messages, max_tokens), "messages"@) == JsonView::Array(messages),
        member(chat_body(model, messages, max_tokens), "max_tokens"@) == JsonView::Number(
            decimal(max_tokens),
        ),
        member(chat_body(model, messages, max_tokens), "temperature"@) == JsonView::Number(
            "0.3"@,
        ),
{
    body_keys_differ();
}

/// A request is plain where its messages are.
pub proof fn plain_messages_make_a_plain_request(
    model: Seq<char>,
    messages: Seq<JsonView>,
    max_tokens: u32,
    depth: nat,
)
    requires
        forall|i: int| 0 <= i < messages.len() ==> is_plain(#[trigger] messages[i], depth),
    ensures
        is_plain(chat_body(model, messages, max_tokens as nat), depth + 2),
{
    reveal_strlit("0.3");
    assert(decimal(max_tokens as nat) == signed_decimal(max_tokens as int));
    assert(is_plain(JsonView::Number(decimal(max_tokens as nat)), depth + 1));
    assert(is_plain(JsonView::Number("0.3"@), depth + 1));
    assert(is_plain(JsonView::Array(messages), depth + 1));
    assert(is_plain(JsonView::Text(model), depth + 1));
    assert(is_plain(JsonView::Bool(false), depth + 1));
    consulted_peer_does_not_consult(model, messages, max_tokens as nat);
    let body = chat_body(model, messages, max_tokens as nat);
    assert forall|key: Seq<char>| body->Object_0.contains_key(key) implies is_plain(
        #[trigger] body->Object_0[key],
        depth + 1,
    ) by {}
}

/// The head of a reply: the protocol version, the status, and what follows them.
pub open spec fn reply_head(version: Seq<char>, code: nat, rest_of_head: Seq<char>) -> Seq<char> {
    version + seq![' '] + decimal(code) + rest_of_head
}

/// Whether a head is well formed: the version is a word, the status is a number of 16
/// bits and stands alone, and no empty line comes before the end.
pub open spec fn is_head(version: Seq<char>, code: nat, rest_of_head: Seq<char>) -> bool {
    let head = reply_head(version, code, rest_of_head);
    &&& version.len() > 0
    &&& forall|i: int| 0 <= i < version.len() ==> !is_space(#[trigger] version[i])
    &&& rest_of_head.len() > 0 ==> is_space(rest_of_head[0])
    &&& code <= u16::MAX
    &&& first_stands_at(head + head_terminator(), head_terminator(), head.len() as int)
}

/// A reply with a well-formed head comes apart into that head, its status and the body.
proof fn reply_comes_apart(
    version: Seq<char>,
    code: nat,
    rest_of_head: Seq<char>,
    body: Seq<char>,
)
    requires
        is_head(version, code, rest_of_head),
    ensures
        ({
            let head = reply_head(version, code, rest_of_head);
            let reply = head + head_terminator() + body;
            &&& head_end(reply) == Some(head.len() as int)
            &&& status_of(reply.take(head.len() as int)) == code
            &&& reply.skip(head.len() as int + 4) == body
        }),
{
    let head = reply_head(version, code, rest_of_head);
    let reply = head + head_terminator() + body;
    reply_splits(head, body);
    status_reads_back(version, code, rest_of_head);
    assert(reply.take(head.len() as int) =~= head);
    assert(reply.skip(head.len() as int + 4) =~= body);
}

/// A reply of success gives the text of the assistant in its body.
pub proof fn success_gives_the_text(
    version: Seq<char>,
    rest_of_head: Seq<char>,
    body: Seq<char>,
    view: JsonView,
)
    requires
        is_head(version, 200, rest_of_head),
        parsed_json(body) == Ok::<JsonView, Seq<char>>(view),
        assistant_text(view).len() > 0,
    ensures
        reply_outcome(reply_head(version, 200, rest_of_head) + head_terminator() + body) == Ok::<Seq<char>, ErrorView>(assistant_text(view)),
{
    reply_comes_apart(version, 200, rest_of_head, body);
}

/// A reply of success whose body is not JSON is an error, which tells the reason and
/// quotes the body, wherever its characters fall.
pub proof fn unreadable_body_is_an_error(
    version: Seq<char>,
    rest_of_head: Seq<char>,
    body: Seq<char>,
    reason: Seq<char>,
)
    requires
        is_head(version, 200, rest_of_head),
        parsed_json(body) == Err::<JsonView, Seq<char>>(reason),
    ensures
        ({
            let error = ErrorView::NotJson { reason, body };
            &&& reply_outcome(reply_head(version, 200, rest_of_head) + head_terminator() + body)
                == Err::<Seq<char>, ErrorView>(error)
            &&& message(error) == "failed to parse peer response body: "@ + reason + "\nraw: "@
                + quotation(body)
        }),
{
    reply_comes_apart(version, 200, rest_of_head, body);
}

/// A reply of any other status is an error, whatever its body holds. It tells the
/// status and quotes the reply, wherever its characters fall.
pub proof fn refusal_is_an_error(
    version: Seq<char>,
    code: nat,
    rest_of_head: Seq<char>,
    body: Seq<char>,
)
    requires
        is_head(version, code, rest_of_head),
        code != 200,
    ensures
        ({
            let reply = reply_head(version, code, rest_of_head) + head_terminator() + body;
            let error = ErrorView::Status { code, reply };
            &&& reply_outcome(reply) == Err::<Seq<char>, ErrorView>(error)
            &&& message(error) == "peer returned HTTP "@ + decimal(code) + ": "@ + quotation(reply)
        }),
{
    reply_comes_apart(version, code, rest_of_head, body);
}

/// The assistant says what stands under `content` in the `message` of the first of the
/// `choices`, whatever else any of these holds.
pub proof fn assistant_says_the_content(
    body: &Value,
    members: Map<Seq<char>, JsonView>,
    choices: Seq<JsonView>,
    choice: Map<Seq<char>, JsonView>,
    message: Map<Seq<char>, JsonView>,
    content: Seq<char>,
    text: String,
)
    requires
        call_ensures(assistant_content, (body,), text),
        json_view(*body) == JsonView::Object(members),
        members.contains_key("choices"@),
        members["choices"@] == JsonView::Array(choices),
        choices.len() > 0,
        choices[0] == JsonView::Object(choice),
        choice.contains_key("message"@),
        choice["message"@] == JsonView::Object(message),
        message.contains_key("content"@),
        message["content"@] == JsonView::Text(content),
    ensures
        text@ == content,
        assistant_text(json_view(*body)) == content,
{
}

/// The assistant says nothing unless there is such a content.
pub proof fn assistant_says_nothing_else(body: &Value, text: String)
    requires
        call_ensures(assistant_content, (body,), text),
        text@.len() > 0,
    ensures
        ({
            let view = json_view(*body);
            let choices = view->Object_0["choices"@];
            let choice = choices->Array_0[0];
            let message = choice->Object_0["message"@];
            &&& view is Object && view->Object_0.contains_key("choices"@)
            &&& choices is Array && choices->Array_0.len() > 0
            &&& choice is Object && choice->Object_0.contains_key("message"@)
            &&& message is Object && message->Object_0.contains_key("content"@)
            &&& message->Object_0["content"@] == JsonView::Text(text@)
        }),
{
}

/// A reply is read by its status and its body. Where no empty line ends a head, it is
/// malformed.
proof fn outcome_goes_by_status_and_body(
    reply: Seq<char>,
    at: int,
    result: Result<String, ConsultError>,
)
    requires
        concluded(result) == reply_outcome(reply),
    ensures
        (forall|place: int| !(#[trigger] stands_at(reply, head_terminator(), place))) ==> result
            == Err::<String, ConsultError>(ConsultError::NoHeadEnd),
        stands_at(reply, head_terminator(), at) && (forall|earlier: int|
            earlier < at ==> !(#[trigger] stands_at(reply, head_terminator(), earlier))) ==> ({
            let code = status_of(reply.take(at));
            let body = reply.skip(at + 4);
            if code != 200 {
                result matches Err(ConsultError::Status { code: told, reply: quoted }) && told
                    == code && quoted@ == reply
            } else {
                match parsed_json(body) {
                    Err(why) => result matches Err(ConsultError::NotJson { reason, body: quoted })
                        && reason@ == why && quoted@ == body,
                    Ok(view) => if assistant_text(view).len() == 0 {
                        result == Err::<String, ConsultError>(ConsultError::EmptyReply)
                    } else {
                        result matches Ok(text) && text@ == assistant_text(view)
                    },
                }
            }
        }),
{
    if forall|place: int| !(#[trigger] stands_at(reply, head_terminator(), place)) {
        assert forall|place: int| !(#[trigger] first_stands_at(
            reply,
            head_terminator(),
            place,
        )) by {}
        assert(head_end(reply) is None);
    }
    if first_stands_at(reply, head_terminator(), at) {
        let chosen = head_end(reply)->0;
        assert(first_stands_at(reply, head_terminator(), chosen));
        if chosen < at {
            assert(!stands_at(reply, head_terminator(), chosen));
        } else if chosen > at {
            assert(!stands_at(reply, head_terminator(), at));
        }
    }
}

/// Any reply is read by its status and its body. It is malformed exactly where no empty
/// line ends a head. Otherwise, any status but 200 is an error that holds the status and
/// the whole reply, a body that is not JSON is one that holds the reason and the body,
/// and one without a text is one as well; whatever is left gives the text.
pub proof fn reply_is_read_by_status_and_body(
    reply: &str,
    at: int,
    result: Result<String, ConsultError>,
)
    requires
        call_ensures(read_reply, (reply,), result),
    ensures
        (forall|place: int| !(#[trigger] stands_at(reply@, head_terminator(), place))) ==> result
            == Err::<String, ConsultError>(ConsultError::NoHeadEnd),
        stands_at(reply@, head_terminator(), at) && (forall|earlier: int|
            earlier < at ==> !(#[trigger] stands_at(reply@, head_terminator(), earlier))) ==> ({
            let code = status_of(reply@.take(at));
            let body = reply@.skip(at + 4);
            if code != 200 {
                result matches Err(ConsultError::Status { code: told, reply: quoted }) && told
                    == code && quoted@ == reply@
            } else {
                match parsed_json(body) {
                    Err(why) => result matches Err(ConsultError::NotJson { reason, body: quoted })
                        && reason@ == why && quoted@ == body,
                    Ok(view) => if assistant_text(view).len() == 0 {
                        result == Err::<String, ConsultError>(ConsultError::EmptyReply)
                    } else {
                        result matches Ok(text) && text@ == assistant_text(view)
                    },
                }
            }
        }),
{
    outcome_goes_by_status_and_body(reply@, at, result);
}

/// A consultation that got a reply is concluded as the text of the reply is read, which
/// is what its bytes encode where they are UTF-8.
pub proof fn consultation_is_concluded_by_its_reply(
    consultation: &Consultation,
    bytes: &[u8],
    reply: Seq<char>,
    at: int,
    result: Result<String, ConsultError>,
)
    requires
        call_ensures(Consultation::conclude, (consultation, Some(bytes)), result) || call_ensures(
            chat_reply,
            (bytes,),
            result,
        ),
        reply == lossy_text(bytes@) || (valid_utf8(bytes@) && reply == decode_utf8(bytes@)),
    ensures
        (forall|place: int| !(#[trigger] stands_at(reply, head_terminator(), place))) ==> result
            == Err::<String, ConsultError>(ConsultError::NoHeadEnd),
        stands_at(reply, head_terminator(), at) && (forall|earlier: int|
            earlier < at ==> !(#[trigger] stands_at(reply, head_terminator(), earlier))) ==> ({
            let code = status_of(reply.take(at));
            let body = reply.skip(at + 4);
            if code != 200 {
                result matches Err(ConsultError::Status { code: told, reply: quoted }) && told
                    == code && quoted@ == reply
            } else {
                match parsed_json(body) {
                    Err(why) => result matches Err(ConsultError::NotJson { reason, body: quoted })
                        && reason@ == why && quoted@ == body,
                    Ok(view) => if assistant_text(view).len() == 0 {
                        result == Err::<String, ConsultError>(ConsultError::EmptyReply)
                    } else {
                        result matches Ok(text) && text@ == assistant_text(view)
                    },
                }
            }
        }),
{
    outcome_goes_by_status_and_body(reply, at, result);
}

/// A consultation that got no reply is concluded with the time that it waited.
pub proof fn consultation_without_reply_timed_out(
    consultation: &Consultation,
    result: Result<String, ConsultError>,
)
    requires
        call_ensures(Consultation::conclude, (consultation, None::<&[u8]>), result),
    ensures
        result == Err::<String, ConsultError>(
            ConsultError::TimedOut { seconds: consultation.timeout_secs },
        ),
{
}

/// A parsed body gives the text of the assistant, or an error where that is empty; one
/// that could not be parsed is an error that holds the reason and the body.
pub proof fn body_is_read_by_its_text(
    body: &str,
    parsed: Result<Value, String>,
    result: Result<String, ConsultError>,
)
    requires
        call_ensures(read_body, (body, parsed), result),
    ensures
        match parsed {
            Ok(value) => if assistant_text(json_view(value)).len() == 0 {
                result == Err::<String, ConsultError>(ConsultError::EmptyReply)
            } else {
                result matches Ok(text) && text@ == assistant_text(json_view(value))
            },
            Err(why) => result matches Err(ConsultError::NotJson { reason, body: quoted })
                && reason@ == why@ && quoted@ == body@,
        },
{
}

/// A request for a chat completion goes to the given peer and holds the model, every
/// message as it is and the number of tokens, the fixed temperature, and that the peer is
/// neither to stream nor to consult others; and nothing else. Where the messages are
/// plain, that is how the peer reads it. Returns the members of the body.
pub proof fn request_holds_what_was_asked(
    peer_id: EndpointId,
    model: &str,
    messages: Vec<Value>,
    max_tokens: u32,
    timeout_secs: u64,
    consultation: Consultation,
) -> (body: Map<Seq<char>, JsonView>)
    requires
        call_ensures(
            chat_completion,
            (peer_id, model, messages, max_tokens, timeout_secs),
            consultation,
        ),
    ensures
        consultation.peer_id == peer_id,
        consultation.timeout_secs == timeout_secs,
        consultation.request@ == framed(json_bytes(JsonView::Object(body))),
        body.dom() == set![
            "model"@,
            "messages"@,
            "max_tokens"@,
            "temperature"@,
            "stream"@,
            "mesh_hooks"@,
        ],
        body["model"@] == JsonView::Text(model@),
        body["messages"@] is Array,
        body["messages"@]->Array_0.len() == messages@.len(),
        forall|i: int|
            0 <= i < messages@.len() ==> #[trigger] body["messages"@]->Array_0[i] == json_view(
                messages@[i],
            ),
        body["max_tokens"@] == JsonView::Number(decimal(max_tokens as nat)),
        body["temperature"@] == JsonView::Number(seq!['0', '.', '3']),
        body["stream"@] == JsonView::Bool(false),
        body["mesh_hooks"@] == JsonView::Bool(false),
        (forall|i: int|
            0 <= i < messages@.len() ==> is_plain(#[trigger] json_view(messages@[i]), 125)) ==> (
        exists|at: int| #[trigger]
            first_stands_at(consultation.request@, encode_utf8(head_terminator()), at)
                && valid_utf8(consultation.request@.skip(at + 4)) && parsed_json(
                decode_utf8(consultation.request@.skip(at + 4)),
            ) == Ok::<JsonView, Seq<char>>(JsonView::Object(body))),
{
    let view = chat_body(model@, json_views(messages@), max_tokens as nat);
    consulted_peer_does_not_consult(model@, json_views(messages@), max_tokens as nat);
    reveal_strlit("0.3");
    assert("0.3"@ =~= seq!['0', '.', '3']);
    let body = view->Object_0;
    assert(body.dom() =~= set![
        "model"@,
        "messages"@,
        "max_tokens"@,
        "temperature"@,
        "stream"@,
        "mesh_hooks"@,
    ]);
    if forall|i: int|
        0 <= i < messages@.len() ==> is_plain(#[trigger] json_view(messages@[i]), 125) {
        assert forall|i: int| 0 <= i < messages@.len() implies is_plain(
            #[trigger] json_views(messages@)[i],
            125,
        ) by {
            assert(is_plain(json_view(messages@[i]), 125));
        }
        plain_messages_make_a_plain_request(model@, json_views(messages@), max_tokens, 125);
    }
    body
}

} // verus!
