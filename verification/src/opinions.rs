//! What peers are consulted about: images, and questions of the user.

use serde_json::Value;
use vstd::prelude::*;
use vstd::string::*;
use vstd::utf8::*;

use crate::chat::{
    chat_body, chat_completion, consulted_peer_does_not_consult,
    plain_messages_make_a_plain_request, request_says, Consultation, TIMEOUT_CONSULTATION,
};
use crate::decimal::decimal;
use crate::errors::ConsultError;
use crate::http::{
    first_stands_at, framed, head_terminator, request_head, request_splits, stands_at,
};
use crate::json::{
    is_plain, json_array, json_bytes, json_member, json_object, json_text, json_view, json_views,
    member, members_of, reads_as, text_of, JsonView, READABLE_DEPTH,
};
use crate::lexicographic::same_text;
use crate::peers::EndpointId;
use crate::text::{
    byte_len, shorten, shortened, shortened_ends_at_the_limit, shortened_is_bounded,
};

verus! {

/// How many tokens the caption of an image may have.
pub const CAPTION_TOKENS: u32 = 256;

/// How many tokens a second opinion may have.
pub const OPINION_TOKENS: u32 = 192;

/// How many bytes of a question are passed on.
pub const QUESTION_BYTES: usize = 2000;

/// What a peer is asked about an image.
pub open spec fn caption_prompt(user_text: Seq<char>) -> Seq<char> {
    if user_text.len() == 0 {
        "Describe this image concisely in one paragraph."@
    } else {
        "The user asked: \""@ + user_text
            + "\"\n\nDescribe this image concisely, focusing on details relevant to the user's question."@
    }
}

/// The message that asks for the caption of an image: the prompt, and the image.
pub open spec fn caption_message(image_url: Seq<char>, user_text: Seq<char>) -> JsonView {
    let prompt = JsonView::Object(
        map![
            "type"@ => JsonView::Text("text"@),
            "text"@ => JsonView::Text(caption_prompt(user_text)),
        ],
    );
    let image = JsonView::Object(
        map![
            "type"@ => JsonView::Text("image_url"@),
            "image_url"@ => JsonView::Object(map!["url"@ => JsonView::Text(image_url)]),
        ],
    );
    JsonView::Object(
        map![
            "role"@ => JsonView::Text("user"@),
            "content"@ => JsonView::Array(seq![prompt, image]),
        ],
    )
}

/// The message that asks a question.
pub open spec fn question_message(question: Seq<char>) -> JsonView {
    JsonView::Object(
        map![
            "role"@ => JsonView::Text("user"@),
            "content"@ => JsonView::Text(
                "Answer this briefly and directly in 2-3 sentences:\n\n"@ + question,
            ),
        ],
    )
}

/// Whether a message is from the user.
pub open spec fn is_from_user(message: JsonView) -> bool {
    text_of(member(message, "role"@)) == Some("user"@)
}

/// The text of the first part of a message that is marked as text. Empty where no
/// part is, or where that one has no text.
pub open spec fn text_part(parts: Seq<JsonView>) -> Seq<char>
    decreases parts.len(),
{
    if parts.len() == 0 {
        Seq::empty()
    } else if text_of(member(parts[0], "type"@)) == Some("text"@) {
        match text_of(member(parts[0], "text"@)) {
            Some(text) => text,
            None => Seq::empty(),
        }
    } else {
        text_part(parts.drop_first())
    }
}

/// The text of a message: its content, or the text part of its content. Empty where
/// it has none.
pub open spec fn message_text(message: JsonView) -> Seq<char> {
    match member(message, "content"@) {
        JsonView::Text(text) => text,
        JsonView::Array(parts) => text_part(parts),
        _ => Seq::empty(),
    }
}

/// The text of the last message that is from the user. Empty where there is none.
pub open spec fn last_user_text(messages: Seq<JsonView>) -> Seq<char>
    decreases messages.len(),
{
    if messages.len() == 0 {
        Seq::empty()
    } else if is_from_user(messages.last()) {
        message_text(messages.last())
    } else {
        last_user_text(messages.drop_last())
    }
}

/// An object whose members are texts is plain.
proof fn texts_are_plain(members: Map<Seq<char>, JsonView>, depth: nat)
    requires
        depth > 0,
        forall|key: Seq<char>| members.contains_key(key) ==> #[trigger] members[key] is Text,
    ensures
        is_plain(JsonView::Object(members), depth),
{
    assert forall|key: Seq<char>| members.contains_key(key) implies is_plain(
        #[trigger] members[key],
        (depth - 1) as nat,
    ) by {
        assert(members[key] is Text);
    }
}

/// The message that asks for a caption can be read back.
proof fn caption_message_is_plain(image_url: Seq<char>, user_text: Seq<char>)
    ensures
        is_plain(caption_message(image_url, user_text), (READABLE_DEPTH - 2) as nat),
{
    let depth = (READABLE_DEPTH - 2) as nat;
    let prompt = map![
        "type"@ => JsonView::Text("text"@),
        "text"@ => JsonView::Text(caption_prompt(user_text)),
    ];
    let url = map!["url"@ => JsonView::Text(image_url)];
    let image = map![
        "type"@ => JsonView::Text("image_url"@),
        "image_url"@ => JsonView::Object(url),
    ];
    texts_are_plain(prompt, (depth - 2) as nat);
    texts_are_plain(url, (depth - 3) as nat);
    assert(is_plain(JsonView::Text("image_url"@), (depth - 3) as nat));
    assert(is_plain(JsonView::Object(image), (depth - 2) as nat));
    let parts = seq![JsonView::Object(prompt), JsonView::Object(image)];
    assert(is_plain(JsonView::Array(parts), (depth - 1) as nat));
    assert(is_plain(JsonView::Text("user"@), (depth - 1) as nat));
}

/// The message that asks a question can be read back.
proof fn question_message_is_plain(question: Seq<char>)
    ensures
        is_plain(question_message(question), (READABLE_DEPTH - 2) as nat),
{
    texts_are_plain(question_message(question)->Object_0, (READABLE_DEPTH - 2) as nat);
}

/// The keys of a message, and those of its parts, are told apart by their lengths, or by
/// their second characters.
proof fn message_keys_differ()
    ensures
        "role"@.len() == 4,
        "content"@.len() == 7,
        "type"@.len() == 4,
        "text"@.len() == 4,
        "image_url"@.len() == 9,
        "type"@[1] != "text"@[1],
{
    reveal_strlit("role");
    reveal_strlit("content");
    reveal_strlit("type");
    reveal_strlit("text");
    reveal_strlit("image_url");
}

/// An object of one member.
fn object_of_one(key: &str, value: Value) -> (object: Value)
    ensures
        json_view(object) == JsonView::Object(map![key@ => json_view(value)]),
{
    let members: Vec<(String, Value)> = vec![(key.to_string(), value)];
    proof {
        assert(members@.drop_last().len() == 0);
        reveal_with_fuel(members_of, 2);
    }
    json_object(members)
}

/// An object of two members.
fn object_of_two(key1: &str, value1: Value, key2: &str, value2: Value) -> (object: Value)
    requires
        key1@ != key2@,
    ensures
        json_view(object) == JsonView::Object(
            map![key1@ => json_view(value1), key2@ => json_view(value2)],
        ),
{
    let members: Vec<(String, Value)> = vec![(key1.to_string(), value1), (key2.to_string(), value2)];
    proof {
        let first = members@.drop_last();
        assert(first.drop_last().len() == 0);
        reveal_with_fuel(members_of, 3);
    }
    json_object(members)
}

/// Asks a peer to caption an image, which is given as a URL with the data in it. The
/// user's question, where there is one, tells what to look at.
pub fn caption_image(peer_id: EndpointId, model: &str, image_url: &str, user_text: &str) -> (consultation:
    Consultation)
    ensures
        consultation.peer_id == peer_id,
        consultation.timeout_secs == TIMEOUT_CONSULTATION,
        consultation.request@ == framed(
            json_bytes(
                chat_body(
                    model@,
                    seq![caption_message(image_url@, user_text@)],
                    CAPTION_TOKENS as nat,
                ),
            ),
        ),
        request_says(
            consultation.request@,
            chat_body(
                model@,
                seq![caption_message(image_url@, user_text@)],
                CAPTION_TOKENS as nat,
            ),
        ),
{
    let mut prompt = String::new();
    if user_text.is_empty() {
        prompt.append("Describe this image concisely in one paragraph.");
    } else {
        prompt.append("The user asked: \"");
        prompt.append(user_text);
        prompt.append(
            "\"\n\nDescribe this image concisely, focusing on details relevant to the user's question.",
        );
    }
    assert(prompt@ =~= caption_prompt(user_text@));
    proof {
        message_keys_differ();
    }
    let prompt_part = object_of_two("type", json_text("text"), "text", json_text(prompt.as_str()));
    let url = object_of_one("url", json_text(image_url));
    let image_part = object_of_two("type", json_text("image_url"), "image_url", url);
    let parts: Vec<Value> = vec![prompt_part, image_part];
    assert(json_views(parts@) =~= seq![json_view(prompt_part), json_view(image_part)]);
    let message = object_of_two("role", json_text("user"), "content", json_array(parts));
    let messages: Vec<Value> = vec![message];
    assert(json_views(messages@) =~= seq![caption_message(image_url@, user_text@)]);
    proof {
        caption_message_is_plain(image_url@, user_text@);
        plain_messages_make_a_plain_request(
            model@,
            json_views(messages@),
            CAPTION_TOKENS,
            (READABLE_DEPTH - 2) as nat,
        );
    }
    chat_completion(peer_id, model, messages, CAPTION_TOKENS, TIMEOUT_CONSULTATION)
}

/// Whether a value is the given text.
fn is_text(value: &Value, expected: &str) -> (same: bool)
    ensures
        same == (text_of(json_view(*value)) == Some(expected@)),
{
    match value.as_str() {
        Some(text) => same_text(text, expected),
        None => false,
    }
}

/// Reads the text part out of the parts of a message.
fn read_text_part(parts: &Vec<Value>) -> (text: String)
    ensures
        text@ == text_part(json_views(parts@)),
{
    let ghost all = json_views(parts@);
    let mut i: usize = 0;
    assert(all.skip(0) =~= all);
    while i < parts.len()
        invariant
            i <= parts@.len(),
            all == json_views(parts@),
            text_part(all) == text_part(all.skip(i as int)),
        decreases parts.len() - i,
    {
        let part = &parts[i];
        assert(all.skip(i as int)[0] == json_view(*part));
        if is_text(json_member(part, "type"), "text") {
            return match json_member(part, "text").as_str() {
                Some(text) => text.to_string(),
                None => String::new(),
            };
        }
        assert(all.skip(i as int).drop_first() =~= all.skip(i + 1));
        i += 1;
    }
    String::new()
}

/// Reads the text of a message.
pub fn read_message_text(message: &Value) -> (text: String)
    ensures
        text@ == message_text(json_view(*message)),
{
    let content = json_member(message, "content");
    if let Some(text) = content.as_str() {
        return text.to_string();
    }
    match content.as_array() {
        Some(parts) => read_text_part(parts),
        None => String::new(),
    }
}

/// Reads the text of the last message that is from the user.
pub fn read_last_user_text(messages: &[Value]) -> (text: String)
    ensures
        text@ == last_user_text(json_views(messages@)),
{
    let ghost all = json_views(messages@);
    let mut left: usize = messages.len();
    assert(all.take(left as int) =~= all);
    while left > 0
        invariant
            left <= messages@.len(),
            all == json_views(messages@),
            last_user_text(all) == last_user_text(all.take(left as int)),
        decreases left,
    {
        let message = &messages[left - 1];
        assert(all.take(left as int).last() == json_view(*message));
        if is_text(json_member(message, "role"), "user") {
            return read_message_text(message);
        }
        assert(all.take(left as int).drop_last() =~= all.take(left - 1));
        left -= 1;
    }
    String::new()
}

/// Whether `result` asks the peer the question of the user: the text of the last
/// message that is from the user, cut short where it is long. It is an error exactly
/// where there is no such text.
pub open spec fn is_second_opinion(
    peer_id: EndpointId,
    model: Seq<char>,
    messages: Seq<JsonView>,
    timeout_secs: u64,
    result: Result<Consultation, ConsultError>,
) -> bool {
    let question = last_user_text(messages);
    let short = shortened(question, QUESTION_BYTES as nat);
    match result {
        Ok(consultation) => {
            &&& question.len() > 0
            &&& consultation.peer_id == peer_id
            &&& consultation.timeout_secs == timeout_secs
            &&& consultation.request@ == framed(
                json_bytes(chat_body(model, seq![question_message(short)], OPINION_TOKENS as nat)),
            )
            &&& request_says(
                consultation.request@,
                chat_body(model, seq![question_message(short)], OPINION_TOKENS as nat),
            )
        },
        Err(error) => question.len() == 0 && error == ConsultError::NoUserMessage,
    }
}

/// Asks a peer for a second opinion on the question of the user: the text of the last
/// message that is from the user, cut short where it is long, and not the rest of the
/// conversation. The answer is meant to be short, too.
pub fn second_opinion(
    peer_id: EndpointId,
    model: &str,
    messages: &[Value],
    timeout_secs: u64,
) -> (result: Result<Consultation, ConsultError>)
    ensures
        is_second_opinion(peer_id, model@, json_views(messages@), timeout_secs, result),
{
    let question = read_last_user_text(messages);
    if question.as_str().is_empty() {
        return Err(ConsultError::NoUserMessage);
    }
    let short = shorten(question.as_str(), QUESTION_BYTES);
    let mut prompt = "Answer this briefly and directly in 2-3 sentences:\n\n".to_string();
    prompt.append(short.as_str());
    proof {
        message_keys_differ();
    }
    let message = object_of_two("role", json_text("user"), "content", json_text(prompt.as_str()));
    let ask: Vec<Value> = vec![message];
    assert(json_views(ask@) =~= seq![question_message(short@)]);
    proof {
        question_message_is_plain(short@);
        plain_messages_make_a_plain_request(
            model@,
            json_views(ask@),
            OPINION_TOKENS,
            (READABLE_DEPTH - 2) as nat,
        );
    }
    Ok(chat_completion(peer_id, model, ask, OPINION_TOKENS, timeout_secs))
}

/// The last message of the user alone is the question: neither what came before it
/// nor what others said after it matters.
pub proof fn last_user_message_is_the_question(
    before: Seq<JsonView>,
    message: JsonView,
    after: Seq<JsonView>,
)
    requires
        is_from_user(message),
        forall|i: int| 0 <= i < after.len() ==> !is_from_user(#[trigger] after[i]),
    ensures
        last_user_text(before.push(message) + after) == message_text(message),
    decreases after.len(),
{
    let all = before.push(message) + after;
    if after.len() == 0 {
        assert(all.last() == message);
    } else {
        let shorter = after.drop_last();
        assert(all.drop_last() =~= before.push(message) + shorter);
        assert(all.last() == after[after.len() - 1]);
        assert forall|i: int| 0 <= i < shorter.len() implies !is_from_user(
            #[trigger] shorter[i],
        ) by {
            assert(shorter[i] == after[i]);
        }
        last_user_message_is_the_question(before, message, shorter);
    }
}

/// Without a message from the user there is no question.
pub proof fn no_user_message_no_question(messages: Seq<JsonView>)
    requires
        forall|i: int| 0 <= i < messages.len() ==> !is_from_user(#[trigger] messages[i]),
    ensures
        last_user_text(messages).len() == 0,
    decreases messages.len(),
{
    if messages.len() > 0 {
        let shorter = messages.drop_last();
        assert(messages.last() == messages[messages.len() - 1]);
        assert forall|i: int| 0 <= i < shorter.len() implies !is_from_user(
            #[trigger] shorter[i],
        ) by {
            assert(shorter[i] == messages[i]);
        }
        no_user_message_no_question(shorter);
    }
}

/// However long a conversation is, what is passed on of it has at most six bytes more
/// than the limit.
pub proof fn question_is_bounded(messages: Seq<JsonView>)
    ensures
        byte_len(shortened(last_user_text(messages), QUESTION_BYTES as nat)) <= QUESTION_BYTES + 6,
{
    shortened_is_bounded(last_user_text(messages), QUESTION_BYTES as nat);
}

/// A message is from the user exactly where it is an object whose `role` is the text
/// `user`, whatever else it holds.
pub proof fn user_messages_have_the_role_of_the_user(message: JsonView)
    ensures
        is_from_user(message) <==> message is Object && message->Object_0.contains_key("role"@)
            && message->Object_0["role"@] == JsonView::Text("user"@),
{
}

/// The first part that is marked as text is the one that is read, wherever it stands
/// among the parts and whatever the others are. Where none is, the text is empty.
pub proof fn first_text_part_is_read(
    before: Seq<JsonView>,
    part: Map<Seq<char>, JsonView>,
    after: Seq<JsonView>,
)
    requires
        forall|i: int|
            0 <= i < before.len() ==> !((#[trigger] before[i]) is Object
                && before[i]->Object_0.contains_key("type"@) && before[i]->Object_0["type"@]
                == JsonView::Text("text"@)),
    ensures
        text_part(before).len() == 0,
        part.contains_key("type"@) && part["type"@] == JsonView::Text("text"@) ==> (
        part.contains_key("text"@) && part["text"@] is Text ==> text_part(
            before + seq![JsonView::Object(part)] + after,
        ) == part["text"@]->Text_0) && (!part.contains_key("text"@) || !(part["text"@] is Text)
            ==> text_part(before + seq![JsonView::Object(part)] + after).len() == 0),
    decreases before.len(),
{
    let parts = before + seq![JsonView::Object(part)] + after;
    if before.len() == 0 {
        assert(parts[0] == JsonView::Object(part));
    } else {
        let rest = before.drop_first();
        assert forall|i: int| 0 <= i < rest.len() implies !((#[trigger] rest[i]) is Object
            && rest[i]->Object_0.contains_key("type"@) && rest[i]->Object_0["type"@]
            == JsonView::Text("text"@)) by {
            assert(rest[i] == before[i + 1]);
        }
        first_text_part_is_read(rest, part, after);
        assert(parts[0] == before[0]);
        assert(parts.drop_first() =~= rest + seq![JsonView::Object(part)] + after);
    }
}

/// The text of a message is its content where that is a text. Where that is made of
/// parts, it is the text of the first part marked as text, wherever it stands, and empty
/// where no part is marked so or that one holds no text. It is empty for any other
/// content, and where there is none.
pub proof fn message_text_is_its_content(
    message: &Value,
    members: Map<Seq<char>, JsonView>,
    before: Seq<JsonView>,
    part: Map<Seq<char>, JsonView>,
    after: Seq<JsonView>,
    text: String,
)
    requires
        call_ensures(read_message_text, (message,), text),
    ensures
        text@ == message_text(json_view(*message)),
        !(json_view(*message) is Object) ==> text@.len() == 0,
        json_view(*message) == JsonView::Object(members) ==> {
            let content = members["content"@];
            let plain = forall|i: int|
                0 <= i < before.len() ==> !((#[trigger] before[i]) is Object
                    && before[i]->Object_0.contains_key("type"@) && before[i]->Object_0["type"@]
                    == JsonView::Text("text"@));
            let marked = part.contains_key("type"@) && part["type"@] == JsonView::Text("text"@);
            let found = content == JsonView::Array(before + seq![JsonView::Object(part)] + after);
            let holds_text = part.contains_key("text"@) && part["text"@] is Text;
            &&& !members.contains_key("content"@) ==> text@.len() == 0
            &&& members.contains_key("content"@) ==> {
                &&& content is Text ==> text@ == content->Text_0
                &&& !(content is Text) && !(content is Array) ==> text@.len() == 0
                &&& plain && content == JsonView::Array(before) ==> text@.len() == 0
                &&& plain && marked && found && holds_text ==> text@ == part["text"@]->Text_0
                &&& plain && marked && found && !holds_text ==> text@.len() == 0
            }
        },
{
    if forall|i: int|
        0 <= i < before.len() ==> !((#[trigger] before[i]) is Object
            && before[i]->Object_0.contains_key("type"@) && before[i]->Object_0["type"@]
            == JsonView::Text("text"@)) {
        first_text_part_is_read(before, part, after);
    }
}

/// The last message of the user is the one that is read, wherever it stands and whatever
/// the others are; where there is none, the text is empty.
pub proof fn last_user_message_is_read(messages: &[Value], at: int, text: String)
    requires
        call_ensures(read_last_user_text, (messages,), text),
        forall|k: int|
            at < k < messages@.len() ==> !(json_view(#[trigger] messages@[k]) is Object
                && json_view(messages@[k])->Object_0.contains_key("role"@)
                && json_view(messages@[k])->Object_0["role"@] == JsonView::Text("user"@)),
    ensures
        at < 0 ==> text@.len() == 0,
        0 <= at < messages@.len() && json_view(messages@[at]) is Object && json_view(
            messages@[at],
        )->Object_0.contains_key("role"@) && json_view(messages@[at])->Object_0["role"@]
            == JsonView::Text("user"@) ==> text@ == message_text(json_view(messages@[at])),
{
    let views = json_views(messages@);
    if at < 0 {
        assert forall|i: int| 0 <= i < views.len() implies !is_from_user(#[trigger] views[i]) by {
            assert(views[i] == json_view(messages@[i]));
        }
        no_user_message_no_question(views);
    } else if at < messages@.len() && is_from_user(views[at]) {
        let before = views.take(at);
        let after = views.skip(at + 1);
        assert(views =~= before.push(views[at]) + after);
        assert forall|i: int| 0 <= i < after.len() implies !is_from_user(#[trigger] after[i]) by {
            assert(after[i] == json_view(messages@[at + 1 + i]));
        }
        last_user_message_is_the_question(before, views[at], after);
    }
}

/// A second opinion is asked for exactly where the user asks something, and then of the
/// given peer. The request holds one message of the user: the fixed words, and the
/// question, whole where it has at most 2000 bytes, and else cut behind the first
/// character that reaches that limit, with three dots. Returns the members of the body
/// and what is passed on of the question.
pub proof fn second_opinion_passes_the_question_on(
    peer_id: EndpointId,
    model: &str,
    messages: &[Value],
    timeout_secs: u64,
    question: String,
    result: Result<Consultation, ConsultError>,
) -> (asked: (Map<Seq<char>, JsonView>, Seq<char>))
    requires
        call_ensures(second_opinion, (peer_id, model, messages, timeout_secs), result),
        call_ensures(read_last_user_text, (messages,), question),
    ensures
        question@.len() == 0 <==> result == Err::<Consultation, ConsultError>(
            ConsultError::NoUserMessage,
        ),
        question@.len() > 0 ==> result is Ok,
        result matches Ok(consultation) ==> {
            let body = asked.0;
            let message = body["messages"@]->Array_0[0]->Object_0;
            &&& consultation.peer_id == peer_id
            &&& consultation.timeout_secs == timeout_secs
            &&& consultation.request@ == framed(json_bytes(JsonView::Object(body)))
            &&& reads_as(json_bytes(JsonView::Object(body)), JsonView::Object(body))
            &&& body.dom() == set![
                "model"@,
                "messages"@,
                "max_tokens"@,
                "temperature"@,
                "stream"@,
                "mesh_hooks"@,
            ]
            &&& body["model"@] == JsonView::Text(model@)
            &&& body["max_tokens"@] == JsonView::Number(seq!['1', '9', '2'])
            &&& body["temperature"@] == JsonView::Number(seq!['0', '.', '3'])
            &&& body["stream"@] == JsonView::Bool(false)
            &&& body["mesh_hooks"@] == JsonView::Bool(false)
            &&& body["messages"@] is Array
            &&& body["messages"@]->Array_0.len() == 1
            &&& body["messages"@]->Array_0[0] is Object
            &&& message.dom() == set!["role"@, "content"@]
            &&& message["role"@] == JsonView::Text("user"@)
            &&& message["content"@] == JsonView::Text(
                "Answer this briefly and directly in 2-3 sentences:\n\n"@ + asked.1,
            )
        },
        encode_utf8(question@).len() <= 2000 ==> asked.1 == question@,
        encode_utf8(question@).len() > 2000 ==> exists|k: int|
            0 <= k <= question@.len() && asked.1 == #[trigger] question@.take(k) + seq![
                '.',
                '.',
                '.',
            ] && encode_utf8(question@.take(k)).len() >= 2000 && (k > 0 ==> encode_utf8(
                question@.take(k - 1),
            ).len() < 2000),
{
    let short = shortened(question@, QUESTION_BYTES as nat);
    shortened_ends_at_the_limit(question@, 2000);
    let message = question_message(short);
    let view = chat_body(model@, seq![message], OPINION_TOKENS as nat);
    consulted_peer_does_not_consult(model@, seq![message], OPINION_TOKENS as nat);
    request_numbers_are_written_out();
    message_keys_differ();
    let body = view->Object_0;
    assert(body.dom() =~= set![
        "model"@,
        "messages"@,
        "max_tokens"@,
        "temperature"@,
        "stream"@,
        "mesh_hooks"@,
    ]);
    assert(message->Object_0.dom() =~= set!["role"@, "content"@]);
    if let Ok(consultation) = result {
        request_reads_as_its_body(consultation.request@, view);
    }
    (body, short)
}

/// A caption is asked for of the given peer. The request holds one message of the user of
/// two parts: the prompt, which holds the whole question of the user where there is one,
/// and the image, by its whole URL, however long it is. Returns the members of the body.
pub proof fn caption_request_holds_the_whole_image(
    peer_id: EndpointId,
    model: &str,
    image_url: &str,
    user_text: &str,
    consultation: Consultation,
) -> (body: Map<Seq<char>, JsonView>)
    requires
        call_ensures(caption_image, (peer_id, model, image_url, user_text), consultation),
    ensures
        consultation.peer_id == peer_id,
        consultation.timeout_secs == 20,
        consultation.request@ == framed(json_bytes(JsonView::Object(body))),
        reads_as(json_bytes(JsonView::Object(body)), JsonView::Object(body)),
        body.dom() == set![
            "model"@,
            "messages"@,
            "max_tokens"@,
            "temperature"@,
            "stream"@,
            "mesh_hooks"@,
        ],
        body["model"@] == JsonView::Text(model@),
        body["max_tokens"@] == JsonView::Number(seq!['2', '5', '6']),
        body["temperature"@] == JsonView::Number(seq!['0', '.', '3']),
        body["stream"@] == JsonView::Bool(false),
        body["mesh_hooks"@] == JsonView::Bool(false),
        body["messages"@] is Array,
        body["messages"@]->Array_0.len() == 1,
        body["messages"@]->Array_0[0] is Object,
        ({
            let message = body["messages"@]->Array_0[0]->Object_0;
            let parts = message["content"@]->Array_0;
            let prompt = parts[0]->Object_0;
            let image = parts[1]->Object_0;
            let url = image["image_url"@]->Object_0;
            &&& message.dom() == set!["role"@, "content"@]
            &&& message["role"@] == JsonView::Text("user"@)
            &&& message["content"@] is Array
            &&& parts.len() == 2
            &&& parts[0] is Object
            &&& prompt.dom() == set!["type"@, "text"@]
            &&& prompt["type"@] == JsonView::Text("text"@)
            &&& user_text@.len() == 0 ==> prompt["text"@] == JsonView::Text(
                "Describe this image concisely in one paragraph."@,
            )
            &&& user_text@.len() > 0 ==> prompt["text"@] == JsonView::Text(
                "The user asked: \""@ + user_text@
                    + "\"\n\nDescribe this image concisely, focusing on details relevant to the user's question."@,
            )
            &&& parts[1] is Object
            &&& image.dom() == set!["type"@, "image_url"@]
            &&& image["type"@] == JsonView::Text("image_url"@)
            &&& image["image_url"@] is Object
            &&& url.dom() == set!["url"@]
            &&& url["url"@] == JsonView::Text(image_url@)
        }),
{
    let message = caption_message(image_url@, user_text@);
    let view = chat_body(model@, seq![message], CAPTION_TOKENS as nat);
    consulted_peer_does_not_consult(model@, seq![message], CAPTION_TOKENS as nat);
    request_numbers_are_written_out();
    message_keys_differ();
    let body = view->Object_0;
    assert(body.dom() =~= set![
        "model"@,
        "messages"@,
        "max_tokens"@,
        "temperature"@,
        "stream"@,
        "mesh_hooks"@,
    ]);
    let members = message->Object_0;
    let parts = members["content"@]->Array_0;
    assert(members.dom() =~= set!["role"@, "content"@]);
    assert(parts[0]->Object_0.dom() =~= set!["type"@, "text"@]);
    assert(parts[1]->Object_0.dom() =~= set!["type"@, "image_url"@]);
    assert(parts[1]->Object_0["image_url"@]->Object_0.dom() =~= set!["url"@]);
    request_reads_as_its_body(consultation.request@, view);
    body
}

/// How the numbers of a request are written.
proof fn request_numbers_are_written_out()
    ensures
        decimal(CAPTION_TOKENS as nat) == seq!['2', '5', '6'],
        decimal(OPINION_TOKENS as nat) == seq!['1', '9', '2'],
        "0.3"@ == seq!['0', '.', '3'],
{
    reveal_strlit("0.3");
    assert("0.3"@ =~= seq!['0', '.', '3']);
    reveal_with_fuel(decimal, 4);
    assert(decimal(256) =~= seq!['2', '5', '6']);
    assert(decimal(192) =~= seq!['1', '9', '2']);
}

/// A request whose body reads as a value is the frame of that body.
proof fn request_reads_as_its_body(request: Seq<u8>, view: JsonView)
    requires
        request == framed(json_bytes(view)),
        request_says(request, view),
    ensures
        reads_as(json_bytes(view), view),
{
    let bytes = json_bytes(view);
    request_splits(bytes);
    let end = encode_utf8(head_terminator());
    let head = encode_utf8(request_head(bytes.len()));
    let at = choose|at: int| #[trigger]
        first_stands_at(request, end, at) && reads_as(request.skip(at + 4), view);
    let place = head.len() - 4;
    if at < place {
        assert(!stands_at(request, end, at));
    } else if at > place {
        assert(!stands_at(request, end, place));
    }
    assert(request.skip(place + 4) == bytes);
}

} // verus!
