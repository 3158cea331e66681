use consult::chat::{
    assistant_content, chat_completion, chat_reply, read_body, read_reply, Consultation,
    MAX_REPLY_BYTES, TIMEOUT_CONSULTATION,
};
use consult::decimal::decimal_text;
use consult::errors::ConsultError;
use consult::http::{find_head_end, frame_request, is_white_space, read_status};
use consult::json::READABLE_DEPTH;
use consult::opinions::{caption_image, read_last_user_text, read_message_text, second_opinion};
use consult::peers::EndpointId;
use consult::text::{characters, fit, shorten, utf8_width};
use serde_json::Value;

const PEER: EndpointId = EndpointId { bytes: [7; 32] };

fn json(text: &str) -> Value {
    serde_json::from_str(text).unwrap()
}

fn body_of(consultation: &Consultation) -> String {
    let request = String::from_utf8(consultation.request.clone()).unwrap();
    let (head, body) = request.split_once("\r\n\r\n").unwrap();
    assert_eq!(
        head,
        format!(
            "POST /v1/chat/completions HTTP/1.1\r\nHost: localhost\r\nContent-Type: application/json\r\nContent-Length: {}",
            body.len()
        )
    );
    body.to_string()
}

#[test]
fn request_is_framed_with_its_length() {
    assert_eq!(
        frame_request(b"0123456789ab"),
        b"POST /v1/chat/completions HTTP/1.1\r\nHost: localhost\r\nContent-Type: application/json\r\nContent-Length: 12\r\n\r\n0123456789ab".to_vec()
    );
    assert!(frame_request(b"").ends_with(b"Content-Length: 0\r\n\r\n"));
}

#[test]
fn framed_request_splits_at_the_first_empty_line() {
    let body = "x\r\n\r\ny";
    let request = String::from_utf8(frame_request(body.as_bytes())).unwrap();
    let list = characters(&request);
    let end = find_head_end(&list).unwrap();
    assert_eq!(&request[end + 4..], body);
}

#[test]
fn request_disables_hooks_and_streaming() {
    let messages = vec![json(r#"{"role":"user","content":"say \"hi\"\n"}"#)];
    let consultation = chat_completion(PEER, "mo\"del", messages, 64, 11);
    assert_eq!(consultation.peer_id, PEER);
    assert_eq!(consultation.timeout_secs, 11);
    assert_eq!(
        body_of(&consultation),
        r#"{"max_tokens":64,"mesh_hooks":false,"messages":[{"content":"say \"hi\"\n","role":"user"}],"model":"mo\"del","stream":false,"temperature":0.3}"#
    );
}

#[test]
fn request_temperature_is_a_number() {
    let body = json(&body_of(&chat_completion(PEER, "m", vec![], u32::MAX, 1)));
    assert_eq!(body["temperature"].as_f64(), Some(0.3));
    assert_eq!(body["max_tokens"].as_u64(), Some(4294967295));
    assert_eq!(body["stream"], Value::from(false));
    assert_eq!(body["mesh_hooks"], Value::from(false));
    assert_eq!(body["messages"], Value::from(Vec::<Value>::new()));
    assert_eq!(body["model"], Value::from("m"));
}

#[test]
fn request_reads_back_as_deep_as_it_can_be_read() {
    let mut message = Value::from("\u{1f600}\"\\\u{1}");
    for _ in 0..READABLE_DEPTH - 2 {
        message = Value::from(vec![message]);
    }
    let deep = chat_completion(PEER, "m", vec![message.clone()], 64, 1);
    let body = json(&body_of(&deep));
    assert_eq!(body["messages"][0], message);
    assert_eq!(body["max_tokens"], Value::from(64));
    let too_deep = chat_completion(PEER, "m", vec![Value::from(vec![message])], 64, 1);
    assert!(serde_json::from_str::<Value>(&body_of(&too_deep)).is_err());
}

#[test]
fn request_reads_back_with_integers_of_either_sign() {
    for text in ["-9223372036854775808", "-1", "0", "18446744073709551615", "0.7"] {
        let message = json(&format!(r#"{{"n":{text}}}"#));
        let request = body_of(&chat_completion(PEER, "m", vec![message.clone()], 1, 1));
        assert!(request.contains(&format!("[{{\"n\":{text}}}]")));
        assert_eq!(json(&request)["messages"][0], message);
    }
}

#[test]
fn captions_are_asked_with_and_without_a_question() {
    let plain = caption_image(PEER, "eye", "data:image/png;base64,AAAA", "");
    assert_eq!(plain.peer_id, PEER);
    assert_eq!(plain.timeout_secs, TIMEOUT_CONSULTATION);
    assert_eq!(TIMEOUT_CONSULTATION, 20);
    let expected = json(
        r#"{"model":"eye","max_tokens":256,"temperature":0.3,"stream":false,"mesh_hooks":false,
            "messages":[{"role":"user","content":[
                {"type":"text","text":"Describe this image concisely in one paragraph."},
                {"type":"image_url","image_url":{"url":"data:image/png;base64,AAAA"}}]}]}"#,
    );
    assert_eq!(json(&body_of(&plain)), expected);
    let asked = json(&body_of(&caption_image(PEER, "eye", "data:,x", "what breed?")));
    assert_eq!(
        asked["messages"][0]["content"][0]["text"],
        Value::from("The user asked: \"what breed?\"\n\nDescribe this image concisely, focusing on details relevant to the user's question.")
    );
    assert_eq!(
        asked["messages"][0]["content"][1]["image_url"]["url"],
        Value::from("data:,x")
    );
}

#[test]
fn second_opinion_asks_the_last_user_message() {
    let messages = vec![
        json(r#"{"role":"user","content":"first"}"#),
        json(r#"{"role":"assistant","content":"answer"}"#),
        json(r#"{"role":"user","content":"second"}"#),
        json(r#"{"role":"assistant","content":"more"}"#),
    ];
    let consultation = second_opinion(PEER, "m", &messages, 9).unwrap();
    assert_eq!(consultation.peer_id, PEER);
    assert_eq!(consultation.timeout_secs, 9);
    let expected = json(
        r#"{"model":"m","max_tokens":192,"temperature":0.3,"stream":false,"mesh_hooks":false,
            "messages":[{"role":"user","content":"Answer this briefly and directly in 2-3 sentences:\n\nsecond"}]}"#,
    );
    assert_eq!(json(&body_of(&consultation)), expected);
}

#[test]
fn message_text_is_read_from_strings_and_parts() {
    assert_eq!(read_message_text(&json(r#"{"content":"plain"}"#)), "plain");
    assert_eq!(
        read_message_text(&json(
            r#"{"content":[{"type":"image_url"},{"type":"text","text":"one"},{"type":"text","text":"two"}]}"#
        )),
        "one"
    );
    assert_eq!(
        read_message_text(&json(
            r#"{"content":[{"type":"text"},{"type":"text","text":"two"}]}"#
        )),
        ""
    );
    assert_eq!(read_message_text(&json(r#"{"content":[]}"#)), "");
    assert_eq!(read_message_text(&json(r#"{"content":7}"#)), "");
    assert_eq!(read_message_text(&json(r#"[1]"#)), "");
}

#[test]
fn missing_user_message_is_an_error() {
    let cases = [
        vec![],
        vec![json(r#"{"role":"assistant","content":"x"}"#)],
        vec![json(r#"{"role":"user","content":""}"#)],
        vec![
            json(r#"{"role":"user","content":"earlier"}"#),
            json(r#"{"role":"user","content":null}"#),
        ],
        vec![json(r#""user""#)],
    ];
    for messages in cases {
        assert_eq!(read_last_user_text(&messages), "");
        assert!(matches!(
            second_opinion(PEER, "m", &messages, 1),
            Err(ConsultError::NoUserMessage)
        ));
    }
    assert_eq!(
        ConsultError::NoUserMessage.describe(),
        "no user message found for second opinion"
    );
}

#[test]
fn long_questions_are_cut_short() {
    let exact = "a".repeat(2000);
    assert_eq!(shorten(&exact, 2000), exact);
    assert_eq!(shorten(&"a".repeat(2001), 2000), format!("{exact}..."));
    let straddling = format!("{}\u{e9}", "a".repeat(1999));
    assert_eq!(shorten(&straddling, 2000), format!("{straddling}..."));
    let wide = "\u{1f600}".repeat(600);
    assert_eq!(
        shorten(&wide, 2000),
        format!("{}...", "\u{1f600}".repeat(500))
    );
    let message = json(&format!(r#"{{"role":"user","content":"{}"}}"#, "b".repeat(5000)));
    let body = json(&body_of(&second_opinion(PEER, "m", &[message], 1).unwrap()));
    assert_eq!(
        body["messages"][0]["content"],
        Value::from(format!(
            "Answer this briefly and directly in 2-3 sentences:\n\n{}...",
            "b".repeat(2000)
        ))
    );
}

#[test]
fn reply_of_success_gives_the_text() {
    let reply = "HTTP/1.1 200 OK\r\nContent-Type: application/json\r\n\r\n{\"choices\":[{\"message\":{\"content\":\"it is\\r\\n\\r\\nblue\"}}]}";
    assert_eq!(read_reply(reply).unwrap(), "it is\r\n\r\nblue");
    assert_eq!(chat_reply(reply.as_bytes()).unwrap(), "it is\r\n\r\nblue");
    let consultation = chat_completion(PEER, "m", vec![], 1, 5);
    assert_eq!(
        consultation.conclude(Some(reply.as_bytes())).unwrap(),
        "it is\r\n\r\nblue"
    );
}

#[test]
fn reply_that_is_not_utf8_is_read_with_replacements() {
    let reply = b"HTTP/1.1 200 OK\r\n\r\n{\"choices\":[{\"message\":{\"content\":\"a\xffb\"}}]}";
    assert_eq!(chat_reply(reply).unwrap(), "a\u{fffd}b");
}

#[test]
fn reply_without_head_end_is_an_error() {
    let result = chat_reply(b"HTTP/1.1 200 OK\r\n");
    assert!(matches!(result, Err(ConsultError::NoHeadEnd)));
    assert_eq!(
        result.unwrap_err().describe(),
        "malformed HTTP response: no header terminator"
    );
    assert!(matches!(chat_reply(b""), Err(ConsultError::NoHeadEnd)));
}

#[test]
fn refusal_is_an_error_that_quotes_the_reply() {
    let reply = "HTTP/1.1 503 Busy\r\n\r\ntry later";
    let error = chat_reply(reply.as_bytes()).unwrap_err();
    assert_eq!(
        error.describe(),
        "peer returned HTTP 503: HTTP/1.1 503 Busy\r\n\r\ntry later"
    );
    let long = format!("HTTP/1.1 404 x\r\n\r\n{}", "y".repeat(500));
    let error = chat_reply(long.as_bytes()).unwrap_err();
    assert_eq!(
        error.describe(),
        format!("peer returned HTTP 404: {}", &long[..200])
    );
    let garbage = chat_reply(b"garbage\r\n\r\n").unwrap_err();
    assert_eq!(garbage.describe(), "peer returned HTTP 0: garbage\r\n\r\n");
}

#[test]
fn body_that_is_not_json_is_an_error_that_quotes_it() {
    let error = chat_reply(b"HTTP/1.1 200 OK\r\n\r\nnot json").unwrap_err();
    let reason = serde_json::from_str::<Value>("not json").unwrap_err();
    assert_eq!(
        error.describe(),
        format!("failed to parse peer response body: {reason}\nraw: not json")
    );
    let error = read_body("raw", Err("reason".to_string())).unwrap_err();
    assert_eq!(
        error.describe(),
        "failed to parse peer response body: reason\nraw: raw"
    );
}

#[test]
fn body_without_text_is_an_error() {
    let bodies = [
        r#"{}"#,
        r#"[]"#,
        r#"{"choices":[]}"#,
        r#"{"choices":{"0":{"message":{"content":"x"}}}}"#,
        r#"{"choices":[{"message":{"content":""}}]}"#,
        r#"{"choices":[{"message":{"content":["x"]}}]}"#,
    ];
    for body in bodies {
        assert_eq!(assistant_content(&json(body)), "");
        let reply = format!("HTTP/1.1 200 OK\r\n\r\n{body}");
        let error = chat_reply(reply.as_bytes()).unwrap_err();
        assert!(matches!(error, ConsultError::EmptyReply));
        assert_eq!(error.describe(), "peer returned empty response");
    }
}

#[test]
fn late_reply_is_an_error() {
    let consultation = chat_completion(PEER, "m", vec![], 1, 20);
    let error = consultation.conclude(None).unwrap_err();
    assert!(matches!(error, ConsultError::TimedOut { seconds: 20 }));
    assert_eq!(error.describe(), "consultation timed out after 20s");
    assert_eq!(MAX_REPLY_BYTES, 64 * 1024);
}

#[test]
fn quotation_ends_before_a_character_that_does_not_fit() {
    let reply = format!("HTTP/1.1 500 XY\r\n\r\n{}", "\u{e9}".repeat(100));
    assert!(!reply.is_char_boundary(200));
    let error = chat_reply(reply.as_bytes()).unwrap_err();
    assert_eq!(
        error.describe(),
        format!("peer returned HTTP 500: {}", &reply[..199])
    );
    let body = format!("a{}", "\u{e9}".repeat(100));
    assert!(!body.is_char_boundary(200));
    let reply = format!("HTTP/1.1 200 OK\r\n\r\n{body}");
    let error = chat_reply(reply.as_bytes()).unwrap_err();
    let reason = serde_json::from_str::<Value>(&body).unwrap_err();
    assert_eq!(
        error.describe(),
        format!("failed to parse peer response body: {reason}\nraw: {}", &body[..199])
    );
}

#[test]
fn longest_beginning_that_fits_is_taken() {
    let text = format!("{}\u{e9}", "a".repeat(199));
    assert_eq!(fit(&text, 200), "a".repeat(199));
    assert_eq!(fit(&text, 201), text);
    assert_eq!(fit(&text, 199), "a".repeat(199));
    assert_eq!(fit(&text, 3), "aaa");
    assert_eq!(fit("\u{1f600}a", 3), "");
    assert_eq!(fit("\u{1f600}a", 4), "\u{1f600}");
    assert_eq!(fit("abc", usize::MAX), "abc");
    assert_eq!(fit("", 0), "");
}

#[test]
fn status_is_parsed_as_a_number_of_sixteen_bits() {
    let words = [
        "200", "+200", "0200", "-1", "-0", "65535", "65536", "99999999999999999999", "2x0", "+",
        "++1", "\u{663}", "0", "007",
    ];
    for word in words {
        let line = format!("HTTP/1.1\t {word}\u{3000}reason\nx 300");
        let list = characters(&line);
        assert_eq!(
            read_status(&list, list.len()),
            word.parse::<u16>().unwrap_or(0)
        );
    }
    for line in ["", "HTTP/1.1", "HTTP/1.1 ", "HTTP/1.1\n200", " \r\n"] {
        let list = characters(line);
        assert_eq!(read_status(&list, list.len()), 0);
    }
    let list = characters("HTTP/1.1 200 OK");
    assert_eq!(read_status(&list, 11), 20);
    assert_eq!(read_status(&list, list.len()), 200);
    let bare = characters("HTTP/1.1 204\r");
    assert_eq!(read_status(&bare, bare.len()), 204);
}

#[test]
fn white_space_is_that_of_unicode() {
    for value in 0..=0x10ffff_u32 {
        if let Some(character) = char::from_u32(value) {
            assert_eq!(is_white_space(character), character.is_whitespace());
            assert_eq!(utf8_width(character), character.len_utf8());
        }
    }
}

#[test]
fn decimals_are_written_as_usual() {
    for number in [0, 7, 10, 99, 100, 65535, 1_000_000_007, u64::MAX] {
        assert_eq!(decimal_text(number), number.to_string());
    }
}
