//! The HTTP messages that consultations exchange with peers.

use vstd::prelude::*;
use vstd::string::*;
use vstd::utf8::*;

use crate::decimal::{decimal, decimal_reads_back, decimal_text, is_digits, number_of};

verus! {

/// What stands before the body of a request: the request line and the headers.
pub open spec fn request_head(body_length: nat) -> Seq<char> {
    "POST /v1/chat/completions HTTP/1.1\r\n"@ + "Host: localhost\r\n"@
        + "Content-Type: application/json\r\n"@ + "Content-Length: "@ + decimal(body_length)
        + "\r\n\r\n"@
}

/// The bytes of a request with the given body.
pub open spec fn framed(body: Seq<u8>) -> Seq<u8> {
    encode_utf8(request_head(body.len())) + body
}

/// Frames a body as a request for a chat completion.
pub fn frame_request(body: &[u8]) -> (request: Vec<u8>)
    ensures
        request@ == framed(body@),
{
    let mut head = "POST /v1/chat/completions HTTP/1.1\r\n".to_string();
    head.append("Host: localhost\r\n");
    head.append("Content-Type: application/json\r\n");
    head.append("Content-Length: ");
    head.append(decimal_text(body.len() as u64).as_str());
    head.append("\r\n\r\n");
    let mut request: Vec<u8> = Vec::new();
    request.extend_from_slice(head.as_str().as_bytes());
    request.extend_from_slice(body);
    assert(request@ =~= framed(body@));
    request
}

/// Whether a character is white space, as Unicode has it.
pub open spec fn is_space(character: char) -> bool {
    ||| '\u{9}' <= character <= '\u{d}'
    ||| character == ' '
    ||| character == '\u{85}'
    ||| character == '\u{a0}'
    ||| character == '\u{1680}'
    ||| '\u{2000}' <= character <= '\u{200a}'
    ||| character == '\u{2028}'
    ||| character == '\u{2029}'
    ||| character == '\u{202f}'
    ||| character == '\u{205f}'
    ||| character == '\u{3000}'
}

/// White space.
pub open spec fn space() -> spec_fn(char) -> bool {
    |character: char| is_space(character)
}

/// Anything but white space.
pub open spec fn ink() -> spec_fn(char) -> bool {
    |character: char| !is_space(character)
}

/// Anything but the end of a line.
pub open spec fn within_line() -> spec_fn(char) -> bool {
    |character: char| character != '\n'
}

/// The longest beginning of a text that has only characters of one kind.
pub open spec fn leading(text: Seq<char>, kind: spec_fn(char) -> bool) -> Seq<char>
    decreases text.len(),
{
    if text.len() == 0 || !kind(text[0]) {
        Seq::empty()
    } else {
        seq![text[0]] + leading(text.drop_first(), kind)
    }
}

/// What follows the longest beginning of one kind.
pub open spec fn after_leading(text: Seq<char>, kind: spec_fn(char) -> bool) -> Seq<char> {
    text.skip(leading(text, kind).len() as int)
}

/// The second of the words of a line, which white space parts. Empty where there is
/// none.
pub open spec fn second_word(line: Seq<char>) -> Seq<char> {
    leading(after_leading(after_leading(after_leading(line, space()), ink()), space()), ink())
}

/// The number that a word stands for: decimal digits, maybe behind a plus sign, that
/// fit 16 bits. Zero for any other word.
pub open spec fn status_code(word: Seq<char>) -> nat {
    let digits = if word.len() > 0 && word[0] == '+' {
        word.drop_first()
    } else {
        word
    };
    if digits.len() > 0 && is_digits(digits) && number_of(digits) <= u16::MAX {
        number_of(digits)
    } else {
        0
    }
}

/// The status that the head of a reply tells: the second word of its first line.
pub open spec fn status_of(head: Seq<char>) -> nat {
    status_code(second_word(leading(head, within_line())))
}

/// Whether `pattern` stands at the given place of `whole`.
pub open spec fn stands_at<T>(whole: Seq<T>, pattern: Seq<T>, at: int) -> bool {
    0 <= at && at + pattern.len() <= whole.len() && whole.subrange(at, at + pattern.len())
        == pattern
}

/// Whether `pattern` stands at the given place of `whole`, and nowhere before.
pub open spec fn first_stands_at<T>(whole: Seq<T>, pattern: Seq<T>, at: int) -> bool {
    stands_at(whole, pattern, at) && forall|earlier: int|
        earlier < at ==> !(#[trigger] stands_at(whole, pattern, earlier))
}

/// The empty line that ends the head of a message, with the end of the line before.
pub open spec fn head_terminator() -> Seq<char> {
    seq!['\r', '\n', '\r', '\n']
}

/// Where the head of a message ends.
pub open spec fn head_end(message: Seq<char>) -> Option<int> {
    if exists|at: int| first_stands_at(message, head_terminator(), at) {
        Some(choose|at: int| first_stands_at(message, head_terminator(), at))
    } else {
        None
    }
}

proof fn leading_is(text: Seq<char>, kind: spec_fn(char) -> bool, count: int)
    requires
        0 <= count <= text.len(),
        forall|i: int| 0 <= i < count ==> kind(#[trigger] text[i]),
        count < text.len() ==> !kind(text[count]),
    ensures
        leading(text, kind) == text.take(count),
        after_leading(text, kind) == text.skip(count),
    decreases text.len(),
{
    if count == 0 {
        assert(text.take(0) =~= Seq::<char>::empty());
    } else {
        let rest = text.drop_first();
        assert forall|i: int| 0 <= i < count - 1 implies kind(#[trigger] rest[i]) by {
            assert(rest[i] == text[i + 1]);
        }
        leading_is(rest, kind, count - 1);
        assert(seq![text[0]] + rest.take(count - 1) =~= text.take(count));
    }
}

/// Whether a character is white space.
pub fn is_white_space(character: char) -> (space: bool)
    ensures
        space == is_space(character),
{
    let value = character as u32;
    (0x9 <= value && value <= 0xd) || value == 0x20 || value == 0x85 || value == 0xa0 || value
        == 0x1680 || (0x2000 <= value && value <= 0x200a) || value == 0x2028 || value == 0x2029
        || value == 0x202f || value == 0x205f || value == 0x3000
}

/// Where the white space that starts at `from` ends.
fn skip_space(text: &[char], from: usize, to: usize) -> (end: usize)
    requires
        from <= to <= text@.len(),
    ensures
        from <= end <= to,
        leading(text@.subrange(from as int, to as int), space()) == text@.subrange(
            from as int,
            end as int,
        ),
        after_leading(text@.subrange(from as int, to as int), space()) == text@.subrange(
            end as int,
            to as int,
        ),
{
    let mut end = from;
    while end < to && is_white_space(text[end])
        invariant
            from <= end <= to <= text@.len(),
            forall|i: int| from <= i < end ==> is_space(#[trigger] text@[i]),
        decreases to - end,
    {
        end += 1;
    }
    proof {
        let part = text@.subrange(from as int, to as int);
        leading_is(part, space(), end - from);
        assert(part.take(end - from) =~= text@.subrange(from as int, end as int));
        assert(part.skip(end - from) =~= text@.subrange(end as int, to as int));
    }
    end
}

/// Where the word that starts at `from` ends.
fn skip_word(text: &[char], from: usize, to: usize) -> (end: usize)
    requires
        from <= to <= text@.len(),
    ensures
        from <= end <= to,
        leading(text@.subrange(from as int, to as int), ink()) == text@.subrange(
            from as int,
            end as int,
        ),
        after_leading(text@.subrange(from as int, to as int), ink()) == text@.subrange(
            end as int,
            to as int,
        ),
{
    let mut end = from;
    while end < to && !is_white_space(text[end])
        invariant
            from <= end <= to <= text@.len(),
            forall|i: int| from <= i < end ==> !is_space(#[trigger] text@[i]),
        decreases to - end,
    {
        end += 1;
    }
    proof {
        let part = text@.subrange(from as int, to as int);
        leading_is(part, ink(), end - from);
        assert(part.take(end - from) =~= text@.subrange(from as int, end as int));
        assert(part.skip(end - from) =~= text@.subrange(end as int, to as int));
    }
    end
}

/// Where the first line of a text ends.
fn skip_line(text: &[char], to: usize) -> (end: usize)
    requires
        to <= text@.len(),
    ensures
        end <= to,
        leading(text@.subrange(0, to as int), within_line()) == text@.subrange(0, end as int),
{
    let mut end: usize = 0;
    while end < to && text[end] != '\n'
        invariant
            end <= to <= text@.len(),
            forall|i: int| 0 <= i < end ==> #[trigger] text@[i] != '\n',
        decreases to - end,
    {
        end += 1;
    }
    proof {
        let part = text@.subrange(0, to as int);
        leading_is(part, within_line(), end as int);
        assert(part.take(end as int) =~= text@.subrange(0, end as int));
    }
    end
}

proof fn number_of_prefix(digits: Seq<char>, count: int)
    requires
        0 <= count <= digits.len(),
    ensures
        number_of(digits.take(count)) <= number_of(digits),
    decreases digits.len(),
{
    if count < digits.len() {
        number_of_prefix(digits.drop_last(), count);
        assert(digits.drop_last().take(count) =~= digits.take(count));
    } else {
        assert(digits.take(count) =~= digits);
    }
}

/// Reads a status code.
fn read_code(text: &[char], from: usize, to: usize) -> (code: u16)
    requires
        from <= to <= text@.len(),
    ensures
        code == status_code(text@.subrange(from as int, to as int)),
{
    let ghost word = text@.subrange(from as int, to as int);
    let start = if from < to && text[from] == '+' {
        from + 1
    } else {
        from
    };
    let ghost digits = text@.subrange(start as int, to as int);
    proof {
        if start > from {
            assert(word.drop_first() =~= digits);
        }
    }
    if start == to {
        return 0;
    }
    let mut number: u32 = 0;
    let mut i = start;
    assert(digits.take(0) =~= Seq::<char>::empty());
    while i < to
        invariant
            start <= i <= to <= text@.len(),
            word == text@.subrange(from as int, to as int),
            digits == text@.subrange(start as int, to as int),
            digits.len() > 0,
            status_code(word) == if is_digits(digits) && number_of(digits) <= u16::MAX {
                number_of(digits)
            } else {
                0
            },
            is_digits(digits.take(i - start)),
            number == number_of(digits.take(i - start)),
            number <= u16::MAX,
        decreases to - i,
    {
        let character = text[i];
        proof {
            assert(digits[i - start] == character);
            assert(digits.take(i - start + 1).drop_last() =~= digits.take(i - start));
        }
        if character < '0' || character > '9' {
            return 0;
        }
        number = number * 10 + (character as u32 - 48);
        proof {
            let longer = digits.take(i - start + 1);
            assert(longer.last() == character);
            assert forall|k: int| 0 <= k < longer.len() implies '0' <= #[trigger] longer[k]
                <= '9' by {
                if k < i - start {
                    assert(longer[k] == digits.take(i - start)[k]);
                }
            }
            number_of_prefix(digits, i - start + 1);
        }
        if number > 0xffff {
            return 0;
        }
        i += 1;
    }
    assert(digits.take(digits.len() as int) =~= digits);
    number as u16
}

/// Reads the status out of the head of a reply, which ends at `to`.
pub fn read_status(text: &[char], to: usize) -> (code: u16)
    requires
        to <= text@.len(),
    ensures
        code == status_of(text@.take(to as int)),
{
    let line_end = skip_line(text, to);
    let first = skip_space(text, 0, line_end);
    let first_end = skip_word(text, first, line_end);
    let second = skip_space(text, first_end, line_end);
    let second_end = skip_word(text, second, line_end);
    assert(text@.take(to as int) =~= text@.subrange(0, to as int));
    read_code(text, second, second_end)
}

/// Finds where the head of a message ends.
pub fn find_head_end(text: &[char]) -> (found: Option<usize>)
    ensures
        match found {
            Some(at) => head_end(text@) == Some(at as int) && first_stands_at(
                text@,
                head_terminator(),
                at as int,
            ),
            None => head_end(text@) is None,
        },
{
    let mut at: usize = 0;
    while at < text.len() && text.len() - at >= 4
        invariant
            at <= text@.len(),
            forall|earlier: int|
                earlier < at ==> !(#[trigger] stands_at(text@, head_terminator(), earlier)),
        decreases text.len() - at,
    {
        let found = text[at] == '\r' && text[at + 1] == '\n' && text[at + 2] == '\r' && text[at + 3]
            == '\n';
        proof {
            let part = text@.subrange(at as int, at + 4);
            if found {
                assert(part =~= head_terminator());
                assert(first_stands_at(text@, head_terminator(), at as int));
                let chosen = head_end(text@)->0;
                assert(first_stands_at(text@, head_terminator(), chosen));
                if chosen < at {
                    assert(!stands_at(text@, head_terminator(), chosen));
                } else if chosen > at {
                    assert(!stands_at(text@, head_terminator(), at as int));
                }
            } else if stands_at(text@, head_terminator(), at as int) {
                assert(part[0] == '\r' && part[1] == '\n' && part[2] == '\r' && part[3] == '\n');
            }
        }
        if found {
            return Some(at);
        }
        at += 1;
    }
    proof {
        assert forall|place: int| !(#[trigger] stands_at(text@, head_terminator(), place)) by {}
        assert forall|place: int| !(#[trigger] first_stands_at(text@, head_terminator(), place)) by {}
    }
    None
}

/// Whether a text has no carriage return.
spec fn has_no_return(text: Seq<char>) -> bool {
    forall|i: int| 0 <= i < text.len() ==> #[trigger] text[i] != '\r'
}

/// A line that has no carriage return but the one that ends it, put before a text
/// that does not start with one, adds no place where a terminator stands.
proof fn line_adds_no_terminator(line: Seq<char>, rest: Seq<char>, at: int)
    requires
        has_no_return(line),
        rest.len() > 0,
        rest[0] != '\r',
        first_stands_at(rest, head_terminator(), at),
    ensures
        first_stands_at(line + seq!['\r', '\n'] + rest, head_terminator(), line.len() + 2 + at),
{
    let whole = line + seq!['\r', '\n'] + rest;
    let start = line.len() + 2;
    let end = head_terminator();
    assert(whole.subrange(start + at, start + at + 4) =~= rest.subrange(at, at + 4));
    assert forall|earlier: int| earlier < start + at implies !(#[trigger] stands_at(
        whole,
        end,
        earlier,
    )) by {
        if stands_at(whole, end, earlier) {
            let part = whole.subrange(earlier, earlier + 4);
            assert(part[0] == '\r' && part[2] == '\r');
            assert(whole[earlier] == '\r' && whole[earlier + 2] == '\r');
            if earlier >= start {
                assert(rest.subrange(earlier - start, earlier - start + 4) =~= part);
                assert(stands_at(rest, end, earlier - start));
            } else if earlier < line.len() {
                assert(whole[earlier] == line[earlier]);
            } else if earlier == line.len() {
                assert(whole[earlier + 2] == rest[0]);
            } else {
                assert(whole[earlier] == '\n');
            }
        }
    }
}

proof fn request_head_ends_once(body_length: nat)
    ensures
        request_head(body_length).len() >= 4,
        is_ascii_chars(request_head(body_length)),
        first_stands_at(
            request_head(body_length),
            head_terminator(),
            request_head(body_length).len() - 4,
        ),
{
    let length = decimal(body_length);
    decimal_reads_back(body_length);
    reveal_strlit("POST /v1/chat/completions HTTP/1.1\r\n");
    reveal_strlit("Host: localhost\r\n");
    reveal_strlit("Content-Type: application/json\r\n");
    reveal_strlit("Content-Length: ");
    reveal_strlit("\r\n\r\n");
    let line1 = "POST /v1/chat/completions HTTP/1.1\r\n"@;
    let line2 = "Host: localhost\r\n"@;
    let line3 = "Content-Type: application/json\r\n"@;
    let label = "Content-Length: "@;
    let end = head_terminator();
    assert("\r\n\r\n"@ =~= end);
    let line4 = label + length;
    assert(has_no_return(line4));
    let rest4 = line4 + end;
    assert(rest4.subrange(line4.len() as int, line4.len() as int + 4) =~= end);
    assert forall|earlier: int| earlier < line4.len() implies !(#[trigger] stands_at(
        rest4,
        end,
        earlier,
    )) by {
        if stands_at(rest4, end, earlier) {
            assert(rest4.subrange(earlier, earlier + 4)[0] == '\r');
            assert(rest4[earlier] == line4[earlier]);
        }
    }
    assert(first_stands_at(rest4, end, line4.len() as int));
    let crlf = seq!['\r', '\n'];
    let bare3 = line3.take(line3.len() - 2);
    let bare2 = line2.take(line2.len() - 2);
    let bare1 = line1.take(line1.len() - 2);
    assert(line3 =~= bare3 + crlf);
    assert(line2 =~= bare2 + crlf);
    assert(line1 =~= bare1 + crlf);
    assert(has_no_return(bare3));
    assert(has_no_return(bare2));
    assert(has_no_return(bare1));
    line_adds_no_terminator(bare3, rest4, line4.len() as int);
    let rest3 = bare3 + crlf + rest4;
    line_adds_no_terminator(bare2, rest3, (line3.len() + line4.len()) as int);
    let rest2 = bare2 + crlf + rest3;
    line_adds_no_terminator(bare1, rest2, (line2.len() + line3.len() + line4.len()) as int);
    assert(request_head(body_length) =~= bare1 + crlf + rest2);
}

/// A request can be taken apart again: the first empty line ends its head, the body
/// follows, and the head tells the length of the body.
pub proof fn request_splits(body: Seq<u8>)
    ensures
        ({
            let head = encode_utf8(request_head(body.len()));
            &&& first_stands_at(framed(body), encode_utf8(head_terminator()), head.len() - 4)
            &&& framed(body).skip(head.len() as int) == body
        }),
        number_of(decimal(body.len())) == body.len(),
{
    let text = request_head(body.len());
    let head = encode_utf8(text);
    let end = encode_utf8(head_terminator());
    let whole = framed(body);
    request_head_ends_once(body.len());
    decimal_reads_back(body.len());
    is_ascii_chars_encode_utf8(text);
    assert(is_ascii_chars(head_terminator()));
    is_ascii_chars_encode_utf8(head_terminator());
    let at = text.len() - 4;
    assert(text.subrange(at, at + 4) == head_terminator());
    assert forall|i: int| 0 <= i < 4 implies #[trigger] whole.subrange(at, at + 4)[i]
        == end[i] by {
        assert(text[at + i] == text.subrange(at, at + 4)[i]);
        assert(head[at + i] == text[at + i] as u8);
    }
    assert(whole.subrange(at, at + 4) =~= end);
    assert forall|earlier: int| earlier < at implies !(#[trigger] stands_at(
        whole,
        end,
        earlier,
    )) by {
        if stands_at(whole, end, earlier) {
            let part = text.subrange(earlier, earlier + 4);
            assert forall|i: int| 0 <= i < 4 implies #[trigger] part[i]
                == head_terminator()[i] by {
                assert(whole.subrange(earlier, earlier + 4)[i] == end[i]);
                assert(head[earlier + i] == text[earlier + i] as u8);
                assert(end[i] == head_terminator()[i] as u8);
            }
            assert(part =~= head_terminator());
            assert(stands_at(text, head_terminator(), earlier));
        }
    }
    assert(whole.skip(head.len() as int) =~= body);
}

/// The head of a reply ends at the first empty line, whatever the body holds.
pub proof fn reply_splits(head: Seq<char>, body: Seq<char>)
    requires
        first_stands_at(head + head_terminator(), head_terminator(), head.len() as int),
    ensures
        head_end(head + head_terminator() + body) == Some(head.len() as int),
{
    let end = head_terminator();
    let short = head + end;
    let whole = head + end + body;
    let at = head.len() as int;
    assert(whole.subrange(at, at + 4) =~= end);
    assert forall|earlier: int| earlier < at implies !(#[trigger] stands_at(
        whole,
        end,
        earlier,
    )) by {
        if stands_at(whole, end, earlier) {
            assert(short.subrange(earlier, earlier + 4) =~= whole.subrange(earlier, earlier + 4));
            assert(stands_at(short, end, earlier));
        }
    }
    assert(first_stands_at(whole, end, at));
    let chosen = head_end(whole)->0;
    assert(first_stands_at(whole, end, chosen));
    if chosen < at {
        assert(!stands_at(whole, end, chosen));
    } else if chosen > at {
        assert(!stands_at(whole, end, at));
    }
}

/// The status of a reply is the number behind the protocol version, whatever follows
/// it in the head.
pub proof fn status_reads_back(version: Seq<char>, code: nat, rest: Seq<char>)
    requires
        version.len() > 0,
        forall|i: int| 0 <= i < version.len() ==> !is_space(#[trigger] version[i]),
        code <= u16::MAX,
        rest.len() > 0 ==> is_space(rest[0]),
    ensures
        status_of(version + seq![' '] + decimal(code) + rest) == code,
{
    decimal_reads_back(code);
    let digits = decimal(code);
    let gap = seq![' '];
    let head = version + gap + digits + rest;
    let line = leading(head, within_line());
    let line_rest = leading(rest, within_line());
    leading_of_joined(version + gap + digits, rest, within_line());
    assert(line =~= version + gap + digits + line_rest);
    leading_is(line, space(), 0);
    assert(after_leading(line, space()) =~= line);
    leading_is(line, ink(), version.len() as int);
    let behind = gap + digits + line_rest;
    assert(line.skip(version.len() as int) =~= behind);
    leading_is(behind, space(), 1);
    let word_on = digits + line_rest;
    assert(behind.skip(1) =~= word_on);
    if line_rest.len() > 0 {
        assert(line_rest[0] == rest[0]);
    }
    leading_is(word_on, ink(), digits.len() as int);
    assert(word_on.take(digits.len() as int) =~= digits);
    assert(digits[0] != '+');
}

proof fn leading_of_joined(first: Seq<char>, second: Seq<char>, kind: spec_fn(char) -> bool)
    requires
        forall|i: int| 0 <= i < first.len() ==> kind(#[trigger] first[i]),
    ensures
        leading(first + second, kind) == first + leading(second, kind),
        leading(second, kind).len() > 0 ==> second.len() > 0 && leading(second, kind)[0]
            == second[0],
    decreases first.len(),
{
    if first.len() == 0 {
        assert(first + second =~= second);
        assert(first + leading(second, kind) =~= leading(second, kind));
    } else {
        leading_of_joined(first.drop_first(), second, kind);
        assert((first + second).drop_first() =~= first.drop_first() + second);
        assert(leading(first + second, kind) =~= first + leading(second, kind));
    }
}

/// Whatever the body, and however long it is, the request is one head, which differs in
/// the length alone, and then the body as it is.
pub proof fn request_is_one_head_and_the_body(body: &[u8], request: Vec<u8>)
    requires
        call_ensures(frame_request, (body,), request),
    ensures
        request@ == encode_utf8(
            "POST /v1/chat/completions HTTP/1.1\r\nHost: localhost\r\nContent-Type: application/json\r\nContent-Length: "@
                + decimal(body@.len()) + seq!['\r', '\n', '\r', '\n'],
        ) + body@,
        request@ == framed(body@),
{
    framed_is_one_head_and_the_body(body@);
}

/// [`framed`] puts one head before a body, which differs in the length alone.
pub proof fn framed_is_one_head_and_the_body(body: Seq<u8>)
    ensures
        framed(body) == encode_utf8(
            "POST /v1/chat/completions HTTP/1.1\r\nHost: localhost\r\nContent-Type: application/json\r\nContent-Length: "@
                + decimal(body.len()) + seq!['\r', '\n', '\r', '\n'],
        ) + body,
{
    reveal_strlit("POST /v1/chat/completions HTTP/1.1\r\n");
    reveal_strlit("Host: localhost\r\n");
    reveal_strlit("Content-Type: application/json\r\n");
    reveal_strlit("Content-Length: ");
    reveal_strlit("\r\n\r\n");
    reveal_strlit(
        "POST /v1/chat/completions HTTP/1.1\r\nHost: localhost\r\nContent-Type: application/json\r\nContent-Length: ",
    );
    let whole =
        "POST /v1/chat/completions HTTP/1.1\r\nHost: localhost\r\nContent-Type: application/json\r\nContent-Length: "@;
    assert(whole =~= "POST /v1/chat/completions HTTP/1.1\r\n"@ + "Host: localhost\r\n"@
        + "Content-Type: application/json\r\n"@ + "Content-Length: "@);
    assert("\r\n\r\n"@ =~= seq!['\r', '\n', '\r', '\n']);
}

/// The second word of the first line is what follows a word and some space.
pub proof fn second_word_is_found(
    lead: Seq<char>,
    word: Seq<char>,
    gap: Seq<char>,
    second: Seq<char>,
    tail: Seq<char>,
)
    requires
        forall|i: int| 0 <= i < lead.len() ==> is_space(#[trigger] lead[i]) && lead[i] != '\n',
        forall|i: int| 0 <= i < word.len() ==> !is_space(#[trigger] word[i]),
        forall|i: int| 0 <= i < gap.len() ==> is_space(#[trigger] gap[i]) && gap[i] != '\n',
        forall|i: int| 0 <= i < second.len() ==> !is_space(#[trigger] second[i]),
        second.len() > 0 ==> word.len() > 0 && gap.len() > 0,
        tail.len() > 0 ==> tail[0] == '\n' || (second.len() > 0 && is_space(tail[0])),
    ensures
        second_word(leading(lead + word + gap + second + tail, within_line())) == second,
{
    let head = lead + word + gap + second + tail;
    let start = lead + word + gap + second;
    assert(is_space('\n'));
    assert forall|i: int| 0 <= i < start.len() implies within_line()(#[trigger] start[i]) by {
        if i < lead.len() {
            assert(start[i] == lead[i]);
        } else if i < lead.len() + word.len() {
            assert(start[i] == word[i - lead.len()]);
        } else if i < lead.len() + word.len() + gap.len() {
            assert(start[i] == gap[i - lead.len() - word.len()]);
        } else {
            assert(start[i] == second[i - lead.len() - word.len() - gap.len()]);
        }
    }
    let rest = leading(tail, within_line());
    leading_of_joined(start, tail, within_line());
    let line = leading(head, within_line());
    assert(line =~= start + rest);
    if tail.len() > 0 && tail[0] == '\n' {
        assert(rest.len() == 0);
    }
    if rest.len() > 0 {
        assert(rest[0] == tail[0]);
        assert(second.len() > 0);
    }
    let after_lead = word + gap + second + rest;
    let after_word = gap + second + rest;
    let after_gap = second + rest;
    if word.len() > 0 {
        leading_is(line, space(), lead.len() as int);
        assert(line.skip(lead.len() as int) =~= after_lead);
        leading_is(after_lead, ink(), word.len() as int);
        assert(after_lead.skip(word.len() as int) =~= after_word);
        leading_is(after_word, space(), gap.len() as int);
        assert(after_word.skip(gap.len() as int) =~= after_gap);
    } else {
        assert(line =~= lead + gap);
        leading_is(line, space(), line.len() as int);
        assert(line.skip(line.len() as int) =~= after_gap);
        leading_is(after_gap, ink(), 0);
        assert(after_gap.skip(0) =~= after_gap);
        leading_is(after_gap, space(), 0);
    }
    leading_is(after_gap, ink(), second.len() as int);
    assert(after_gap.take(second.len() as int) =~= second);
}

/// The status is the second word of the first line, read as a number of 16 bits: digits,
/// maybe behind a plus sign. It is zero where that is no such number, and where the line
/// has no second word. Neither the space around the words matters, nor what follows.
pub proof fn status_is_the_second_word(
    text: &[char],
    to: usize,
    lead: Seq<char>,
    word: Seq<char>,
    gap: Seq<char>,
    second: Seq<char>,
    digits: Seq<char>,
    tail: Seq<char>,
    code: u16,
)
    requires
        to <= text@.len(),
        call_ensures(read_status, (text, to), code),
        text@.take(to as int) == lead + word + gap + second + tail,
        forall|i: int| 0 <= i < lead.len() ==> is_space(#[trigger] lead[i]) && lead[i] != '\n',
        forall|i: int| 0 <= i < word.len() ==> !is_space(#[trigger] word[i]),
        forall|i: int| 0 <= i < gap.len() ==> is_space(#[trigger] gap[i]) && gap[i] != '\n',
        forall|i: int| 0 <= i < second.len() ==> !is_space(#[trigger] second[i]),
        second.len() > 0 ==> word.len() > 0 && gap.len() > 0,
        tail.len() > 0 ==> tail[0] == '\n' || (second.len() > 0 && is_space(tail[0])),
        second == seq!['+'] + digits || (second == digits && (digits.len() == 0 || digits[0]
            != '+')),
    ensures
        digits.len() > 0 && (forall|i: int|
            0 <= i < digits.len() ==> '0' <= #[trigger] digits[i] <= '9') && number_of(digits)
            <= 65535 ==> code == number_of(digits),
        digits.len() == 0 ==> code == 0,
        (exists|i: int|
            0 <= i < digits.len() && !('0' <= #[trigger] digits[i] <= '9')) ==> code == 0,
        number_of(digits) > 65535 ==> code == 0,
        code == status_of(text@.take(to as int)),
{
    second_word_is_found(lead, word, gap, second, tail);
    if second == seq!['+'] + digits {
        assert(second.drop_first() =~= digits);
    }
}

/// The terminator stands where two line ends follow one another.
pub proof fn terminator_is_two_line_ends(text: Seq<char>, at: int)
    ensures
        stands_at(text, head_terminator(), at) <==> 0 <= at && at + 4 <= text.len() && text[at]
            == '\r' && text[at + 1] == '\n' && text[at + 2] == '\r' && text[at + 3] == '\n',
{
    if 0 <= at && at + 4 <= text.len() {
        let part = text.subrange(at, at + 4);
        assert(part[0] == text[at] && part[1] == text[at + 1] && part[2] == text[at + 2] && part[3]
            == text[at + 3]);
        if text[at] == '\r' && text[at + 1] == '\n' && text[at + 2] == '\r' && text[at + 3]
            == '\n' {
            assert(part =~= head_terminator());
        }
    }
}

/// The head of a message ends at the first place where the terminator stands, and has no
/// end exactly where it stands nowhere.
pub proof fn head_ends_at_the_first_empty_line(text: &[char], found: Option<usize>)
    requires
        call_ensures(find_head_end, (text,), found),
    ensures
        found is None <==> forall|at: int| !(#[trigger] stands_at(text@, head_terminator(), at)),
        found matches Some(at) ==> stands_at(text@, head_terminator(), at as int) && forall|
            earlier: int,
        |
            earlier < at ==> !(#[trigger] stands_at(text@, head_terminator(), earlier)),
        head_end(text@) == match found {
            Some(at) => Some(at as int),
            None => None,
        },
{
    if found is None {
        if exists|at: int| stands_at(text@, head_terminator(), at) {
            let at = choose|at: int| stands_at(text@, head_terminator(), at);
            let first = first_place(text@, at);
            assert(first_stands_at(text@, head_terminator(), first));
        }
    }
}

/// Where a terminator stands somewhere, there is a first place.
proof fn first_place(text: Seq<char>, at: int) -> (first: int)
    requires
        stands_at(text, head_terminator(), at),
    ensures
        first_stands_at(text, head_terminator(), first),
    decreases at,
{
    if exists|earlier: int| earlier < at && stands_at(text, head_terminator(), earlier) {
        let earlier = choose|earlier: int|
            earlier < at && stands_at(text, head_terminator(), earlier);
        first_place(text, earlier)
    } else {
        at
    }
}

} // verus!
