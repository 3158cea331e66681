//! Text as characters and as UTF-8 bytes.

use vstd::prelude::*;
use vstd::string::*;
use vstd::utf8::*;

verus! {

/// How many bytes a text takes up in UTF-8.
pub open spec fn byte_len(text: Seq<char>) -> nat {
    encode_utf8(text).len()
}

/// Encoding goes character by character.
pub proof fn encoding_is_concatenation(left: Seq<char>, right: Seq<char>)
    ensures
        encode_utf8(left + right) == encode_utf8(left) + encode_utf8(right),
    decreases left.len(),
{
    if left.len() == 0 {
        assert(left + right =~= right);
    } else {
        assert((left + right).drop_first() =~= left.drop_first() + right);
        encoding_is_concatenation(left.drop_first(), right);
        assert(encode_utf8(left + right) =~= encode_utf8(left) + encode_utf8(right));
    }
}

/// One more character takes up its own width.
pub proof fn byte_len_of_longer_prefix(text: Seq<char>, count: int)
    requires
        0 <= count < text.len(),
    ensures
        byte_len(text.take(count + 1)) == byte_len(text.take(count)) + encode_scalar(
            text[count] as u32,
        ).len(),
        1 <= encode_scalar(text[count] as u32).len() <= 4,
{
    let last = seq![text[count]];
    assert(text.take(count + 1) =~= text.take(count) + last);
    encoding_is_concatenation(text.take(count), last);
    reveal_with_fuel(encode_utf8, 2);
    assert(encode_utf8(last) =~= encode_scalar(text[count] as u32));
}

/// The more characters of a text are taken, the more bytes they take up.
pub proof fn byte_len_grows(text: Seq<char>, shorter: int, longer: int)
    requires
        0 <= shorter <= longer <= text.len(),
    ensures
        byte_len(text.take(shorter)) + (longer - shorter) <= byte_len(text.take(longer)),
    decreases longer,
{
    if shorter < longer {
        byte_len_grows(text, shorter, longer - 1);
        byte_len_of_longer_prefix(text, longer - 1);
    }
}

/// How many bytes a character takes up in UTF-8.
pub fn utf8_width(character: char) -> (width: usize)
    ensures
        width == encode_scalar(character as u32).len(),
        1 <= width <= 4,
{
    let scalar = character as u32;
    if scalar <= 0x7f {
        1
    } else if scalar <= 0x7ff {
        2
    } else if scalar <= 0xffff {
        3
    } else {
        4
    }
}

/// The characters of a text.
pub fn characters(text: &str) -> (list: Vec<char>)
    ensures
        list@ == text@,
{
    let mut list: Vec<char> = Vec::new();
    for character in iter: text.chars()
        invariant
            iter.seq() == text@,
            list@ == text@.take(iter.index() as int),
    {
        list.push(character);
    }
    assert(text@.take(text@.len() as int) =~= text@);
    list
}

/// How many characters of a text start before its byte `limit`.
pub open spec fn started_before(text: Seq<char>, limit: nat) -> nat
    decreases text.len(),
{
    if text.len() == 0 {
        0
    } else if byte_len(text.drop_last()) < limit {
        text.len()
    } else {
        started_before(text.drop_last(), limit)
    }
}

/// The characters that start before byte `limit`: each has less than `limit` bytes
/// before it, and the next one, if any, has `limit` or more.
pub proof fn started_before_is_a_cut(text: Seq<char>, limit: nat)
    ensures
        started_before(text, limit) <= text.len(),
        forall|k: int|
            0 <= k < started_before(text, limit) ==> byte_len(#[trigger] text.take(k)) < limit,
        started_before(text, limit) < text.len() ==> byte_len(
            text.take(started_before(text, limit) as int),
        ) >= limit,
    decreases text.len(),
{
    let cut = started_before(text, limit);
    if text.len() > 0 {
        let shorter = text.drop_last();
        assert(shorter =~= text.take(text.len() - 1));
        if byte_len(shorter) < limit {
            assert forall|k: int| 0 <= k < cut implies byte_len(#[trigger] text.take(k)) < limit by {
                byte_len_grows(text, k, text.len() - 1);
            }
        } else {
            started_before_is_a_cut(shorter, limit);
            assert forall|k: int| 0 <= k <= shorter.len() implies #[trigger] text.take(k)
                == shorter.take(k) by {
                assert(text.take(k) =~= shorter.take(k));
            }
            assert(shorter.take(shorter.len() as int) =~= shorter);
        }
    }
}

/// Such a cut is unique.
proof fn cut_is_started_before(text: Seq<char>, limit: nat, cut: int)
    requires
        0 <= cut <= text.len(),
        cut > 0 ==> byte_len(text.take(cut - 1)) < limit,
        cut < text.len() ==> byte_len(text.take(cut)) >= limit,
    ensures
        cut == started_before(text, limit),
{
    started_before_is_a_cut(text, limit);
    let other = started_before(text, limit) as int;
    if other < cut {
        byte_len_grows(text, other, cut - 1);
    }
}

/// A text, cut off behind the last character that starts before byte `limit`, with
/// dots in place of the rest, where it has more than `limit` bytes.
pub open spec fn shortened(text: Seq<char>, limit: nat) -> Seq<char> {
    if byte_len(text) > limit {
        text.take(started_before(text, limit) as int) + "..."@
    } else {
        text
    }
}

/// The longest beginning of a text that has at most `limit` bytes.
pub open spec fn fitting(text: Seq<char>, limit: nat) -> Seq<char>
    decreases text.len(),
{
    if text.len() == 0 || byte_len(text) <= limit {
        text
    } else {
        fitting(text.drop_last(), limit)
    }
}

/// A beginning that fits, but not with one character more, is the longest.
proof fn fitting_is(text: Seq<char>, limit: nat, count: int)
    requires
        0 <= count <= text.len(),
        byte_len(text.take(count)) <= limit,
        count < text.len() ==> byte_len(text.take(count + 1)) > limit,
    ensures
        fitting(text, limit) == text.take(count),
    decreases text.len(),
{
    if count == text.len() {
        assert(text.take(count) =~= text);
    } else {
        let shorter = text.drop_last();
        assert(text.take(text.len() as int) =~= text);
        byte_len_grows(text, count + 1, text.len() as int);
        assert(shorter.take(count) =~= text.take(count));
        if count < shorter.len() {
            assert(shorter.take(count + 1) =~= text.take(count + 1));
        }
        fitting_is(shorter, limit, count);
    }
}

/// [`fitting`] is a beginning of the text that has at most `limit` bytes, and no longer
/// one has. Where there is more text, it is less than a character short of the limit;
/// where byte `limit` starts a character or ends the text, it is the first `limit`
/// bytes.
pub proof fn fitting_is_the_longest(text: Seq<char>, limit: nat)
    ensures
        fitting(text, limit).is_prefix_of(text),
        byte_len(fitting(text, limit)) <= limit,
        forall|k: int|
            0 <= k <= text.len() && byte_len(#[trigger] text.take(k)) <= limit ==> k <= fitting(
                text,
                limit,
            ).len(),
        byte_len(text) <= limit ==> fitting(text, limit) == text,
        byte_len(text) > limit ==> limit <= byte_len(fitting(text, limit)) + 3,
        forall|k: int|
            0 <= k <= text.len() && byte_len(#[trigger] text.take(k)) == limit ==> encode_utf8(
                fitting(text, limit),
            ) == encode_utf8(text).take(limit as int),
    decreases text.len(),
{
    let fit = fitting(text, limit);
    if text.len() == 0 || byte_len(text) <= limit {
        assert(text.take(text.len() as int) =~= text);
        assert(byte_len(Seq::<char>::empty()) == 0);
    } else {
        let last = text.len() - 1;
        let shorter = text.drop_last();
        assert(shorter =~= text.take(last));
        assert(text =~= text.take(text.len() as int));
        byte_len_of_longer_prefix(text, last);
        fitting_is_the_longest(shorter, limit);
        assert forall|k: int| 0 <= k <= last implies #[trigger] text.take(k) == shorter.take(k) by {
            assert(text.take(k) =~= shorter.take(k));
        }
    }
    assert forall|k: int| 0 <= k <= text.len() && byte_len(#[trigger] text.take(k)) == limit implies
        encode_utf8(fit) == encode_utf8(text).take(limit as int) by {
        assert(fit =~= text.take(fit.len() as int));
        byte_len_grows(text, k, fit.len() as int);
        assert(text =~= fit + text.skip(fit.len() as int));
        encoding_is_concatenation(fit, text.skip(fit.len() as int));
        assert(encode_utf8(fit) =~= encode_utf8(text).take(limit as int));
    }
}

/// A shortened text begins like the whole, and has at most six bytes more than the
/// limit: the rest of a character, and the dots.
pub proof fn shortened_is_bounded(text: Seq<char>, limit: nat)
    ensures
        byte_len(text) <= limit ==> shortened(text, limit) == text,
        byte_len(text) > limit ==> exists|k: int|
            0 <= k <= text.len() && shortened(text, limit) == #[trigger] text.take(k) + "..."@
                && limit <= byte_len(text.take(k)) <= limit + 3,
        byte_len(shortened(text, limit)) <= limit + 6,
{
    started_before_is_a_cut(text, limit);
    let cut = started_before(text, limit) as int;
    reveal_strlit("...");
    assert(is_ascii_chars("..."@));
    is_ascii_chars_encode_utf8("..."@);
    encoding_is_concatenation(text.take(cut), "..."@);
    if byte_len(text) > limit {
        if cut == text.len() {
            assert(text.take(cut) =~= text);
        }
        if cut > 0 {
            byte_len_of_longer_prefix(text, cut - 1);
            assert(byte_len(text.take(cut - 1)) < limit);
        } else {
            assert(text.take(0) =~= Seq::<char>::empty());
        }
    }
}

/// Counts the characters that start before byte `limit`, and their bytes.
fn count_started(text: &[char], limit: usize) -> (counts: (usize, usize))
    requires
        limit + 4 <= usize::MAX,
    ensures
        counts.0 == started_before(text@, limit as nat),
        counts.0 <= text@.len(),
        counts.1 == byte_len(text@.take(counts.0 as int)),
        counts.0 < text@.len() ==> counts.1 >= limit,
{
    let mut count: usize = 0;
    let mut bytes: usize = 0;
    assert(text@.take(0) =~= Seq::<char>::empty());
    while count < text.len() && bytes < limit
        invariant
            count <= text@.len(),
            limit + 4 <= usize::MAX,
            bytes == byte_len(text@.take(count as int)),
            bytes <= limit + 3,
            count > 0 ==> byte_len(text@.take(count - 1)) < limit,
        decreases text.len() - count,
    {
        proof {
            byte_len_of_longer_prefix(text@, count as int);
        }
        bytes += utf8_width(text[count]);
        count += 1;
    }
    proof {
        cut_is_started_before(text@, limit as nat, count as int);
    }
    (count, bytes)
}

/// Cuts a long text short, as [`shortened`] says.
pub fn shorten(text: &str, limit: usize) -> (short: String)
    requires
        limit + 4 <= usize::MAX,
    ensures
        short@ == shortened(text@, limit as nat),
{
    let list = characters(text);
    let (count, bytes) = count_started(&list, limit);
    proof {
        if count == text@.len() {
            assert(text@.take(count as int) =~= text@);
        } else {
            assert(text@.take(text@.len() as int) =~= text@);
            byte_len_grows(text@, count as int, text@.len() as int);
        }
    }
    if bytes > limit || count < list.len() {
        let mut short = text.substring_char(0, count).to_string();
        short.append("...");
        short
    } else {
        text.to_string()
    }
}

/// Takes as much of the beginning of a text as fits into `limit` bytes.
pub fn fit(text: &str, limit: usize) -> (beginning: String)
    ensures
        beginning@ == fitting(text@, limit as nat),
{
    let list = characters(text);
    let mut count: usize = 0;
    let mut bytes: usize = 0;
    assert(text@.take(0) =~= Seq::<char>::empty());
    while count < list.len()
        invariant
            list@ == text@,
            count <= text@.len(),
            bytes == byte_len(text@.take(count as int)),
            bytes <= limit,
        ensures
            count < text@.len() ==> byte_len(text@.take(count + 1)) > limit,
        decreases list.len() - count,
    {
        let width = utf8_width(list[count]);
        proof {
            byte_len_of_longer_prefix(text@, count as int);
        }
        if width > limit - bytes {
            break;
        }
        bytes += width;
        count += 1;
    }
    proof {
        fitting_is(text@, limit as nat, count as int);
    }
    text.substring_char(0, count).to_string()
}

/// A text of at most `limit` bytes is left as it is. A longer one is cut behind the
/// first character that reaches byte `limit`, and three dots take the place of the rest.
pub proof fn long_text_is_cut_at_the_limit(text: &str, limit: usize, short: String)
    requires
        limit + 4 <= usize::MAX,
        call_ensures(shorten, (text, limit), short),
    ensures
        encode_utf8(text@).len() <= limit ==> short@ == text@,
        encode_utf8(text@).len() > limit ==> exists|k: int|
            0 <= k <= text@.len() && short@ == #[trigger] text@.take(k) + seq!['.', '.', '.']
                && encode_utf8(text@.take(k)).len() >= limit && (k > 0 ==> encode_utf8(
                text@.take(k - 1),
            ).len() < limit),
{
    let whole = text@;
    shortened_ends_at_the_limit(whole, limit as nat);
}

/// [`shortened`] leaves a text of at most `limit` bytes as it is, and cuts a longer one
/// behind the first character that reaches byte `limit`.
pub proof fn shortened_ends_at_the_limit(text: Seq<char>, limit: nat)
    ensures
        encode_utf8(text).len() <= limit ==> shortened(text, limit) == text,
        encode_utf8(text).len() > limit ==> exists|k: int|
            0 <= k <= text.len() && shortened(text, limit) == #[trigger] text.take(k) + seq![
                '.',
                '.',
                '.',
            ] && encode_utf8(text.take(k)).len() >= limit && (k > 0 ==> encode_utf8(
                text.take(k - 1),
            ).len() < limit),
{
    reveal_strlit("...");
    assert("..."@ =~= seq!['.', '.', '.']);
    started_before_is_a_cut(text, limit);
    let k = started_before(text, limit) as int;
    if k == text.len() {
        assert(text.take(k) =~= text);
    }
    if k > 0 {
        assert(byte_len(text.take(k - 1)) < limit);
    }
    if encode_utf8(text).len() > limit {
        assert(shortened(text, limit) == text.take(k) + seq!['.', '.', '.']);
    }
}

/// What fits is the beginning of the text with the most characters that has at most
/// `limit` bytes.
pub proof fn as_much_is_taken_as_fits(text: &str, limit: usize, beginning: String)
    requires
        call_ensures(fit, (text, limit), beginning),
    ensures
        beginning@.len() <= text@.len(),
        beginning@ == text@.take(beginning@.len() as int),
        encode_utf8(beginning@).len() <= limit,
        beginning@.len() < text@.len() ==> encode_utf8(
            text@.take(beginning@.len() as int + 1),
        ).len() > limit,
{
    fitting_is_the_longest(text@, limit as nat);
    assert(beginning@ =~= text@.take(beginning@.len() as int));
}

} // verus!
