//! Byte strings and text in lexicographic order.

use std::cmp::Ordering;

use vstd::prelude::*;
use vstd::utf8::*;

use crate::performance::outcome;

verus! {

/// Whether `left` comes before `right` when compared byte by byte; a proper prefix
/// comes first.
pub open spec fn bytes_precede(left: Seq<u8>, right: Seq<u8>) -> bool
    decreases left.len(),
{
    if right.len() == 0 {
        false
    } else if left.len() == 0 {
        true
    } else if left[0] != right[0] {
        left[0] < right[0]
    } else {
        bytes_precede(left.drop_first(), right.drop_first())
    }
}

/// Whether `left` comes before `right` in the order of their UTF-8 bytes.
pub open spec fn text_precedes(left: Seq<char>, right: Seq<char>) -> bool {
    bytes_precede(encode_utf8(left), encode_utf8(right))
}

pub proof fn bytes_never_precede_themselves(bytes: Seq<u8>)
    ensures
        !bytes_precede(bytes, bytes),
    decreases bytes.len(),
{
    if bytes.len() > 0 {
        bytes_never_precede_themselves(bytes.drop_first());
    }
}

pub proof fn bytes_precede_transitively(first: Seq<u8>, second: Seq<u8>, third: Seq<u8>)
    requires
        bytes_precede(first, second),
        bytes_precede(second, third),
    ensures
        bytes_precede(first, third),
    decreases first.len(),
{
    if first.len() > 0 && first[0] == second[0] && second[0] == third[0] {
        bytes_precede_transitively(first.drop_first(), second.drop_first(), third.drop_first());
    }
}

pub proof fn bytes_are_ordered(left: Seq<u8>, right: Seq<u8>)
    ensures
        bytes_precede(left, right) || bytes_precede(right, left) || left == right,
    decreases left.len(),
{
    if left.len() == 0 || right.len() == 0 {
        if left.len() == 0 && right.len() == 0 {
            assert(left =~= right);
        }
    } else if left[0] == right[0] {
        bytes_are_ordered(left.drop_first(), right.drop_first());
        if left.drop_first() == right.drop_first() {
            assert(left =~= seq![left[0]] + left.drop_first());
            assert(right =~= seq![right[0]] + right.drop_first());
        }
    }
}

/// Text is determined by its UTF-8 bytes.
pub proof fn encoding_is_injective(left: Seq<char>, right: Seq<char>)
    requires
        encode_utf8(left) == encode_utf8(right),
    ensures
        left == right,
{
    encode_utf8_decode_utf8(left);
    encode_utf8_decode_utf8(right);
}

/// Compares two byte strings lexicographically.
pub fn compare_bytes(left: &[u8], right: &[u8]) -> (order: Ordering)
    ensures
        order == outcome(bytes_precede(left@, right@), bytes_precede(right@, left@)),
        order == Ordering::Equal <==> left@ == right@,
{
    let mut i: usize = 0;
    proof {
        assert(left@.skip(0) =~= left@);
        assert(right@.skip(0) =~= right@);
        if left@ == right@ {
            bytes_never_precede_themselves(left@);
        }
        bytes_are_ordered(left@, right@);
    }
    while i < left.len() && i < right.len()
        invariant
            i <= left@.len(),
            i <= right@.len(),
            bytes_precede(left@, right@) == bytes_precede(left@.skip(i + 0), right@.skip(i + 0)),
            bytes_precede(right@, left@) == bytes_precede(right@.skip(i + 0), left@.skip(i + 0)),
            left@ == right@ ==> !bytes_precede(left@, right@) && !bytes_precede(right@, left@),
            bytes_precede(left@, right@) || bytes_precede(right@, left@) || left@ == right@,
        decreases left.len() - i,
    {
        if left[i] < right[i] {
            return Ordering::Less;
        }
        if left[i] > right[i] {
            return Ordering::Greater;
        }
        proof {
            assert(left@.skip(i + 0).drop_first() =~= left@.skip(i + 1));
            assert(right@.skip(i + 0).drop_first() =~= right@.skip(i + 1));
        }
        i += 1;
    }
    if i < right.len() {
        Ordering::Less
    } else if i < left.len() {
        Ordering::Greater
    } else {
        Ordering::Equal
    }
}

/// Compares two texts by their UTF-8 bytes.
pub fn compare_text(left: &str, right: &str) -> (order: Ordering)
    ensures
        order == outcome(text_precedes(left@, right@), text_precedes(right@, left@)),
        order == Ordering::Equal <==> left@ == right@,
{
    let order = compare_bytes(left.as_bytes(), right.as_bytes());
    proof {
        if encode_utf8(left@) == encode_utf8(right@) {
            encoding_is_injective(left@, right@);
        }
    }
    order
}

/// Whether two texts are the same.
pub fn same_text(left: &str, right: &str) -> (same: bool)
    ensures
        same == (left@ == right@),
{
    match compare_text(left, right) {
        Ordering::Equal => true,
        _ => false,
    }
}

/// The first byte in which two byte strings differ decides, and where there is none,
/// the shorter one comes first.
pub proof fn first_difference_decides(left: Seq<u8>, right: Seq<u8>)
    ensures
        bytes_precede(left, right) <==> exists|k: int|
            0 <= k <= left.len() && k < right.len() && #[trigger] left.take(k) == right.take(k) && (
            k == left.len() || left[k] < right[k]),
    decreases left.len(),
{
    if right.len() > 0 {
        if left.len() == 0 {
            assert(left.take(0) =~= right.take(0));
        } else if left[0] != right[0] {
            if left[0] < right[0] {
                assert(left.take(0) =~= right.take(0));
            }
            assert forall|k: int|
                0 <= k <= left.len() && k < right.len() && #[trigger] left.take(k) == right.take(
                    k,
                ) && (k == left.len() || left[k] < right[k]) implies left[0] < right[0] by {
                if k > 0 {
                    assert(left.take(k)[0] == right.take(k)[0]);
                }
            }
        } else {
            let l = left.drop_first();
            let r = right.drop_first();
            first_difference_decides(l, r);
            if bytes_precede(l, r) {
                let k = choose|k: int|
                    0 <= k <= l.len() && k < r.len() && #[trigger] l.take(k) == r.take(k) && (k
                        == l.len() || l[k] < r[k]);
                assert(left.take(k + 1) =~= seq![left[0]] + l.take(k));
                assert(right.take(k + 1) =~= seq![right[0]] + r.take(k));
                assert(left.take(k + 1) == right.take(k + 1));
            }
            assert forall|k: int|
                0 <= k <= left.len() && k < right.len() && #[trigger] left.take(k) == right.take(
                    k,
                ) && (k == left.len() || left[k] < right[k]) implies bytes_precede(l, r) by {
                assert(k > 0);
                assert(l.take(k - 1) =~= left.take(k).drop_first());
                assert(r.take(k - 1) =~= right.take(k).drop_first());
                assert(l.take(k - 1) == r.take(k - 1));
            }
        }
    }
}

/// A comparison of byte strings goes by the first byte in which they differ, and ties
/// exactly where they are the same.
pub proof fn bytes_compare_by_first_difference(left: &[u8], right: &[u8], order: Ordering)
    requires
        call_ensures(compare_bytes, (left, right), order),
    ensures
        order == Ordering::Equal <==> left@ == right@,
        order == Ordering::Less <==> exists|k: int|
            0 <= k <= left@.len() && k < right@.len() && #[trigger] left@.take(k) == right@.take(k)
                && (k == left@.len() || left@[k] < right@[k]),
        order == Ordering::Greater <==> exists|k: int|
            0 <= k <= right@.len() && k < left@.len() && #[trigger] right@.take(k) == left@.take(k)
                && (k == right@.len() || right@[k] < left@[k]),
{
    first_difference_decides(left@, right@);
    first_difference_decides(right@, left@);
    bytes_are_ordered(left@, right@);
    bytes_never_precede_themselves(left@);
    if bytes_precede(left@, right@) && bytes_precede(right@, left@) {
        bytes_precede_transitively(left@, right@, left@);
    }
}

/// Text compares as its UTF-8 bytes do, and ties exactly where it is the same.
pub proof fn text_compares_as_its_bytes(left: &str, right: &str, order: Ordering)
    requires
        call_ensures(compare_text, (left, right), order),
    ensures
        order == Ordering::Equal <==> left@ == right@,
        order == Ordering::Less <==> bytes_precede(encode_utf8(left@), encode_utf8(right@)),
        order == Ordering::Greater <==> bytes_precede(encode_utf8(right@), encode_utf8(left@)),
        text_precedes(left@, right@) <==> bytes_precede(encode_utf8(left@), encode_utf8(right@)),
{
    let l = encode_utf8(left@);
    let r = encode_utf8(right@);
    if bytes_precede(l, r) && bytes_precede(r, l) {
        bytes_precede_transitively(l, r, l);
        bytes_never_precede_themselves(l);
    }
}

/// Texts are found to be the same exactly where they are.
pub proof fn same_text_is_equality(left: &str, right: &str, same: bool)
    requires
        call_ensures(same_text, (left, right), same),
    ensures
        same <==> left@ == right@,
{
}

} // verus!
