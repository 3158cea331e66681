//! The models that a consultation may turn to, and which of two is the better.

use std::cmp::Ordering;

use vstd::prelude::*;
use vstd::utf8::*;

use crate::lexicographic::{
    bytes_are_ordered, bytes_never_precede_themselves, bytes_precede, bytes_precede_transitively,
    compare_bytes, compare_text, encoding_is_injective, same_text, text_precedes,
};
use crate::peers::{model_performance_hint, CapabilityLevel, EndpointId, PeerInfo};
use crate::performance::{
    compare_consultation_performance, key_precedes, performance_decides, performance_key,
    ConsultationPerformanceHint, ConsultationRequestClass,
};

verus! {

/// A model on a peer, with all that decides between it and another.
#[derive(Debug, Clone)]
pub struct Candidate {
    pub id: EndpointId,
    pub model: String,
    pub reasoning: bool,
    pub performance: ConsultationPerformanceHint,
}

/// What a [`Candidate`] stands for.
pub struct CandidateView {
    pub id: Seq<u8>,
    pub model: Seq<char>,
    pub reasoning: bool,
    pub performance: ConsultationPerformanceHint,
}

impl View for Candidate {
    type V = CandidateView;

    open spec fn view(&self) -> CandidateView {
        CandidateView {
            id: self.id@,
            model: self.model@,
            reasoning: self.reasoning,
            performance: self.performance,
        }
    }
}

/// Whether there is a model `j` on a peer `i`.
pub open spec fn is_served(peers: Seq<PeerInfo>, i: int, j: int) -> bool {
    0 <= i < peers.len() && 0 <= j < peers[i].served_model_descriptors@.len()
}

/// Model `j` on peer `i`, as a candidate.
pub open spec fn candidate_at(peers: Seq<PeerInfo>, i: int, j: int) -> CandidateView {
    let descriptor = peers[i].served_model_descriptors@[j];
    CandidateView {
        id: peers[i].id@,
        model: descriptor.name(),
        reasoning: descriptor.reasons(),
        performance: peers[i].performance(descriptor.name()),
    }
}

/// Whether model `j` on peer `i` has a name, and one other than `excluded`.
pub open spec fn is_eligible(peers: Seq<PeerInfo>, excluded: Seq<char>, i: int, j: int) -> bool {
    &&& is_served(peers, i, j)
    &&& candidate_at(peers, i, j).model != excluded
    &&& candidate_at(peers, i, j).model.len() > 0
}

/// Whether `left` is the better choice for a request of this class: by performance,
/// then by model name, then by peer.
pub open spec fn is_faster(
    left: CandidateView,
    right: CandidateView,
    request_class: ConsultationRequestClass,
) -> bool {
    let left_key = performance_key(left.performance, request_class);
    let right_key = performance_key(right.performance, request_class);
    ||| key_precedes(left_key, right_key)
    ||| left_key == right_key && text_precedes(left.model, right.model)
    ||| left_key == right_key && left.model == right.model && bytes_precede(left.id, right.id)
}

/// Whether `left` ranks before `right`: a model that reasons before one that does
/// not, and otherwise the faster one.
pub open spec fn ranks_before(
    left: CandidateView,
    right: CandidateView,
    request_class: ConsultationRequestClass,
) -> bool {
    ||| left.reasoning && !right.reasoning
    ||| left.reasoning == right.reasoning && is_faster(left, right, request_class)
}

/// No candidate is faster than itself.
pub proof fn faster_is_irreflexive(
    candidate: CandidateView,
    request_class: ConsultationRequestClass,
)
    ensures
        !is_faster(candidate, candidate, request_class),
{
    bytes_never_precede_themselves(encode_utf8(candidate.model));
    bytes_never_precede_themselves(candidate.id);
}

/// Of three candidates, the first is faster than the third where it is faster than
/// the second and the second than the third.
pub proof fn faster_is_transitive(
    first: CandidateView,
    second: CandidateView,
    third: CandidateView,
    request_class: ConsultationRequestClass,
)
    requires
        is_faster(first, second, request_class),
        is_faster(second, third, request_class),
    ensures
        is_faster(first, third, request_class),
{
    if text_precedes(first.model, second.model) && text_precedes(second.model, third.model) {
        bytes_precede_transitively(
            encode_utf8(first.model),
            encode_utf8(second.model),
            encode_utf8(third.model),
        );
    }
    if bytes_precede(first.id, second.id) && bytes_precede(second.id, third.id) {
        bytes_precede_transitively(first.id, second.id, third.id);
    }
}

/// Of two candidates, one is faster unless they are the same model on the same peer,
/// with the same figures.
pub proof fn faster_decides(
    left: CandidateView,
    right: CandidateView,
    request_class: ConsultationRequestClass,
)
    ensures
        is_faster(left, right, request_class) || is_faster(right, left, request_class) || (left.id
            == right.id && left.model == right.model && left.performance == right.performance),
{
    performance_decides(left.performance, right.performance, request_class);
    bytes_are_ordered(encode_utf8(left.model), encode_utf8(right.model));
    if encode_utf8(left.model) == encode_utf8(right.model) {
        encoding_is_injective(left.model, right.model);
    }
    bytes_are_ordered(left.id, right.id);
}

/// No candidate ranks before itself.
pub proof fn ranking_is_irreflexive(
    candidate: CandidateView,
    request_class: ConsultationRequestClass,
)
    ensures
        !ranks_before(candidate, candidate, request_class),
{
    faster_is_irreflexive(candidate, request_class);
}

/// Of three candidates, the first ranks before the third where it ranks before the
/// second and the second before the third.
pub proof fn ranking_is_transitive(
    first: CandidateView,
    second: CandidateView,
    third: CandidateView,
    request_class: ConsultationRequestClass,
)
    requires
        ranks_before(first, second, request_class),
        ranks_before(second, third, request_class),
    ensures
        ranks_before(first, third, request_class),
{
    if is_faster(first, second, request_class) && is_faster(second, third, request_class) {
        faster_is_transitive(first, second, third, request_class);
    }
}

/// Of two different candidates, one ranks before the other.
pub proof fn ranking_decides(
    left: CandidateView,
    right: CandidateView,
    request_class: ConsultationRequestClass,
)
    ensures
        ranks_before(left, right, request_class) || ranks_before(right, left, request_class)
            || left == right,
{
    faster_decides(left, right, request_class);
}

/// Whether `left` is the faster candidate.
pub fn faster(left: &Candidate, right: &Candidate, request_class: ConsultationRequestClass) -> (first:
    bool)
    ensures
        first == is_faster(left@, right@, request_class),
{
    proof {
        bytes_never_precede_themselves(encode_utf8(left.model@));
    }
    match compare_consultation_performance(left.performance, right.performance, request_class) {
        Ordering::Less => true,
        Ordering::Greater => false,
        Ordering::Equal => match compare_text(left.model.as_str(), right.model.as_str()) {
            Ordering::Less => true,
            Ordering::Greater => false,
            Ordering::Equal => match compare_bytes(&left.id.bytes, &right.id.bytes) {
                Ordering::Less => true,
                _ => false,
            },
        },
    }
}

/// Whether `left` ranks before `right`.
pub fn outranks(left: &Candidate, right: &Candidate, request_class: ConsultationRequestClass) -> (first:
    bool)
    ensures
        first == ranks_before(left@, right@, request_class),
{
    if left.reasoning != right.reasoning {
        left.reasoning
    } else {
        faster(left, right, request_class)
    }
}

/// Model `j` on peer `i` as a candidate, if it has a name and one other than
/// `excluded`.
pub fn eligible_candidate(peers: &[PeerInfo], excluded: &str, i: usize, j: usize) -> (candidate:
    Option<Candidate>)
    requires
        is_served(peers@, i as int, j as int),
    ensures
        candidate is Some <==> is_eligible(peers@, excluded@, i as int, j as int),
        candidate matches Some(found) ==> found@ == candidate_at(peers@, i as int, j as int),
{
    let peer = &peers[i];
    let descriptor = &peer.served_model_descriptors[j];
    let name = descriptor.identity.model_name.as_str();
    if same_text(name, excluded) || name.is_empty() {
        return None;
    }
    Some(
        Candidate {
            id: peer.id,
            model: descriptor.identity.model_name.clone(),
            reasoning: descriptor.capabilities.reasoning != CapabilityLevel::Unsupported,
            performance: model_performance_hint(peer, name),
        },
    )
}

/// A candidate holds what the peer tells: its id, the name of the model, whether the
/// model reasons, and how fast the peer serves it.
pub proof fn candidate_is_what_the_peer_tells(peers: Seq<PeerInfo>, i: int, j: int)
    requires
        0 <= i < peers.len(),
        0 <= j < peers[i].served_model_descriptors@.len(),
    ensures
        ({
            let descriptor = peers[i].served_model_descriptors@[j];
            let candidate = candidate_at(peers, i, j);
            &&& candidate.id == peers[i].id.bytes@
            &&& candidate.model == descriptor.identity.model_name@
            &&& candidate.reasoning <==> descriptor.capabilities.reasoning
                != CapabilityLevel::Unsupported
            &&& candidate.performance == peers[i].performance(descriptor.identity.model_name@)
        }),
{
}

/// Every model that has a name, and one other than the excluded one, is a candidate, and
/// nothing else is. It holds what the peer tells.
pub proof fn named_models_are_candidates(
    peers: &[PeerInfo],
    excluded: &str,
    i: usize,
    j: usize,
    candidate: Option<Candidate>,
)
    requires
        i < peers@.len(),
        j < peers@[i as int].served_model_descriptors@.len(),
        call_ensures(eligible_candidate, (peers, excluded, i, j), candidate),
    ensures
        ({
            let peer = peers@[i as int];
            let descriptor = peer.served_model_descriptors@[j as int];
            let name = descriptor.identity.model_name@;
            &&& candidate is Some <==> name.len() > 0 && name != excluded@
            &&& candidate matches Some(found) ==> {
                &&& found.id.bytes@ == peer.id.bytes@
                &&& found.model@ == name
                &&& found.reasoning <==> descriptor.capabilities.reasoning
                    != CapabilityLevel::Unsupported
                &&& found.performance == peer.performance(name)
            }
        }),
{
    if let Some(found) = candidate {
        assert(found@ == candidate_at(peers@, i as int, j as int));
        assert(found@.id == found.id.bytes@);
    }
}

/// Better performance decides between two candidates. Where that is the same, the name
/// that comes first does, and where that is the same too, the peer whose id does.
pub proof fn faster_goes_by_performance_then_name_then_peer(
    left: &Candidate,
    right: &Candidate,
    request_class: ConsultationRequestClass,
    first: bool,
)
    requires
        call_ensures(faster, (left, right, request_class), first),
    ensures
        ({
            let left_key = performance_key(left.performance, request_class);
            let right_key = performance_key(right.performance, request_class);
            let tied = left.performance == right.performance;
            let named = left.model@ == right.model@;
            &&& key_precedes(left_key, right_key) ==> first
            &&& key_precedes(right_key, left_key) ==> !first
            &&& tied && bytes_precede(encode_utf8(left.model@), encode_utf8(right.model@)) ==> first
            &&& tied && bytes_precede(encode_utf8(right.model@), encode_utf8(left.model@))
                ==> !first
            &&& tied && named ==> (first <==> bytes_precede(left.id.bytes@, right.id.bytes@))
        }),
{
    speed_goes_by_performance_then_name_then_peer(left@, right@, request_class);
}

/// Of two candidates that agree on whether they reason, whatever that is, the one with
/// the better performance ranks first; names and peers break ties. Of two that do not
/// agree, the one that reasons ranks first, whatever its performance.
pub proof fn ranks_go_by_reasoning_then_performance(
    left: &Candidate,
    right: &Candidate,
    request_class: ConsultationRequestClass,
    first: bool,
)
    requires
        call_ensures(outranks, (left, right, request_class), first),
    ensures
        ({
            let left_key = performance_key(left.performance, request_class);
            let right_key = performance_key(right.performance, request_class);
            let alike = left.reasoning == right.reasoning;
            let tied = alike && left.performance == right.performance;
            let named = left.model@ == right.model@;
            &&& !alike ==> first == left.reasoning
            &&& alike && key_precedes(left_key, right_key) ==> first
            &&& alike && key_precedes(right_key, left_key) ==> !first
            &&& tied && bytes_precede(encode_utf8(left.model@), encode_utf8(right.model@)) ==> first
            &&& tied && bytes_precede(encode_utf8(right.model@), encode_utf8(left.model@))
                ==> !first
            &&& tied && named ==> (first <==> bytes_precede(left.id.bytes@, right.id.bytes@))
        }),
{
    rank_goes_by_reasoning_then_performance(left@, right@, request_class);
}

/// [`is_faster`] goes by performance, then by name, then by peer.
pub proof fn speed_goes_by_performance_then_name_then_peer(
    left: CandidateView,
    right: CandidateView,
    request_class: ConsultationRequestClass,
)
    ensures
        ({
            let left_key = performance_key(left.performance, request_class);
            let right_key = performance_key(right.performance, request_class);
            let first = is_faster(left, right, request_class);
            let tied = left.performance == right.performance;
            &&& key_precedes(left_key, right_key) ==> first
            &&& key_precedes(right_key, left_key) ==> !first
            &&& tied && bytes_precede(encode_utf8(left.model), encode_utf8(right.model)) ==> first
            &&& tied && bytes_precede(encode_utf8(right.model), encode_utf8(left.model)) ==> !first
            &&& tied && left.model == right.model ==> (first <==> bytes_precede(left.id, right.id))
        }),
{
    let l = encode_utf8(left.model);
    let r = encode_utf8(right.model);
    if bytes_precede(l, r) && bytes_precede(r, l) {
        bytes_precede_transitively(l, r, l);
    }
    bytes_never_precede_themselves(l);
    bytes_never_precede_themselves(r);
}

/// [`ranks_before`] goes by reasoning, then by performance, whether the two reason or
/// not, then by name, then by peer.
pub proof fn rank_goes_by_reasoning_then_performance(
    left: CandidateView,
    right: CandidateView,
    request_class: ConsultationRequestClass,
)
    ensures
        ({
            let left_key = performance_key(left.performance, request_class);
            let right_key = performance_key(right.performance, request_class);
            let first = ranks_before(left, right, request_class);
            let alike = left.reasoning == right.reasoning;
            let tied = alike && left.performance == right.performance;
            &&& !alike ==> first == left.reasoning
            &&& alike && key_precedes(left_key, right_key) ==> first
            &&& alike && key_precedes(right_key, left_key) ==> !first
            &&& tied && bytes_precede(encode_utf8(left.model), encode_utf8(right.model)) ==> first
            &&& tied && bytes_precede(encode_utf8(right.model), encode_utf8(left.model)) ==> !first
            &&& tied && left.model == right.model ==> (first <==> bytes_precede(left.id, right.id))
        }),
{
    speed_goes_by_performance_then_name_then_peer(left, right, request_class);
}

} // verus!
