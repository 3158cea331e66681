//! Choosing the one peer to turn to for a capability.

use vstd::prelude::*;
use vstd::utf8::*;

use crate::candidates::{
    candidate_at, candidate_is_what_the_peer_tells, eligible_candidate, faster, faster_decides,
    faster_is_irreflexive, faster_is_transitive, is_eligible, is_faster, is_served,
    speed_goes_by_performance_then_name_then_peer, Candidate, CandidateView,
};
use crate::lexicographic::bytes_precede;
use crate::peers::{CapabilityLevel, EndpointId, PeerInfo, ServedModelDescriptor};
use crate::performance::{key_precedes, performance_key, ConsultationRequestClass};

verus! {

/// A peer and a model on it, by their views.
pub open spec fn chosen(choice: Option<(EndpointId, String)>) -> Option<(Seq<u8>, Seq<char>)> {
    match choice {
        Some((id, model)) => Some((id@, model@)),
        None => None,
    }
}

/// The verdict of a predicate on each model of each peer.
pub open spec fn verdicts_by(
    peers: Seq<PeerInfo>,
    supports: spec_fn(ServedModelDescriptor) -> bool,
) -> Seq<Seq<bool>> {
    Seq::new(
        peers.len(),
        |i: int|
            Seq::new(
                peers[i].served_model_descriptors@.len(),
                |j: int| supports(peers[i].served_model_descriptors@[j]),
            ),
    )
}

/// Whether `verdicts` holds, for each model of each peer, a value that `supports`
/// may return for it.
pub open spec fn are_verdicts_of<F: Fn(&ServedModelDescriptor) -> bool>(
    supports: F,
    peers: Seq<PeerInfo>,
    verdicts: Seq<Seq<bool>>,
) -> bool {
    &&& verdicts.len() == peers.len()
    &&& forall|i: int|
        0 <= i < peers.len() ==> (#[trigger] verdicts[i]).len()
            == peers[i].served_model_descriptors@.len()
    &&& forall|i: int, j: int|
        is_served(peers, i, j) ==> supports.ensures(
            (&peers[i].served_model_descriptors@[j],),
            #[trigger] verdicts[i][j],
        )
}

/// Whether model `j` on peer `i` may be chosen: its verdict is favourable, it has a
/// name, and one other than `excluded`.
pub open spec fn contends(
    peers: Seq<PeerInfo>,
    excluded: Seq<char>,
    verdicts: Seq<Seq<bool>>,
    i: int,
    j: int,
) -> bool {
    &&& is_eligible(peers, excluded, i, j)
    &&& i < verdicts.len()
    &&& j < verdicts[i].len()
    &&& verdicts[i][j]
}

/// Whether a candidate is among those that may be chosen.
pub open spec fn may_be_chosen(
    peers: Seq<PeerInfo>,
    excluded: Seq<char>,
    verdicts: Seq<Seq<bool>>,
    candidate: CandidateView,
) -> bool {
    exists|i: int, j: int| #[trigger]
        contends(peers, excluded, verdicts, i, j) && candidate_at(peers, i, j) == candidate
}

/// Whether `best` is among those that may be chosen, and none of them is faster.
pub open spec fn leads(
    peers: Seq<PeerInfo>,
    excluded: Seq<char>,
    request_class: ConsultationRequestClass,
    verdicts: Seq<Seq<bool>>,
    best: CandidateView,
) -> bool {
    &&& may_be_chosen(peers, excluded, verdicts, best)
    &&& forall|i: int, j: int| #[trigger]
        contends(peers, excluded, verdicts, i, j) ==> !is_faster(
            candidate_at(peers, i, j),
            best,
            request_class,
        )
}

/// Whether `choice` is the fastest of those that may be chosen, and `None` exactly
/// where there are none.
pub open spec fn is_selection(
    peers: Seq<PeerInfo>,
    excluded: Seq<char>,
    request_class: ConsultationRequestClass,
    verdicts: Seq<Seq<bool>>,
    choice: Option<(Seq<u8>, Seq<char>)>,
) -> bool {
    match choice {
        None => forall|i: int, j: int| !(#[trigger] contends(peers, excluded, verdicts, i, j)),
        Some((id, model)) => exists|best: CandidateView| #[trigger]
            leads(peers, excluded, request_class, verdicts, best) && best.id == id && best.model
                == model,
    }
}

/// The candidates that may be chosen and the class of the request determine the
/// choice; the order in which the peers are listed does not matter.
pub proof fn selection_ignores_order(
    peers: Seq<PeerInfo>,
    verdicts: Seq<Seq<bool>>,
    other_peers: Seq<PeerInfo>,
    other_verdicts: Seq<Seq<bool>>,
    excluded: Seq<char>,
    request_class: ConsultationRequestClass,
    choice: Option<(Seq<u8>, Seq<char>)>,
    other_choice: Option<(Seq<u8>, Seq<char>)>,
)
    requires
        forall|candidate: CandidateView|
            #![trigger may_be_chosen(peers, excluded, verdicts, candidate)]
            #![trigger may_be_chosen(other_peers, excluded, other_verdicts, candidate)]
            may_be_chosen(peers, excluded, verdicts, candidate) <==> may_be_chosen(
                other_peers,
                excluded,
                other_verdicts,
                candidate,
            ),
        is_selection(peers, excluded, request_class, verdicts, choice),
        is_selection(other_peers, excluded, request_class, other_verdicts, other_choice),
    ensures
        choice == other_choice,
{
    if let Some((id, model)) = choice {
        let best = choose|best: CandidateView| #[trigger]
            leads(peers, excluded, request_class, verdicts, best) && best.id == id && best.model
                == model;
        assert(may_be_chosen(peers, excluded, verdicts, best));
        let (i, j) = choose|i: int, j: int| #[trigger]
            contends(other_peers, excluded, other_verdicts, i, j) && candidate_at(
                other_peers,
                i,
                j,
            ) == best;
        assert(contends(other_peers, excluded, other_verdicts, i, j));
        let (other_id, other_model) = other_choice->0;
        let other = choose|other: CandidateView| #[trigger]
            leads(other_peers, excluded, request_class, other_verdicts, other) && other.id
                == other_id && other.model == other_model;
        assert(may_be_chosen(other_peers, excluded, other_verdicts, other));
        let (k, l) = choose|k: int, l: int| #[trigger]
            contends(peers, excluded, verdicts, k, l) && candidate_at(peers, k, l) == other;
        assert(contends(peers, excluded, verdicts, k, l));
        faster_decides(best, other, request_class);
    } else if let Some((other_id, other_model)) = other_choice {
        let other = choose|other: CandidateView| #[trigger]
            leads(other_peers, excluded, request_class, other_verdicts, other) && other.id
                == other_id && other.model == other_model;
        assert(may_be_chosen(other_peers, excluded, other_verdicts, other));
        assert(may_be_chosen(peers, excluded, verdicts, other));
    }
}

/// The models that may be chosen and the class of the request determine the choice.
pub proof fn selection_is_unique(
    peers: Seq<PeerInfo>,
    excluded: Seq<char>,
    request_class: ConsultationRequestClass,
    verdicts: Seq<Seq<bool>>,
    choice: Option<(Seq<u8>, Seq<char>)>,
    other_choice: Option<(Seq<u8>, Seq<char>)>,
)
    requires
        is_selection(peers, excluded, request_class, verdicts, choice),
        is_selection(peers, excluded, request_class, verdicts, other_choice),
    ensures
        choice == other_choice,
{
    selection_ignores_order(
        peers,
        verdicts,
        peers,
        verdicts,
        excluded,
        request_class,
        choice,
        other_choice,
    );
}

/// The excluded model is never chosen, nor one without a name, nor one with an
/// unfavourable verdict; and where any model may be chosen, one is.
pub proof fn selection_is_among_contenders(
    peers: Seq<PeerInfo>,
    excluded: Seq<char>,
    request_class: ConsultationRequestClass,
    verdicts: Seq<Seq<bool>>,
    choice: Option<(Seq<u8>, Seq<char>)>,
)
    requires
        is_selection(peers, excluded, request_class, verdicts, choice),
    ensures
        choice matches Some((id, model)) ==> model != excluded && model.len() > 0 && exists|
            i: int,
            j: int,
        | #[trigger]
            contends(peers, excluded, verdicts, i, j) && peers[i].id@ == id
                && peers[i].served_model_descriptors@[j].name() == model,
        choice is Some <==> exists|i: int, j: int| #[trigger]
            contends(peers, excluded, verdicts, i, j),
{
    if let Some((id, model)) = choice {
        let best = choose|best: CandidateView| #[trigger]
            leads(peers, excluded, request_class, verdicts, best) && best.id == id && best.model
                == model;
        let (i, j) = choose|i: int, j: int| #[trigger]
            contends(peers, excluded, verdicts, i, j) && candidate_at(peers, i, j) == best;
        assert(contends(peers, excluded, verdicts, i, j));
    }
}

/// The state of the search: the fastest so far, `None` while there is none.
spec fn leads_so_far(
    peers: Seq<PeerInfo>,
    excluded: Seq<char>,
    request_class: ConsultationRequestClass,
    verdicts: Seq<Seq<bool>>,
    best: Option<Candidate>,
) -> bool {
    match best {
        None => forall|i: int, j: int| !(#[trigger] contends(peers, excluded, verdicts, i, j)),
        Some(candidate) => leads(peers, excluded, request_class, verdicts, candidate@),
    }
}

/// The search takes in one more model: it goes on with the new candidate where that
/// contends and there was none before or it is the faster, and else with the old one.
proof fn lead_after_verdict(
    peers: Seq<PeerInfo>,
    excluded: Seq<char>,
    request_class: ConsultationRequestClass,
    rows: Seq<Seq<bool>>,
    row: Seq<bool>,
    verdict: bool,
    before: Option<Candidate>,
    after: Option<Candidate>,
)
    requires
        leads_so_far(peers, excluded, request_class, rows.push(row), before),
        ({
            let i = rows.len() as int;
            let j = row.len() as int;
            let new = candidate_at(peers, i, j);
            if verdict && is_eligible(peers, excluded, i, j) && (before matches Some(old)
                ==> is_faster(new, old@, request_class)) {
                after matches Some(taken) && taken@ == new
            } else {
                after == before
            }
        }),
    ensures
        leads_so_far(peers, excluded, request_class, rows.push(row.push(verdict)), after),
{
    let old_verdicts = rows.push(row);
    let new_verdicts = rows.push(row.push(verdict));
    let i = rows.len() as int;
    let j = row.len() as int;
    let new = candidate_at(peers, i, j);
    assert forall|k: int, l: int| #[trigger]
        contends(peers, excluded, new_verdicts, k, l) implies contends(
        peers,
        excluded,
        old_verdicts,
        k,
        l,
    ) || (k == i && l == j && verdict && is_eligible(peers, excluded, i, j)) by {}
    assert forall|k: int, l: int| #[trigger]
        contends(peers, excluded, old_verdicts, k, l) implies contends(
        peers,
        excluded,
        new_verdicts,
        k,
        l,
    ) by {}
    if verdict && is_eligible(peers, excluded, i, j) {
        assert(contends(peers, excluded, new_verdicts, i, j));
        faster_is_irreflexive(new, request_class);
        if before is Some && is_faster(new, before->0@, request_class) {
            assert forall|k: int, l: int| #[trigger]
                contends(peers, excluded, new_verdicts, k, l) implies !is_faster(
                candidate_at(peers, k, l),
                new,
                request_class,
            ) by {
                if is_faster(candidate_at(peers, k, l), new, request_class) {
                    faster_is_transitive(
                        candidate_at(peers, k, l),
                        new,
                        before->0@,
                        request_class,
                    );
                    assert(contends(peers, excluded, old_verdicts, k, l));
                }
            }
        }
    }
}

/// Chooses the fastest peer for a capability: of all models that `supports` accepts
/// and that are not the excluded one, the first in the order of [`is_faster`].
pub fn select_capability_peer_from_peers<F>(
    peers: &[PeerInfo],
    exclude_model: &str,
    request_class: ConsultationRequestClass,
    supports: F,
) -> (choice: Option<(EndpointId, String)>) where F: Fn(&ServedModelDescriptor) -> bool
    requires
        forall|i: int, j: int|
            is_served(peers@, i, j) ==> supports.requires(
                (&(#[trigger] peers@[i].served_model_descriptors@[j]),),
            ),
    ensures
        exists|verdicts: Seq<Seq<bool>>| #[trigger]
            are_verdicts_of(supports, peers@, verdicts) && is_selection(
                peers@,
                exclude_model@,
                request_class,
                verdicts,
                chosen(choice),
            ),
{
    let mut best: Option<Candidate> = None;
    let ghost mut rows: Seq<Seq<bool>> = Seq::empty();
    let mut i: usize = 0;
    while i < peers.len()
        invariant
            i <= peers@.len(),
            forall|i: int, j: int|
                is_served(peers@, i, j) ==> supports.requires(
                    (&(#[trigger] peers@[i].served_model_descriptors@[j]),),
                ),
            rows.len() == i,
            forall|a: int|
                0 <= a < i ==> (#[trigger] rows[a]).len()
                    == peers@[a].served_model_descriptors@.len(),
            forall|a: int, b: int|
                0 <= a < i && 0 <= b < peers@[a].served_model_descriptors@.len()
                    ==> supports.ensures(
                    (&peers@[a].served_model_descriptors@[b],),
                    #[trigger] rows[a][b],
                ),
            leads_so_far(peers@, exclude_model@, request_class, rows, best),
        decreases peers.len() - i,
    {
        let ghost mut row: Seq<bool> = Seq::empty();
        proof {
            let with_row = rows.push(row);
            assert forall|a: int, b: int| #[trigger]
                contends(peers@, exclude_model@, with_row, a, b) implies contends(
                peers@,
                exclude_model@,
                rows,
                a,
                b,
            ) by {}
            assert forall|a: int, b: int| #[trigger]
                contends(peers@, exclude_model@, rows, a, b) implies contends(
                peers@,
                exclude_model@,
                with_row,
                a,
                b,
            ) by {}
        }
        let mut j: usize = 0;
        let count = peers[i].served_model_descriptors.len();
        while j < count
            invariant
                i < peers@.len(),
                count == peers@[i as int].served_model_descriptors@.len(),
                j <= count,
                forall|i: int, j: int|
                    is_served(peers@, i, j) ==> supports.requires(
                        (&(#[trigger] peers@[i].served_model_descriptors@[j]),),
                    ),
                rows.len() == i,
                row.len() == j,
                forall|b: int|
                    0 <= b < j ==> supports.ensures(
                        (&peers@[i as int].served_model_descriptors@[b],),
                        #[trigger] row[b],
                    ),
                leads_so_far(peers@, exclude_model@, request_class, rows.push(row), best),
            decreases count - j,
        {
            let ghost before = best;
            let descriptor = &peers[i].served_model_descriptors[j];
            assert(is_served(peers@, i as int, j as int));
            assert(descriptor == peers@[i as int].served_model_descriptors@[j as int]);
            let verdict = supports(descriptor);
            if verdict {
                let eligible = eligible_candidate(peers, exclude_model, i, j);
                if let Some(candidate) = eligible {
                    let better = match &best {
                        Some(leader) => faster(&candidate, leader, request_class),
                        None => true,
                    };
                    if better {
                        best = Some(candidate);
                    }
                }
            }
            proof {
                lead_after_verdict(
                    peers@,
                    exclude_model@,
                    request_class,
                    rows,
                    row,
                    verdict,
                    before,
                    best,
                );
                row = row.push(verdict);
            }
            j += 1;
        }
        proof {
            rows = rows.push(row);
        }
        i += 1;
    }
    proof {
        assert(are_verdicts_of(supports, peers@, rows));
    }
    match best {
        Some(candidate) => {
            assert(leads(peers@, exclude_model@, request_class, rows, candidate@));
            Some((candidate.id, candidate.model))
        },
        None => None,
    }
}

/// Where `supports` returns what `accepts` says, a selection by its verdicts is one by
/// those of `accepts`.
proof fn selection_by_predicate<F: Fn(&ServedModelDescriptor) -> bool>(
    supports: F,
    accepts: spec_fn(ServedModelDescriptor) -> bool,
    peers: Seq<PeerInfo>,
    excluded: Seq<char>,
    request_class: ConsultationRequestClass,
    choice: Option<(Seq<u8>, Seq<char>)>,
)
    requires
        forall|descriptor: &ServedModelDescriptor, verdict: bool| #[trigger]
            supports.ensures((descriptor,), verdict) ==> verdict == accepts(*descriptor),
        exists|verdicts: Seq<Seq<bool>>| #[trigger]
            are_verdicts_of(supports, peers, verdicts) && is_selection(
                peers,
                excluded,
                request_class,
                verdicts,
                choice,
            ),
    ensures
        is_selection(peers, excluded, request_class, verdicts_by(peers, accepts), choice),
{
    let verdicts = choose|verdicts: Seq<Seq<bool>>| #[trigger]
        are_verdicts_of(supports, peers, verdicts) && is_selection(
            peers,
            excluded,
            request_class,
            verdicts,
            choice,
        );
    assert(verdicts =~~= verdicts_by(peers, accepts));
}

/// Whether a model takes images.
pub open spec fn takes_images() -> spec_fn(ServedModelDescriptor) -> bool {
    |descriptor: ServedModelDescriptor|
        descriptor.capabilities.vision == CapabilityLevel::Supported
}

/// Whether a model takes audio.
pub open spec fn takes_audio() -> spec_fn(ServedModelDescriptor) -> bool {
    |descriptor: ServedModelDescriptor| descriptor.capabilities.audio == CapabilityLevel::Supported
}

/// The verdicts on whether a model takes images.
pub open spec fn vision_verdicts(peers: Seq<PeerInfo>) -> Seq<Seq<bool>> {
    verdicts_by(peers, takes_images())
}

/// The verdicts on whether a model takes audio.
pub open spec fn audio_verdicts(peers: Seq<PeerInfo>) -> Seq<Seq<bool>> {
    verdicts_by(peers, takes_audio())
}

/// Finds the fastest peer that can handle images. `None` where no peer can.
pub fn find_vision_peer(
    peers: &[PeerInfo],
    exclude_model: &str,
    request_class: ConsultationRequestClass,
) -> (choice: Option<(EndpointId, String)>)
    ensures
        is_selection(
            peers@,
            exclude_model@,
            request_class,
            vision_verdicts(peers@),
            chosen(choice),
        ),
{
    let supports = |descriptor: &ServedModelDescriptor| -> (supported: bool)
        ensures
            supported == (descriptor.capabilities.vision == CapabilityLevel::Supported),
        { descriptor.capabilities.supports_vision_runtime() };
    let choice = select_capability_peer_from_peers(peers, exclude_model, request_class, supports);
    proof {
        selection_by_predicate(
            supports,
            takes_images(),
            peers@,
            exclude_model@,
            request_class,
            chosen(choice),
        );
    }
    choice
}

/// Finds the fastest peer that can handle audio. `None` where no peer can.
pub fn find_audio_peer(
    peers: &[PeerInfo],
    exclude_model: &str,
    request_class: ConsultationRequestClass,
) -> (choice: Option<(EndpointId, String)>)
    ensures
        is_selection(
            peers@,
            exclude_model@,
            request_class,
            audio_verdicts(peers@),
            chosen(choice),
        ),
{
    let supports = |descriptor: &ServedModelDescriptor| -> (supported: bool)
        ensures
            supported == (descriptor.capabilities.audio == CapabilityLevel::Supported),
        { descriptor.capabilities.supports_audio_runtime() };
    let choice = select_capability_peer_from_peers(peers, exclude_model, request_class, supports);
    proof {
        selection_by_predicate(
            supports,
            takes_audio(),
            peers@,
            exclude_model@,
            request_class,
            chosen(choice),
        );
    }
    choice
}

/// A selection by a predicate is `None` exactly where no model is accepted that has a
/// name other than the excluded one. Otherwise it is such a model, and no other has the
/// better figures, or the same and a name or a peer that comes first.
pub proof fn selected_is_unsurpassed(
    peers: Seq<PeerInfo>,
    excluded: Seq<char>,
    request_class: ConsultationRequestClass,
    accepts: spec_fn(ServedModelDescriptor) -> bool,
    choice: Option<(EndpointId, String)>,
)
    requires
        is_selection(
            peers,
            excluded,
            request_class,
            verdicts_by(peers, accepts),
            chosen(choice),
        ),
    ensures
        choice is None <==> forall|k: int, l: int|
            0 <= k < peers.len() && 0 <= l < peers[k].served_model_descriptors@.len() ==> {
                let descriptor = #[trigger] peers[k].served_model_descriptors@[l];
                ||| !accepts(descriptor)
                ||| descriptor.identity.model_name@.len() == 0
                ||| descriptor.identity.model_name@ == excluded
            },
        choice matches Some((id, model)) ==> exists|i: int, j: int|
            0 <= i < peers.len() && 0 <= j < peers[i].served_model_descriptors@.len() && {
                let chosen = #[trigger] peers[i].served_model_descriptors@[j];
                let best = peers[i].performance(model@);
                &&& id.bytes@ == peers[i].id.bytes@
                &&& model@ == chosen.identity.model_name@
                &&& accepts(chosen)
                &&& model@.len() > 0
                &&& model@ != excluded
                &&& forall|k: int, l: int|
                    0 <= k < peers.len() && 0 <= l < peers[k].served_model_descriptors@.len() ==> {
                        let other = #[trigger] peers[k].served_model_descriptors@[l];
                        let name = other.identity.model_name@;
                        let figures = peers[k].performance(name);
                        accepts(other) && name.len() > 0 && name != excluded ==> {
                            &&& !key_precedes(
                                performance_key(figures, request_class),
                                performance_key(best, request_class),
                            )
                            &&& figures == best ==> !bytes_precede(
                                encode_utf8(name),
                                encode_utf8(model@),
                            )
                            &&& figures == best && name == model@ ==> !bytes_precede(
                                peers[k].id.bytes@,
                                id.bytes@,
                            )
                        }
                    }
            },
{
    let verdicts = verdicts_by(peers, accepts);
    assert forall|k: int, l: int|
        0 <= k < peers.len() && 0 <= l < peers[k].served_model_descriptors@.len() implies contends(
        peers,
        excluded,
        verdicts,
        k,
        l,
    ) == ({
        let descriptor = #[trigger] peers[k].served_model_descriptors@[l];
        accepts(descriptor) && descriptor.identity.model_name@.len() > 0
            && descriptor.identity.model_name@ != excluded
    }) by {
        assert(verdicts[k][l] == accepts(peers[k].served_model_descriptors@[l]));
        candidate_is_what_the_peer_tells(peers, k, l);
    }
    match choice {
        None => {
            assert forall|k: int, l: int|
                0 <= k < peers.len() && 0 <= l
                    < peers[k].served_model_descriptors@.len() implies ({
                let descriptor = #[trigger] peers[k].served_model_descriptors@[l];
                ||| !accepts(descriptor)
                ||| descriptor.identity.model_name@.len() == 0
                ||| descriptor.identity.model_name@ == excluded
            }) by {
                assert(!contends(peers, excluded, verdicts, k, l));
            }
        },
        Some((id, model)) => {
            let best = choose|best: CandidateView| #[trigger]
                leads(peers, excluded, request_class, verdicts, best) && best.id == id@
                    && best.model == model@;
            let (i, j) = choose|i: int, j: int| #[trigger]
                contends(peers, excluded, verdicts, i, j) && candidate_at(peers, i, j) == best;
            assert(contends(peers, excluded, verdicts, i, j));
            candidate_is_what_the_peer_tells(peers, i, j);
            let held = peers[i].served_model_descriptors@[j];
            assert(held.identity.model_name@ == model@);
            assert(accepts(held));
            assert forall|k: int, l: int|
                0 <= k < peers.len() && 0 <= l
                    < peers[k].served_model_descriptors@.len() implies ({
                let other = #[trigger] peers[k].served_model_descriptors@[l];
                let name = other.identity.model_name@;
                let figures = peers[k].performance(name);
                accepts(other) && name.len() > 0 && name != excluded ==> {
                    &&& !key_precedes(
                        performance_key(figures, request_class),
                        performance_key(best.performance, request_class),
                    )
                    &&& figures == best.performance ==> !bytes_precede(
                        encode_utf8(name),
                        encode_utf8(model@),
                    )
                    &&& figures == best.performance && name == model@ ==> !bytes_precede(
                        peers[k].id.bytes@,
                        id.bytes@,
                    )
                }
            }) by {
                if contends(peers, excluded, verdicts, k, l) {
                    candidate_is_what_the_peer_tells(peers, k, l);
                    speed_goes_by_performance_then_name_then_peer(
                        candidate_at(peers, k, l),
                        best,
                        request_class,
                    );
                }
            }
        },
    }
}

/// The same holds of a selection by any predicate that can be called.
pub proof fn selection_by_any_predicate_is_unsurpassed<F>(
    peers: &[PeerInfo],
    exclude_model: &str,
    request_class: ConsultationRequestClass,
    supports: F,
    accepts: spec_fn(ServedModelDescriptor) -> bool,
    choice: Option<(EndpointId, String)>,
) where F: Fn(&ServedModelDescriptor) -> bool
    requires
        call_ensures(
            select_capability_peer_from_peers::<F>,
            (peers, exclude_model, request_class, supports),
            choice,
        ),
        forall|descriptor: &ServedModelDescriptor, verdict: bool| #[trigger]
            supports.ensures((descriptor,), verdict) ==> verdict == accepts(*descriptor),
    ensures
        choice is None <==> forall|k: int, l: int|
            0 <= k < peers@.len() && 0 <= l < peers@[k].served_model_descriptors@.len() ==> {
                let descriptor = #[trigger] peers@[k].served_model_descriptors@[l];
                ||| !accepts(descriptor)
                ||| descriptor.identity.model_name@.len() == 0
                ||| descriptor.identity.model_name@ == exclude_model@
            },
        choice matches Some((id, model)) ==> exists|i: int, j: int|
            0 <= i < peers@.len() && 0 <= j < peers@[i].served_model_descriptors@.len() && {
                let chosen = #[trigger] peers@[i].served_model_descriptors@[j];
                let best = peers@[i].performance(model@);
                &&& id.bytes@ == peers@[i].id.bytes@
                &&& model@ == chosen.identity.model_name@
                &&& accepts(chosen)
                &&& model@.len() > 0
                &&& model@ != exclude_model@
                &&& forall|k: int, l: int|
                    0 <= k < peers@.len() && 0 <= l < peers@[k].served_model_descriptors@.len() ==> {
                        let other = #[trigger] peers@[k].served_model_descriptors@[l];
                        let name = other.identity.model_name@;
                        let figures = peers@[k].performance(name);
                        accepts(other) && name.len() > 0 && name != exclude_model@ ==> {
                            &&& !key_precedes(
                                performance_key(figures, request_class),
                                performance_key(best, request_class),
                            )
                            &&& figures == best ==> !bytes_precede(
                                encode_utf8(name),
                                encode_utf8(model@),
                            )
                            &&& figures == best && name == model@ ==> !bytes_precede(
                                peers@[k].id.bytes@,
                                id.bytes@,
                            )
                        }
                    }
            },
{
    selection_by_predicate(
        supports,
        accepts,
        peers@,
        exclude_model@,
        request_class,
        chosen(choice),
    );
    selected_is_unsurpassed(peers@, exclude_model@, request_class, accepts, choice);
}

/// A peer for images is found exactly where some model takes images and has a name other
/// than the excluded one. It serves such a model, and no other peer does with the better
/// figures: for an interactive request none has a lower known time to the first token,
/// for one of the throughput class none has a higher known throughput.
pub proof fn vision_peer_is_unsurpassed(
    peers: &[PeerInfo],
    exclude_model: &str,
    request_class: ConsultationRequestClass,
    choice: Option<(EndpointId, String)>,
)
    requires
        call_ensures(find_vision_peer, (peers, exclude_model, request_class), choice),
    ensures
        choice is None <==> forall|k: int, l: int|
            0 <= k < peers@.len() && 0 <= l < peers@[k].served_model_descriptors@.len() ==> {
                let descriptor = #[trigger] peers@[k].served_model_descriptors@[l];
                ||| descriptor.capabilities.vision != CapabilityLevel::Supported
                ||| descriptor.identity.model_name@.len() == 0
                ||| descriptor.identity.model_name@ == exclude_model@
            },
        choice matches Some((id, model)) ==> exists|i: int, j: int|
            0 <= i < peers@.len() && 0 <= j < peers@[i].served_model_descriptors@.len() && {
                let chosen = #[trigger] peers@[i].served_model_descriptors@[j];
                let best = peers@[i].performance(model@);
                &&& id.bytes@ == peers@[i].id.bytes@
                &&& model@ == chosen.identity.model_name@
                &&& chosen.capabilities.vision == CapabilityLevel::Supported
                &&& model@.len() > 0
                &&& model@ != exclude_model@
                &&& forall|k: int, l: int|
                    0 <= k < peers@.len() && 0 <= l < peers@[k].served_model_descriptors@.len() ==> {
                        let other = #[trigger] peers@[k].served_model_descriptors@[l];
                        let name = other.identity.model_name@;
                        let figures = peers@[k].performance(name);
                        other.capabilities.vision == CapabilityLevel::Supported && name.len() > 0
                            && name != exclude_model@ ==> {
                            &&& !key_precedes(
                                performance_key(figures, request_class),
                                performance_key(best, request_class),
                            )
                            &&& figures == best ==> !bytes_precede(
                                encode_utf8(name),
                                encode_utf8(model@),
                            )
                            &&& figures == best && name == model@ ==> !bytes_precede(
                                peers@[k].id.bytes@,
                                id.bytes@,
                            )
                            &&& request_class == ConsultationRequestClass::Interactive
                                && figures.avg_ttft_ms is Some ==> best.avg_ttft_ms is Some
                                && best.avg_ttft_ms->0 <= figures.avg_ttft_ms->0
                            &&& request_class == ConsultationRequestClass::Throughput
                                && figures.avg_tokens_per_second_milli is Some
                                ==> best.avg_tokens_per_second_milli is Some
                                && best.avg_tokens_per_second_milli->0
                                >= figures.avg_tokens_per_second_milli->0
                        }
                    }
            },
{
    selected_is_unsurpassed(
        peers@,
        exclude_model@,
        request_class,
        takes_images(),
        choice,
    );
}

/// A peer for audio is found exactly where some model takes audio and has a name other
/// than the excluded one. It serves such a model, and no other peer does with the better
/// figures: for an interactive request none has a lower known time to the first token,
/// for one of the throughput class none has a higher known throughput.
pub proof fn audio_peer_is_unsurpassed(
    peers: &[PeerInfo],
    exclude_model: &str,
    request_class: ConsultationRequestClass,
    choice: Option<(EndpointId, String)>,
)
    requires
        call_ensures(find_audio_peer, (peers, exclude_model, request_class), choice),
    ensures
        choice is None <==> forall|k: int, l: int|
            0 <= k < peers@.len() && 0 <= l < peers@[k].served_model_descriptors@.len() ==> {
                let descriptor = #[trigger] peers@[k].served_model_descriptors@[l];
                ||| descriptor.capabilities.audio != CapabilityLevel::Supported
                ||| descriptor.identity.model_name@.len() == 0
                ||| descriptor.identity.model_name@ == exclude_model@
            },
        choice matches Some((id, model)) ==> exists|i: int, j: int|
            0 <= i < peers@.len() && 0 <= j < peers@[i].served_model_descriptors@.len() && {
                let chosen = #[trigger] peers@[i].served_model_descriptors@[j];
                let best = peers@[i].performance(model@);
                &&& id.bytes@ == peers@[i].id.bytes@
                &&& model@ == chosen.identity.model_name@
                &&& chosen.capabilities.audio == CapabilityLevel::Supported
                &&& model@.len() > 0
                &&& model@ != exclude_model@
                &&& forall|k: int, l: int|
                    0 <= k < peers@.len() && 0 <= l < peers@[k].served_model_descriptors@.len() ==> {
                        let other = #[trigger] peers@[k].served_model_descriptors@[l];
                        let name = other.identity.model_name@;
                        let figures = peers@[k].performance(name);
                        other.capabilities.audio == CapabilityLevel::Supported && name.len() > 0
                            && name != exclude_model@ ==> {
                            &&& !key_precedes(
                                performance_key(figures, request_class),
                                performance_key(best, request_class),
                            )
                            &&& figures == best ==> !bytes_precede(
                                encode_utf8(name),
                                encode_utf8(model@),
                            )
                            &&& figures == best && name == model@ ==> !bytes_precede(
                                peers@[k].id.bytes@,
                                id.bytes@,
                            )
                            &&& request_class == ConsultationRequestClass::Interactive
                                && figures.avg_ttft_ms is Some ==> best.avg_ttft_ms is Some
                                && best.avg_ttft_ms->0 <= figures.avg_ttft_ms->0
                            &&& request_class == ConsultationRequestClass::Throughput
                                && figures.avg_tokens_per_second_milli is Some
                                ==> best.avg_tokens_per_second_milli is Some
                                && best.avg_tokens_per_second_milli->0
                                >= figures.avg_tokens_per_second_milli->0
                        }
                    }
            },
{
    selected_is_unsurpassed(
        peers@,
        exclude_model@,
        request_class,
        takes_audio(),
        choice,
    );
}

} // verus!
