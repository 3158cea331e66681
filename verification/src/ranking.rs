//! Ranking the peers that serve other models.

use vstd::prelude::*;
use vstd::seq_lib::*;
use vstd::utf8::*;

use crate::candidates::{
    candidate_at, candidate_is_what_the_peer_tells, eligible_candidate, is_eligible, is_served,
    outranks, rank_goes_by_reasoning_then_performance, ranking_decides, ranking_is_irreflexive,
    ranking_is_transitive, ranks_before, Candidate, CandidateView,
};
use crate::lexicographic::{bytes_are_ordered, bytes_precede, encoding_is_injective, same_text};
use crate::peers::{CapabilityLevel, EndpointId, PeerInfo};
use crate::performance::{key_precedes, performance_key, ConsultationRequestClass};

verus! {

/// Whether some peer serves this candidate, under a name other than that of the
/// current model.
pub open spec fn is_offered(
    peers: Seq<PeerInfo>,
    current_model: Seq<char>,
    candidate: CandidateView,
) -> bool {
    exists|i: int, j: int| #[trigger]
        is_eligible(peers, current_model, i, j) && candidate_at(peers, i, j) == candidate
}

/// Whether the list holds a candidate of the same model that `candidate` does not
/// outrank.
#[verifier::opaque]
pub open spec fn is_covered(
    list: Seq<CandidateView>,
    request_class: ConsultationRequestClass,
    candidate: CandidateView,
) -> bool {
    exists|k: int|
        0 <= k < list.len() && (#[trigger] list[k]).model == candidate.model && !ranks_before(
            candidate,
            list[k],
            request_class,
        )
}

/// Whether every entry of the list outranks `candidate`.
pub open spec fn is_outranked(
    list: Seq<CandidateView>,
    request_class: ConsultationRequestClass,
    candidate: CandidateView,
) -> bool {
    forall|k: int|
        0 <= k < list.len() ==> ranks_before(#[trigger] list[k], candidate, request_class)
}

/// Whether `list` is the best `n` models on offer, best first:
/// - each entry is on offer, and no model has two entries;
/// - each entry outranks those after it;
/// - whatever is on offer is of a model in the list and does not outrank the entry
///   of that model, or else the list is full and all of it ranks higher.
pub open spec fn is_best(
    peers: Seq<PeerInfo>,
    current_model: Seq<char>,
    n: nat,
    request_class: ConsultationRequestClass,
    list: Seq<CandidateView>,
) -> bool {
    &&& list.len() <= n
    &&& forall|k: int|
        0 <= k < list.len() ==> is_offered(peers, current_model, #[trigger] list[k])
    &&& forall|k: int, l: int|
        0 <= k < l < list.len() ==> (#[trigger] list[k]).model != (#[trigger] list[l]).model
    &&& forall|k: int, l: int|
        0 <= k < l < list.len() ==> ranks_before(
            #[trigger] list[k],
            #[trigger] list[l],
            request_class,
        )
    &&& forall|candidate: CandidateView| #[trigger]
        is_offered(peers, current_model, candidate) ==> is_covered(list, request_class, candidate)
            || (list.len() == n && is_outranked(list, request_class, candidate))
}

/// The peers and models of a list of candidates.
pub open spec fn names_of(list: Seq<CandidateView>) -> Seq<(Seq<u8>, Seq<char>)> {
    Seq::new(list.len(), |k: int| (list[k].id, list[k].model))
}

/// A list of peers and models, by their views.
pub open spec fn listed(list: Seq<(EndpointId, String)>) -> Seq<(Seq<u8>, Seq<char>)> {
    Seq::new(list.len(), |k: int| (list[k].0@, list[k].1@))
}

/// Whether `list` names the best `n` models on offer, best first.
pub open spec fn is_ranking(
    peers: Seq<PeerInfo>,
    current_model: Seq<char>,
    n: nat,
    request_class: ConsultationRequestClass,
    list: Seq<(Seq<u8>, Seq<char>)>,
) -> bool {
    exists|best: Seq<CandidateView>| #[trigger]
        is_best(peers, current_model, n, request_class, best) && names_of(best) == list
}

proof fn covering_entry(
    list: Seq<CandidateView>,
    request_class: ConsultationRequestClass,
    candidate: CandidateView,
) -> (k: int)
    requires
        is_covered(list, request_class, candidate),
    ensures
        0 <= k < list.len(),
        list[k].model == candidate.model,
        !ranks_before(candidate, list[k], request_class),
{
    reveal(is_covered);
    choose|k: int|
        0 <= k < list.len() && (#[trigger] list[k]).model == candidate.model && !ranks_before(
            candidate,
            list[k],
            request_class,
        )
}

proof fn covered_by_entry(
    list: Seq<CandidateView>,
    request_class: ConsultationRequestClass,
    candidate: CandidateView,
    k: int,
)
    requires
        0 <= k < list.len(),
        list[k].model == candidate.model,
        !ranks_before(candidate, list[k], request_class),
    ensures
        is_covered(list, request_class, candidate),
{
    reveal(is_covered);
}

proof fn entry_is_matched(
    peers: Seq<PeerInfo>,
    current_model: Seq<char>,
    n: nat,
    request_class: ConsultationRequestClass,
    left: Seq<CandidateView>,
    right: Seq<CandidateView>,
    k: int,
)
    requires
        is_best(peers, current_model, n, request_class, left),
        is_best(peers, current_model, n, request_class, right),
        0 <= k < left.len(),
        forall|l: int| 0 <= l < k ==> l < right.len() && left[l] == #[trigger] right[l],
    ensures
        k < right.len(),
        right[k] == left[k] || ranks_before(right[k], left[k], request_class),
{
    assert(is_offered(peers, current_model, left[k]));
    if is_covered(right, request_class, left[k]) {
        let l = covering_entry(right, request_class, left[k]);
        if l < k {
            assert(left[l] == right[l]);
        }
        ranking_decides(left[k], right[l], request_class);
        if k < l && right[l] != left[k] {
            ranking_is_transitive(right[k], right[l], left[k], request_class);
        }
    } else {
        assert(ranks_before(right[k], left[k], request_class));
    }
}

proof fn best_is_unique_up_to(
    peers: Seq<PeerInfo>,
    current_model: Seq<char>,
    n: nat,
    request_class: ConsultationRequestClass,
    left: Seq<CandidateView>,
    right: Seq<CandidateView>,
    count: nat,
)
    requires
        is_best(peers, current_model, n, request_class, left),
        is_best(peers, current_model, n, request_class, right),
        count <= left.len(),
    ensures
        count <= right.len(),
        forall|k: int| 0 <= k < count ==> left[k] == #[trigger] right[k],
    decreases count,
{
    if count > 0 {
        let k = count - 1;
        best_is_unique_up_to(
            peers,
            current_model,
            n,
            request_class,
            left,
            right,
            (count - 1) as nat,
        );
        entry_is_matched(peers, current_model, n, request_class, left, right, k);
        entry_is_matched(peers, current_model, n, request_class, right, left, k);
        if left[k] != right[k] {
            ranking_is_transitive(left[k], right[k], left[k], request_class);
            ranking_is_irreflexive(left[k], request_class);
        }
    }
}

/// There is one list of the best `n` candidates.
pub proof fn best_is_unique(
    peers: Seq<PeerInfo>,
    current_model: Seq<char>,
    n: nat,
    request_class: ConsultationRequestClass,
    left: Seq<CandidateView>,
    right: Seq<CandidateView>,
)
    requires
        is_best(peers, current_model, n, request_class, left),
        is_best(peers, current_model, n, request_class, right),
    ensures
        left == right,
{
    best_is_unique_up_to(peers, current_model, n, request_class, left, right, left.len());
    best_is_unique_up_to(peers, current_model, n, request_class, right, left, right.len());
    assert(left =~= right);
}

/// The models on offer, the class of the request and the length asked for determine
/// the ranking.
pub proof fn ranking_is_unique(
    peers: Seq<PeerInfo>,
    current_model: Seq<char>,
    n: nat,
    request_class: ConsultationRequestClass,
    left: Seq<(Seq<u8>, Seq<char>)>,
    right: Seq<(Seq<u8>, Seq<char>)>,
)
    requires
        is_ranking(peers, current_model, n, request_class, left),
        is_ranking(peers, current_model, n, request_class, right),
    ensures
        left == right,
{
    let a = choose|best: Seq<CandidateView>| #[trigger]
        is_best(peers, current_model, n, request_class, best) && names_of(best) == left;
    let b = choose|best: Seq<CandidateView>| #[trigger]
        is_best(peers, current_model, n, request_class, best) && names_of(best) == right;
    best_is_unique(peers, current_model, n, request_class, a, b);
}

proof fn best_shortened(
    peers: Seq<PeerInfo>,
    current_model: Seq<char>,
    n: nat,
    request_class: ConsultationRequestClass,
    list: Seq<CandidateView>,
    shorter: nat,
)
    requires
        is_best(peers, current_model, n, request_class, list),
        shorter <= n,
    ensures
        is_best(
            peers,
            current_model,
            shorter,
            request_class,
            list.take(if shorter < list.len() { shorter as int } else { list.len() as int }),
        ),
{
    let length: int = if shorter < list.len() { shorter as int } else { list.len() as int };
    let cut = list.take(length);
    assert forall|candidate: CandidateView| #[trigger]
        is_offered(peers, current_model, candidate) implies is_covered(
        cut,
        request_class,
        candidate,
    ) || (cut.len() == shorter && is_outranked(cut, request_class, candidate)) by {
        if is_covered(list, request_class, candidate) {
            let k = covering_entry(list, request_class, candidate);
            if k < length {
                covered_by_entry(cut, request_class, candidate, k);
            } else {
                assert forall|l: int| 0 <= l < cut.len() implies ranks_before(
                    #[trigger] cut[l],
                    candidate,
                    request_class,
                ) by {
                    assert(cut[l] == list[l]);
                    ranking_decides(list[k], candidate, request_class);
                    if list[k] != candidate {
                        ranking_is_transitive(list[l], list[k], candidate, request_class);
                    }
                }
            }
        } else {
            assert forall|l: int| 0 <= l < cut.len() implies ranks_before(
                #[trigger] cut[l],
                candidate,
                request_class,
            ) by {
                assert(cut[l] == list[l]);
            }
        }
    }
}

/// A shorter ranking is the beginning of a longer one.
pub proof fn shorter_ranking_is_prefix(
    peers: Seq<PeerInfo>,
    current_model: Seq<char>,
    shorter: nat,
    longer: nat,
    request_class: ConsultationRequestClass,
    short_list: Seq<(Seq<u8>, Seq<char>)>,
    long_list: Seq<(Seq<u8>, Seq<char>)>,
)
    requires
        shorter <= longer,
        is_ranking(peers, current_model, shorter, request_class, short_list),
        is_ranking(peers, current_model, longer, request_class, long_list),
    ensures
        short_list.is_prefix_of(long_list),
        short_list.len() == if shorter < long_list.len() { shorter } else { long_list.len() },
{
    let a = choose|best: Seq<CandidateView>| #[trigger]
        is_best(peers, current_model, shorter, request_class, best) && names_of(best)
            == short_list;
    let b = choose|best: Seq<CandidateView>| #[trigger]
        is_best(peers, current_model, longer, request_class, best) && names_of(best) == long_list;
    best_shortened(peers, current_model, longer, request_class, b, shorter);
    let length: int = if shorter < b.len() { shorter as int } else { b.len() as int };
    best_is_unique(peers, current_model, shorter, request_class, a, b.take(length));
    assert(short_list =~= long_list.subrange(0, short_list.len() as int));
}

/// A ranking is no longer than asked for. It lists no model twice, never the current
/// one, and none without a name.
pub proof fn ranking_lists_each_model_once(
    peers: Seq<PeerInfo>,
    current_model: Seq<char>,
    n: nat,
    request_class: ConsultationRequestClass,
    list: Seq<(Seq<u8>, Seq<char>)>,
)
    requires
        is_ranking(peers, current_model, n, request_class, list),
    ensures
        list.len() <= n,
        forall|k: int, l: int|
            0 <= k < l < list.len() ==> (#[trigger] list[k]).1 != (#[trigger] list[l]).1,
        forall|k: int|
            0 <= k < list.len() ==> (#[trigger] list[k]).1 != current_model && list[k].1.len() > 0,
{
    let best = choose|best: Seq<CandidateView>| #[trigger]
        is_best(peers, current_model, n, request_class, best) && names_of(best) == list;
    assert forall|k: int| 0 <= k < list.len() implies (#[trigger] list[k]).1 != current_model
        && list[k].1.len() > 0 by {
        assert(list[k] == (best[k].id, best[k].model));
        assert(is_offered(peers, current_model, best[k]));
    }
}

/// A ranking that is shorter than asked for lists every model that is on offer.
pub proof fn short_ranking_lists_every_model(
    peers: Seq<PeerInfo>,
    current_model: Seq<char>,
    n: nat,
    request_class: ConsultationRequestClass,
    list: Seq<(Seq<u8>, Seq<char>)>,
    candidate: CandidateView,
)
    requires
        is_ranking(peers, current_model, n, request_class, list),
        list.len() < n,
        is_offered(peers, current_model, candidate),
    ensures
        exists|k: int| 0 <= k < list.len() && (#[trigger] list[k]).1 == candidate.model,
{
    let best = choose|best: Seq<CandidateView>| #[trigger]
        is_best(peers, current_model, n, request_class, best) && names_of(best) == list;
    let k = covering_entry(best, request_class, candidate);
    assert(list[k] == (best[k].id, best[k].model));
}

/// Models that reason come before all others, and where one is on offer, the first of
/// the list is one.
pub proof fn reasoning_ranks_first(
    peers: Seq<PeerInfo>,
    current_model: Seq<char>,
    n: nat,
    request_class: ConsultationRequestClass,
    list: Seq<CandidateView>,
)
    requires
        is_best(peers, current_model, n, request_class, list),
    ensures
        forall|k: int, l: int|
            0 <= k < l < list.len() && (#[trigger] list[l]).reasoning ==> (
            #[trigger] list[k]).reasoning,
        forall|candidate: CandidateView|
            n > 0 && candidate.reasoning && #[trigger] is_offered(peers, current_model, candidate)
                ==> list.len() > 0 && list[0].reasoning,
{
    assert forall|candidate: CandidateView|
        n > 0 && candidate.reasoning && #[trigger] is_offered(
            peers,
            current_model,
            candidate,
        ) implies list.len() > 0 && list[0].reasoning by {
        if is_covered(list, request_class, candidate) {
            let k = covering_entry(list, request_class, candidate);
            assert(list[k].reasoning);
            if k > 0 {
                assert(ranks_before(list[0], list[k], request_class));
            }
        } else {
            assert(ranks_before(list[0], candidate, request_class));
        }
    }
}

/// The order in which the peers are listed does not matter, nor how their models are
/// spread over the list: the same candidates make the same ranking.
pub proof fn ranking_ignores_order(
    peers: Seq<PeerInfo>,
    other_peers: Seq<PeerInfo>,
    current_model: Seq<char>,
    n: nat,
    request_class: ConsultationRequestClass,
    list: Seq<(Seq<u8>, Seq<char>)>,
    other_list: Seq<(Seq<u8>, Seq<char>)>,
)
    requires
        forall|candidate: CandidateView|
            #![trigger is_offered(peers, current_model, candidate)]
            #![trigger is_offered(other_peers, current_model, candidate)]
            is_offered(peers, current_model, candidate) <==> is_offered(
                other_peers,
                current_model,
                candidate,
            ),
        is_ranking(peers, current_model, n, request_class, list),
        is_ranking(other_peers, current_model, n, request_class, other_list),
    ensures
        list == other_list,
{
    let best = choose|best: Seq<CandidateView>| #[trigger]
        is_best(other_peers, current_model, n, request_class, best) && names_of(best)
            == other_list;
    assert(is_best(peers, current_model, n, request_class, best));
    ranking_is_unique(peers, current_model, n, request_class, list, other_list);
}

/// What each candidate of a list stands for.
pub open spec fn views_of(list: Seq<Candidate>) -> Seq<CandidateView> {
    Seq::new(list.len(), |k: int| list[k]@)
}

/// Whether no entry outranks one before it.
pub open spec fn is_in_order(
    list: Seq<CandidateView>,
    request_class: ConsultationRequestClass,
) -> bool {
    forall|k: int, l: int|
        0 <= k < l < list.len() ==> !ranks_before(
            #[trigger] list[l],
            #[trigger] list[k],
            request_class,
        )
}

/// What is on offer among the first `count` models of peer `i`, in their order.
pub open spec fn offers_of_peer(
    peers: Seq<PeerInfo>,
    current_model: Seq<char>,
    i: int,
    count: nat,
) -> Seq<CandidateView>
    decreases count,
{
    if count == 0 {
        Seq::empty()
    } else {
        let fewer = offers_of_peer(peers, current_model, i, (count - 1) as nat);
        if is_eligible(peers, current_model, i, count - 1) {
            fewer.push(candidate_at(peers, i, count - 1))
        } else {
            fewer
        }
    }
}

/// What is on offer on the first `count` peers, in their order.
pub open spec fn offers_of_peers(
    peers: Seq<PeerInfo>,
    current_model: Seq<char>,
    count: nat,
) -> Seq<CandidateView>
    decreases count,
{
    if count == 0 {
        Seq::empty()
    } else {
        offers_of_peers(peers, current_model, (count - 1) as nat) + offers_of_peer(
            peers,
            current_model,
            count - 1,
            peers[count - 1].served_model_descriptors@.len(),
        )
    }
}

/// Lists whatever is on offer, in the order of the peers and of their models.
pub fn list_offers(peers: &[PeerInfo], current_model: &str) -> (offers: Vec<Candidate>)
    ensures
        views_of(offers@) == offers_of_peers(peers@, current_model@, peers@.len()),
        forall|candidate: CandidateView| #[trigger]
            is_offered(peers@, current_model@, candidate) <==> views_of(offers@).contains(
                candidate,
            ),
{
    let mut offers: Vec<Candidate> = Vec::new();
    let mut i: usize = 0;
    while i < peers.len()
        invariant
            i <= peers@.len(),
            views_of(offers@) == offers_of_peers(peers@, current_model@, i as nat),
            forall|k: int|
                0 <= k < offers@.len() ==> is_offered(
                    peers@,
                    current_model@,
                    (#[trigger] offers@[k])@,
                ),
            forall|a: int, b: int| #[trigger]
                is_eligible(peers@, current_model@, a, b) && a < i ==> views_of(offers@).contains(
                    candidate_at(peers@, a, b),
                ),
        decreases peers.len() - i,
    {
        let mut j: usize = 0;
        let count = peers[i].served_model_descriptors.len();
        let ghost done = offers_of_peers(peers@, current_model@, i as nat);
        assert(done + Seq::<CandidateView>::empty() =~= done);
        while j < count
            invariant
                i < peers@.len(),
                count == peers@[i as int].served_model_descriptors@.len(),
                j <= count,
                done == offers_of_peers(peers@, current_model@, i as nat),
                views_of(offers@) == done + offers_of_peer(
                    peers@,
                    current_model@,
                    i as int,
                    j as nat,
                ),
                forall|k: int|
                    0 <= k < offers@.len() ==> is_offered(
                        peers@,
                        current_model@,
                        (#[trigger] offers@[k])@,
                    ),
                forall|a: int, b: int| #[trigger]
                    is_eligible(peers@, current_model@, a, b) && (a < i || (a == i && b < j))
                        ==> views_of(offers@).contains(candidate_at(peers@, a, b)),
            decreases count - j,
        {
            let ghost before = offers@;
            assert(is_served(peers@, i as int, j as int));
            if let Some(candidate) = eligible_candidate(peers, current_model, i, j) {
                offers.push(candidate);
                proof {
                    assert(views_of(offers@) =~= views_of(before).push(candidate@));
                    assert(is_offered(peers@, current_model@, candidate@));
                    assert(views_of(offers@)[before.len() as int] == candidate@);
                    assert forall|held: CandidateView| #[trigger]
                        views_of(before).contains(held) implies views_of(offers@).contains(
                        held,
                    ) by {
                        let k = choose|k: int|
                            0 <= k < before.len() && #[trigger] views_of(before)[k] == held;
                        assert(views_of(offers@)[k] == held);
                    }
                }
            }
            j += 1;
        }
        i += 1;
    }
    proof {
        assert forall|candidate: CandidateView| #[trigger]
            is_offered(peers@, current_model@, candidate) implies views_of(offers@).contains(
            candidate,
        ) by {}
        assert forall|candidate: CandidateView|
            views_of(offers@).contains(candidate) implies #[trigger] is_offered(
            peers@,
            current_model@,
            candidate,
        ) by {
            let k = choose|k: int|
                0 <= k < offers@.len() && #[trigger] views_of(offers@)[k] == candidate;
            assert(is_offered(peers@, current_model@, offers@[k]@));
        }
    }
    offers
}

/// Adds a candidate to a list in order, behind those that it does not outrank.
fn insert_in_order(
    list: &mut Vec<Candidate>,
    candidate: Candidate,
    request_class: ConsultationRequestClass,
)
    requires
        is_in_order(views_of(old(list)@), request_class),
    ensures
        is_in_order(views_of(final(list)@), request_class),
        exists|at: int|
            0 <= at <= old(list)@.len() && #[trigger] old(list)@.insert(at, candidate)
                == final(list)@,
{
    let mut at: usize = 0;
    while at < list.len() && !outranks(&candidate, &list[at], request_class)
        invariant
            at <= list@.len(),
            forall|k: int|
                0 <= k < at ==> !ranks_before(candidate@, (#[trigger] list@[k])@, request_class),
        decreases list.len() - at,
    {
        at += 1;
    }
    let ghost before = list@;
    list.insert(at, candidate);
    proof {
        assert(before.insert(at as int, candidate) == list@);
        let after = views_of(list@);
        assert forall|k: int, l: int| 0 <= k < l < after.len() implies !ranks_before(
            #[trigger] after[l],
            #[trigger] after[k],
            request_class,
        ) by {
            let old_views = views_of(before);
            if l < at {
                assert(old_views[l] == after[l] && old_views[k] == after[k]);
            } else if k > at {
                assert(old_views[l - 1] == after[l] && old_views[k - 1] == after[k]);
            } else if l == at {
                assert(before[k]@ == after[k]);
            } else if k == at {
                assert(old_views[l - 1] == after[l]);
                assert(old_views[at as int] == before[at as int]@);
                if ranks_before(after[l], candidate@, request_class) {
                    ranking_is_transitive(
                        after[l],
                        candidate@,
                        old_views[at as int],
                        request_class,
                    );
                    if l - 1 == at {
                        ranking_is_irreflexive(after[l], request_class);
                    }
                }
            } else {
                assert(old_views[l - 1] == after[l] && old_views[k] == after[k]);
            }
        }
    }
}

/// Puts candidates in order, best first.
pub fn put_in_order(offers: Vec<Candidate>, request_class: ConsultationRequestClass) -> (list: Vec<
    Candidate,
>)
    ensures
        is_in_order(views_of(list@), request_class),
        list@.to_multiset() == offers@.to_multiset(),
{
    let mut rest = offers;
    let mut list: Vec<Candidate> = Vec::new();
    broadcast use group_to_multiset_ensures;

    assert(list@.to_multiset().add(rest@.to_multiset()) =~= offers@.to_multiset());
    while rest.len() > 0
        invariant
            is_in_order(views_of(list@), request_class),
            list@.to_multiset().add(rest@.to_multiset()) == offers@.to_multiset(),
        decreases rest.len(),
    {
        let ghost rest_before = rest@;
        let ghost list_before = list@;
        if let Some(candidate) = rest.pop() {
            insert_in_order(&mut list, candidate, request_class);
            proof {
                let at = choose|at: int|
                    0 <= at <= list_before.len() && #[trigger] list_before.insert(at, candidate)
                        == list@;
                to_multiset_insert(list_before, at, candidate);
                assert(rest_before =~= rest@.push(candidate));
                to_multiset_build(rest@, candidate);
                assert(list@.to_multiset().add(rest@.to_multiset())
                    =~= list_before.to_multiset().add(rest_before.to_multiset()));
            }
        }
    }
    assert(rest@ =~= Seq::<Candidate>::empty());
    assert(list@.to_multiset().add(rest@.to_multiset()) =~= list@.to_multiset());
    list
}

/// Lists of the same candidates stand for the same.
proof fn same_candidates_same_views(left: Seq<Candidate>, right: Seq<Candidate>)
    requires
        left.to_multiset() == right.to_multiset(),
    ensures
        forall|view: CandidateView| #[trigger]
            views_of(left).contains(view) ==> views_of(right).contains(view),
{
    assert forall|view: CandidateView| #[trigger]
        views_of(left).contains(view) implies views_of(right).contains(view) by {
        let k = choose|k: int| 0 <= k < left.len() && #[trigger] views_of(left)[k] == view;
        to_multiset_contains(left, left[k]);
        to_multiset_contains(right, left[k]);
        assert(left.contains(left[k]));
        let l = choose|l: int| 0 <= l < right.len() && right[l] == left[k];
        assert(views_of(right)[l] == view);
    }
}

/// Whether a list names the model.
fn names_model(list: &Vec<(EndpointId, String)>, model: &str) -> (found: bool)
    ensures
        found <==> exists|k: int| 0 <= k < list@.len() && (#[trigger] list@[k]).1@ == model@,
{
    let mut i: usize = 0;
    while i < list.len()
        invariant
            i <= list@.len(),
            forall|k: int| 0 <= k < i ==> (#[trigger] list@[k]).1@ != model@,
        decreases list.len() - i,
    {
        if same_text(list[i].1.as_str(), model) {
            return true;
        }
        i += 1;
    }
    false
}

/// Whether `kept` is what is left of `list` when of each model only the best is kept.
spec fn is_digest(
    list: Seq<CandidateView>,
    request_class: ConsultationRequestClass,
    kept: Seq<CandidateView>,
) -> bool {
    &&& forall|k: int| 0 <= k < kept.len() ==> list.contains(#[trigger] kept[k])
    &&& forall|k: int, l: int|
        0 <= k < l < kept.len() ==> (#[trigger] kept[k]).model != (#[trigger] kept[l]).model
    &&& forall|k: int, l: int|
        0 <= k < l < kept.len() ==> ranks_before(
            #[trigger] kept[k],
            #[trigger] kept[l],
            request_class,
        )
    &&& forall|k: int| 0 <= k < list.len() ==> is_covered(kept, request_class, #[trigger] list[k])
}

proof fn digest_extended(
    list: Seq<CandidateView>,
    request_class: ConsultationRequestClass,
    at: int,
    kept: Seq<CandidateView>,
    extended: Seq<CandidateView>,
)
    requires
        0 <= at < list.len(),
        is_in_order(list, request_class),
        is_digest(list.take(at), request_class, kept),
        if exists|k: int| 0 <= k < kept.len() && (#[trigger] kept[k]).model == list[at].model {
            extended == kept
        } else {
            extended == kept.push(list[at])
        },
    ensures
        is_digest(list.take(at + 1), request_class, extended),
{
    let before = list.take(at);
    let after = list.take(at + 1);
    assert(after[at] == list[at]);
    assert forall|k: int| 0 <= k < kept.len() implies after.contains(#[trigger] kept[k])
        && !ranks_before(list[at], kept[k], request_class) by {
        let l = choose|l: int| 0 <= l < before.len() && before[l] == kept[k];
        assert(after[l] == kept[k]);
        assert(list[l] == kept[k]);
    }
    assert forall|k: int| 0 <= k < after.len() implies is_covered(
        extended,
        request_class,
        #[trigger] after[k],
    ) by {
        if k < at {
            assert(before[k] == after[k]);
            let l = covering_entry(kept, request_class, before[k]);
            assert(extended[l] == kept[l]);
            covered_by_entry(extended, request_class, after[k], l);
        } else if extended == kept {
            let l = choose|l: int|
                0 <= l < kept.len() && (#[trigger] kept[l]).model == list[at].model;
            covered_by_entry(extended, request_class, after[k], l);
        } else {
            ranking_is_irreflexive(list[at], request_class);
            covered_by_entry(extended, request_class, after[k], kept.len() as int);
        }
    }
    if extended != kept {
        assert forall|k: int| 0 <= k < kept.len() implies ranks_before(
            #[trigger] kept[k],
            list[at],
            request_class,
        ) by {
            ranking_decides(kept[k], list[at], request_class);
        }
        assert forall|k: int| 0 <= k < extended.len() implies after.contains(
            #[trigger] extended[k],
        ) by {
            if k < kept.len() {
                assert(extended[k] == kept[k]);
            }
        }
    }
}

/// Finds up to `n` peers that serve a model other than the current one, best first:
/// models that reason before those that do not, then the faster ones. Of each model
/// only the best peer is listed, for two peers with the same model would give
/// redundancy, not diversity.
pub fn find_different_model_peers_from_peers(
    peers: &[PeerInfo],
    current_model: &str,
    n: usize,
    request_class: ConsultationRequestClass,
) -> (list: Vec<(EndpointId, String)>)
    ensures
        is_ranking(peers@, current_model@, n as nat, request_class, listed(list@)),
{
    let offers = list_offers(peers, current_model);
    let candidates = put_in_order(offers, request_class);
    proof {
        same_candidates_same_views(candidates@, offers@);
        same_candidates_same_views(offers@, candidates@);
    }
    let mut list: Vec<(EndpointId, String)> = Vec::new();
    let ghost all = views_of(candidates@);
    let ghost mut kept: Seq<CandidateView> = Seq::empty();
    let mut i: usize = 0;
    while i < candidates.len()
        invariant
            i <= candidates@.len(),
            all == views_of(candidates@),
            is_in_order(all, request_class),
            is_digest(all.take(i as int), request_class, kept),
            listed(list@) == names_of(kept),
        decreases candidates.len() - i,
    {
        let candidate = &candidates[i];
        let ghost before = kept;
        let ghost list_before = list@;
        assert(all[i as int] == candidate@);
        let known = names_model(&list, candidate.model.as_str());
        proof {
            assert(listed(list@).len() == names_of(kept).len());
            assert forall|k: int| 0 <= k < list@.len() implies (#[trigger] list@[k]).1@
                == kept[k].model by {
                assert(listed(list@)[k] == names_of(kept)[k]);
            }
            if known {
                let k = choose|k: int|
                    0 <= k < list@.len() && (#[trigger] list@[k]).1@ == candidate.model@;
                assert(kept[k].model == all[i as int].model);
            } else {
                assert forall|k: int| 0 <= k < kept.len() implies (#[trigger] kept[k]).model
                    != all[i as int].model by {
                    assert(list@[k].1@ != candidate.model@);
                }
            }
        }
        if !known {
            list.push((candidate.id, candidate.model.clone()));
            proof {
                kept = kept.push(candidate@);
                assert forall|k: int| 0 <= k < list@.len() implies #[trigger] listed(list@)[k]
                    == names_of(kept)[k] by {
                    if k < list_before.len() {
                        assert(listed(list_before)[k] == names_of(before)[k]);
                    }
                }
                assert(listed(list@) =~= names_of(kept));
            }
        }
        proof {
            digest_extended(all, request_class, i as int, before, kept);
        }
        i += 1;
    }
    let ghost full = list@;
    list.truncate(n);
    proof {
        assert(all.take(all.len() as int) =~= all);
        let bound: nat = if n < kept.len() { kept.len() } else { n as nat };
        assert forall|k: int| 0 <= k < kept.len() implies is_offered(
            peers@,
            current_model@,
            #[trigger] kept[k],
        ) by {
            assert(all.contains(kept[k]));
        }
        assert forall|candidate: CandidateView| #[trigger]
            is_offered(peers@, current_model@, candidate) implies is_covered(
            kept,
            request_class,
            candidate,
        ) by {
            assert(all.contains(candidate));
            let k = choose|k: int| 0 <= k < all.len() && all[k] == candidate;
            assert(is_covered(kept, request_class, all[k]));
        }
        assert(is_best(peers@, current_model@, bound, request_class, kept));
        best_shortened(peers@, current_model@, bound, request_class, kept, n as nat);
        let length: int = if n < kept.len() { n as int } else { kept.len() as int };
        let best = kept.take(length);
        assert(names_of(best) =~= listed(list@)) by {
            assert forall|k: int| 0 <= k < best.len() implies #[trigger] names_of(best)[k]
                == listed(list@)[k] by {
                assert(listed(full)[k] == names_of(kept)[k]);
            }
        }
    }
    list
}

/// Finds up to `n` peers that serve a model other than the current one, best first.
pub fn find_different_model_peers(
    peers: &[PeerInfo],
    current_model: &str,
    n: usize,
    request_class: ConsultationRequestClass,
) -> (list: Vec<(EndpointId, String)>)
    ensures
        is_ranking(peers@, current_model@, n as nat, request_class, listed(list@)),
{
    find_different_model_peers_from_peers(peers, current_model, n, request_class)
}

/// The entries of a ranking are models on offer, each of a name of its own that is
/// neither empty nor that of the current model, on the peer that is named. There are at
/// most `n`, and less only where no other model is on offer. `origin` tells where each
/// comes from.
///
/// Earlier entries rank before later ones, and nothing on offer ranks before the entry
/// of its model, or before any entry where its model has none.
pub open spec fn ranks_the_offers(
    peers: Seq<PeerInfo>,
    current_model: Seq<char>,
    n: nat,
    request_class: ConsultationRequestClass,
    list: Seq<(EndpointId, String)>,
    origin: Seq<(int, int)>,
) -> bool {
    &&& list.len() <= n
    &&& origin.len() == list.len()
    &&& forall|p: int|
        0 <= p < list.len() ==> {
            let (i, j) = #[trigger] origin[p];
            &&& 0 <= i < peers.len()
            &&& 0 <= j < peers[i].served_model_descriptors@.len()
            &&& list[p].0.bytes@ == peers[i].id.bytes@
            &&& list[p].1@ == peers[i].served_model_descriptors@[j].identity.model_name@
            &&& list[p].1@.len() > 0
            &&& list[p].1@ != current_model
        }
    &&& forall|p: int, q: int|
        0 <= p < q < list.len() ==> (#[trigger] list[p]).1@ != (#[trigger] list[q]).1@
            && ranks_before(
            candidate_at(peers, origin[p].0, origin[p].1),
            candidate_at(peers, origin[q].0, origin[q].1),
            request_class,
        )
    &&& forall|k: int, l: int|
        0 <= k < peers.len() && 0 <= l < peers[k].served_model_descriptors@.len() ==> {
            let name = (#[trigger] peers[k].served_model_descriptors@[l]).identity.model_name@;
            name.len() > 0 && name != current_model ==> {
                let is_listed = exists|p: int|
                    0 <= p < list.len() && (#[trigger] list[p]).1@ == name;
                &&& is_listed || list.len() == n
                &&& forall|p: int|
                    0 <= p < list.len() && ((#[trigger] list[p]).1@ == name || !is_listed)
                        ==> !ranks_before(
                        candidate_at(peers, k, l),
                        candidate_at(peers, origin[p].0, origin[p].1),
                        request_class,
                    )
            }
        }
}

/// What is found ranks what is on offer.
pub proof fn found_peers_rank_the_offers(
    peers: &[PeerInfo],
    current_model: &str,
    n: usize,
    request_class: ConsultationRequestClass,
    list: Vec<(EndpointId, String)>,
) -> (origin: Seq<(int, int)>)
    requires
        call_ensures(find_different_model_peers, (peers, current_model, n, request_class), list),
    ensures
        ranks_the_offers(peers@, current_model@, n as nat, request_class, list@, origin),
{
    let all = peers@;
    let current = current_model@;
    let best = choose|best: Seq<CandidateView>| #[trigger]
        is_best(all, current, n as nat, request_class, best) && names_of(best) == listed(list@);
    assert(names_of(best).len() == listed(list@).len());
    let origin = Seq::new(
        best.len(),
        |p: int|
            choose|i: int, j: int| #[trigger]
                is_eligible(all, current, i, j) && candidate_at(all, i, j) == best[p],
    );
    assert forall|p: int| 0 <= p < list@.len() implies ({
        let (i, j) = #[trigger] origin[p];
        &&& is_eligible(all, current, i, j)
        &&& candidate_at(all, i, j) == best[p]
        &&& list@[p].0.bytes@ == best[p].id
        &&& list@[p].1@ == best[p].model
    }) by {
        assert(is_offered(all, current, best[p]));
        assert(names_of(best)[p] == listed(list@)[p]);
    }
    assert forall|p: int| 0 <= p < list@.len() implies (#[trigger] list@[p]).1@ == best[p].model by {
        assert(names_of(best)[p] == listed(list@)[p]);
    }
    assert forall|p: int, q: int| 0 <= p < q < list@.len() implies (#[trigger] list@[p]).1@ != (
    #[trigger] list@[q]).1@ && ranks_before(
        candidate_at(all, origin[p].0, origin[p].1),
        candidate_at(all, origin[q].0, origin[q].1),
        request_class,
    ) by {
        assert(candidate_at(all, origin[p].0, origin[p].1) == best[p]);
        assert(candidate_at(all, origin[q].0, origin[q].1) == best[q]);
    }
    assert forall|k: int, l: int|
        0 <= k < all.len() && 0 <= l < all[k].served_model_descriptors@.len() implies ({
        let name = (#[trigger] all[k].served_model_descriptors@[l]).identity.model_name@;
        name.len() > 0 && name != current ==> {
            let is_listed = exists|p: int|
                0 <= p < list@.len() && (#[trigger] list@[p]).1@ == name;
            &&& is_listed || list@.len() == n
            &&& forall|p: int|
                0 <= p < list@.len() && ((#[trigger] list@[p]).1@ == name || !is_listed)
                    ==> !ranks_before(
                    candidate_at(all, k, l),
                    candidate_at(all, origin[p].0, origin[p].1),
                    request_class,
                )
        }
    }) by {
        let offer = candidate_at(all, k, l);
        let name = all[k].served_model_descriptors@[l].identity.model_name@;
        if name.len() > 0 && name != current {
            assert(is_eligible(all, current, k, l));
            assert(is_offered(all, current, offer));
            if is_covered(best, request_class, offer) {
                let at = covering_entry(best, request_class, offer);
                assert(list@[at].1@ == name);
            }
            assert forall|p: int|
                0 <= p < list@.len() && ((#[trigger] list@[p]).1@ == name || !(exists|p: int|
                    0 <= p < list@.len() && (#[trigger] list@[p]).1@
                        == name)) implies !ranks_before(
                offer,
                candidate_at(all, origin[p].0, origin[p].1),
                request_class,
            ) by {
                assert(candidate_at(all, origin[p].0, origin[p].1) == best[p]);
                if ranks_before(offer, best[p], request_class) {
                    if is_covered(best, request_class, offer) {
                        let at = covering_entry(best, request_class, offer);
                        assert(list@[at].1@ == name);
                        assert(best[at].model == best[p].model);
                        assert(at == p);
                    } else {
                        ranking_is_transitive(offer, best[p], offer, request_class);
                        ranking_is_irreflexive(offer, request_class);
                    }
                }
            }
        }
    }
    origin
}

/// Both ways to ask for a ranking give the same peers and models.
pub proof fn both_searches_agree(
    peers: &[PeerInfo],
    current_model: &str,
    n: usize,
    request_class: ConsultationRequestClass,
    list: Vec<(EndpointId, String)>,
    other: Vec<(EndpointId, String)>,
)
    requires
        call_ensures(find_different_model_peers, (peers, current_model, n, request_class), list),
        call_ensures(
            find_different_model_peers_from_peers,
            (peers, current_model, n, request_class),
            other,
        ),
    ensures
        list@.len() == other@.len(),
        forall|p: int|
            0 <= p < list@.len() ==> (#[trigger] list@[p]).0.bytes@ == other@[p].0.bytes@
                && list@[p].1@ == other@[p].1@,
{
    ranking_is_unique(
        peers@,
        current_model@,
        n as nat,
        request_class,
        listed(list@),
        listed(other@),
    );
    assert(listed(list@).len() == listed(other@).len());
    assert forall|p: int| 0 <= p < list@.len() implies (#[trigger] list@[p]).0.bytes@
        == other@[p].0.bytes@ && list@[p].1@ == other@[p].1@ by {
        assert(listed(list@)[p] == listed(other@)[p]);
    }
}

/// No model is left out for a worse one. Take any model on offer that is not listed, and
/// any entry: where the two agree on whether they reason, whatever that is, the figures
/// of the first are not the better ones, and where they do not agree, the entry reasons.
/// The list is then as long as asked for.
pub proof fn no_better_model_is_left_out(
    peers: &[PeerInfo],
    current_model: &str,
    n: usize,
    request_class: ConsultationRequestClass,
    list: Vec<(EndpointId, String)>,
    k: int,
    l: int,
    p: int,
)
    requires
        call_ensures(find_different_model_peers, (peers, current_model, n, request_class), list),
        0 <= k < peers@.len(),
        0 <= l < peers@[k].served_model_descriptors@.len(),
        peers@[k].served_model_descriptors@[l].identity.model_name@.len() > 0,
        peers@[k].served_model_descriptors@[l].identity.model_name@ != current_model@,
        forall|q: int|
            0 <= q < list@.len() ==> (#[trigger] list@[q]).1@
                != peers@[k].served_model_descriptors@[l].identity.model_name@,
    ensures
        list@.len() == n,
        0 <= p < list@.len() ==> exists|i: int, j: int|
            0 <= i < peers@.len() && 0 <= j < peers@[i].served_model_descriptors@.len() && {
                let entry = #[trigger] peers@[i].served_model_descriptors@[j];
                let offer = peers@[k].served_model_descriptors@[l];
                let entry_reasons = entry.capabilities.reasoning != CapabilityLevel::Unsupported;
                let offer_reasons = offer.capabilities.reasoning != CapabilityLevel::Unsupported;
                &&& list@[p].0.bytes@ == peers@[i].id.bytes@
                &&& list@[p].1@ == entry.identity.model_name@
                &&& offer_reasons ==> entry_reasons
                &&& offer_reasons == entry_reasons ==> !key_precedes(
                    performance_key(
                        peers@[k].performance(offer.identity.model_name@),
                        request_class,
                    ),
                    performance_key(
                        peers@[i].performance(entry.identity.model_name@),
                        request_class,
                    ),
                )
            },
{
    let origin = found_peers_rank_the_offers(peers, current_model, n, request_class, list);
    let offer = peers@[k].served_model_descriptors@[l];
    if 0 <= p < list@.len() {
        let (i, j) = origin[p];
        let entry = peers@[i].served_model_descriptors@[j];
        candidate_is_what_the_peer_tells(peers@, k, l);
        candidate_is_what_the_peer_tells(peers@, i, j);
        rank_goes_by_reasoning_then_performance(
            candidate_at(peers@, k, l),
            candidate_at(peers@, i, j),
            request_class,
        );
        assert(list@[p].1@ == entry.identity.model_name@);
    }
}

/// The best comes first. Of any two entries, the earlier reasons where the later does,
/// and where they agree on that, the later does not have the better figures.
pub proof fn better_models_come_first(
    peers: &[PeerInfo],
    current_model: &str,
    n: usize,
    request_class: ConsultationRequestClass,
    list: Vec<(EndpointId, String)>,
    p: int,
    q: int,
)
    requires
        call_ensures(find_different_model_peers, (peers, current_model, n, request_class), list),
        0 <= p < q < list@.len(),
    ensures
        list@[p].1@ != list@[q].1@,
        exists|i: int, j: int, k: int, l: int|
            0 <= i < peers@.len() && 0 <= j < peers@[i].served_model_descriptors@.len() && 0 <= k
                < peers@.len() && 0 <= l < peers@[k].served_model_descriptors@.len() && {
                let earlier = #[trigger] peers@[i].served_model_descriptors@[j];
                let later = #[trigger] peers@[k].served_model_descriptors@[l];
                let earlier_reasons = earlier.capabilities.reasoning
                    != CapabilityLevel::Unsupported;
                let later_reasons = later.capabilities.reasoning != CapabilityLevel::Unsupported;
                let earlier_figures = peers@[i].performance(earlier.identity.model_name@);
                let later_figures = peers@[k].performance(later.identity.model_name@);
                &&& list@[p].0.bytes@ == peers@[i].id.bytes@
                &&& list@[p].1@ == earlier.identity.model_name@
                &&& list@[q].0.bytes@ == peers@[k].id.bytes@
                &&& list@[q].1@ == later.identity.model_name@
                &&& later_reasons ==> earlier_reasons
                &&& later_reasons == earlier_reasons ==> !key_precedes(
                    performance_key(later_figures, request_class),
                    performance_key(earlier_figures, request_class),
                )
                &&& later_reasons == earlier_reasons && later_figures == earlier_figures
                    ==> bytes_precede(encode_utf8(list@[p].1@), encode_utf8(list@[q].1@))
            },
{
    let origin = found_peers_rank_the_offers(peers, current_model, n, request_class, list);
    let (i, j) = origin[p];
    let (k, l) = origin[q];
    assert(ranks_before(candidate_at(peers@, i, j), candidate_at(peers@, k, l), request_class));
    candidate_is_what_the_peer_tells(peers@, i, j);
    candidate_is_what_the_peer_tells(peers@, k, l);
    rank_goes_by_reasoning_then_performance(
        candidate_at(peers@, i, j),
        candidate_at(peers@, k, l),
        request_class,
    );
    rank_goes_by_reasoning_then_performance(
        candidate_at(peers@, k, l),
        candidate_at(peers@, i, j),
        request_class,
    );
    bytes_are_ordered(encode_utf8(list@[p].1@), encode_utf8(list@[q].1@));
    if encode_utf8(list@[p].1@) == encode_utf8(list@[q].1@) {
        encoding_is_injective(list@[p].1@, list@[q].1@);
    }
    if ranks_before(candidate_at(peers@, k, l), candidate_at(peers@, i, j), request_class) {
        ranking_is_transitive(
            candidate_at(peers@, i, j),
            candidate_at(peers@, k, l),
            candidate_at(peers@, i, j),
            request_class,
        );
        ranking_is_irreflexive(candidate_at(peers@, i, j), request_class);
    }
    let earlier = peers@[i].served_model_descriptors@[j];
    let later = peers@[k].served_model_descriptors@[l];
    assert(list@[p].1@ == earlier.identity.model_name@);
    assert(list@[q].1@ == later.identity.model_name@);
}

/// Of the peers that serve a listed model, the best is listed: none has an offer of that
/// model that reasons where the entry does not, nor one that agrees on that and has the
/// better figures, or the same and an id that comes first.
pub proof fn best_peer_of_a_model_is_listed(
    peers: &[PeerInfo],
    current_model: &str,
    n: usize,
    request_class: ConsultationRequestClass,
    list: Vec<(EndpointId, String)>,
    p: int,
    k: int,
    l: int,
)
    requires
        call_ensures(find_different_model_peers, (peers, current_model, n, request_class), list),
        0 <= p < list@.len(),
        0 <= k < peers@.len(),
        0 <= l < peers@[k].served_model_descriptors@.len(),
        peers@[k].served_model_descriptors@[l].identity.model_name@ == list@[p].1@,
    ensures
        list@[p].1@.len() > 0,
        list@[p].1@ != current_model@,
        exists|i: int, j: int|
            0 <= i < peers@.len() && 0 <= j < peers@[i].served_model_descriptors@.len() && {
                let entry = #[trigger] peers@[i].served_model_descriptors@[j];
                let other = peers@[k].served_model_descriptors@[l];
                let entry_reasons = entry.capabilities.reasoning != CapabilityLevel::Unsupported;
                let other_reasons = other.capabilities.reasoning != CapabilityLevel::Unsupported;
                let entry_figures = peers@[i].performance(list@[p].1@);
                let other_figures = peers@[k].performance(list@[p].1@);
                &&& list@[p].0.bytes@ == peers@[i].id.bytes@
                &&& list@[p].1@ == entry.identity.model_name@
                &&& other_reasons ==> entry_reasons
                &&& other_reasons == entry_reasons ==> !key_precedes(
                    performance_key(other_figures, request_class),
                    performance_key(entry_figures, request_class),
                )
                &&& other_reasons == entry_reasons && other_figures == entry_figures
                    ==> !bytes_precede(peers@[k].id.bytes@, list@[p].0.bytes@)
            },
{
    let origin = found_peers_rank_the_offers(peers, current_model, n, request_class, list);
    let (i, j) = origin[p];
    candidate_is_what_the_peer_tells(peers@, i, j);
    candidate_is_what_the_peer_tells(peers@, k, l);
    rank_goes_by_reasoning_then_performance(
        candidate_at(peers@, k, l),
        candidate_at(peers@, i, j),
        request_class,
    );
    let entry = peers@[i].served_model_descriptors@[j];
    let other = peers@[k].served_model_descriptors@[l];
    assert(list@[p].1@ == entry.identity.model_name@);
    assert(other.identity.model_name@ == list@[p].1@);
}

/// Every model on offer is listed where there is room for it.
pub proof fn models_are_listed_while_there_is_room(
    peers: &[PeerInfo],
    current_model: &str,
    n: usize,
    request_class: ConsultationRequestClass,
    list: Vec<(EndpointId, String)>,
    k: int,
    l: int,
)
    requires
        call_ensures(find_different_model_peers, (peers, current_model, n, request_class), list),
        list@.len() < n,
        0 <= k < peers@.len(),
        0 <= l < peers@[k].served_model_descriptors@.len(),
        peers@[k].served_model_descriptors@[l].identity.model_name@.len() > 0,
        peers@[k].served_model_descriptors@[l].identity.model_name@ != current_model@,
    ensures
        exists|p: int|
            0 <= p < list@.len() && (#[trigger] list@[p]).1@
                == peers@[k].served_model_descriptors@[l].identity.model_name@,
{
    let origin = found_peers_rank_the_offers(peers, current_model, n, request_class, list);
}

/// No more models are listed than asked for, and each entry names a peer and a model
/// that it serves, which has a name, and one other than that of the current model.
pub proof fn listed_models_are_on_offer(
    peers: &[PeerInfo],
    current_model: &str,
    n: usize,
    request_class: ConsultationRequestClass,
    list: Vec<(EndpointId, String)>,
    p: int,
)
    requires
        call_ensures(find_different_model_peers, (peers, current_model, n, request_class), list),
    ensures
        list@.len() <= n,
        0 <= p < list@.len() ==> list@[p].1@.len() > 0 && list@[p].1@ != current_model@ && exists|
            i: int,
            j: int,
        |
            0 <= i < peers@.len() && 0 <= j < peers@[i].served_model_descriptors@.len()
                && list@[p].0.bytes@ == peers@[i].id.bytes@ && list@[p].1@ == (
            #[trigger] peers@[i].served_model_descriptors@[j]).identity.model_name@,
{
    let origin = found_peers_rank_the_offers(peers, current_model, n, request_class, list);
    if 0 <= p < list@.len() {
        let (i, j) = origin[p];
        assert(list@[p].1@ == peers@[i].served_model_descriptors@[j].identity.model_name@);
    }
}

/// Whatever is on offer is listed, and nothing else: each offer comes from a model that
/// has a name, and one other than that of the current model, and holds what its peer
/// tells.
pub proof fn offers_are_the_named_models(
    peers: &[PeerInfo],
    current_model: &str,
    offers: Vec<Candidate>,
    i: int,
    j: int,
    p: int,
)
    requires
        call_ensures(list_offers, (peers, current_model), offers),
        0 <= i < peers@.len(),
        0 <= j < peers@[i].served_model_descriptors@.len(),
    ensures
        ({
            let name = peers@[i].served_model_descriptors@[j].identity.model_name@;
            name.len() > 0 && name != current_model@ ==> exists|q: int|
                0 <= q < offers@.len() && (#[trigger] offers@[q]).id.bytes@ == peers@[i].id.bytes@
                    && offers@[q].model@ == name && offers@[q].performance
                    == peers@[i].performance(name) && (offers@[q].reasoning
                    <==> peers@[i].served_model_descriptors@[j].capabilities.reasoning
                    != CapabilityLevel::Unsupported)
        }),
        0 <= p < offers@.len() ==> offers@[p].model@.len() > 0 && offers@[p].model@
            != current_model@ && exists|k: int, l: int|
            0 <= k < peers@.len() && 0 <= l < peers@[k].served_model_descriptors@.len() && {
                let descriptor = #[trigger] peers@[k].served_model_descriptors@[l];
                &&& offers@[p].id.bytes@ == peers@[k].id.bytes@
                &&& offers@[p].model@ == descriptor.identity.model_name@
                &&& offers@[p].reasoning <==> descriptor.capabilities.reasoning
                    != CapabilityLevel::Unsupported
                &&& offers@[p].performance == peers@[k].performance(offers@[p].model@)
            },
{
    let views = views_of(offers@);
    let candidate = candidate_at(peers@, i, j);
    if is_eligible(peers@, current_model@, i, j) {
        assert(is_offered(peers@, current_model@, candidate));
        let q = choose|q: int| 0 <= q < views.len() && views[q] == candidate;
        assert(offers@[q]@ == candidate);
    }
    if 0 <= p < offers@.len() {
        assert(views[p] == offers@[p]@);
        assert(views.contains(offers@[p]@));
        assert(is_offered(peers@, current_model@, offers@[p]@));
        let (k, l) = choose|k: int, l: int| #[trigger]
            is_eligible(peers@, current_model@, k, l) && candidate_at(peers@, k, l)
                == offers@[p]@;
        let descriptor = peers@[k].served_model_descriptors@[l];
        assert(offers@[p].model@ == descriptor.identity.model_name@);
    }
}

/// Once in order, no candidate outranks one before it, and the candidates are the same.
pub proof fn order_is_by_rank(
    offers: Vec<Candidate>,
    request_class: ConsultationRequestClass,
    list: Vec<Candidate>,
    k: int,
    l: int,
    first: bool,
)
    requires
        call_ensures(put_in_order, (offers, request_class), list),
        0 <= k < l < list@.len(),
        call_ensures(outranks, (&list@[l], &list@[k], request_class), first),
    ensures
        !first,
        list@.to_multiset() == offers@.to_multiset(),
{
    let views = views_of(list@);
    assert(views[l] == list@[l]@ && views[k] == list@[k]@);
}

} // verus!
