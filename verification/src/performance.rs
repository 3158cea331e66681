//! How two peers compare by the performance they advertise.

use std::cmp::Ordering;

use vstd::prelude::*;

verus! {

/// What is known about how fast a peer serves one model. A figure that the peer
/// has not advertised is `None`.
#[derive(Debug, Clone, Copy, Default, PartialEq, Eq)]
pub struct ConsultationPerformanceHint {
    /// Average time to the first token, in milliseconds.
    pub avg_ttft_ms: Option<u32>,
    /// Average throughput, in thousandths of a token per second.
    pub avg_tokens_per_second_milli: Option<u32>,
    /// Round-trip time to the peer, in milliseconds.
    pub rtt_ms: Option<u32>,
}

/// What a consultation cares about most.
#[derive(Debug, Clone, Copy, PartialEq, Eq)]
pub enum ConsultationRequestClass {
    /// A quick first token matters most.
    Interactive,
    /// Sustained throughput matters most.
    Throughput,
}

/// Where a figure stands when smaller is better: an unknown one comes last.
pub open spec fn ascending_key(figure: Option<u32>) -> int {
    match figure {
        Some(value) => value as int,
        None => u32::MAX + 1,
    }
}

/// Where a figure stands when larger is better: an unknown one comes last.
pub open spec fn descending_key(figure: Option<u32>) -> int {
    match figure {
        Some(value) => u32::MAX - value,
        None => u32::MAX + 1,
    }
}

/// The figures that decide between two peers, the weightiest first; each is
/// mapped so that the smaller number is the better one.
pub open spec fn performance_key(
    hint: ConsultationPerformanceHint,
    request_class: ConsultationRequestClass,
) -> (int, int, int) {
    let ttft = ascending_key(hint.avg_ttft_ms);
    let throughput = descending_key(hint.avg_tokens_per_second_milli);
    let rtt = ascending_key(hint.rtt_ms);
    match request_class {
        ConsultationRequestClass::Interactive => (ttft, throughput, rtt),
        ConsultationRequestClass::Throughput => (throughput, ttft, rtt),
    }
}

/// The lexicographic order of two keys.
pub open spec fn key_precedes(left: (int, int, int), right: (int, int, int)) -> bool {
    ||| left.0 < right.0
    ||| left.0 == right.0 && left.1 < right.1
    ||| left.0 == right.0 && left.1 == right.1 && left.2 < right.2
}

/// The outcome of a comparison, from whether the left comes first and whether the
/// right does.
pub open spec fn outcome(left_first: bool, right_first: bool) -> Ordering {
    if left_first {
        Ordering::Less
    } else if right_first {
        Ordering::Greater
    } else {
        Ordering::Equal
    }
}

/// Compares two figures of which the smaller is better.
pub fn compare_optional_ascending(left: Option<u32>, right: Option<u32>) -> (order: Ordering)
    ensures
        order == outcome(
            ascending_key(left) < ascending_key(right),
            ascending_key(right) < ascending_key(left),
        ),
{
    match (left, right) {
        (Some(left), Some(right)) => left.cmp(&right),
        (Some(_), None) => Ordering::Less,
        (None, Some(_)) => Ordering::Greater,
        (None, None) => Ordering::Equal,
    }
}

/// Compares two figures of which the larger is better.
pub fn compare_optional_descending(left: Option<u32>, right: Option<u32>) -> (order: Ordering)
    ensures
        order == outcome(
            descending_key(left) < descending_key(right),
            descending_key(right) < descending_key(left),
        ),
{
    match (left, right) {
        (Some(left), Some(right)) => right.cmp(&left),
        (Some(_), None) => Ordering::Less,
        (None, Some(_)) => Ordering::Greater,
        (None, None) => Ordering::Equal,
    }
}

/// Compares two peers by performance: `Less` means that the left one is to be
/// preferred for requests of this class.
pub fn compare_consultation_performance(
    left: ConsultationPerformanceHint,
    right: ConsultationPerformanceHint,
    request_class: ConsultationRequestClass,
) -> (order: Ordering)
    ensures
        order == outcome(
            key_precedes(
                performance_key(left, request_class),
                performance_key(right, request_class),
            ),
            key_precedes(
                performance_key(right, request_class),
                performance_key(left, request_class),
            ),
        ),
{
    let ttft = compare_optional_ascending(left.avg_ttft_ms, right.avg_ttft_ms);
    let throughput = compare_optional_descending(
        left.avg_tokens_per_second_milli,
        right.avg_tokens_per_second_milli,
    );
    let rtt = compare_optional_ascending(left.rtt_ms, right.rtt_ms);
    let (first, second) = match request_class {
        ConsultationRequestClass::Interactive => (ttft, throughput),
        ConsultationRequestClass::Throughput => (throughput, ttft),
    };
    match first {
        Ordering::Equal => match second {
            Ordering::Equal => rtt,
            decided => decided,
        },
        decided => decided,
    }
}

/// The order by performance is total up to equality: of two hints, one comes first
/// unless they hold the same figures.
pub proof fn performance_decides(
    left: ConsultationPerformanceHint,
    right: ConsultationPerformanceHint,
    request_class: ConsultationRequestClass,
)
    ensures
        key_precedes(performance_key(left, request_class), performance_key(right, request_class))
            || key_precedes(
            performance_key(right, request_class),
            performance_key(left, request_class),
        ) || left == right,
{
}

/// Where neither average tells two peers apart, as where none is known, the lower
/// round-trip time decides, for requests of either class.
pub proof fn rtt_decides_last(
    left: ConsultationPerformanceHint,
    right: ConsultationPerformanceHint,
    request_class: ConsultationRequestClass,
)
    requires
        left.avg_ttft_ms == right.avg_ttft_ms,
        left.avg_tokens_per_second_milli == right.avg_tokens_per_second_milli,
    ensures
        key_precedes(performance_key(left, request_class), performance_key(right, request_class))
            <==> ascending_key(left.rtt_ms) < ascending_key(right.rtt_ms),
{
}

/// For an interactive request the quicker first token decides, whatever the
/// throughput and the round-trip time.
pub proof fn first_token_decides_interactive(
    left: ConsultationPerformanceHint,
    right: ConsultationPerformanceHint,
)
    requires
        ascending_key(left.avg_ttft_ms) < ascending_key(right.avg_ttft_ms),
    ensures
        key_precedes(
            performance_key(left, ConsultationRequestClass::Interactive),
            performance_key(right, ConsultationRequestClass::Interactive),
        ),
{
}

/// For a request of the throughput class the higher throughput decides, whatever the
/// time to the first token and the round-trip time.
pub proof fn throughput_decides_throughput(
    left: ConsultationPerformanceHint,
    right: ConsultationPerformanceHint,
)
    requires
        descending_key(left.avg_tokens_per_second_milli) < descending_key(
            right.avg_tokens_per_second_milli,
        ),
    ensures
        key_precedes(
            performance_key(left, ConsultationRequestClass::Throughput),
            performance_key(right, ConsultationRequestClass::Throughput),
        ),
{
}

/// A known figure beats an unknown one, however bad it is.
pub proof fn known_beats_unknown(value: u32)
    ensures
        ascending_key(Some(value)) < ascending_key(None),
        descending_key(Some(value)) < descending_key(None),
{
}

/// Of two known figures of which the smaller is better, the smaller comes first; a known
/// one comes before an unknown one, and figures that are alike tie.
pub proof fn smaller_figure_comes_first(left: Option<u32>, right: Option<u32>, order: Ordering)
    requires
        call_ensures(compare_optional_ascending, (left, right), order),
    ensures
        order == Ordering::Equal <==> left == right,
        order == Ordering::Less <==> left is Some && (right is None || left->0 < right->0),
        order == Ordering::Greater <==> right is Some && (left is None || right->0 < left->0),
        ascending_key(left) < ascending_key(right) <==> order == Ordering::Less,
{
}

/// Of two known figures of which the larger is better, the larger comes first; a known
/// one comes before an unknown one, and figures that are alike tie.
pub proof fn larger_figure_comes_first(left: Option<u32>, right: Option<u32>, order: Ordering)
    requires
        call_ensures(compare_optional_descending, (left, right), order),
    ensures
        order == Ordering::Equal <==> left == right,
        order == Ordering::Less <==> left is Some && (right is None || left->0 > right->0),
        order == Ordering::Greater <==> right is Some && (left is None || right->0 > left->0),
        descending_key(left) < descending_key(right) <==> order == Ordering::Less,
{
}

/// For an interactive request the lower time to the first token decides, then the
/// higher throughput, then the lower round-trip time; for one of the throughput class the
/// first two change places. A known figure beats an unknown one throughout, and hints
/// tie only where they are the same.
pub proof fn better_figures_come_first(
    left: ConsultationPerformanceHint,
    right: ConsultationPerformanceHint,
    request_class: ConsultationRequestClass,
)
    ensures
        ({
            let lower = |a: Option<u32>, b: Option<u32>| a is Some && (b is None || a->0 < b->0);
            let higher = |a: Option<u32>, b: Option<u32>| a is Some && (b is None || a->0 > b->0);
            let ttft_first = lower(left.avg_ttft_ms, right.avg_ttft_ms);
            let ttft_same = left.avg_ttft_ms == right.avg_ttft_ms;
            let tps_first = higher(
                left.avg_tokens_per_second_milli,
                right.avg_tokens_per_second_milli,
            );
            let tps_same = left.avg_tokens_per_second_milli == right.avg_tokens_per_second_milli;
            let rtt_first = lower(left.rtt_ms, right.rtt_ms);
            key_precedes(
                performance_key(left, request_class),
                performance_key(right, request_class),
            ) <==> match request_class {
                ConsultationRequestClass::Interactive => ttft_first || (ttft_same && tps_first) || (
                ttft_same && tps_same && rtt_first),
                ConsultationRequestClass::Throughput => tps_first || (tps_same && ttft_first) || (
                tps_same && ttft_same && rtt_first),
            }
        }),
        performance_key(left, request_class) == performance_key(right, request_class) <==> left
            == right,
{
}

/// A comparison prefers the peer with the better figures, either way round, and ties
/// exactly where the figures are the same.
pub proof fn comparison_prefers_better_figures(
    left: ConsultationPerformanceHint,
    right: ConsultationPerformanceHint,
    request_class: ConsultationRequestClass,
    order: Ordering,
)
    requires
        call_ensures(compare_consultation_performance, (left, right, request_class), order),
    ensures
        order == Ordering::Less <==> key_precedes(
            performance_key(left, request_class),
            performance_key(right, request_class),
        ),
        order == Ordering::Greater <==> key_precedes(
            performance_key(right, request_class),
            performance_key(left, request_class),
        ),
        order == Ordering::Equal <==> left == right,
        request_class == ConsultationRequestClass::Interactive && left.avg_ttft_ms is Some
            && right.avg_ttft_ms is Some && left.avg_ttft_ms->0 < right.avg_ttft_ms->0 ==> order
            == Ordering::Less,
        request_class == ConsultationRequestClass::Throughput
            && left.avg_tokens_per_second_milli is Some
            && right.avg_tokens_per_second_milli is Some && left.avg_tokens_per_second_milli->0
            > right.avg_tokens_per_second_milli->0 ==> order == Ordering::Less,
{
    performance_decides(left, right, request_class);
}

} // verus!
