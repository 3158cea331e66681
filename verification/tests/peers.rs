use consult::lexicographic::{compare_bytes, compare_text, same_text};
use consult::peers::{
    model_performance_hint, CapabilityLevel, EndpointId, ModelCapabilities, ModelRuntimeDescriptor,
    PeerInfo, ServedModelDescriptor, ServedModelIdentity,
};
use consult::performance::{
    compare_consultation_performance, compare_optional_ascending, compare_optional_descending,
    ConsultationPerformanceHint, ConsultationRequestClass,
};
use consult::ranking::{find_different_model_peers, find_different_model_peers_from_peers};
use consult::selection::{find_audio_peer, find_vision_peer, select_capability_peer_from_peers};
use std::cmp::Ordering;

fn test_endpoint_id(seed: u8) -> EndpointId {
    let id = iroh::EndpointId::from(iroh::SecretKey::from_bytes(&[seed; 32]).public());
    EndpointId {
        bytes: *id.as_bytes(),
    }
}

fn test_peer(
    seed: u8,
    rtt_ms: Option<u32>,
    descriptors: Vec<ServedModelDescriptor>,
    runtimes: Vec<ModelRuntimeDescriptor>,
) -> PeerInfo {
    PeerInfo {
        id: test_endpoint_id(seed),
        rtt_ms,
        served_model_descriptors: descriptors,
        served_model_runtime: runtimes,
    }
}

fn level(supported: bool) -> CapabilityLevel {
    if supported {
        CapabilityLevel::Supported
    } else {
        CapabilityLevel::Unsupported
    }
}

fn descriptor(
    model_name: &str,
    vision: bool,
    audio: bool,
    reasoning: CapabilityLevel,
) -> ServedModelDescriptor {
    ServedModelDescriptor {
        identity: ServedModelIdentity {
            model_name: model_name.to_string(),
        },
        capabilities: ModelCapabilities {
            vision: level(vision),
            audio: level(audio),
            reasoning,
        },
    }
}

fn runtime(
    model_name: &str,
    tps_milli: Option<u32>,
    ttft_ms: Option<u32>,
) -> ModelRuntimeDescriptor {
    ModelRuntimeDescriptor {
        model_name: model_name.to_string(),
        avg_tokens_per_second_milli: tps_milli,
        avg_ttft_ms: ttft_ms,
    }
}

#[test]
fn select_capability_peer_prefers_lower_ttft_over_rtt() {
    let fast_rtt_slow_model = test_peer(
        1,
        Some(20),
        vec![descriptor(
            "vision-slow",
            true,
            false,
            CapabilityLevel::Unsupported,
        )],
        vec![runtime("vision-slow", Some(18_000), Some(900))],
    );
    let slower_rtt_fast_model = test_peer(
        2,
        Some(80),
        vec![descriptor(
            "vision-fast",
            true,
            false,
            CapabilityLevel::Unsupported,
        )],
        vec![runtime("vision-fast", Some(12_000), Some(200))],
    );

    let selected = select_capability_peer_from_peers(
        &[fast_rtt_slow_model, slower_rtt_fast_model],
        "excluded",
        ConsultationRequestClass::Interactive,
        |candidate: &ServedModelDescriptor| candidate.capabilities.supports_vision_runtime(),
    );

    assert_eq!(
        selected.map(|(_, model)| model),
        Some("vision-fast".to_string())
    );
}

#[test]
fn select_capability_peer_falls_back_to_rtt_without_perf_data() {
    let first = test_peer(
        1,
        Some(25),
        vec![descriptor(
            "audio-a",
            false,
            true,
            CapabilityLevel::Unsupported,
        )],
        vec![runtime("audio-a", None, None)],
    );
    let second = test_peer(
        2,
        Some(90),
        vec![descriptor(
            "audio-b",
            false,
            true,
            CapabilityLevel::Unsupported,
        )],
        vec![runtime("audio-b", None, None)],
    );

    let selected = select_capability_peer_from_peers(
        &[first, second],
        "excluded",
        ConsultationRequestClass::Interactive,
        |candidate: &ServedModelDescriptor| candidate.capabilities.supports_audio_runtime(),
    );

    assert_eq!(
        selected.map(|(_, model)| model),
        Some("audio-a".to_string())
    );
}

fn reasoning_peers() -> Vec<PeerInfo> {
    let non_reasoning = test_peer(
        1,
        Some(10),
        vec![descriptor(
            "fast-chat",
            false,
            false,
            CapabilityLevel::Unsupported,
        )],
        vec![runtime("fast-chat", Some(25_000), Some(150))],
    );
    let reasoning_slow_rtt_fast_ttft = test_peer(
        2,
        Some(120),
        vec![descriptor(
            "reasoner-a",
            false,
            false,
            CapabilityLevel::Supported,
        )],
        vec![runtime("reasoner-a", Some(10_000), Some(220))],
    );
    let reasoning_fast_rtt_slow_ttft = test_peer(
        3,
        Some(20),
        vec![descriptor(
            "reasoner-b",
            false,
            false,
            CapabilityLevel::Supported,
        )],
        vec![runtime("reasoner-b", Some(18_000), Some(800))],
    );
    vec![
        non_reasoning,
        reasoning_fast_rtt_slow_ttft,
        reasoning_slow_rtt_fast_ttft,
    ]
}

#[test]
fn find_different_model_peers_prefers_reasoning_then_perf() {
    let selected = find_different_model_peers_from_peers(
        &reasoning_peers(),
        "current-model",
        3,
        ConsultationRequestClass::Interactive,
    );

    assert_eq!(
        selected,
        vec![
            (test_endpoint_id(2), "reasoner-a".to_string()),
            (test_endpoint_id(3), "reasoner-b".to_string()),
            (test_endpoint_id(1), "fast-chat".to_string()),
        ]
    );
}

#[test]
fn find_different_model_peers_deduplicates_by_model_name() {
    let better = test_peer(
        1,
        Some(60),
        vec![descriptor(
            "shared-model",
            false,
            false,
            CapabilityLevel::Supported,
        )],
        vec![runtime("shared-model", Some(18_000), Some(180))],
    );
    let worse = test_peer(
        2,
        Some(20),
        vec![descriptor(
            "shared-model",
            false,
            false,
            CapabilityLevel::Supported,
        )],
        vec![runtime("shared-model", Some(5_000), Some(900))],
    );

    let selected = find_different_model_peers_from_peers(
        &[worse, better],
        "current-model",
        2,
        ConsultationRequestClass::Interactive,
    );

    assert_eq!(
        selected,
        vec![(test_endpoint_id(1), "shared-model".to_string())]
    );
}

#[test]
fn select_capability_peer_prefers_higher_tps_for_throughput_class() {
    let fast_ttft = test_peer(
        1,
        Some(20),
        vec![descriptor(
            "vision-fast-start",
            true,
            false,
            CapabilityLevel::Unsupported,
        )],
        vec![runtime("vision-fast-start", Some(9_000), Some(150))],
    );
    let high_tps = test_peer(
        2,
        Some(40),
        vec![descriptor(
            "vision-high-tps",
            true,
            false,
            CapabilityLevel::Unsupported,
        )],
        vec![runtime("vision-high-tps", Some(24_000), Some(400))],
    );

    let selected = select_capability_peer_from_peers(
        &[fast_ttft, high_tps],
        "excluded",
        ConsultationRequestClass::Throughput,
        |candidate: &ServedModelDescriptor| candidate.capabilities.supports_vision_runtime(),
    );

    assert_eq!(
        selected.map(|(_, model)| model),
        Some("vision-high-tps".to_string())
    );
}

fn hint(ttft: Option<u32>, tps: Option<u32>, rtt: Option<u32>) -> ConsultationPerformanceHint {
    ConsultationPerformanceHint {
        avg_ttft_ms: ttft,
        avg_tokens_per_second_milli: tps,
        rtt_ms: rtt,
    }
}

#[test]
fn figures_compare_with_unknown_last() {
    assert_eq!(compare_optional_ascending(Some(1), Some(2)), Ordering::Less);
    assert_eq!(compare_optional_ascending(Some(2), Some(2)), Ordering::Equal);
    assert_eq!(
        compare_optional_ascending(Some(u32::MAX), None),
        Ordering::Less
    );
    assert_eq!(compare_optional_ascending(None, Some(0)), Ordering::Greater);
    assert_eq!(compare_optional_ascending(None, None), Ordering::Equal);
    assert_eq!(compare_optional_descending(Some(2), Some(1)), Ordering::Less);
    assert_eq!(
        compare_optional_descending(Some(1), Some(2)),
        Ordering::Greater
    );
    assert_eq!(compare_optional_descending(Some(0), None), Ordering::Less);
    assert_eq!(compare_optional_descending(None, Some(0)), Ordering::Greater);
    assert_eq!(compare_optional_descending(None, None), Ordering::Equal);
}

#[test]
fn classes_weigh_figures_differently() {
    let quick = hint(Some(100), Some(5_000), Some(50));
    let strong = hint(Some(300), Some(20_000), Some(10));
    let interactive = ConsultationRequestClass::Interactive;
    let throughput = ConsultationRequestClass::Throughput;
    assert_eq!(
        compare_consultation_performance(quick, strong, interactive),
        Ordering::Less
    );
    assert_eq!(
        compare_consultation_performance(quick, strong, throughput),
        Ordering::Greater
    );
    assert_eq!(
        compare_consultation_performance(quick, quick, throughput),
        Ordering::Equal
    );
    let near = hint(Some(100), Some(5_000), Some(10));
    assert_eq!(
        compare_consultation_performance(near, quick, interactive),
        Ordering::Less
    );
    assert_eq!(
        compare_consultation_performance(near, quick, throughput),
        Ordering::Less
    );
    let stronger = hint(Some(100), Some(6_000), Some(900));
    assert_eq!(
        compare_consultation_performance(stronger, near, interactive),
        Ordering::Less
    );
}

#[test]
fn hint_takes_the_first_record_of_the_model() {
    let peer = test_peer(
        1,
        Some(33),
        vec![],
        vec![
            runtime("other", Some(1), Some(2)),
            runtime("wanted", Some(3), None),
            runtime("wanted", Some(5), Some(6)),
        ],
    );
    assert_eq!(
        model_performance_hint(&peer, "wanted"),
        hint(None, Some(3), Some(33))
    );
    assert_eq!(
        model_performance_hint(&peer, "absent"),
        hint(None, None, Some(33))
    );
}

#[test]
fn excluded_and_nameless_models_are_never_selected() {
    let peers = vec![test_peer(
        1,
        Some(1),
        vec![
            descriptor("", true, true, CapabilityLevel::Supported),
            descriptor("mine", true, true, CapabilityLevel::Supported),
        ],
        vec![],
    )];
    let class = ConsultationRequestClass::Interactive;
    assert_eq!(find_vision_peer(&peers, "mine", class), None);
    assert_eq!(find_audio_peer(&peers, "mine", class), None);
    assert_eq!(find_different_model_peers(&peers, "mine", 5, class), vec![]);
    assert_eq!(
        find_vision_peer(&peers, "other", class),
        Some((test_endpoint_id(1), "mine".to_string()))
    );
}

#[test]
fn capabilities_are_told_apart() {
    let peers = vec![
        test_peer(
            1,
            Some(1),
            vec![descriptor("eye", true, false, CapabilityLevel::Unsupported)],
            vec![],
        ),
        test_peer(
            2,
            Some(1),
            vec![descriptor("ear", false, true, CapabilityLevel::Unsupported)],
            vec![],
        ),
    ];
    let class = ConsultationRequestClass::Throughput;
    assert_eq!(
        find_vision_peer(&peers, "x", class),
        Some((test_endpoint_id(1), "eye".to_string()))
    );
    assert_eq!(
        find_audio_peer(&peers, "x", class),
        Some((test_endpoint_id(2), "ear".to_string()))
    );
    assert_eq!(find_vision_peer(&[], "x", class), None);
    assert_eq!(find_vision_peer(&peers, "eye", class), None);
}

#[test]
fn ties_are_broken_by_name_then_by_peer() {
    let low = EndpointId { bytes: [1; 32] };
    let high = EndpointId { bytes: [2; 32] };
    let peer = |id: EndpointId, name: &str| PeerInfo {
        id,
        rtt_ms: Some(5),
        served_model_descriptors: vec![descriptor(
            name,
            true,
            false,
            CapabilityLevel::Unsupported,
        )],
        served_model_runtime: vec![],
    };
    let class = ConsultationRequestClass::Interactive;
    assert_eq!(
        find_vision_peer(&[peer(low, "b"), peer(high, "a")], "x", class),
        Some((high, "a".to_string()))
    );
    assert_eq!(
        find_vision_peer(&[peer(high, "a"), peer(low, "a")], "x", class),
        Some((low, "a".to_string()))
    );
    assert_eq!(
        find_different_model_peers(&[peer(high, "a"), peer(low, "a"), peer(high, "b")], "x", 9, class),
        vec![(low, "a".to_string()), (high, "b".to_string())]
    );
}

#[test]
fn ranking_ignores_the_order_of_peers() {
    let class = ConsultationRequestClass::Throughput;
    let peers = reasoning_peers();
    let mut reversed = reasoning_peers();
    reversed.reverse();
    let expected = vec![
        (test_endpoint_id(3), "reasoner-b".to_string()),
        (test_endpoint_id(2), "reasoner-a".to_string()),
        (test_endpoint_id(1), "fast-chat".to_string()),
    ];
    assert_eq!(find_different_model_peers(&peers, "x", 3, class), expected);
    assert_eq!(find_different_model_peers(&reversed, "x", 3, class), expected);
}

#[test]
fn shorter_rankings_are_prefixes() {
    let class = ConsultationRequestClass::Interactive;
    let peers = reasoning_peers();
    let all = find_different_model_peers(&peers, "x", 10, class);
    assert_eq!(all.len(), 3);
    for n in 0..4 {
        assert_eq!(
            find_different_model_peers(&peers, "x", n, class),
            all[..n].to_vec()
        );
    }
    assert_eq!(
        find_different_model_peers(&peers, "reasoner-a", 10, class),
        all[1..].to_vec()
    );
}

#[test]
fn one_peer_can_be_listed_for_several_models() {
    let peers = vec![test_peer(
        1,
        None,
        vec![
            descriptor("m1", false, false, CapabilityLevel::Unsupported),
            descriptor("m2", false, false, CapabilityLevel::Supported),
            descriptor("m1", false, false, CapabilityLevel::Supported),
        ],
        vec![runtime("m1", None, Some(10)), runtime("m2", None, Some(5))],
    )];
    assert_eq!(
        find_different_model_peers(&peers, "x", 5, ConsultationRequestClass::Interactive),
        vec![
            (test_endpoint_id(1), "m2".to_string()),
            (test_endpoint_id(1), "m1".to_string()),
        ]
    );
}

#[test]
fn text_compares_as_strings_do() {
    let samples = [
        "", "a", "ab", "b", "B", "zz", "\u{e9}", "\u{800}", "\u{ffff}", "\u{10000}", "a\u{0}",
    ];
    for left in samples {
        for right in samples {
            assert_eq!(compare_text(left, right), left.cmp(right));
            assert_eq!(same_text(left, right), left == right);
            assert_eq!(
                compare_bytes(left.as_bytes(), right.as_bytes()),
                left.as_bytes().cmp(right.as_bytes())
            );
        }
    }
}
