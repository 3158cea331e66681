//! What the mesh tells about its peers, as far as a consultation reads it.

use vstd::prelude::*;

use crate::lexicographic::same_text;
use crate::performance::ConsultationPerformanceHint;

verus! {

/// The public key that identifies a peer.
#[derive(Debug, Clone, Copy, PartialEq, Eq, Hash)]
pub struct EndpointId {
    pub bytes: [u8; 32],
}

impl View for EndpointId {
    type V = Seq<u8>;

    open spec fn view(&self) -> Seq<u8> {
        self.bytes@
    }
}

/// Whether a model offers a capability.
#[derive(Debug, Clone, Copy, PartialEq, Eq, Structural)]
pub enum CapabilityLevel {
    Unsupported,
    Supported,
}

/// What a served model can do.
#[derive(Debug, Clone, Copy, PartialEq, Eq)]
pub struct ModelCapabilities {
    pub vision: CapabilityLevel,
    pub audio: CapabilityLevel,
    pub reasoning: CapabilityLevel,
}

impl ModelCapabilities {
    /// Whether the model takes images.
    pub fn supports_vision_runtime(&self) -> (supported: bool)
        ensures
            supported == (self.vision == CapabilityLevel::Supported),
    {
        self.vision == CapabilityLevel::Supported
    }

    /// Whether the model takes audio.
    pub fn supports_audio_runtime(&self) -> (supported: bool)
        ensures
            supported == (self.audio == CapabilityLevel::Supported),
    {
        self.audio == CapabilityLevel::Supported
    }
}

/// Which model is served.
#[derive(Debug, Clone)]
pub struct ServedModelIdentity {
    pub model_name: String,
}

/// A model that a peer serves.
#[derive(Debug, Clone)]
pub struct ServedModelDescriptor {
    pub identity: ServedModelIdentity,
    pub capabilities: ModelCapabilities,
}

impl ServedModelDescriptor {
    /// The name of the model.
    pub open spec fn name(self) -> Seq<char> {
        self.identity.model_name@
    }

    /// Whether the model reasons.
    pub open spec fn reasons(self) -> bool {
        self.capabilities.reasoning != CapabilityLevel::Unsupported
    }
}

/// The averages that a peer advertises for one model.
#[derive(Debug, Clone)]
pub struct ModelRuntimeDescriptor {
    pub model_name: String,
    pub avg_tokens_per_second_milli: Option<u32>,
    pub avg_ttft_ms: Option<u32>,
}

/// The first of the advertised averages that are about the named model.
pub open spec fn advertised(
    runtimes: Seq<ModelRuntimeDescriptor>,
    model_name: Seq<char>,
) -> Option<ModelRuntimeDescriptor>
    decreases runtimes.len(),
{
    if runtimes.len() == 0 {
        None
    } else if runtimes[0].model_name@ == model_name {
        Some(runtimes[0])
    } else {
        advertised(runtimes.drop_first(), model_name)
    }
}

/// A peer of the mesh.
#[derive(Debug, Clone)]
pub struct PeerInfo {
    pub id: EndpointId,
    pub rtt_ms: Option<u32>,
    pub served_model_descriptors: Vec<ServedModelDescriptor>,
    pub served_model_runtime: Vec<ModelRuntimeDescriptor>,
}

impl PeerInfo {
    /// What is known of how fast this peer serves the named model: the averages it
    /// advertises for the model, and the round-trip time to the peer.
    pub open spec fn performance(self, model_name: Seq<char>) -> ConsultationPerformanceHint {
        let runtime = advertised(self.served_model_runtime@, model_name);
        ConsultationPerformanceHint {
            avg_ttft_ms: match runtime {
                Some(found) => found.avg_ttft_ms,
                None => None,
            },
            avg_tokens_per_second_milli: match runtime {
                Some(found) => found.avg_tokens_per_second_milli,
                None => None,
            },
            rtt_ms: self.rtt_ms,
        }
    }

    fn find_advertised(&self, model_name: &str) -> (found: Option<usize>)
        ensures
            match found {
                Some(at) => at < self.served_model_runtime@.len() && advertised(
                    self.served_model_runtime@,
                    model_name@,
                ) == Some(self.served_model_runtime@[at as int]),
                None => advertised(self.served_model_runtime@, model_name@) is None,
            },
    {
        let runtimes = &self.served_model_runtime;
        let mut i: usize = 0;
        assert(runtimes@.skip(0) =~= runtimes@);
        while i < runtimes.len()
            invariant
                i <= runtimes@.len(),
                advertised(runtimes@, model_name@) == advertised(
                    runtimes@.skip(i as int),
                    model_name@,
                ),
                runtimes == self.served_model_runtime,
            decreases runtimes.len() - i,
        {
            if same_text(runtimes[i].model_name.as_str(), model_name) {
                return Some(i);
            }
            assert(runtimes@.skip(i as int).drop_first() =~= runtimes@.skip(i + 1));
            i += 1;
        }
        None
    }

    /// The average time to the first token that this peer advertises for a model.
    pub fn advertised_avg_ttft_ms(&self, model_name: &str) -> (figure: Option<u32>)
        ensures
            figure == self.performance(model_name@).avg_ttft_ms,
    {
        match self.find_advertised(model_name) {
            Some(at) => self.served_model_runtime[at].avg_ttft_ms,
            None => None,
        }
    }

    /// The average throughput that this peer advertises for a model.
    pub fn advertised_avg_tokens_per_second_milli(&self, model_name: &str) -> (figure: Option<u32>)
        ensures
            figure == self.performance(model_name@).avg_tokens_per_second_milli,
    {
        match self.find_advertised(model_name) {
            Some(at) => self.served_model_runtime[at].avg_tokens_per_second_milli,
            None => None,
        }
    }
}

/// What is known of how fast a peer serves the named model.
pub fn model_performance_hint(peer: &PeerInfo, model_name: &str) -> (hint:
    ConsultationPerformanceHint)
    ensures
        hint == peer.performance(model_name@),
{
    ConsultationPerformanceHint {
        avg_ttft_ms: peer.advertised_avg_ttft_ms(model_name),
        avg_tokens_per_second_milli: peer.advertised_avg_tokens_per_second_milli(model_name),
        rtt_ms: peer.rtt_ms,
    }
}

/// The averages of the first record under the name of the model count, with the
/// round-trip time to the peer; whatever is recorded under other names or further down
/// does not.
pub proof fn first_record_counts(
    peer: &PeerInfo,
    model_name: &str,
    at: int,
    hint: ConsultationPerformanceHint,
)
    requires
        call_ensures(model_performance_hint, (peer, model_name), hint),
        0 <= at < peer.served_model_runtime@.len(),
        peer.served_model_runtime@[at].model_name@ == model_name@,
        forall|k: int|
            0 <= k < at ==> (#[trigger] peer.served_model_runtime@[k]).model_name@ != model_name@,
    ensures
        hint.avg_ttft_ms == peer.served_model_runtime@[at].avg_ttft_ms,
        hint.avg_tokens_per_second_milli
            == peer.served_model_runtime@[at].avg_tokens_per_second_milli,
        hint.rtt_ms == peer.rtt_ms,
        peer.performance(model_name@) == hint,
{
    first_record_is_advertised(peer.served_model_runtime@, model_name@, at);
}

/// Where no record has the name of the model, only the round-trip time is known.
pub proof fn unrecorded_model_has_no_averages(
    peer: &PeerInfo,
    model_name: &str,
    hint: ConsultationPerformanceHint,
)
    requires
        call_ensures(model_performance_hint, (peer, model_name), hint),
        forall|k: int|
            0 <= k < peer.served_model_runtime@.len() ==> (
            #[trigger] peer.served_model_runtime@[k]).model_name@ != model_name@,
    ensures
        hint.avg_ttft_ms is None,
        hint.avg_tokens_per_second_milli is None,
        hint.rtt_ms == peer.rtt_ms,
        peer.performance(model_name@) == hint,
{
    unrecorded_is_not_advertised(peer.served_model_runtime@, model_name@);
}

/// The first record under a name is the one that is advertised for it.
pub proof fn first_record_is_advertised(
    runtimes: Seq<ModelRuntimeDescriptor>,
    model_name: Seq<char>,
    at: int,
)
    requires
        0 <= at < runtimes.len(),
        runtimes[at].model_name@ == model_name,
        forall|k: int| 0 <= k < at ==> (#[trigger] runtimes[k]).model_name@ != model_name,
    ensures
        advertised(runtimes, model_name) == Some(runtimes[at]),
    decreases runtimes.len(),
{
    if at > 0 {
        let rest = runtimes.drop_first();
        assert(runtimes[0].model_name@ != model_name);
        assert forall|k: int| 0 <= k < at - 1 implies (#[trigger] rest[k]).model_name@
            != model_name by {
            assert(rest[k] == runtimes[k + 1]);
        }
        first_record_is_advertised(rest, model_name, at - 1);
    }
}

/// Nothing is advertised under a name that no record has.
pub proof fn unrecorded_is_not_advertised(
    runtimes: Seq<ModelRuntimeDescriptor>,
    model_name: Seq<char>,
)
    requires
        forall|k: int|
            0 <= k < runtimes.len() ==> (#[trigger] runtimes[k]).model_name@ != model_name,
    ensures
        advertised(runtimes, model_name) is None,
    decreases runtimes.len(),
{
    if runtimes.len() > 0 {
        let rest = runtimes.drop_first();
        assert forall|k: int| 0 <= k < rest.len() implies (#[trigger] rest[k]).model_name@
            != model_name by {
            assert(rest[k] == runtimes[k + 1]);
        }
        unrecorded_is_not_advertised(rest, model_name);
    }
}

/// A figure that a peer advertises for a model is the one in its hint.
pub proof fn advertised_figures_are_those_of_the_hint(
    peer: &PeerInfo,
    model_name: &str,
    hint: ConsultationPerformanceHint,
    ttft: Option<u32>,
    throughput: Option<u32>,
)
    requires
        call_ensures(model_performance_hint, (peer, model_name), hint),
        call_ensures(PeerInfo::advertised_avg_ttft_ms, (peer, model_name), ttft),
        call_ensures(
            PeerInfo::advertised_avg_tokens_per_second_milli,
            (peer, model_name),
            throughput,
        ),
    ensures
        hint.avg_ttft_ms == ttft,
        hint.avg_tokens_per_second_milli == throughput,
        hint.rtt_ms == peer.rtt_ms,
{
}

} // verus!
