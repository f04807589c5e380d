use vstd::prelude::*;
use vstd::utf8::encode_utf8;
use crate::digest::{sha256_hex, sha256_hex_of};
use crate::wire::FrameError;

verus! {

/// A payload that travels between peers, with the hex digest of its bytes.
#[derive(Clone, Debug)]
pub struct HiddenState {
    pub data: Vec<u8>,
    pub hash: String,
}

/// A remote process that can run work: a name and a `host:port` address.
#[derive(Clone, Debug)]
pub struct Peer {
    pub id: String,
    pub address: String,
}

/// What a peer returns for a chunk of work.
#[derive(Clone, Debug)]
pub struct PeerResponse {
    pub hidden_state: HiddenState,
}

/// What a peer returns for a whole prompt: the generated text and its digest.
#[derive(Clone, Debug)]
pub struct InferenceResult {
    pub output: String,
    pub hash: String,
}

/// Why an offload attempt failed. Each of these sends the work back to the
/// local engine.
#[derive(Clone, Copy, Debug, PartialEq, Eq, Structural)]
pub enum OffloadError {
    /// The peer could not be reached, or the connection broke.
    TransportFailure,
    /// The peer did not answer before the deadline.
    Timeout,
    /// The returned digest does not match the returned payload.
    VerificationFailure,
    /// The peer answered with something that is not a valid frame or message.
    ProtocolError,
}

impl OffloadError {
    /// A human-readable description of the failure.
    pub fn message(&self) -> String {
        match self {
            OffloadError::TransportFailure => "transport failure".to_string(),
            OffloadError::Timeout => "timed out".to_string(),
            OffloadError::VerificationFailure => "result hash mismatch".to_string(),
            OffloadError::ProtocolError => "protocol error".to_string(),
        }
    }
}

/// Every framing error on the peer link is a protocol error of the offload.
pub fn offload_error_of(e: FrameError) -> (r: OffloadError)
    ensures
        r == OffloadError::ProtocolError,
{
    OffloadError::ProtocolError
}

/// A result is authentic when its digest is the digest of its output's bytes.
pub open spec fn authentic(output: Seq<char>, hash: Seq<char>) -> bool {
    hash == sha256_hex(encode_utf8(output))
}

/// Builds the result a peer sends back for `output`, digest included.
pub fn make_inference_result(output: String) -> (r: InferenceResult)
    ensures
        r.output@ == output@,
        r.hash@ == sha256_hex(encode_utf8(output@)),
{
    let hash = sha256_hex_of(output.as_str().as_bytes());
    InferenceResult { output, hash }
}

/// Accepts `result` given `computed`, the digest recomputed over its output:
/// the output is returned only when the two digests agree.
pub fn accept_result(result: InferenceResult, computed: &String) -> (r: Result<String, OffloadError>)
    ensures
        r is Ok <==> computed@ == result.hash@,
        r is Ok ==> r->Ok_0@ == result.output@,
        r is Err ==> r->Err_0 == OffloadError::VerificationFailure,
{
    if *computed == result.hash {
        Ok(result.output)
    } else {
        Err(OffloadError::VerificationFailure)
    }
}

/// Recomputes the digest of a peer's output and accepts the output only when
/// it matches the digest the peer sent.
pub fn verify_result(result: InferenceResult) -> (r: Result<String, OffloadError>)
    ensures
        r is Ok <==> authentic(result.output@, result.hash@),
        r is Ok ==> r->Ok_0@ == result.output@,
        r is Err ==> r->Err_0 == OffloadError::VerificationFailure,
{
    let computed = sha256_hex_of(result.output.as_str().as_bytes());
    accept_result(result, &computed)
}

/// The registry of peers that work can be offloaded to, in the order they
/// were added.
pub struct HybridExecutor {
    pub peers: Vec<Peer>,
}

impl HybridExecutor {
    /// An executor seeded with one local peer, `peer1` at `127.0.0.1:8081`.
    pub fn new() -> (r: Self)
        ensures
            r.peers@.len() == 1,
            r.peers@[0].id@ == "peer1"@,
            r.peers@[0].address@ == "127.0.0.1:8081"@,
    {
        let mut executor = HybridExecutor { peers: Vec::new() };
        executor.add_peer(Peer { id: "peer1".to_string(), address: "127.0.0.1:8081".to_string() });
        executor
    }

    /// Registers `peer` after the ones already known.
    pub fn add_peer(&mut self, peer: Peer)
        ensures
            final(self).peers@ == old(self).peers@.push(peer),
    {
        self.peers.push(peer);
    }

    /// Work is offloaded only when the policy allows hybrid compute and at
    /// least one peer is registered.
    pub fn should_use_hybrid(&self, allow_hybrid: bool) -> (r: bool)
        ensures
            r == (allow_hybrid && self.peers@.len() > 0),
    {
        allow_hybrid && self.peers.len() > 0
    }

    /// The peer that whole-prompt offload goes to: the first one registered.
    pub fn select_peer(&self) -> (r: Option<&Peer>)
        ensures
            self.peers@.len() == 0 ==> r is None,
            self.peers@.len() > 0 ==> r == Some(&self.peers@[0]),
    {
        if self.peers.len() == 0 {
            None
        } else {
            Some(&self.peers[0])
        }
    }

    /// The peer that chunk number `k` goes to: the peers take turns.
    pub fn peer_for_chunk(&self, k: usize) -> (r: Option<&Peer>)
        ensures
            self.peers@.len() == 0 ==> r is None,
            self.peers@.len() > 0 ==> r == Some(&self.peers@[k as int % self.peers@.len() as int]),
    {
        if self.peers.len() == 0 {
            None
        } else {
            Some(&self.peers[k % self.peers.len()])
        }
    }
}

} // verus!
