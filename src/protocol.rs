//! The request-vote stream protocol: after negotiating its token, a stream
//! carries exactly one length-prefixed frame holding one encoded
//! [`RequestVote`].
use vstd::prelude::*;
use crate::codec::{lemma_vote_round_trip, spec_decode_vote, spec_encode_vote, RequestVote};
use crate::frame::{
    lemma_frame_round_trip, read_length_prefixed, spec_read_frame, spec_write_frame,
    write_length_prefixed,
};

verus! {

/// The largest payload accepted on an inbound stream, in bytes.
pub const MAX_FRAME_LEN: usize = 2048;

/// The inbound side of the protocol.
#[derive(Debug, Clone, Copy, PartialEq, Eq, Structural)]
pub struct HiveRequestVoteProtocol {}

/// Why an inbound stream yielded no request.
#[derive(Debug, Clone, Copy, PartialEq, Eq, Structural)]
pub enum ProtocolError {
    /// No whole frame within the cap could be read.
    ReadInboundStreamError,
    /// The frame's payload is not an encoded request.
    DecodeError,
}

/// What an inbound stream whose bytes are `s` yields.
pub open spec fn spec_upgrade_inbound(s: Seq<u8>) -> Result<RequestVote, ProtocolError> {
    match spec_read_frame(s, MAX_FRAME_LEN as nat) {
        Err(_) => Err(ProtocolError::ReadInboundStreamError),
        Ok(p) => match spec_decode_vote(p) {
            Err(_) => Err(ProtocolError::DecodeError),
            Ok(m) => Ok(m),
        },
    }
}

impl HiveRequestVoteProtocol {
    pub fn new() -> (r: HiveRequestVoteProtocol)
        ensures
            r == (HiveRequestVoteProtocol {}),
    {
        HiveRequestVoteProtocol {}
    }

    /// The versioned token that names this protocol during negotiation.
    pub fn protocol_info(&self) -> (r: &'static str)
        ensures
            r@ == "/hive/request_vote/1.0.0"@,
    {
        "/hive/request_vote/1.0.0"
    }

    /// Reads one frame of at most [`MAX_FRAME_LEN`] bytes from the stream's
    /// bytes `stream` and decodes the request in it.
    pub fn upgrade_inbound(self, stream: &[u8]) -> (r: Result<RequestVote, ProtocolError>)
        ensures
            r == spec_upgrade_inbound(stream@),
    {
        let payload = match read_length_prefixed(stream, MAX_FRAME_LEN) {
            Err(_) => return Err(ProtocolError::ReadInboundStreamError),
            Ok(p) => p,
        };
        match RequestVote::decode(payload.as_slice()) {
            Err(_) => Err(ProtocolError::DecodeError),
            Ok(m) => Ok(m),
        }
    }
}

impl RequestVote {
    /// The bytes the outbound side writes: one frame holding this request.
    pub fn upgrade_outbound(&self) -> (r: Vec<u8>)
        ensures
            r@ == spec_write_frame(spec_encode_vote(*self)),
    {
        let bytes = self.encode();
        write_length_prefixed(bytes.as_slice())
    }
}

/// What the outbound side writes for a request, the inbound side reads back
/// as the same request.
pub proof fn lemma_stream_round_trip(m: RequestVote)
    ensures
        spec_upgrade_inbound(spec_write_frame(spec_encode_vote(m))) == Ok::<
            RequestVote,
            ProtocolError,
        >(m),
{
    lemma_frame_round_trip(spec_encode_vote(m), MAX_FRAME_LEN as nat);
    lemma_vote_round_trip(m);
}

} // verus!
