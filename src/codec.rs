//! Deterministic binary encoding of the vote and log-replication messages.
//! Integers travel in network byte order; the one variable-length field is
//! preceded by its length as a 32-bit integer.
use vstd::prelude::*;

verus! {

/// A candidate's request for votes in `term`.
#[derive(Debug, Clone, Copy, PartialEq, Eq, Structural, Hash)]
pub struct RequestVote {
    pub term: u32,
    pub candidate_id: u32,
    pub last_log_term: u32,
    pub last_log_index: u32,
}

/// A leader's heartbeat / replication message.
#[derive(Debug, Clone)]
pub struct AppendEntries {
    pub term: u32,
    pub leader_id: u32,
    pub leader_commit: u32,
    pub entries: Vec<u8>,
    pub previous_log_term: u32,
    pub previous_log_index: u32,
}

/// The payload does not have the layout of the expected message.
#[derive(Debug, Clone, Copy, PartialEq, Eq, Structural)]
pub enum DecodeError {
    /// The input ends before the message does.
    Truncated,
    /// Bytes remain after the message.
    TrailingBytes,
}

/// Mathematical value of an `AppendEntries`.
pub struct AppendEntriesView {
    pub term: u32,
    pub leader_id: u32,
    pub leader_commit: u32,
    pub entries: Seq<u8>,
    pub previous_log_term: u32,
    pub previous_log_index: u32,
}

impl View for AppendEntries {
    type V = AppendEntriesView;

    open spec fn view(&self) -> AppendEntriesView {
        AppendEntriesView {
            term: self.term,
            leader_id: self.leader_id,
            leader_commit: self.leader_commit,
            entries: self.entries@,
            previous_log_term: self.previous_log_term,
            previous_log_index: self.previous_log_index,
        }
    }
}

/// Size in bytes of an encoded `RequestVote`.
pub const REQUEST_VOTE_LEN: usize = 16;

/// Size in bytes of the fixed part of an encoded `AppendEntries`.
pub const APPEND_ENTRIES_FIXED_LEN: usize = 24;

/// The four bytes of `x`, most significant first.
pub open spec fn be_bytes(x: u32) -> Seq<u8> {
    seq![(x >> 24u32) as u8, (x >> 16u32) as u8, (x >> 8u32) as u8, x as u8]
}

/// The integer whose network-order bytes are `s[i..i + 4]`.
pub open spec fn be_u32_at(s: Seq<u8>, i: int) -> u32 {
    be_join(s[i], s[i + 1], s[i + 2], s[i + 3])
}

pub open spec fn be_join(b0: u8, b1: u8, b2: u8, b3: u8) -> u32 {
    ((b0 as u32) << 24u32) | ((b1 as u32) << 16u32) | ((b2 as u32) << 8u32) | (b3 as u32)
}

pub open spec fn spec_encode_vote(m: RequestVote) -> Seq<u8> {
    be_bytes(m.term) + be_bytes(m.candidate_id) + be_bytes(m.last_log_term) + be_bytes(
        m.last_log_index,
    )
}

pub open spec fn spec_decode_vote(s: Seq<u8>) -> Result<RequestVote, DecodeError> {
    if s.len() < 16 {
        Err(DecodeError::Truncated)
    } else if s.len() > 16 {
        Err(DecodeError::TrailingBytes)
    } else {
        Ok(
            RequestVote {
                term: be_u32_at(s, 0),
                candidate_id: be_u32_at(s, 4),
                last_log_term: be_u32_at(s, 8),
                last_log_index: be_u32_at(s, 12),
            },
        )
    }
}

/// A message that the wire format can carry: its blob length fits the prefix.
pub open spec fn append_entries_valid(m: AppendEntriesView) -> bool {
    m.entries.len() <= u32::MAX
}

pub open spec fn spec_encode_append(m: AppendEntriesView) -> Seq<u8> {
    be_bytes(m.term) + be_bytes(m.leader_id) + be_bytes(m.leader_commit) + be_bytes(
        m.entries.len() as u32,
    ) + m.entries + be_bytes(m.previous_log_term) + be_bytes(m.previous_log_index)
}

pub open spec fn spec_decode_append(s: Seq<u8>) -> Result<AppendEntriesView, DecodeError> {
    if s.len() < 24 {
        Err(DecodeError::Truncated)
    } else {
        let n = be_u32_at(s, 12) as int;
        if s.len() < 24 + n {
            Err(DecodeError::Truncated)
        } else if s.len() > 24 + n {
            Err(DecodeError::TrailingBytes)
        } else {
            Ok(
                AppendEntriesView {
                    term: be_u32_at(s, 0),
                    leader_id: be_u32_at(s, 4),
                    leader_commit: be_u32_at(s, 8),
                    entries: s.subrange(16, 16 + n),
                    previous_log_term: be_u32_at(s, 16 + n),
                    previous_log_index: be_u32_at(s, 20 + n),
                },
            )
        }
    }
}

proof fn lemma_be_join_bytes(x: u32)
    ensures
        be_join((x >> 24u32) as u8, (x >> 16u32) as u8, (x >> 8u32) as u8, x as u8) == x,
{
    assert(((((x >> 24u32) as u8) as u32) << 24u32) | ((((x >> 16u32) as u8) as u32) << 16u32)
        | ((((x >> 8u32) as u8) as u32) << 8u32) | ((x as u8) as u32) == x) by (bit_vector);
}

proof fn lemma_be_bytes_join(b0: u8, b1: u8, b2: u8, b3: u8)
    ensures
        be_bytes(be_join(b0, b1, b2, b3)) == seq![b0, b1, b2, b3],
{
    let x = be_join(b0, b1, b2, b3);
    assert((((((b0 as u32) << 24u32) | ((b1 as u32) << 16u32) | ((b2 as u32) << 8u32) | (
    b3 as u32)) >> 24u32) as u8) == b0) by (bit_vector);
    assert((((((b0 as u32) << 24u32) | ((b1 as u32) << 16u32) | ((b2 as u32) << 8u32) | (
    b3 as u32)) >> 16u32) as u8) == b1) by (bit_vector);
    assert((((((b0 as u32) << 24u32) | ((b1 as u32) << 16u32) | ((b2 as u32) << 8u32) | (
    b3 as u32)) >> 8u32) as u8) == b2) by (bit_vector);
    assert(((((b0 as u32) << 24u32) | ((b1 as u32) << 16u32) | ((b2 as u32) << 8u32) | (
    b3 as u32)) as u8) == b3) by (bit_vector);
    assert(be_bytes(x) =~= seq![b0, b1, b2, b3]);
}

/// Reading back the bytes written for `x` at offset `i` gives `x`.
proof fn lemma_be_at(s: Seq<u8>, i: int, x: u32)
    requires
        0 <= i,
        i + 4 <= s.len(),
        s.subrange(i, i + 4) == be_bytes(x),
    ensures
        be_u32_at(s, i) == x,
{
    assert(s[i] == s.subrange(i, i + 4)[0]);
    assert(s[i + 1] == s.subrange(i, i + 4)[1]);
    assert(s[i + 2] == s.subrange(i, i + 4)[2]);
    assert(s[i + 3] == s.subrange(i, i + 4)[3]);
    lemma_be_join_bytes(x);
}

/// Decoding an encoded vote request gives the request back.
pub proof fn lemma_vote_round_trip(m: RequestVote)
    ensures
        spec_decode_vote(spec_encode_vote(m)) == Ok::<RequestVote, DecodeError>(m),
{
    let s = spec_encode_vote(m);
    assert(s.subrange(0, 4) =~= be_bytes(m.term));
    assert(s.subrange(4, 8) =~= be_bytes(m.candidate_id));
    assert(s.subrange(8, 12) =~= be_bytes(m.last_log_term));
    assert(s.subrange(12, 16) =~= be_bytes(m.last_log_index));
    lemma_be_at(s, 0, m.term);
    lemma_be_at(s, 4, m.candidate_id);
    lemma_be_at(s, 8, m.last_log_term);
    lemma_be_at(s, 12, m.last_log_index);
}

/// Decoding an encoded log-replication message gives the message back.
pub proof fn lemma_append_round_trip(m: AppendEntriesView)
    requires
        append_entries_valid(m),
    ensures
        spec_decode_append(spec_encode_append(m)) == Ok::<AppendEntriesView, DecodeError>(m),
{
    let s = spec_encode_append(m);
    let n = m.entries.len() as int;
    assert(s.len() == 24 + n);
    assert(s.subrange(0, 4) =~= be_bytes(m.term));
    assert(s.subrange(4, 8) =~= be_bytes(m.leader_id));
    assert(s.subrange(8, 12) =~= be_bytes(m.leader_commit));
    assert(s.subrange(12, 16) =~= be_bytes(m.entries.len() as u32));
    assert(s.subrange(16 + n, 20 + n) =~= be_bytes(m.previous_log_term));
    assert(s.subrange(20 + n, 24 + n) =~= be_bytes(m.previous_log_index));
    lemma_be_at(s, 0, m.term);
    lemma_be_at(s, 4, m.leader_id);
    lemma_be_at(s, 8, m.leader_commit);
    lemma_be_at(s, 12, m.entries.len() as u32);
    lemma_be_at(s, 16 + n, m.previous_log_term);
    lemma_be_at(s, 20 + n, m.previous_log_index);
    assert(s.subrange(16, 16 + n) =~= m.entries);
    let d = spec_decode_append(s).unwrap();
    assert(d.entries == m.entries);
}

fn push_u32(out: &mut Vec<u8>, x: u32)
    ensures
        final(out)@ == old(out)@ + be_bytes(x),
{
    out.push((x >> 24u32) as u8);
    out.push((x >> 16u32) as u8);
    out.push((x >> 8u32) as u8);
    out.push(x as u8);
    assert(final(out)@ =~= old(out)@ + be_bytes(x));
}

fn read_u32(b: &[u8], i: usize) -> (r: u32)
    requires
        i + 4 <= b@.len(),
    ensures
        r == be_u32_at(b@, i as int),
{
    ((b[i] as u32) << 24u32) | ((b[i + 1] as u32) << 16u32) | ((b[i + 2] as u32) << 8u32) | (b[i
        + 3] as u32)
}

impl RequestVote {
    /// The 16 bytes of this request: term, candidate, last log term, last log index.
    pub fn encode(&self) -> (r: Vec<u8>)
        ensures
            r@ == spec_encode_vote(*self),
    {
        let mut out: Vec<u8> = Vec::new();
        push_u32(&mut out, self.term);
        push_u32(&mut out, self.candidate_id);
        push_u32(&mut out, self.last_log_term);
        push_u32(&mut out, self.last_log_index);
        out
    }

    /// Reads a request from exactly the bytes of `b`.
    pub fn decode(b: &[u8]) -> (r: Result<RequestVote, DecodeError>)
        ensures
            r == spec_decode_vote(b@),
            r is Ok ==> b@ == spec_encode_vote(r->Ok_0),
    {
        if b.len() < REQUEST_VOTE_LEN {
            return Err(DecodeError::Truncated);
        }
        if b.len() > REQUEST_VOTE_LEN {
            return Err(DecodeError::TrailingBytes);
        }
        let m = RequestVote {
            term: read_u32(b, 0),
            candidate_id: read_u32(b, 4),
            last_log_term: read_u32(b, 8),
            last_log_index: read_u32(b, 12),
        };
        proof {
            lemma_be_bytes_join(b@[0], b@[1], b@[2], b@[3]);
            lemma_be_bytes_join(b@[4], b@[5], b@[6], b@[7]);
            lemma_be_bytes_join(b@[8], b@[9], b@[10], b@[11]);
            lemma_be_bytes_join(b@[12], b@[13], b@[14], b@[15]);
            assert(b@ =~= spec_encode_vote(m));
        }
        Ok(m)
    }
}

/// Appends `b[lo..hi]` to `out`.
fn extend_from_range(out: &mut Vec<u8>, b: &[u8], lo: usize, hi: usize)
    requires
        lo <= hi <= b@.len(),
    ensures
        final(out)@ == old(out)@ + b@.subrange(lo as int, hi as int),
{
    let ghost start = out@;
    let mut i: usize = lo;
    while i < hi
        invariant
            lo <= i <= hi <= b@.len(),
            out@ == start + b@.subrange(lo as int, i as int),
        decreases hi - i,
    {
        out.push(b[i]);
        i = i + 1;
        assert(out@ =~= start + b@.subrange(lo as int, i as int));
    }
}

impl AppendEntries {
    /// The bytes of this message: term, leader, commit index, the entries
    /// preceded by their length, previous log term, previous log index.
    pub fn encode(&self) -> (r: Vec<u8>)
        requires
            append_entries_valid(self@),
        ensures
            r@ == spec_encode_append(self@),
    {
        let mut out: Vec<u8> = Vec::new();
        push_u32(&mut out, self.term);
        push_u32(&mut out, self.leader_id);
        push_u32(&mut out, self.leader_commit);
        push_u32(&mut out, self.entries.len() as u32);
        extend_from_range(&mut out, self.entries.as_slice(), 0, self.entries.len());
        assert(self.entries@.subrange(0, self.entries@.len() as int) =~= self.entries@);
        push_u32(&mut out, self.previous_log_term);
        push_u32(&mut out, self.previous_log_index);
        out
    }

    /// Reads a message from exactly the bytes of `b`.
    pub fn decode(b: &[u8]) -> (r: Result<AppendEntries, DecodeError>)
        ensures
            r is Ok == spec_decode_append(b@) is Ok,
            r is Ok ==> Ok::<AppendEntriesView, DecodeError>(r->Ok_0@) == spec_decode_append(b@),
            r is Err ==> Err::<AppendEntriesView, DecodeError>(r->Err_0) == spec_decode_append(b@),
            r is Ok ==> b@ == spec_encode_append(r->Ok_0@),
    {
        if b.len() < APPEND_ENTRIES_FIXED_LEN {
            return Err(DecodeError::Truncated);
        }
        let n = read_u32(b, 12) as usize;
        let rest = b.len() - APPEND_ENTRIES_FIXED_LEN;
        if rest < n {
            return Err(DecodeError::Truncated);
        }
        if rest > n {
            return Err(DecodeError::TrailingBytes);
        }
        let mut entries: Vec<u8> = Vec::new();
        extend_from_range(&mut entries, b, 16, 16 + n);
        let m = AppendEntries {
            term: read_u32(b, 0),
            leader_id: read_u32(b, 4),
            leader_commit: read_u32(b, 8),
            entries,
            previous_log_term: read_u32(b, 16 + n),
            previous_log_index: read_u32(b, 20 + n),
        };
        proof {
            let s = b@;
            let k = n as int;
            assert(entries@ =~= s.subrange(16, 16 + k));
            lemma_be_bytes_join(s[0], s[1], s[2], s[3]);
            lemma_be_bytes_join(s[4], s[5], s[6], s[7]);
            lemma_be_bytes_join(s[8], s[9], s[10], s[11]);
            lemma_be_bytes_join(s[12], s[13], s[14], s[15]);
            lemma_be_bytes_join(s[16 + k], s[17 + k], s[18 + k], s[19 + k]);
            lemma_be_bytes_join(s[20 + k], s[21 + k], s[22 + k], s[23 + k]);
            assert(s =~= spec_encode_append(m@));
        }
        Ok(m)
    }
}

} // verus!
