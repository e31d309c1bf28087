use hive::codec::{AppendEntries, DecodeError, RequestVote};
use hive::frame::{read_length_prefixed, write_length_prefixed, FrameError};
use hive::protocol::{HiveRequestVoteProtocol, ProtocolError, MAX_FRAME_LEN};

fn vote(term: u32, candidate_id: u32, last_log_term: u32, last_log_index: u32) -> RequestVote {
    RequestVote { term, candidate_id, last_log_term, last_log_index }
}

#[test]
fn vote_encodes_in_network_byte_order() {
    let v = vote(1, 0x0a0b0c0d, 0x01000000, 0xffffffff);
    assert_eq!(
        v.encode(),
        vec![0, 0, 0, 1, 0x0a, 0x0b, 0x0c, 0x0d, 1, 0, 0, 0, 0xff, 0xff, 0xff, 0xff]
    );
}

#[test]
fn vote_round_trips() {
    for v in [vote(0, 0, 0, 0), vote(1, 2, 3, 4), vote(u32::MAX, 7, u32::MAX, 1 << 31)] {
        assert_eq!(RequestVote::decode(&v.encode()), Ok(v));
    }
}

#[test]
fn vote_decode_rejects_wrong_lengths() {
    let bytes = vote(5, 6, 7, 8).encode();
    assert_eq!(RequestVote::decode(&bytes[..15]), Err(DecodeError::Truncated));
    assert_eq!(RequestVote::decode(&[]), Err(DecodeError::Truncated));
    let mut longer = bytes.clone();
    longer.push(0);
    assert_eq!(RequestVote::decode(&longer), Err(DecodeError::TrailingBytes));
}

fn append(entries: Vec<u8>) -> AppendEntries {
    AppendEntries {
        term: 3,
        leader_id: 9,
        leader_commit: 2,
        entries,
        previous_log_term: 1,
        previous_log_index: 0x0102,
    }
}

#[test]
fn append_entries_encodes_with_length_prefix() {
    let m = append(vec![0xaa, 0xbb]);
    assert_eq!(
        m.encode(),
        vec![0, 0, 0, 3, 0, 0, 0, 9, 0, 0, 0, 2, 0, 0, 0, 2, 0xaa, 0xbb, 0, 0, 0, 1, 0, 0, 1, 2]
    );
}

#[test]
fn append_entries_round_trips() {
    for entries in [vec![], vec![1u8], (0..=255u8).collect::<Vec<u8>>()] {
        let m = append(entries.clone());
        let d = AppendEntries::decode(&m.encode()).unwrap();
        assert_eq!(d.term, 3);
        assert_eq!(d.leader_id, 9);
        assert_eq!(d.leader_commit, 2);
        assert_eq!(d.entries, entries);
        assert_eq!(d.previous_log_term, 1);
        assert_eq!(d.previous_log_index, 0x0102);
    }
}

#[test]
fn append_entries_decode_errors() {
    let bytes = append(vec![1, 2, 3]).encode();
    assert_eq!(AppendEntries::decode(&bytes[..20]).unwrap_err(), DecodeError::Truncated);
    assert_eq!(AppendEntries::decode(&bytes[..26]).unwrap_err(), DecodeError::Truncated);
    let mut longer = bytes.clone();
    longer.push(7);
    assert_eq!(AppendEntries::decode(&longer).unwrap_err(), DecodeError::TrailingBytes);
    // A length field far beyond the input does not panic.
    let mut huge = bytes.clone();
    huge[12] = 0xff;
    assert_eq!(AppendEntries::decode(&huge).unwrap_err(), DecodeError::Truncated);
}

#[test]
fn frame_prefix_is_a_varint() {
    assert_eq!(write_length_prefixed(&[7, 8, 9]), vec![3, 7, 8, 9]);
    let payload = vec![5u8; 300];
    let framed = write_length_prefixed(&payload);
    assert_eq!(&framed[..2], &[0xac, 0x02]);
    assert_eq!(framed.len(), 302);
    assert_eq!(read_length_prefixed(&framed, 2048), Ok(payload));
}

#[test]
fn frame_over_cap_fails_before_reading_payload() {
    // 5000 = 0x88 0x27 as a varint; no payload bytes follow.
    assert_eq!(read_length_prefixed(&[0x88, 0x27], 2048), Err(FrameError::TooLarge));
    let p = HiveRequestVoteProtocol::new();
    assert_eq!(p.upgrade_inbound(&[0x88, 0x27]), Err(ProtocolError::ReadInboundStreamError));
    assert_eq!(MAX_FRAME_LEN, 2048);
}

#[test]
fn frame_read_errors() {
    assert_eq!(read_length_prefixed(&[], 2048), Err(FrameError::BadPrefix));
    assert_eq!(read_length_prefixed(&[0x80, 0x80], 2048), Err(FrameError::BadPrefix));
    assert_eq!(read_length_prefixed(&[0x80; 11], 2048), Err(FrameError::BadPrefix));
    assert_eq!(read_length_prefixed(&[4, 1, 2], 2048), Err(FrameError::Incomplete));
    assert_eq!(read_length_prefixed(&[2, 1, 2, 3], 2048), Ok(vec![1, 2]));
    assert_eq!(read_length_prefixed(&[0], 2048), Ok(vec![]));
}

#[test]
fn stream_round_trip_and_decode_error() {
    let v = vote(4, 1, 3, 10);
    let bytes = v.upgrade_outbound();
    assert_eq!(bytes.len(), 17);
    assert_eq!(bytes[0], 16);
    let p = HiveRequestVoteProtocol::new();
    assert_eq!(p.upgrade_inbound(&bytes), Ok(v));
    assert_eq!(p.upgrade_inbound(&[3, 1, 2, 3]), Err(ProtocolError::DecodeError));
    assert_eq!(p.upgrade_inbound(&[5, 1, 2]), Err(ProtocolError::ReadInboundStreamError));
    assert_eq!(p.protocol_info(), "/hive/request_vote/1.0.0");
}
