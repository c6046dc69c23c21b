//! Frames on the wire.

use bytes::BytesMut;

use peasub::codec::{size_error, Codec, CodecError};
use peasub::error::IoKind;
use peasub::{Node, NodeConfig, ID_SIZE};

fn buffer(bytes: &[u8]) -> BytesMut {
    BytesMut::from(bytes)
}

#[test]
fn a_frame_is_its_length_and_its_payload() {
    let mut codec = Codec::new(5, 1024);
    let mut wire = BytesMut::new();
    codec.encode(buffer(b"hello"), &mut wire).unwrap();
    assert_eq!(&wire[..], b"\x00\x00\x00\x05hello");
}

#[test]
fn lengths_are_big_endian() {
    let mut codec = Codec::new(0x0102, 1024);
    let mut wire = BytesMut::new();
    codec.encode(buffer(&[7u8; 0x0102]), &mut wire).unwrap();
    assert_eq!(&wire[..4], &[0, 0, 1, 2]);
    assert_eq!(wire.len(), 4 + 0x0102);
}

#[test]
fn encoding_appends() {
    let mut codec = Codec::new(2, 1024);
    let mut wire = buffer(b"before");
    codec.encode(buffer(b"ab"), &mut wire).unwrap();
    assert_eq!(&wire[..], b"before\x00\x00\x00\x02ab");
}

#[test]
fn frames_come_back_in_order() {
    let mut codec = Codec::new(3, 1024);
    let mut wire = BytesMut::new();
    codec.encode(buffer(b"one"), &mut wire).unwrap();
    codec.encode(buffer(b"two"), &mut wire).unwrap();
    assert_eq!(&codec.decode(&mut wire).unwrap().unwrap()[..], b"one");
    assert_eq!(&codec.decode(&mut wire).unwrap().unwrap()[..], b"two");
    assert!(codec.decode(&mut wire).unwrap().is_none());
    assert!(wire.is_empty());
}

#[test]
fn frames_may_arrive_byte_by_byte() {
    let mut codec = Codec::new(3, 1024);
    let mut wire = BytesMut::new();
    for byte in b"\x00\x00\x00\x03on" {
        wire.extend_from_slice(&[*byte]);
        assert!(codec.decode(&mut wire).unwrap().is_none());
    }
    wire.extend_from_slice(b"e!");
    assert_eq!(&codec.decode(&mut wire).unwrap().unwrap()[..], b"one");
    assert_eq!(&wire[..], b"!");
}

#[test]
fn other_payload_sizes_are_refused_on_the_way_in() {
    let mut codec = Codec::new(3, 1024);
    let mut wire = buffer(b"\x00\x00\x00\x02ab\x00\x00\x00\x03one");
    match codec.decode(&mut wire) {
        Err(CodecError::UnexpectedFrame { got, want }) => assert_eq!((got, want), (2, 3)),
        other => panic!("{other:?}"),
    }
    // The offending frame is gone, the next one is not.
    assert_eq!(&codec.decode(&mut wire).unwrap().unwrap()[..], b"one");
}

#[test]
fn other_payload_sizes_are_refused_on_the_way_out() {
    let mut codec = Codec::new(3, 1024);
    let mut wire = buffer(b"kept");
    match codec.encode(buffer(b"four"), &mut wire) {
        Err(CodecError::UnexpectedItem { got, want }) => assert_eq!((got, want), (4, 3)),
        other => panic!("{other:?}"),
    }
    assert_eq!(&wire[..], b"kept");
}

#[test]
fn lengths_above_the_limit_are_refused() {
    let mut codec = Codec::new(3, 8);
    let mut wire = buffer(b"\x00\x00\x00\x09");
    match codec.decode(&mut wire) {
        Err(CodecError::Oversized(error)) => {
            assert_eq!(error.kind(), std::io::ErrorKind::InvalidData);
            assert_eq!(error.to_string(), "frame size too big");
        }
        other => panic!("{other:?}"),
    }
    assert_eq!(&wire[..], b"\x00\x00\x00\x09");

    // A length at the limit is only waited for.
    let mut wire = buffer(b"\x00\x00\x00\x08");
    assert!(codec.decode(&mut wire).unwrap().is_none());
    assert!(wire.is_empty());
}

#[test]
fn items_above_the_limit_are_refused() {
    let mut codec = Codec::new(9, 8);
    let mut wire = BytesMut::new();
    match codec.encode(buffer(b"nine byte"), &mut wire) {
        Err(CodecError::Oversized(error)) => {
            assert_eq!(error.kind(), std::io::ErrorKind::InvalidInput)
        }
        other => panic!("{other:?}"),
    }
    assert!(wire.is_empty());
}

#[test]
fn errors_are_of_the_right_kind() {
    let mut codec = Codec::new(3, 8);
    // Too small, and above the limit, on the way in.
    let mut wire = buffer(b"\x00\x00\x00\x02ab");
    assert_eq!(codec.decode(&mut wire).unwrap_err().kind(), IoKind::InvalidData);
    let mut wire = buffer(b"\x00\x00\x00\x09");
    assert_eq!(codec.decode(&mut wire).unwrap_err().kind(), IoKind::InvalidData);
    // The same on the way out.
    let mut wire = BytesMut::new();
    let error = codec.encode(buffer(b"ab"), &mut wire).unwrap_err();
    assert_eq!(error.kind(), IoKind::InvalidInput);
    let error = Codec::new(9, 8).encode(buffer(b"nine byte"), &mut wire).unwrap_err();
    assert_eq!(error.kind(), IoKind::InvalidInput);
    let lost = CodecError::Oversized(std::io::Error::other("lost"));
    assert_eq!(lost.kind(), IoKind::Other);
}

#[test]
fn limits_are_clipped_to_four_bytes() {
    let mut codec = Codec::new(1, 0x1_0000_0005);
    let mut wire = buffer(b"\x00\x00\x00\x01x");
    assert_eq!(&codec.decode(&mut wire).unwrap().unwrap()[..], b"x");
}

#[test]
fn empty_payloads_pass_if_expected() {
    let mut codec = Codec::new(0, 8);
    let mut wire = BytesMut::new();
    codec.encode(BytesMut::new(), &mut wire).unwrap();
    assert_eq!(&wire[..], &[0, 0, 0, 0]);
    assert_eq!(codec.decode(&mut wire).unwrap().unwrap().len(), 0);
}

#[test]
fn what_a_node_sends_survives_the_wire() {
    let config = NodeConfig::default();
    let mut codec = Codec::new(config.message_size, config.max_frame_size);
    let (node, mut lanes) = Node::new(config, peashape::ShapeConfig::default());
    let id = node.publish(&mut lanes.desk, b"over the wire").unwrap();
    let mut wire = BytesMut::new();
    let real = node.next_outbound(&mut lanes.outbox);
    let cover = node.next_outbound(&mut lanes.outbox);
    codec.encode(real.clone(), &mut wire).unwrap();
    codec.encode(cover.clone(), &mut wire).unwrap();
    assert_eq!(wire.len(), 2 * (4 + 256));
    assert_eq!(wire[..4], wire[260..264]);
    let back = codec.decode(&mut wire).unwrap().unwrap();
    assert_eq!(back, real);
    assert_eq!(back[..ID_SIZE], id);
    assert_eq!(&back[ID_SIZE..ID_SIZE + 13], b"over the wire");
    assert_eq!(codec.decode(&mut wire).unwrap().unwrap(), cover);
}

/// Feeds `wire` to a codec in chunks of the given size and collects what comes
/// out.
fn decode_in_chunks(wire: &[u8], size: usize) -> (Vec<BytesMut>, Option<CodecError>) {
    let mut codec = Codec::new(3, 8);
    let mut pending = BytesMut::new();
    let mut frames = Vec::new();
    for chunk in wire.chunks(size) {
        pending.extend_from_slice(chunk);
        loop {
            match codec.decode(&mut pending) {
                Ok(Some(frame)) => frames.push(frame),
                Ok(None) => break,
                Err(error) => return (frames, Some(error)),
            }
        }
    }
    (frames, None)
}

#[test]
fn it_does_not_matter_how_a_stream_is_cut() {
    let good = b"\x00\x00\x00\x03one\x00\x00\x00\x03two\x00\x00\x00\x03six";
    let bad = b"\x00\x00\x00\x03one\x00\x00\x00\x02no\x00\x00\x00\x03six";
    let huge = b"\x00\x00\x00\x03one\x00\x00\x00\x09nothing";
    for size in 1..30usize {
        let (frames, error) = decode_in_chunks(good, size);
        assert_eq!(frames, vec![buffer(b"one"), buffer(b"two"), buffer(b"six")]);
        assert!(error.is_none());
        let (frames, error) = decode_in_chunks(bad, size);
        assert_eq!(frames, vec![buffer(b"one")]);
        assert!(matches!(error, Some(CodecError::UnexpectedFrame { got: 2, want: 3 })));
        let (frames, error) = decode_in_chunks(huge, size);
        assert_eq!(frames, vec![buffer(b"one")]);
        assert!(matches!(error, Some(CodecError::Oversized(_))));
    }
}

#[test]
fn size_errors_read_well() {
    assert_eq!(size_error(0, 256), "unexpected gossip frame size: got 0, want 256");
    assert_eq!(size_error(1090, 7), "unexpected gossip frame size: got 1090, want 7");
}
