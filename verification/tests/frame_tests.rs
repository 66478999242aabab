use muxio::frame::{encode_frame, encode_frames, Frame, FrameDecodeError, FrameDecoder, FrameKind};
use muxio::ids::{IdSpace, ID_SPACE_MASK};

fn frame(stream_id: u32, seq_id: u32, kind: FrameKind, payload: &[u8]) -> Frame {
    Frame { stream_id, seq_id, kind, timestamp: 1234, payload: payload.to_vec() }
}

#[test]
fn frame_kind_codes_roundtrip() {
    for code in 0u8..=5 {
        let kind = FrameKind::try_from_u8(code).unwrap();
        assert_eq!(kind.code(), code);
    }
    assert!(FrameKind::try_from_u8(6).is_err());
    assert!(FrameKind::try_from_u8(255).is_err());
    assert_eq!(FrameKind::try_from_u8(3).unwrap(), FrameKind::Cancel);
}

#[test]
fn frame_layout_is_little_endian() {
    let bytes = encode_frame(&frame(0x0102_0304, 7, FrameKind::Data, b"hi")).unwrap();
    assert_eq!(
        bytes,
        vec![
            2, 0, 0, 0, // payload length
            4, 3, 2, 1, // stream id
            7, 0, 0, 0, // sequence id
            1, // kind
            0xd2, 0x04, 0, 0, 0, 0, 0, 0, // timestamp 1234
            b'h', b'i',
        ]
    );
}

#[test]
fn decoder_reassembles_frames_cut_anywhere() {
    let frames = vec![
        frame(1, 0, FrameKind::Open, b"abc"),
        frame(2, 0, FrameKind::Data, b""),
        frame(1, 1, FrameKind::End, b""),
    ];
    let bytes = encode_frames(&frames).unwrap();
    for cut in 0..=bytes.len() {
        let mut d = FrameDecoder::new();
        let mut got = d.read_bytes(&bytes[..cut]).unwrap();
        got.extend(d.read_bytes(&bytes[cut..]).unwrap());
        assert_eq!(got.len(), 3);
        assert_eq!(got[0].payload, b"abc".to_vec());
        assert_eq!(got[1].stream_id, 2);
        assert_eq!(got[2].kind, FrameKind::End);
    }
}

#[test]
fn decoder_refuses_unknown_kind_and_drops_pending() {
    let mut bytes = encode_frame(&frame(1, 0, FrameKind::Data, b"x")).unwrap();
    bytes[12] = 9;
    let mut d = FrameDecoder::new();
    assert_eq!(d.read_bytes(&bytes).unwrap_err(), FrameDecodeError::CorruptFrame);
    // Nothing of the corrupt frame stays behind.
    let good = encode_frame(&frame(1, 1, FrameKind::Data, b"y")).unwrap();
    let got = d.read_bytes(&good).unwrap();
    assert_eq!(got.len(), 1);
    assert_eq!(got[0].payload, b"y".to_vec());
}

#[test]
fn id_spaces_never_collide() {
    assert_eq!(IdSpace::Client.marker(), 0);
    assert_eq!(IdSpace::Server.marker(), ID_SPACE_MASK);
    assert_eq!(IdSpace::Client.place(0x8000_0005), 5);
    assert_eq!(IdSpace::Server.place(5), 0x8000_0005);
    assert_ne!(IdSpace::Client.place(42), IdSpace::Server.place(42));
    assert_eq!(IdSpace::Server.place(IdSpace::Server.place(9)), IdSpace::Server.place(9));
}
