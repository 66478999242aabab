use muxio::frame::{FrameDecodeError, FrameEncodeError};

#[test]
fn display_frame_encode_errors() {
    assert_eq!(FrameEncodeError::CorruptFrame.to_string(), "Corrupt frame");
    assert_eq!(
        FrameEncodeError::WriteAfterEnd.to_string(),
        "Write after stream ended"
    );
    assert_eq!(
        FrameEncodeError::WriteAfterCancel.to_string(),
        "Write after stream cancelled"
    );
}

#[test]
fn display_frame_decode_errors() {
    assert_eq!(
        FrameDecodeError::CorruptFrame.to_string(),
        "Corrupt frame detected"
    );
    assert_eq!(
        FrameDecodeError::ReadAfterEnd.to_string(),
        "Attempted to read from a stream that has already ended"
    );
    assert_eq!(
        FrameDecodeError::ReadAfterCancel.to_string(),
        "Attempted to read from a cancelled stream"
    );
    assert_eq!(
        FrameDecodeError::IncompleteHeader.to_string(),
        "Incomplete frame header received"
    );
}

#[test]
fn display_frame_decode_transport_error() {
    let err = FrameDecodeError::Transport("ConnectionReset".to_string());
    assert_eq!(err.to_string(), "Transport error: ConnectionReset");

    let empty = FrameDecodeError::Transport(String::new());
    assert_eq!(empty.to_string(), "Transport error: ");

    let eof = FrameDecodeError::Transport("unexpected EOF (connection closed)".to_string());
    assert!(eof.to_string().contains("unexpected EOF"));

    assert_eq!(
        FrameDecodeError::Transport("a".to_string()),
        FrameDecodeError::Transport("a".to_string())
    );
    assert_ne!(
        FrameDecodeError::Transport("a".to_string()),
        FrameDecodeError::CorruptFrame
    );
}

#[test]
fn duplicate_decode_error_is_equal() {
    let err = FrameDecodeError::Transport("x".to_string());
    assert_eq!(err.duplicate(), err);
    assert_eq!(FrameDecodeError::ReadAfterEnd.duplicate(), FrameDecodeError::ReadAfterEnd);
}
