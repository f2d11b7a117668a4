use kara::ipc::client::{join, socket_path, IpcClient};
use kara::ipc::frame::{read_length, read_message, write_message, FrameError};

#[test]
fn reading_gives_back_what_was_written() {
    for payload in [Vec::new(), vec![7_u8], b"{\"type\":\"GetTheme\"}".to_vec(), vec![1; 65_536]] {
        let mut stream = write_message(&payload).unwrap();
        assert_eq!(stream.len(), payload.len() + 4);
        assert_eq!(stream[..4], (payload.len() as u32).to_le_bytes());
        stream.extend_from_slice(b"more");
        assert_eq!(read_message(&stream).unwrap(), Some(payload));
    }
}

#[test]
fn long_messages_are_refused() {
    let e = write_message(&vec![0; 65_537]).unwrap_err();
    assert!(matches!(e, FrameError::TooLarge(65_537)));
    assert_eq!(e.message(), "message too large: 65537 bytes (max 65536)");
    assert!(matches!(read_length([1, 0, 1, 0]), Err(FrameError::TooLarge(65_537))));
    assert!(matches!(read_message(&vec![255; 8]), Err(FrameError::TooLarge(u32::MAX))));
}

#[test]
fn lengths_are_little_endian() {
    assert_eq!(read_length([0, 0, 1, 0]).unwrap(), 65_536);
    assert_eq!(read_length([2, 1, 0, 0]).unwrap(), 258);
}

#[test]
fn short_streams_give_nothing_yet() {
    assert_eq!(read_message(&vec![]).unwrap(), None);
    assert_eq!(read_message(&vec![1, 0, 0]).unwrap(), None);
    assert_eq!(read_message(&vec![2, 0, 0, 0, 9]).unwrap(), None);
}

#[test]
fn the_socket_is_in_the_runtime_directory() {
    assert_eq!(socket_path(&Some("/run/user/1000".to_string())), "/run/user/1000/kara.sock");
    assert_eq!(socket_path(&Some("/run/user/1000/".to_string())), "/run/user/1000/kara.sock");
    assert_eq!(socket_path(&Some(String::new())), "kara.sock");
    assert_eq!(socket_path(&None), "/tmp/kara.sock");
    for dir in ["", "/", "a", "a/", "/x/y"] {
        let path = std::path::PathBuf::from(dir).join("n");
        assert_eq!(join(dir, "n"), path.to_str().unwrap());
    }
}

#[test]
fn a_client_needs_a_live_socket() {
    let c = IpcClient::connect(&Some("/run".to_string()), true).unwrap();
    assert_eq!(c.socket, "/run/kara.sock");
    let e = IpcClient::connect(&None, false).unwrap_err();
    assert_eq!(e, "failed to connect to /tmp/kara.sock");
}
