use runc_sandboxer::frame::{
    decode_pid, decode_request, encode_pid, encode_request, FrameError, ID_LEN, MAX_PATH_LEN,
    REQUEST_LEN,
};

#[test]
fn request_round_trip_with_path() {
    let frame = encode_request(b"abc", b"/var/run/netns/cni-1").unwrap();
    assert_eq!(frame.len(), REQUEST_LEN);
    let req = decode_request(&frame).unwrap();
    assert_eq!(req.id, b"abc".to_vec());
    assert_eq!(req.netns, b"/var/run/netns/cni-1".to_vec());
}

#[test]
fn request_layout_is_exact() {
    let frame = encode_request(b"ab", b"/n").unwrap();
    assert_eq!(&frame[0..2], b"ab");
    assert!(frame[2..64].iter().all(|&b| b == 0));
    assert_eq!(&frame[64..66], b"/n");
    assert!(frame[66..512].iter().all(|&b| b == 0));
}

#[test]
fn request_without_netns_decodes_empty() {
    let frame = encode_request(b"abc", b"").unwrap();
    assert_eq!(frame[64], 0);
    let req = decode_request(&frame).unwrap();
    assert_eq!(req.id, b"abc".to_vec());
    assert!(req.netns.is_empty());
}

#[test]
fn request_largest_sizes_round_trip() {
    let id = vec![b'i'; ID_LEN];
    let path = vec![b'p'; MAX_PATH_LEN];
    let frame = encode_request(&id, &path).unwrap();
    assert_eq!(frame.len(), REQUEST_LEN);
    let req = decode_request(&frame).unwrap();
    assert_eq!(req.id, id);
    assert_eq!(req.netns, path);
}

#[test]
fn request_errors() {
    assert_eq!(encode_request(&vec![b'i'; ID_LEN + 1], b"").unwrap_err(), FrameError::IdTooLong);
    assert_eq!(encode_request(b"a\0b", b"").unwrap_err(), FrameError::NulInId);
    assert_eq!(
        encode_request(b"a", &vec![b'p'; MAX_PATH_LEN + 1]).unwrap_err(),
        FrameError::PathTooLong
    );
    assert_eq!(encode_request(b"a", b"/x\0y").unwrap_err(), FrameError::NulInPath);
    // The length of the identifier is checked before the path.
    assert_eq!(
        encode_request(&vec![b'i'; ID_LEN + 1], &vec![b'p'; MAX_PATH_LEN + 1]).unwrap_err(),
        FrameError::IdTooLong
    );
}

#[test]
fn decode_rejects_unterminated_path() {
    let frame = vec![b'x'; REQUEST_LEN];
    assert!(decode_request(&frame).is_none());
}

#[test]
fn decode_stops_at_first_nul() {
    let mut frame = vec![0u8; REQUEST_LEN];
    frame[0] = b'a';
    frame[2] = b'z';
    frame[64] = b'/';
    frame[65] = b'n';
    frame[67] = b'q';
    let req = decode_request(&frame).unwrap();
    assert_eq!(req.id, b"a".to_vec());
    assert_eq!(req.netns, b"/n".to_vec());
}

#[test]
fn pid_bytes_are_little_endian() {
    assert_eq!(encode_pid(1), vec![1, 0, 0, 0]);
    assert_eq!(encode_pid(0x0102_0304), vec![4, 3, 2, 1]);
    assert_eq!(encode_pid(-1), vec![255, 255, 255, 255]);
    assert_eq!(encode_pid(i32::MIN), vec![0, 0, 0, 128]);
    assert_eq!(decode_pid(&[0x39, 0x30, 0, 0]), 12345);
    assert_eq!(decode_pid(&[255, 255, 255, 127]), i32::MAX);
    assert_eq!(decode_pid(&[254, 255, 255, 255]), -2);
}

#[test]
fn pid_round_trip() {
    for pid in [0, 1, 42, 4_194_304, i32::MAX, -1, i32::MIN] {
        assert_eq!(decode_pid(&encode_pid(pid)), pid);
        assert_eq!(encode_pid(pid), pid.to_le_bytes().to_vec());
    }
}
