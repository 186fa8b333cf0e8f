use filequeue::errors::ErrorKind;
use filequeue::offset::{decode_offset, encode_offset, state_file_name, STATE_LEN};

#[test]
fn the_cursor_is_stored_least_significant_byte_first() {
    assert_eq!(encode_offset(0x0102030405060708), vec![8, 7, 6, 5, 4, 3, 2, 1]);
    assert_eq!(encode_offset(0), vec![0; 8]);
    assert_eq!(encode_offset(1), vec![1, 0, 0, 0, 0, 0, 0, 0]);
    assert_eq!(encode_offset(904), vec![0x88, 0x03, 0, 0, 0, 0, 0, 0]);
    assert_eq!(encode_offset(u64::MAX), vec![0xff; 8]);
}

#[test]
fn a_sidecar_has_eight_bytes() {
    assert_eq!(STATE_LEN, 8);
    assert_eq!(encode_offset(12345).len(), STATE_LEN);
}

#[test]
fn the_stored_cursor_is_read_back() {
    assert_eq!(decode_offset(&[8, 7, 6, 5, 4, 3, 2, 1]), Ok(0x0102030405060708));
    assert_eq!(decode_offset(&[0x88, 0x03, 0, 0, 0, 0, 0, 0]), Ok(904));
    assert_eq!(decode_offset(&[0; 8]), Ok(0));
    assert_eq!(decode_offset(&[0xff; 8]), Ok(u64::MAX));
}

#[test]
fn saving_and_restoring_gives_the_same_cursor() {
    for &pos in [0u64, 1, 255, 256, 904, 5000, 1 << 32, u64::MAX - 1, u64::MAX].iter() {
        assert_eq!(decode_offset(&encode_offset(pos)), Ok(pos));
    }
}

#[test]
fn a_short_sidecar_cannot_be_read() {
    assert_eq!(decode_offset(&[]), Err(ErrorKind::IOError));
    assert_eq!(decode_offset(&[1, 2, 3, 4, 5, 6, 7]), Err(ErrorKind::IOError));
}

#[test]
fn bytes_after_the_eighth_are_ignored() {
    assert_eq!(decode_offset(&[1, 0, 0, 0, 0, 0, 0, 0, 9, 9, 9]), Ok(1));
}

#[test]
fn the_sidecar_is_named_after_the_log_file() {
    assert_eq!(state_file_name(b"app.log"), b".app.log.state".to_vec());
    assert_eq!(state_file_name(b"x"), b".x.state".to_vec());
    assert_eq!(state_file_name(b""), b"..state".to_vec());
    assert_eq!(state_file_name(b".hidden"), b"..hidden.state".to_vec());
}
