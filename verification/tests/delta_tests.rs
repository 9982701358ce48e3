use cub_diff::git_binary_diff::git_delta::{get_delta_hdr_size, patch_delta, DeltaError};

#[test]
fn git_delta_it_works() {
    assert_eq!(2 + 2, 4);
}

#[test]
fn header_size_single_byte() {
    assert_eq!(get_delta_hdr_size(&[5, 99]).unwrap(), (5, 1));
}

#[test]
fn header_size_continuation() {
    // 0x85 0x02 denotes 5 + 2 * 128 = 261
    assert_eq!(get_delta_hdr_size(&[0x85, 0x02, 99]).unwrap(), (261, 2));
}

#[test]
fn insert_only_delta_replays_target() {
    let source: &[u8] = b"old stuff";
    let target: &[u8] = b"new data";
    // source size, target size, one insert of the whole target
    let mut delta: Vec<u8> = vec![source.len() as u8, target.len() as u8, target.len() as u8];
    delta.extend_from_slice(target);
    assert_eq!(patch_delta(source, &delta).unwrap(), target.to_vec());
}

#[test]
fn copy_delta_replays_source_slice() {
    let source: &[u8] = b"abcdefgh";
    // copy four bytes from offset 2: cmd 0x91 selects one offset byte and
    // one size byte
    let delta: Vec<u8> = vec![8, 4, 0x91, 2, 4];
    assert_eq!(patch_delta(source, &delta).unwrap(), b"cdef".to_vec());
}

#[test]
fn copy_and_insert_combine() {
    let source: &[u8] = b"abcdefgh";
    // target: two copied bytes from the start, then two inserted bytes
    let delta: Vec<u8> = vec![8, 4, 0x91, 0, 2, 2, b'X', b'Y'];
    assert_eq!(patch_delta(source, &delta).unwrap(), b"abXY".to_vec());
}

#[test]
fn short_delta_is_invalid() {
    match patch_delta(b"abc", &[1, 2]) {
        Err(DeltaError::InvalidDelta) => {}
        _ => panic!("a delta under four bytes must be refused"),
    }
}

#[test]
fn wrong_source_size_is_refused() {
    match patch_delta(b"abc", &[7, 1, 1, b'x']) {
        Err(DeltaError::InvalidSourceSize) => {}
        _ => panic!("a source size mismatch must be refused"),
    }
}

#[test]
fn opcode_zero_is_reserved() {
    match patch_delta(b"abc", &[3, 1, 0, 0]) {
        Err(DeltaError::PatchError(_)) => {}
        _ => panic!("opcode zero must be refused"),
    }
}

#[test]
fn size_mismatch_is_refused() {
    // the header promises two bytes but the stream inserts only one
    match patch_delta(b"abc", &[3, 2, 1, b'x']) {
        Err(DeltaError::PatchError(_)) => {}
        _ => panic!("a target size mismatch must be refused"),
    }
}
