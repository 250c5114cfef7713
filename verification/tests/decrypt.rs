use moget::hls::decrypt::{hold_back, CopyError, CopyStep, Decryptor, Held, InvalidLength};

const KEY: [u8; 16] = [
    0x2b, 0x7e, 0x15, 0x16, 0x28, 0xae, 0xd2, 0xa6, 0xab, 0xf7, 0x15, 0x88, 0x09, 0xcf, 0x4f, 0x3c,
];

const IV: [u8; 16] = [0, 1, 2, 3, 4, 5, 6, 7, 8, 9, 10, 11, 12, 13, 14, 15];

/// `hello, world`
const SHORT: [u8; 16] = [
    0xf4, 0xa7, 0xd1, 0xfe, 0xfa, 0x94, 0x75, 0xca, 0x83, 0x84, 0xb1, 0xc5, 0xd3, 0xd2, 0x4e, 0xa8,
];

/// `0123456789abcdef`, the first of two blocks
const FIRST: [u8; 16] = [
    0x64, 0x76, 0x85, 0x48, 0x00, 0x7a, 0xef, 0x9f, 0x3d, 0x25, 0x8e, 0x5c, 0x34, 0xcd, 0xc2, 0x1b,
];

/// `ghij` behind it
const SECOND: [u8; 16] = [
    0x7d, 0xde, 0x6d, 0xb3, 0x11, 0x4c, 0xbe, 0xe3, 0x37, 0xae, 0xa8, 0x00, 0x40, 0x41, 0x1a, 0xf9,
];

/// nothing but padding behind it
const FULL: [u8; 16] = [
    0xde, 0x0a, 0x12, 0x68, 0x43, 0x6e, 0x15, 0x94, 0x34, 0xfc, 0x21, 0xde, 0x36, 0x96, 0xd9, 0x28,
];

fn copy(blocks: &[&[u8]]) -> Result<Vec<u8>, CopyError> {
    let mut dec = Decryptor::new_from_slices(&KEY, &IV).unwrap();
    let mut written = Vec::new();
    for block in blocks.iter().chain([&[][..]].iter()) {
        match dec.copy(block)? {
            CopyStep::More(bytes) => written.extend(bytes.unwrap_or_default()),
            CopyStep::Done(bytes) => {
                written.extend(bytes.unwrap_or_default());
                return Ok(written);
            }
        }
    }
    panic!("not done");
}

#[test]
fn one_block() {
    assert_eq!(copy(&[&SHORT]), Ok(b"hello, world".to_vec()));
}

#[test]
fn two_blocks_are_chained() {
    assert_eq!(copy(&[&FIRST, &SECOND]), Ok(b"0123456789abcdefghij".to_vec()));
}

#[test]
fn whole_block_of_padding_comes_off() {
    assert_eq!(copy(&[&FIRST, &FULL]), Ok(b"0123456789abcdef".to_vec()));
}

#[test]
fn last_piece_is_shorter_than_a_block() {
    let mut dec = Decryptor::new_from_slices(&KEY, &IV).unwrap();
    assert_eq!(dec.copy(&FIRST), Ok(CopyStep::More(None)));
    assert_eq!(dec.copy(&FULL), Ok(CopyStep::More(Some(b"0123456789abcdef".to_vec()))));
    assert_eq!(dec.copy(&[]), Ok(CopyStep::Done(Some(Vec::new()))));
}

#[test]
fn empty_segment_gives_nothing() {
    assert_eq!(copy(&[]), Ok(Vec::new()));
}

#[test]
fn malformed_padding_is_refused() {
    assert_eq!(copy(&[&FIRST]), Err(CopyError::Padding));
    assert_eq!(copy(&[&SECOND, &FIRST]), Err(CopyError::Padding));
}

#[test]
fn known_blocks() {
    let blocks: [[u8; 16]; 2] = [
        [
            0x76, 0x49, 0xab, 0xac, 0x81, 0x19, 0xb2, 0x46, 0xce, 0xe9, 0x8e, 0x9b, 0x12, 0xe9,
            0x19, 0x7d,
        ],
        [
            0x50, 0x86, 0xcb, 0x9b, 0x50, 0x72, 0x19, 0xee, 0x95, 0xdb, 0x11, 0x3a, 0x91, 0x76,
            0x78, 0xb2,
        ],
    ];
    let mut dec = Decryptor::new_from_slices(&KEY, &IV).unwrap();
    assert_eq!(dec.copy(&blocks[0]), Ok(CopyStep::More(None)));
    assert_eq!(
        dec.copy(&blocks[1]),
        Ok(CopyStep::More(Some(vec![
            0x6b, 0xc1, 0xbe, 0xe2, 0x2e, 0x40, 0x9f, 0x96, 0xe9, 0x3d, 0x7e, 0x11, 0x73, 0x93,
            0x17, 0x2a
        ])))
    );
    assert_eq!(
        dec.copy(&[0; 16]),
        Ok(CopyStep::More(Some(vec![
            0xae, 0x2d, 0x8a, 0x57, 0x1e, 0x03, 0xac, 0x9c, 0x9e, 0xb7, 0x6f, 0xac, 0x45, 0xaf,
            0x8e, 0x51
        ])))
    );
}

#[test]
fn partial_blocks_are_refused() {
    assert_eq!(copy(&[&SHORT[..15]]), Err(CopyError::UnexpectedEof));
    let mut dec = Decryptor::new_from_slices(&KEY, &IV).unwrap();
    assert_eq!(dec.copy(&FIRST), Ok(CopyStep::More(None)));
    assert_eq!(dec.copy(&SECOND[..1]), Err(CopyError::UnexpectedEof));
    assert_eq!(dec.copy(&[0; 17]), Err(CopyError::UnexpectedEof));
    // Nothing has changed.
    assert_eq!(dec.copy(&SECOND), Ok(CopyStep::More(Some(b"0123456789abcdef".to_vec()))));
    assert_eq!(dec.copy(&[]), Ok(CopyStep::Done(Some(b"ghij".to_vec()))));
}

#[test]
fn keys_and_vectors_have_16_bytes() {
    assert_eq!(Decryptor::new_from_slices(&KEY[1..], &IV).err(), Some(InvalidLength));
    assert_eq!(Decryptor::new_from_slices(&KEY, &IV[1..]).err(), Some(InvalidLength));
    assert_eq!(Decryptor::new_from_slices(&[0; 32], &IV).err(), Some(InvalidLength));
    assert!(Decryptor::new_from_slices(&KEY, &IV).is_ok());
}

#[test]
fn last_block_is_held_back() {
    let mut prev = None;
    assert_eq!(hold_back(&mut prev, &[1; 16]), Ok(Held::First));
    assert_eq!(hold_back(&mut prev, &[2; 16]), Ok(Held::Block(vec![1; 16])));
    assert_eq!(hold_back(&mut prev, &[3; 2]), Err(CopyError::UnexpectedEof));
    assert_eq!(hold_back(&mut prev, &[]), Ok(Held::Last(vec![2; 16])));
    assert_eq!(hold_back(&mut prev, &[]), Ok(Held::Empty));
    assert_eq!(prev, None);
}
