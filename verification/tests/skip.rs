use moget::skip::skip_start;

fn written(skip: u64, pieces: &[&[u8]]) -> (u64, Vec<u8>) {
    let mut left = skip;
    let out = pieces.iter().flat_map(|piece| skip_start(&mut left, piece)).collect();
    (left, out)
}

#[test]
fn only_the_start_is_left_out() {
    let pieces: [&[u8]; 4] = [b"abc", b"", b"de", b"fgh"];
    assert_eq!(written(0, &pieces), (0, b"abcdefgh".to_vec()));
    assert_eq!(written(2, &pieces), (0, b"cdefgh".to_vec()));
    assert_eq!(written(3, &pieces), (0, b"defgh".to_vec()));
    assert_eq!(written(4, &pieces), (0, b"efgh".to_vec()));
    assert_eq!(written(8, &pieces), (0, Vec::new()));
}

#[test]
fn short_files_are_left_out_altogether() {
    assert_eq!(written(5, &[b"abc"]), (2, Vec::new()));
    assert_eq!(written(u64::MAX, &[b"abc", b"d"]), (u64::MAX - 4, Vec::new()));
    assert_eq!(written(1, &[]), (1, Vec::new()));
}
