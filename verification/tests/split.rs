use moget::split::SplitBy;

#[test]
fn test_split_by() {
    let mut iter = SplitBy::new("abc", 2);
    assert_eq!(iter.next(), Some("ab"));
    assert_eq!(iter.next(), Some("c"));
    assert_eq!(iter.next(), None);
}

fn pieces(text: &str, by: usize) -> Vec<String> {
    let mut iter = SplitBy::new(text, by);
    let mut pieces = Vec::new();
    while iter.can_cut() {
        match iter.next() {
            Some(piece) => pieces.push(piece.to_string()),
            None => break,
        }
    }
    pieces
}

#[test]
fn pieces_make_up_the_text() {
    for by in 1..8 {
        let all = pieces("abcdefg", by);
        assert_eq!(all.concat(), "abcdefg");
        assert_eq!(all.len(), (7 + by - 1) / by);
        assert!(all[..all.len() - 1].iter().all(|piece| piece.len() == by));
        assert!(!all.last().unwrap().is_empty());
    }
}

#[test]
fn next_takes_the_first_piece() {
    let mut iter = SplitBy::new("abcdef", 4);
    assert_eq!(iter.next(), Some("abcd"));
    assert_eq!(pieces("ef", 4), vec!["ef".to_string()]);
    assert_eq!(iter.next(), Some("ef"));
    assert_eq!(iter.next(), None);
    assert_eq!(iter.next(), None);
}

#[test]
fn empty_text_has_no_pieces() {
    assert_eq!(SplitBy::new("", 3).next(), None);
    assert!(SplitBy::new("", 3).can_cut());
}

#[test]
fn huge_width_takes_everything() {
    let mut iter = SplitBy::new("abc", usize::MAX);
    assert_eq!(iter.next(), Some("abc"));
    assert_eq!(iter.next(), None);
}

#[test]
fn cuts_inside_characters_are_noticed() {
    let mut iter = SplitBy::new("aéb", 1);
    assert!(iter.can_cut());
    assert_eq!(iter.next(), Some("a"));
    assert!(!iter.can_cut());
    let mut iter = SplitBy::new("aéb", 3);
    assert_eq!(iter.next(), Some("aé"));
    assert_eq!(iter.next(), Some("b"));
}
