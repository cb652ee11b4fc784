use typos_policy::fix::apply_fixes;

#[test]
fn corrections_are_written_in_order() {
    let text = b"Apropriate world".to_vec();
    let fixes = vec![(0usize, 10usize, b"Appropriate".to_vec())];
    assert_eq!(apply_fixes(&text, &fixes).unwrap(), b"Appropriate world".to_vec());

    let text = b"teh cat teh".to_vec();
    let fixes = vec![(0usize, 3usize, b"the".to_vec()), (8usize, 11usize, b"the".to_vec())];
    assert_eq!(apply_fixes(&text, &fixes).unwrap(), b"the cat the".to_vec());
}

#[test]
fn no_corrections_keep_the_text() {
    let text = b"Hello world".to_vec();
    assert_eq!(apply_fixes(&text, &Vec::new()).unwrap(), text);
    assert_eq!(apply_fixes(&Vec::new(), &Vec::new()).unwrap(), Vec::<u8>::new());
}

#[test]
fn misplaced_corrections_are_refused() {
    let text = b"abcdef".to_vec();
    let overlapping = vec![(0usize, 3usize, b"x".to_vec()), (2usize, 4usize, b"y".to_vec())];
    assert!(apply_fixes(&text, &overlapping).is_none());
    let past_end = vec![(4usize, 9usize, b"x".to_vec())];
    assert!(apply_fixes(&text, &past_end).is_none());
    let reversed = vec![(3usize, 2usize, b"x".to_vec())];
    assert!(apply_fixes(&text, &reversed).is_none());
}
