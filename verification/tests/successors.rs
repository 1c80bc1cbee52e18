use markov::Successors;

fn listed(next: &Successors) -> Vec<u8> {
    (0..next.len()).map(|i| next.get(i)).collect()
}

#[test]
fn single_records_one_byte() {
    let next = Successors::single(b'x');
    assert_eq!(next.len(), 1);
    assert_eq!(next.get(0), b'x');
}

#[test]
fn insert_appends_a_new_byte() {
    let mut next = Successors::single(b'x');
    assert!(next.insert(b'y'));
    assert_eq!(listed(&next), vec![b'x', b'y']);
    assert!(next.insert(b'a'));
    assert_eq!(listed(&next), vec![b'x', b'y', b'a']);
}

#[test]
fn insert_of_a_recorded_byte_changes_nothing() {
    let mut next = Successors::single(b'x');
    assert!(next.insert(b'y'));
    assert!(!next.insert(b'x'));
    assert!(!next.insert(b'y'));
    assert_eq!(listed(&next), vec![b'x', b'y']);
}

#[test]
fn all_bytes_can_be_recorded_once_each() {
    let mut next = Successors::single(0);
    for byte in 1..=255u8 {
        assert!(next.insert(byte));
    }
    for byte in 0..=255u8 {
        assert!(!next.insert(byte));
    }
    assert_eq!(next.len(), 256);
    assert_eq!(listed(&next), (0..=255u8).collect::<Vec<u8>>());
}
