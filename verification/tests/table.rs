use markov::{BuildError, MarkovStates, NGram, Successors};

fn listed(next: &Successors) -> Vec<u8> {
    (0..next.len()).map(|i| next.get(i)).collect()
}

fn followers<const N: usize>(states: &MarkovStates<N>, window: &[u8; N]) -> Option<Vec<u8>> {
    states.get(&NGram::from(*window)).map(listed)
}

#[test]
fn table_of_abcbab_lists_four_windows_with_one_follower_each() {
    let states = MarkovStates::<2>::from(b"abcbab").unwrap();
    assert_eq!(states.len(), 4);
    assert_eq!(followers(&states, b"ab"), Some(vec![b'c']));
    assert_eq!(followers(&states, b"bc"), Some(vec![b'b']));
    assert_eq!(followers(&states, b"cb"), Some(vec![b'a']));
    assert_eq!(followers(&states, b"ba"), Some(vec![b'b']));
    assert_eq!(followers(&states, b"aa"), None);
}

#[test]
fn window_size_zero_is_refused() {
    assert_eq!(MarkovStates::<0>::from(b"abc").err(), Some(BuildError::ZeroWindow));
    assert_eq!(MarkovStates::<0>::from(b"").err(), Some(BuildError::ZeroWindow));
}

#[test]
fn positive_window_size_is_accepted_for_any_corpus() {
    assert!(MarkovStates::<1>::from(b"").is_ok());
    assert!(MarkovStates::<1>::from(b"a").is_ok());
    assert!(MarkovStates::<5>::from(b"abc").is_ok());
    assert!(MarkovStates::<3>::from(&[0u8, 255, 0, 255, 7]).is_ok());
}

#[test]
fn building_twice_gives_the_same_table() {
    let corpus = b"the theory of the thing that thinks";
    let a = MarkovStates::<2>::from(corpus).unwrap();
    let b = MarkovStates::<2>::from(corpus).unwrap();
    assert_eq!(a.len(), b.len());
    assert_eq!(a.first_state(), b.first_state());
    for at in 0..corpus.len() - 2 {
        let window = NGram::<2>::from_slice(corpus, at).unwrap();
        let in_a = a.get(&window).map(listed);
        let in_b = b.get(&window).map(listed);
        assert!(in_a.is_some());
        assert_eq!(in_a, in_b);
    }
}

#[test]
fn every_window_of_the_corpus_is_listed_with_exactly_its_followers() {
    let states = MarkovStates::<1>::from(b"abracadabra").unwrap();
    assert_eq!(states.len(), 5);
    assert_eq!(followers(&states, b"a"), Some(vec![b'b', b'c', b'd']));
    assert_eq!(followers(&states, b"b"), Some(vec![b'r']));
    assert_eq!(followers(&states, b"r"), Some(vec![b'a']));
    assert_eq!(followers(&states, b"c"), Some(vec![b'a']));
    assert_eq!(followers(&states, b"d"), Some(vec![b'a']));
    assert_eq!(followers(&states, b"e"), None);
}

#[test]
fn the_last_window_has_no_entry_unless_it_stood_earlier() {
    let states = MarkovStates::<2>::from(b"abcd").unwrap();
    assert_eq!(states.len(), 2);
    assert_eq!(followers(&states, b"ab"), Some(vec![b'c']));
    assert_eq!(followers(&states, b"bc"), Some(vec![b'd']));
    assert_eq!(followers(&states, b"cd"), None);
}

#[test]
fn a_follower_seen_twice_is_recorded_once() {
    let states = MarkovStates::<1>::from(b"ababab").unwrap();
    assert_eq!(states.len(), 2);
    assert_eq!(followers(&states, b"a"), Some(vec![b'b']));
    assert_eq!(followers(&states, b"b"), Some(vec![b'a']));
}

#[test]
fn followers_are_listed_in_the_order_of_first_sight() {
    let states = MarkovStates::<1>::from(b"azayazax").unwrap();
    assert_eq!(followers(&states, b"a"), Some(vec![b'z', b'y', b'x']));
    assert_eq!(followers(&states, b"z"), Some(vec![b'a']));
    assert_eq!(followers(&states, b"y"), Some(vec![b'a']));
}

#[test]
fn corpus_shorter_than_a_window_and_a_byte_gives_the_empty_table() {
    for corpus in [&b""[..], &b"a"[..], &b"ab"[..], &b"abc"[..]] {
        let states = MarkovStates::<3>::from(corpus).unwrap();
        assert_eq!(states.len(), 0);
        assert_eq!(states.first_state(), None);
        assert_eq!(followers(&states, b"abc"), None);
    }
}

#[test]
fn corpus_of_a_window_and_one_byte_gives_one_entry() {
    let states = MarkovStates::<3>::from(b"abcd").unwrap();
    assert_eq!(states.len(), 1);
    assert_eq!(followers(&states, b"abc"), Some(vec![b'd']));
    assert_eq!(followers(&states, b"bcd"), None);
}

#[test]
fn the_first_window_listed_is_the_start_of_the_corpus() {
    let states = MarkovStates::<3>::from(b"hello world").unwrap();
    assert_eq!(states.first_state(), Some(NGram::from(*b"hel")));
    let states = MarkovStates::<1>::from(b"zaza").unwrap();
    assert_eq!(states.first_state(), Some(NGram::from(*b"z")));
}

#[test]
fn the_default_table_lists_nothing() {
    let states = MarkovStates::<2>::default();
    assert_eq!(states.len(), 0);
    assert_eq!(states.first_state(), None);
    assert_eq!(followers(&states, b"ab"), None);
}

#[test]
fn bytes_that_are_no_text_are_tabulated_like_any_other() {
    let states = MarkovStates::<2>::from(&[0u8, 255, 0, 255, 128]).unwrap();
    assert_eq!(states.len(), 2);
    assert_eq!(followers(&states, &[0, 255]), Some(vec![0, 128]));
    assert_eq!(followers(&states, &[255, 0]), Some(vec![255]));
}
