use markov::{First, MarkovIter, MarkovStates, NGram, RandomSource, ThreadSource};
use std::sync::Arc;

fn pulled<R: RandomSource, const N: usize>(iter: &mut MarkovIter<R, N>, limit: usize) -> Vec<u8> {
    let mut bytes = Vec::new();
    while bytes.len() < limit {
        match iter.next() {
            Some(byte) => bytes.push(byte),
            None => break,
        }
    }
    bytes
}

#[test]
fn walk_over_abcbab_from_ab_cycles_through_c_b_a_b() {
    let states = Arc::new(MarkovStates::<2>::from(b"abcbab").unwrap());
    let start = Some(NGram::from(*b"ab"));
    let mut iter = MarkovIter::new(states.clone(), start, ThreadSource::new());
    assert_eq!(pulled(&mut iter, 4), b"cbab".to_vec());
    assert_eq!(iter.state(), Some(NGram::from(*b"ab")));
    assert_eq!(pulled(&mut iter, 8), b"cbabcbab".to_vec());
    let mut iter = MarkovIter::new(states, start, First);
    assert_eq!(pulled(&mut iter, 9), b"cbabcbabc".to_vec());
}

#[test]
fn walk_from_the_table_itself_starts_at_its_first_window() {
    let states = MarkovStates::<2>::from(b"abcbab").unwrap();
    let mut iter = states.into_iter(First);
    assert_eq!(iter.state(), Some(NGram::from(*b"ab")));
    assert_eq!(pulled(&mut iter, 5), b"cbabc".to_vec());
}

#[test]
fn walk_over_the_empty_table_emits_nothing() {
    let mut iter = MarkovStates::<2>::from(b"ab").unwrap().into_iter(ThreadSource::new());
    assert_eq!(iter.state(), None);
    assert_eq!(iter.next(), None);
    assert_eq!(iter.next(), None);
    let mut iter = MarkovStates::<2>::default().into_iter(First);
    assert_eq!(iter.next(), None);
}

#[test]
fn walk_from_a_window_that_is_not_listed_ends_at_once() {
    let states = Arc::new(MarkovStates::<2>::from(b"abcbab").unwrap());
    let mut iter = MarkovIter::new(states, Some(NGram::from(*b"zz")), ThreadSource::new());
    assert_eq!(iter.remaining_choices(), 0);
    assert_eq!(iter.next(), None);
    assert_eq!(iter.state(), None);
    assert_eq!(iter.next(), None);
}

#[test]
fn walk_without_a_start_emits_nothing() {
    let states = Arc::new(MarkovStates::<2>::from(b"abcbab").unwrap());
    let mut iter = MarkovIter::new(states, None, First);
    assert_eq!(iter.state(), None);
    assert_eq!(iter.remaining_choices(), 0);
    assert_eq!(iter.next(), None);
    assert_eq!(iter.advance(0), None);
    assert_eq!(iter.state(), None);
}

#[test]
fn walk_ends_for_good_at_a_dead_end() {
    let mut iter = MarkovStates::<2>::from(b"abcd").unwrap().into_iter(ThreadSource::new());
    assert_eq!(iter.next(), Some(b'c'));
    assert_eq!(iter.next(), Some(b'd'));
    assert_eq!(iter.state(), Some(NGram::from(*b"cd")));
    assert_eq!(iter.next(), None);
    assert_eq!(iter.state(), None);
    for _ in 0..10 {
        assert_eq!(iter.next(), None);
        assert_eq!(iter.state(), None);
    }
}

#[test]
fn dead_end_is_found_at_the_step_after_the_last_byte() {
    let mut iter = MarkovStates::<1>::from(b"ab").unwrap().into_iter(First);
    assert_eq!(iter.remaining_choices(), 1);
    assert_eq!(iter.next(), Some(b'b'));
    assert_eq!(iter.state(), Some(NGram::from(*b"b")));
    assert_eq!(iter.remaining_choices(), 0);
    assert_eq!(iter.next(), None);
    assert_eq!(iter.state(), None);
}

#[test]
fn every_emitted_byte_follows_the_window_of_its_step() {
    let corpus = b"she sells sea shells by the sea shore; the shells she sells are sea shells";
    let states = Arc::new(MarkovStates::<2>::from(corpus).unwrap());
    for _ in 0..20 {
        let mut iter = MarkovIter::new(states.clone(), states.first_state(), ThreadSource::new());
        for _ in 0..300 {
            let before = iter.state();
            match iter.next() {
                Some(byte) => {
                    let window = before.unwrap();
                    let next = states.get(&window).unwrap();
                    assert!((0..next.len()).any(|i| next.get(i) == byte));
                    let [_, second] = window.to_bytes();
                    assert_eq!(iter.state(), Some(NGram::from([second, byte])));
                    assert!(corpus.windows(3).any(|w| w == [window.to_bytes()[0], second, byte]));
                }
                None => {
                    assert!(before.map_or(true, |window| states.get(&window).is_none()));
                    assert_eq!(iter.state(), None);
                    break;
                }
            }
        }
    }
}

#[test]
fn first_source_makes_the_walk_reproducible() {
    let corpus = b"abracadabra";
    let mut first = MarkovStates::<1>::from(corpus).unwrap().into_iter(First);
    let mut second = MarkovStates::<1>::from(corpus).unwrap().into_iter(First);
    let a = pulled(&mut first, 12);
    let b = pulled(&mut second, 12);
    assert_eq!(a, b"brabrabrabra".to_vec());
    assert_eq!(a, b);
    assert_eq!(first.state(), second.state());
}

#[test]
fn first_source_takes_the_follower_seen_first() {
    let states = Arc::new(MarkovStates::<1>::from(b"azayazax").unwrap());
    let mut iter = MarkovIter::new(states, Some(NGram::from(*b"a")), First);
    assert_eq!(iter.remaining_choices(), 3);
    assert_eq!(pulled(&mut iter, 6), b"zazaza".to_vec());
}

#[test]
fn advance_emits_the_follower_at_the_given_index() {
    let states = Arc::new(MarkovStates::<1>::from(b"abracadabra").unwrap());
    let mut iter = MarkovIter::new(states, Some(NGram::from(*b"a")), First);
    assert_eq!(iter.remaining_choices(), 3);
    assert_eq!(iter.advance(2), Some(b'd'));
    assert_eq!(iter.state(), Some(NGram::from(*b"d")));
    assert_eq!(iter.remaining_choices(), 1);
    assert_eq!(iter.advance(0), Some(b'a'));
    assert_eq!(iter.advance(1), Some(b'c'));
    assert_eq!(iter.advance(0), Some(b'a'));
    assert_eq!(iter.advance(0), Some(b'b'));
    assert_eq!(iter.advance(0), Some(b'r'));
    assert_eq!(iter.state(), Some(NGram::from(*b"r")));
}

#[test]
fn advance_at_a_dead_end_ends_the_walk() {
    let states = Arc::new(MarkovStates::<2>::from(b"abc").unwrap());
    let mut iter = MarkovIter::new(states, Some(NGram::from(*b"ab")), First);
    assert_eq!(iter.advance(0), Some(b'c'));
    assert_eq!(iter.state(), Some(NGram::from(*b"bc")));
    assert_eq!(iter.advance(0), None);
    assert_eq!(iter.state(), None);
    assert_eq!(iter.advance(0), None);
}

#[test]
fn two_walks_over_one_table_do_not_disturb_each_other() {
    let states = Arc::new(MarkovStates::<2>::from(b"abcbab").unwrap());
    let mut one = MarkovIter::new(states.clone(), Some(NGram::from(*b"ab")), First);
    let mut two = MarkovIter::new(states.clone(), Some(NGram::from(*b"cb")), First);
    assert_eq!(one.next(), Some(b'c'));
    assert_eq!(two.next(), Some(b'a'));
    assert_eq!(one.next(), Some(b'b'));
    assert_eq!(two.next(), Some(b'b'));
    assert_eq!(one.state(), Some(NGram::from(*b"cb")));
    assert_eq!(two.state(), Some(NGram::from(*b"ab")));
    assert_eq!(states.len(), 4);
}

#[test]
fn random_walk_over_a_rich_table_uses_more_than_one_follower() {
    let states = Arc::new(MarkovStates::<1>::from(b"abacadaeafa").unwrap());
    let mut iter = MarkovIter::new(states, Some(NGram::from(*b"a")), ThreadSource::new());
    let bytes = pulled(&mut iter, 400);
    assert_eq!(bytes.len(), 400);
    let mut seen = std::collections::BTreeSet::new();
    for pair in bytes.chunks(2) {
        seen.insert(pair[0]);
        assert_eq!(pair[1], b'a');
    }
    assert!(seen.len() > 1);
    assert!(seen.iter().all(|byte| b"bcdef".contains(byte)));
}
