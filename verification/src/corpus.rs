//! What a corpus says about its windows: where a window stands, which byte
//! follows it there, and when a list of windows with their followers is the
//! table of a corpus.

use crate::listing::{
    lemma_list_starts, lemma_lists_next, lemma_lists_nothing, lemma_one_list, lists, shown_at,
    shown_before, with_event,
};
use vstd::prelude::*;

verus! {

/// `window` stands at position `at` of the corpus and a byte comes after it.
pub open spec fn window_at(corpus: Seq<u8>, n: nat, at: int, window: Seq<u8>) -> bool {
    &&& 0 <= at
    &&& at + n < corpus.len()
    &&& corpus.subrange(at, at + n) == window
}

/// `window` stands at position `at` of the corpus and `byte` comes after it.
pub open spec fn follows_at(corpus: Seq<u8>, n: nat, at: int, window: Seq<u8>, byte: u8) -> bool {
    &&& window_at(corpus, n, at, window)
    &&& corpus[at + n] == byte
}

/// `window` stands somewhere in the corpus, with a byte after it.
pub open spec fn seen(corpus: Seq<u8>, n: nat, window: Seq<u8>) -> bool {
    exists|at: int| #[trigger] window_at(corpus, n, at, window)
}

/// `byte` comes after `window` somewhere in the corpus.
pub open spec fn followed(corpus: Seq<u8>, n: nat, window: Seq<u8>, byte: u8) -> bool {
    exists|at: int| #[trigger] follows_at(corpus, n, at, window, byte)
}

/// The number of positions at which a window with a byte after it stands.
pub open spec fn positions(corpus: Seq<u8>, n: nat) -> nat {
    if corpus.len() > n {
        (corpus.len() - n) as nat
    } else {
        0
    }
}

/// What each position of the corpus shows: the window that stands there.
pub open spec fn windows_shown(corpus: Seq<u8>, n: nat) -> Seq<Option<Seq<u8>>> {
    Seq::new(positions(corpus, n), |at: int| Some(corpus.subrange(at, at + n)))
}

/// What each position of the corpus shows of `window`: the byte that comes
/// after the window where it stands there, and nothing elsewhere.
pub open spec fn followers_shown(corpus: Seq<u8>, n: nat, window: Seq<u8>) -> Seq<Option<u8>> {
    Seq::new(
        positions(corpus, n),
        |at: int|
            if corpus.subrange(at, at + n) == window {
                Some(corpus[at + n])
            } else {
                None
            },
    )
}

/// `keys` and `nexts` are the table of the first `limit` positions of the
/// corpus: the windows that stand there, each once and in the order of first
/// sight, and beside each the bytes that follow it there, each once and in
/// the order of first sight.
pub open spec fn tabulates(
    keys: Seq<Seq<u8>>,
    nexts: Seq<Seq<u8>>,
    corpus: Seq<u8>,
    n: nat,
    limit: int,
) -> bool {
    &&& keys.len() == nexts.len()
    &&& lists(keys, windows_shown(corpus, n), limit)
    &&& forall|i: int|
        0 <= i < keys.len() ==> lists(
            #[trigger] nexts[i],
            followers_shown(corpus, n, keys[i]),
            limit,
        )
}

/// A window is listed in the table of a corpus just when it stands in the
/// corpus with a byte after it.
pub proof fn lemma_windows_listed(keys: Seq<Seq<u8>>, corpus: Seq<u8>, n: nat, window: Seq<u8>)
    requires
        lists(keys, windows_shown(corpus, n), positions(corpus, n) as int),
    ensures
        keys.contains(window) <==> seen(corpus, n, window),
{
    let events = windows_shown(corpus, n);
    let limit = positions(corpus, n) as int;
    if seen(corpus, n, window) {
        let at = choose|at: int| #[trigger] window_at(corpus, n, at, window);
        assert(at < limit && shown_at(events, at, window));
    }
    if shown_before(events, limit, window) {
        let at = choose|at: int| at < limit && #[trigger] shown_at(events, at, window);
        assert(window_at(corpus, n, at, window));
    }
}

/// A byte is listed after a window in the table of a corpus just when it
/// follows the window somewhere in the corpus.
pub proof fn lemma_followers_listed(
    next: Seq<u8>,
    corpus: Seq<u8>,
    n: nat,
    window: Seq<u8>,
    byte: u8,
)
    requires
        lists(next, followers_shown(corpus, n, window), positions(corpus, n) as int),
    ensures
        next.contains(byte) <==> followed(corpus, n, window, byte),
{
    let events = followers_shown(corpus, n, window);
    let limit = positions(corpus, n) as int;
    if followed(corpus, n, window, byte) {
        let at = choose|at: int| #[trigger] follows_at(corpus, n, at, window, byte);
        assert(at < limit && shown_at(events, at, byte));
    }
    if shown_before(events, limit, byte) {
        let at = choose|at: int| at < limit && #[trigger] shown_at(events, at, byte);
        assert(follows_at(corpus, n, at, window, byte));
    }
}

/// Before anything is read the table is empty.
pub proof fn lemma_tabulates_nothing(corpus: Seq<u8>, n: nat)
    ensures
        tabulates(Seq::empty(), Seq::empty(), corpus, n, 0),
{
    lemma_lists_nothing(windows_shown(corpus, n), 0);
}

/// Reading position `at`, where the window stands that the table lists at
/// `i`: the byte after it joins that window's followers unless it is among
/// them.
pub proof fn lemma_tabulates_known(
    keys: Seq<Seq<u8>>,
    nexts: Seq<Seq<u8>>,
    corpus: Seq<u8>,
    n: nat,
    at: int,
    i: int,
)
    requires
        tabulates(keys, nexts, corpus, n, at),
        0 <= i < keys.len(),
        window_at(corpus, n, at, keys[i]),
    ensures
        tabulates(
            keys,
            nexts.update(i, with_event(nexts[i], Some(corpus[at + n]))),
            corpus,
            n,
            at + 1,
        ),
{
    let after = nexts.update(i, with_event(nexts[i], Some(corpus[at + n])));
    lemma_lists_next(keys, windows_shown(corpus, n), at);
    assert forall|k: int| 0 <= k < keys.len() implies lists(
        #[trigger] after[k],
        followers_shown(corpus, n, keys[k]),
        at + 1,
    ) by {
        assert(lists(nexts[k], followers_shown(corpus, n, keys[k]), at));
        lemma_lists_next(nexts[k], followers_shown(corpus, n, keys[k]), at);
    }
}

/// Reading position `at`, where a window stands that the table does not
/// list: it joins the table last, with the byte after it as its only
/// follower.
pub proof fn lemma_tabulates_new(
    keys: Seq<Seq<u8>>,
    nexts: Seq<Seq<u8>>,
    corpus: Seq<u8>,
    n: nat,
    at: int,
    window: Seq<u8>,
)
    requires
        tabulates(keys, nexts, corpus, n, at),
        window_at(corpus, n, at, window),
        !keys.contains(window),
    ensures
        tabulates(keys.push(window), nexts.push(seq![corpus[at + n]]), corpus, n, at + 1),
{
    let keys2 = keys.push(window);
    let nexts2 = nexts.push(seq![corpus[at + n]]);
    let windows = windows_shown(corpus, n);
    lemma_lists_next(keys, windows, at);
    assert forall|k: int| 0 <= k < keys2.len() implies lists(
        #[trigger] nexts2[k],
        followers_shown(corpus, n, keys2[k]),
        at + 1,
    ) by {
        let events = followers_shown(corpus, n, keys2[k]);
        if k < keys.len() {
            assert(lists(nexts[k], events, at));
            assert(keys.contains(keys[k]));
            lemma_lists_next(nexts[k], events, at);
        } else {
            assert forall|p: int| 0 <= p < at && p < events.len() implies events[p] is None by {
                if events[p] is Some {
                    assert(shown_at(windows, p, window));
                    assert(shown_before(windows, at, window));
                }
            }
            lemma_lists_nothing(events, at);
            lemma_lists_next(Seq::<u8>::empty(), events, at);
            assert(with_event(Seq::<u8>::empty(), events[at]) =~= seq![corpus[at + n]]);
        }
    }
}

/// The table of a corpus is determined by the corpus: two lists of windows
/// and followers that both tabulate it are equal.
pub proof fn lemma_one_table(
    keys: Seq<Seq<u8>>,
    nexts: Seq<Seq<u8>>,
    keys2: Seq<Seq<u8>>,
    nexts2: Seq<Seq<u8>>,
    corpus: Seq<u8>,
    n: nat,
    limit: int,
)
    requires
        tabulates(keys, nexts, corpus, n, limit),
        tabulates(keys2, nexts2, corpus, n, limit),
    ensures
        keys == keys2,
        nexts == nexts2,
{
    lemma_one_list(keys, keys2, windows_shown(corpus, n), limit);
    assert forall|i: int| 0 <= i < nexts.len() implies nexts[i] == nexts2[i] by {
        lemma_one_list(nexts[i], nexts2[i], followers_shown(corpus, n, keys[i]), limit);
    }
    assert(nexts =~= nexts2);
}

/// The window that the table of a corpus lists first is the one with which
/// the corpus begins.
pub proof fn lemma_first_window(keys: Seq<Seq<u8>>, nexts: Seq<Seq<u8>>, corpus: Seq<u8>, n: nat)
    requires
        tabulates(keys, nexts, corpus, n, positions(corpus, n) as int),
        corpus.len() > n,
    ensures
        keys.len() > 0,
        keys[0] == corpus.subrange(0, n as int),
{
    lemma_list_starts(
        keys,
        windows_shown(corpus, n),
        positions(corpus, n) as int,
        corpus.subrange(0, n as int),
    );
}

} // verus!
