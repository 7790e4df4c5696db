//! The distractor sampler: the answer options of a multiple-choice exercise,
//! drawn from the words that share the target's group and part of speech.

use crate::random::{choose_element, shuffle};
use crate::text::str_eq;
use crate::words::{Database, Word, WordEntry, WordFacts};
use vstd::prelude::*;
use vstd::seq_lib::to_multiset_contains;

verus! {

/// At most this many options are offered.
pub const ANSWER_OPTIONS: usize = 4;

/// A draw may hit an option already taken at most this often.
pub const MAX_ATTEMPTS: usize = 1000;

/// Why no options could be put together.
#[derive(Debug, Clone, Copy, PartialEq, Eq, Structural)]
pub enum OptionsError {
    /// The draws hit options already taken too often.
    TooManyAttempts,
}

/// Whether a catalog word is a candidate for the options of a target: it
/// shares the target's group and part of speech.
pub open spec fn is_candidate(target: WordFacts, w: WordFacts) -> bool {
    w.group_id == target.group_id && w.pos == target.pos
}

/// Number of candidates among the given words.
pub open spec fn pool_size(words: Seq<WordEntry>, target: WordFacts) -> nat
    decreases words.len(),
{
    if words.len() == 0 {
        0
    } else {
        pool_size(words.drop_last(), target) + if is_candidate(target, words.last().facts()) {
            1nat
        } else {
            0nat
        }
    }
}

/// Number of options offered for a pool of the given size: the target alone
/// where the pool is empty, otherwise as many as the pool holds, up to four.
pub open spec fn option_count(pool: nat) -> nat {
    if pool == 0 {
        1
    } else if pool < ANSWER_OPTIONS {
        pool
    } else {
        ANSWER_OPTIONS as nat
    }
}

/// No two options are about the same word.
pub open spec fn options_distinct(options: Seq<&WordEntry>) -> bool {
    forall|i: int, j: int| 0 <= i < j < options.len() ==> options[i].key() != options[j].key()
}

/// The option is a candidate that the catalog holds.
pub open spec fn from_pool(db: &Database, target: &WordEntry, option: &WordEntry) -> bool {
    db.words@.contains(*option) && is_candidate(target.facts(), option.facts())
}

/// The options are the target followed by distractors from the pool, no word
/// twice.
pub open spec fn options_gathered(db: &Database, target: &WordEntry, options: Seq<&WordEntry>)
    -> bool {
    &&& options.len() >= 1
    &&& *options[0] == *target
    &&& options_distinct(options)
    &&& forall|k: int| 1 <= k < options.len() ==> from_pool(db, target, #[trigger] options[k])
}

/// What a finished set of options is: as many as the pool allows, the target
/// at the position reported as correct, every other option a candidate from
/// the catalog, and no word twice.
pub open spec fn options_drawn(
    db: &Database,
    target: &WordEntry,
    options: Seq<&WordEntry>,
    correct: int,
) -> bool {
    &&& options.len() == option_count(pool_size(db.words@, target.facts()))
    &&& 0 <= correct < options.len()
    &&& *options[correct] == *target
    &&& options_distinct(options)
    &&& forall|k: int|
        0 <= k < options.len() && k != correct ==> from_pool(db, target, #[trigger] options[k])
}

/// Finished options hold the target once, at the position reported as
/// correct, and a pool of four or more candidates gives four options.
pub proof fn law_options(db: &Database, target: &WordEntry, options: Seq<&WordEntry>, correct: int)
    requires
        options_drawn(db, target, options, correct),
    ensures
        forall|k: int|
            0 <= k < options.len() && (#[trigger] options[k]).key() == target.key() ==> k == correct,
        pool_size(db.words@, target.facts()) >= ANSWER_OPTIONS ==> options.len() == ANSWER_OPTIONS,
        1 <= options.len() <= ANSWER_OPTIONS,
{
    assert forall|k: int|
        0 <= k < options.len() && (#[trigger] options[k]).key() == target.key() implies k
        == correct by {
        if k < correct {
            assert(options[k].key() != options[correct].key());
        } else if correct < k {
            assert(options[correct].key() != options[k].key());
        }
    }
}

/// The positions `0..n` in ascending order.
pub open spec fn positions(n: nat) -> Seq<usize> {
    Seq::new(n, |i: int| i as usize)
}

/// `order` lists each of the positions `0..n` once.
pub open spec fn is_order(order: Seq<usize>, n: nat) -> bool {
    order.to_multiset() == positions(n).to_multiset()
}

/// The catalog positions of the candidates for a target, in catalog order.
pub fn candidates_of(db: &Database, target: &WordEntry) -> (out: Vec<usize>)
    ensures
        out.len() == pool_size(db.words@, target.facts()),
        forall|a: int, b: int| 0 <= a < b < out.len() ==> out[a] < out[b],
        forall|k: int|
            0 <= k < out.len() ==> (#[trigger] out[k]) < db.words.len() && is_candidate(
                target.facts(),
                db.words[out[k] as int].facts(),
            ),
{
    let group_id = target.get_group_id();
    let pos = target.get_pos();
    let mut out: Vec<usize> = Vec::new();
    let mut i: usize = 0;
    assert(db.words@.take(0) =~= Seq::<WordEntry>::empty());
    while i < db.words.len()
        invariant
            i <= db.words.len(),
            group_id == target.facts().group_id,
            pos == target.facts().pos,
            out.len() == pool_size(db.words@.take(i as int), target.facts()),
            forall|a: int, b: int| 0 <= a < b < out.len() ==> out[a] < out[b],
            forall|k: int| 0 <= k < out.len() ==> (#[trigger] out[k]) < i,
            forall|k: int|
                0 <= k < out.len() ==> (#[trigger] out[k]) < db.words.len() && is_candidate(
                    target.facts(),
                    db.words[out[k] as int].facts(),
                ),
        decreases db.words.len() - i,
    {
        assert(db.words@.take(i + 1).drop_last() =~= db.words@.take(i as int));
        let w = &db.words[i];
        if w.get_group_id() == group_id && w.get_pos() == pos {
            out.push(i);
        }
        i += 1;
    }
    assert(db.words@.take(i as int) =~= db.words@);
    out
}

/// Whether one of the options is about the same word as the candidate.
pub fn is_used(options: &Vec<&WordEntry>, candidate: &WordEntry) -> (used: bool)
    ensures
        used == exists|k: int| 0 <= k < options.len() && (#[trigger] options[k]).key() == candidate.key(),
{
    let mut k: usize = 0;
    while k < options.len()
        invariant
            k <= options.len(),
            forall|m: int| 0 <= m < k ==> (#[trigger] options[m]).key() != candidate.key(),
        decreases options.len() - k,
    {
        if str_eq(options[k].get_word(), candidate.get_word()) {
            return true;
        }
        k += 1;
    }
    false
}

/// Takes a drawn candidate into the options unless its word is among them
/// already. Returns whether it was taken.
pub fn consider_candidate<'a>(
    db: &'a Database,
    target: &WordEntry,
    options: &mut Vec<&'a WordEntry>,
    drawn: usize,
) -> (taken: bool)
    requires
        options_gathered(db, target, old(options)@),
        drawn < db.words.len(),
        is_candidate(target.facts(), db.words[drawn as int].facts()),
    ensures
        options_gathered(db, target, final(options)@),
        taken == !exists|k: int|
            0 <= k < old(options).len() && (#[trigger] old(options)[k]).key()
                == db.words[drawn as int].key(),
        final(options)@ == if taken {
            old(options)@.push(&db.words[drawn as int])
        } else {
            old(options)@
        },
{
    let candidate = &db.words[drawn];
    if is_used(options, candidate) {
        false
    } else {
        options.push(candidate);
        assert(db.words@[drawn as int] == *candidate);
        true
    }
}

/// Whether one of the options is about the same word as `w`.
pub open spec fn taken_already(options: Seq<&WordEntry>, w: WordEntry) -> bool {
    exists|k: int| 0 <= k < options.len() && (#[trigger] options[k]).key() == w.key()
}

/// One step of the draws: a drawn candidate whose word is not among the
/// options yet is taken; any other draw is counted as a failed attempt, and
/// the draws are given up with the attempt that reaches the bound.
pub fn count_draw<'a>(
    db: &'a Database,
    target: &WordEntry,
    options: &mut Vec<&'a WordEntry>,
    attempts: &mut usize,
    drawn: usize,
) -> (r: Result<(), OptionsError>)
    requires
        options_gathered(db, target, old(options)@),
        drawn < db.words.len(),
        is_candidate(target.facts(), db.words[drawn as int].facts()),
        *old(attempts) < MAX_ATTEMPTS,
    ensures
        options_gathered(db, target, final(options)@),
        final(options)@ == if taken_already(old(options)@, db.words[drawn as int]) {
            old(options)@
        } else {
            old(options)@.push(&db.words[drawn as int])
        },
        *final(attempts) == if taken_already(old(options)@, db.words[drawn as int]) {
            *old(attempts) + 1
        } else {
            *old(attempts) as int
        },
        r == if taken_already(old(options)@, db.words[drawn as int]) && *old(attempts) + 1
            >= MAX_ATTEMPTS {
            Err::<(), OptionsError>(OptionsError::TooManyAttempts)
        } else {
            Ok::<(), OptionsError>(())
        },
{
    if consider_candidate(db, target, options, drawn) {
        Ok(())
    } else {
        *attempts += 1;
        if *attempts >= MAX_ATTEMPTS {
            Err(OptionsError::TooManyAttempts)
        } else {
            Ok(())
        }
    }
}

/// Puts the options into the given order and reports where the first of them,
/// the target, has gone.
pub fn arrange<'a>(options: &Vec<&'a WordEntry>, order: &Vec<usize>) -> (out: (
    Vec<&'a WordEntry>,
    usize,
))
    requires
        options.len() >= 1,
        is_order(order@, options.len() as nat),
    ensures
        out.0.len() == options.len(),
        order.len() == options.len(),
        out.1 < options.len(),
        order[out.1 as int] == 0,
        forall|k: int|
            0 <= k < options.len() ==> (#[trigger] order[k]) < options.len() && out.0[k]
                == options[order[k] as int],
        forall|i: int, j: int| 0 <= i < j < order.len() ==> order[i] != order[j],
{
    let n = options.len();
    proof {
        lemma_order(order@, n as nat);
    }
    let mut out: Vec<&'a WordEntry> = Vec::new();
    let mut correct: usize = 0;
    let mut found = false;
    let mut k: usize = 0;
    while k < n
        invariant
            k <= n,
            n == options.len(),
            n == order.len(),
            out.len() == k,
            forall|m: int| 0 <= m < n ==> (#[trigger] order[m]) < n,
            forall|m: int| 0 <= m < k ==> out[m] == options[(#[trigger] order[m]) as int],
            order@.contains(0usize),
            found ==> correct < k && order[correct as int] == 0,
            !found ==> forall|m: int| 0 <= m < k ==> (#[trigger] order[m]) != 0,
        decreases n - k,
    {
        let idx = order[k];
        out.push(options[idx]);
        if idx == 0 && !found {
            correct = k;
            found = true;
        }
        k += 1;
    }
    proof {
        if !found {
            let m = choose|m: int| 0 <= m < order@.len() && order@[m] == 0usize;
            assert(order[m] != 0);
        }
    }
    (out, correct)
}

/// The positions `0..n` in ascending order.
pub fn positions_upto(n: usize) -> (out: Vec<usize>)
    ensures
        out@ == positions(n as nat),
{
    let mut out: Vec<usize> = Vec::new();
    let mut i: usize = 0;
    while i < n
        invariant
            i <= n,
            out@ == positions(i as nat),
        decreases n - i,
    {
        out.push(i);
        i += 1;
        assert(out@ =~= positions(i as nat));
    }
    out
}

/// The answer options for a target word: the target and distractors drawn at
/// random from the catalog words of its group and part of speech, in random
/// order, with the position of the target. The draws are given up once they
/// have hit an option already taken a thousand times.
pub fn fetch_word_options<'a>(db: &'a Database, word: &'a WordEntry) -> (r: Result<
    (Vec<&'a WordEntry>, usize),
    OptionsError,
>)
    ensures
        match r {
            Ok(out) => options_drawn(db, word, out.0@, out.1 as int),
            Err(e) => e == OptionsError::TooManyAttempts && pool_size(db.words@, word.facts()) > 1,
        },
{
    let mut rng = rand::thread_rng();
    let candidates = candidates_of(db, word);
    let mut options: Vec<&'a WordEntry> = Vec::new();
    options.push(word);
    let wanted = if candidates.len() < ANSWER_OPTIONS {
        candidates.len()
    } else {
        ANSWER_OPTIONS
    };
    let mut attempts: usize = 0;
    while options.len() < wanted
        invariant
            options_gathered(db, word, options@),
            wanted <= ANSWER_OPTIONS,
            wanted <= candidates.len(),
            candidates.len() == pool_size(db.words@, word.facts()),
            options.len() <= wanted || options.len() == 1,
            attempts < MAX_ATTEMPTS,
            forall|k: int|
                0 <= k < candidates.len() ==> (#[trigger] candidates[k]) < db.words.len()
                    && is_candidate(word.facts(), db.words[candidates[k] as int].facts()),
        decreases (wanted - options.len()) + (MAX_ATTEMPTS - attempts),
    {
        let drawn = match choose_element(&candidates, &mut rng) {
            Some(j) => *j,
            None => {
                return Err(OptionsError::TooManyAttempts);
            },
        };
        proof {
            let k = choose|k: int| 0 <= k < candidates@.len() && candidates@[k] == drawn;
            assert(candidates[k] == drawn);
        }
        match count_draw(db, word, &mut options, &mut attempts, drawn) {
            Ok(_) => {},
            Err(e) => {
                return Err(e);
            },
        }
    }
    let mut order = positions_upto(options.len());
    shuffle(&mut order, &mut rng);
    let (arranged, correct) = arrange(&options, &order);
    proof {
        let opts = arranged@;
        assert forall|i: int, j: int| 0 <= i < j < opts.len() implies opts[i].key()
            != opts[j].key() by {
            let a = order[i] as int;
            let b = order[j] as int;
            assert(opts[i] == options[a] && opts[j] == options[b]);
            assert(order[i] != order[j]);
            if a < b {
                assert(options[a].key() != options[b].key());
            } else {
                assert(options[b].key() != options[a].key());
            }
        }
        assert forall|k: int| 0 <= k < opts.len() && k != correct implies from_pool(
            db,
            word,
            #[trigger] opts[k],
        ) by {
            let a = order[k] as int;
            assert(opts[k] == options[a]);
            if k < correct {
                assert(order[k] != order[correct as int]);
            } else {
                assert(order[correct as int] != order[k]);
            }
            assert(from_pool(db, word, options[a]));
        }
        assert(opts[correct as int] == options[0]);
    }
    Ok((arranged, correct))
}

/// An order of `n` positions has `n` entries, each below `n` and none twice,
/// and holds every position.
pub proof fn lemma_order(order: Seq<usize>, n: nat)
    requires
        is_order(order, n),
        n <= usize::MAX,
    ensures
        order.len() == n,
        forall|k: int| 0 <= k < n ==> (#[trigger] order[k]) < n,
        forall|p: usize| p < n ==> #[trigger] order.contains(p),
        forall|i: int, j: int| 0 <= i < j < order.len() ==> order[i] != order[j],
{
    broadcast use vstd::seq_lib::group_to_multiset_ensures;

    let ids = positions(n);
    assert(order.len() == n) by {
        assert(order.to_multiset().len() == ids.to_multiset().len());
    }
    assert forall|k: int| 0 <= k < n implies (#[trigger] order[k]) < n by {
        to_multiset_contains(order, order[k]);
        to_multiset_contains(ids, order[k]);
        assert(order.contains(order[k]));
        assert(ids.contains(order[k]));
        let m = choose|m: int| 0 <= m < ids.len() && ids[m] == order[k];
        assert(ids[m] == m as usize);
    }
    assert forall|p: usize| p < n implies #[trigger] order.contains(p) by {
        assert(ids[p as int] == p);
        assert(ids.contains(p));
        to_multiset_contains(ids, p);
        to_multiset_contains(order, p);
    }
    assert forall|i: int, j: int| 0 <= i < ids.len() && 0 <= j < ids.len() && i != j implies ids[i]
        != ids[j] by {
        assert(ids[i] == i && ids[j] == j);
    }
    assert(ids.no_duplicates());
    ids.lemma_multiset_has_no_duplicates();
    order.lemma_multiset_has_no_duplicates_conv();
}

} // verus!
