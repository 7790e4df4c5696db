//! A drill session: a catalog, the tracker over it and the exercise that is
//! currently asked.

use crate::catalog::{in_group, reads_as, row_verdict};
use crate::exercise::{
    answers_of, built_for, choice_right, correct_spelling_of, no_exercise, select_and_build,
    text_answer_right, Exercise, ExerciseType,
};
use crate::results::{
    counted_once, keys, law_snapshot_round_trip, lemma_lookup_found, lemma_lookup_index,
    lemma_lookup_permutation, lookup, sorted_by_score, views, ExerciseResults,
};
use crate::text::texts;
use crate::tracker::{
    catalog_keys, fresh_records, lemma_same_keys, sum, weights_of, GameResults,
};
use crate::words::{names, Database, WordEntry, GROUP_IDX, WORD_IDX};
use std::collections::HashMap;
use vstd::prelude::*;

verus! {

broadcast use vstd::std_specs::hash::group_hash_axioms;

/// The rows of a sheet before this one are headings.
pub const FIRST_DATA_ROW: usize = 2;

/// A drill session.
pub struct WordsGame {
    db: Database,
    results: GameResults,
    exercise: Option<Exercise>,
    asked: Option<String>,
}

/// A row of cells as a mapping from column positions to cell texts.
pub open spec fn row_of(cells: Seq<String>) -> Map<usize, String> {
    Map::new(|k: usize| k < cells.len(), |k: usize| cells[k as int])
}

/// Whether a row of cells can be read as a word.
pub open spec fn row_read(cells: Seq<String>) -> bool {
    row_verdict(row_of(cells)) is None
}

/// One of the data rows before the row `upto` reads as a word with the
/// spelling `key`.
pub open spec fn named_by_row(rows: Seq<Vec<String>>, upto: int, key: Seq<char>) -> bool {
    exists|m: int|
        FIRST_DATA_ROW <= m < upto && m < rows.len() && row_read((#[trigger] rows[m])@)
            && rows[m][0]@ == key
}

/// The last of the data rows before the row `upto` that reads as a word with
/// the spelling `key`; a negative number where there is none.
pub open spec fn last_row_for(rows: Seq<Vec<String>>, upto: int, key: Seq<char>) -> int
    decreases upto,
{
    if upto <= FIRST_DATA_ROW || upto > rows.len() {
        -1
    } else if row_read(rows[upto - 1]@) && rows[upto - 1][0]@ == key {
        upto - 1
    } else {
        last_row_for(rows, upto - 1, key)
    }
}

/// The entry is what the rows before the row `upto` make of its word: what
/// the last row with its spelling says, in the group that this row names; or,
/// where no row has its spelling, what the catalog `before` held. `groups` is
/// the list of group names once the rows are read.
pub open spec fn settled_by_rows(
    before: Database,
    rows: Seq<Vec<String>>,
    upto: int,
    groups: Seq<Seq<char>>,
    w: WordEntry,
) -> bool {
    let m = last_row_for(rows, upto, w.key());
    if m >= 0 {
        reads_as(row_of(rows[m]@), w) && in_group(groups, w, rows[m][GROUP_IDX as int]@)
    } else {
        before.words@.contains(w)
    }
}

/// Every name of `earlier` stands at the same position in `later`.
pub open spec fn extends(earlier: Seq<Seq<char>>, later: Seq<Seq<char>>) -> bool {
    earlier.len() <= later.len() && forall|i: int|
        0 <= i < earlier.len() ==> earlier[i] == later[i]
}

/// What a session says of the exercise it asks, after one of the given type
/// was asked for: the tracker has a distribution, the exercise is about a
/// catalog word that the tracker selected, and that word's answer is still to
/// be counted; or no exercise came about, for want of a distribution or of a
/// word to ask about, and none is asked.
pub open spec fn asked_about(game: &WordsGame, ex_type: ExerciseType) -> bool {
    match game.current() {
        Some(ex) => game.tracker().ready() && game.asked() is Some && game.tracker().tracks(
            game.asked()->Some_0,
        ) && exists|j: int|
            0 <= j < game.catalog().words.len() && (#[trigger] game.catalog().words[j]).key()
                == game.asked()->Some_0 && built_for(
                &game.catalog(),
                &game.catalog().words[j],
                ex_type,
                ex@,
            ),
        None => game.asked() is None && (!game.tracker().ready() || no_exercise(
            &game.catalog(),
            &game.tracker(),
            ex_type,
        )),
    }
}

/// Whether an answer can be counted: an exercise is waiting to be counted,
/// the tracker has a record of its word, and the record's counter is not
/// full.
pub open spec fn countable(game: &WordsGame, correct: bool) -> bool {
    match game.asked() {
        Some(key) => match lookup(views(game.tracker().records()), key) {
            Some(r) => if correct {
                r.correct < usize::MAX
            } else {
                r.wrong < usize::MAX
            },
            None => false,
        },
        None => false,
    }
}

/// Turns a row of cells into a mapping from column positions to cell texts.
pub fn row_map(cells: &Vec<String>) -> (map: HashMap<usize, String>)
    ensures
        map@ == row_of(cells@),
{
    let mut map: HashMap<usize, String> = HashMap::new();
    let mut k: usize = 0;
    while k < cells.len()
        invariant
            k <= cells.len(),
            map@ == row_of(cells@.take(k as int)),
        decreases cells.len() - k,
    {
        map.insert(k, cells[k].clone());
        k += 1;
        assert(map@ =~= row_of(cells@.take(k as int)));
    }
    assert(cells@.take(k as int) =~= cells@);
    map
}

impl WordsGame {
    /// The catalog of the session.
    pub closed spec fn catalog(&self) -> Database {
        self.db
    }

    /// The tracker of the session.
    pub closed spec fn tracker(&self) -> GameResults {
        self.results
    }

    /// The exercise that is asked, if any.
    pub closed spec fn current(&self) -> Option<Exercise> {
        self.exercise
    }

    /// The word whose answer is still to be counted, if any.
    pub closed spec fn asked(&self) -> Option<Seq<char>> {
        match self.asked {
            Some(key) => Some(key@),
            None => None,
        }
    }

    /// The session's invariant: a valid catalog, in which every group has one
    /// name and one identifier, and a valid tracker.
    pub closed spec fn wf(&self) -> bool {
        self.db.wf() && self.db.grouped() && self.results.wf()
    }

    /// A session with an empty catalog that asks nothing.
    pub fn create() -> (game: WordsGame)
        ensures
            game.wf(),
            game.catalog().words.len() == 0,
            game.catalog().groups.len() == 0,
            game.tracker().records().len() == 0,
            !game.tracker().ready(),
            game.current() is None,
            game.asked() is None,
    {
        WordsGame { db: Database::new(), results: GameResults::new(), exercise: None, asked: None }
    }

    /// The catalog of the session.
    pub fn get_catalog(&self) -> (db: &Database)
        ensures
            *db == self.catalog(),
    {
        &self.db
    }

    /// The tracker of the session.
    pub fn get_results(&self) -> (results: &GameResults)
        ensures
            *results == self.tracker(),
    {
        &self.results
    }

    /// Takes the rows of a sheet into the catalog and brings the tracker and
    /// its weights in line with it. The first two rows are headings. A row
    /// that cannot be read is passed over. Returns the number of words in the
    /// catalog.
    pub fn load_rows(&mut self, rows: &Vec<Vec<String>>) -> (n: usize)
        requires
            old(self).wf(),
        ensures
            final(self).wf(),
            n == final(self).catalog().words.len(),
            final(self).current() == old(self).current(),
            final(self).asked() == old(self).asked(),
            forall|k: Seq<char>| #[trigger]
                final(self).catalog().has(k) <==> old(self).catalog().has(k) || named_by_row(
                    rows@,
                    rows.len() as int,
                    k,
                ),
            forall|w: WordEntry| #[trigger]
                final(self).catalog().words@.contains(w) ==> settled_by_rows(
                    old(self).catalog(),
                    rows@,
                    rows.len() as int,
                    names(final(self).catalog().groups@),
                    w,
                ),
            final(self).catalog().grouped(),
            extends(names(old(self).catalog().groups@), names(final(self).catalog().groups@)),
            views(final(self).tracker().records()).to_multiset() == (views(
                old(self).tracker().records(),
            ) + fresh_records(
                catalog_keys(final(self).catalog()),
                keys(views(old(self).tracker().records())),
            )).to_multiset(),
            forall|j: int|
                0 <= j < final(self).catalog().words.len() ==> final(self).tracker().tracks(
                    (#[trigger] final(self).catalog().words[j]).key(),
                ),
            sorted_by_score(views(final(self).tracker().records())),
            n > 0 ==> final(self).tracker().weights_current() || sum(
                weights_of(views(final(self).tracker().records())),
            ) > u64::MAX,
    {
        let mut m: usize = FIRST_DATA_ROW;
        while m < rows.len()
            invariant
                FIRST_DATA_ROW <= m,
                self.db.wf(),
                self.db.grouped(),
                extends(names(old(self).db.groups@), names(self.db.groups@)),
                self.results == old(self).results,
                self.exercise == old(self).exercise,
                self.asked == old(self).asked,
                forall|k: Seq<char>| #[trigger]
                    self.db.has(k) <==> old(self).db.has(k) || named_by_row(rows@, m as int, k),
                m <= rows.len() || m == FIRST_DATA_ROW,
                forall|w: WordEntry| #[trigger]
                    self.db.words@.contains(w) ==> settled_by_rows(
                        old(self).db,
                        rows@,
                        m as int,
                        names(self.db.groups@),
                        w,
                    ),
            decreases rows.len() - m,
        {
            let mut map = row_map(&rows[m]);
            let ghost before = self.db;
            let ghost row = map@;
            let r = self.db.add_row(&mut map);
            proof {
                let earlier = names(before.groups@);
                let now = names(self.db.groups@);
                assert(extends(earlier, now));
                assert forall|w: WordEntry| #[trigger] self.db.words@.contains(w) implies settled_by_rows(
                    old(self).db,
                    rows@,
                    m + 1,
                    now,
                    w,
                ) by {
                    if row_read(rows[m as int]@) {
                        assert(row[WORD_IDX] == rows[m as int][0]);
                        assert(row.contains_key(GROUP_IDX));
                        assert(row[GROUP_IDX] == rows[m as int][GROUP_IDX as int]);
                        let key = rows[m as int][0]@;
                        if w.key() == key {
                            let j = choose|j: int|
                                0 <= j < self.db.words.len() && reads_as(
                                    row,
                                    #[trigger] self.db.words[j],
                                );
                            let i = choose|i: int|
                                0 <= i < self.db.words@.len() && self.db.words@[i] == w;
                            if i < j {
                                assert(self.db.words[i].key() != self.db.words[j].key());
                            } else if j < i {
                                assert(self.db.words[j].key() != self.db.words[i].key());
                            }
                            assert(in_group(now, w, row[GROUP_IDX]@));
                        } else {
                            assert(before.words@.contains(w));
                            assert(settled_by_rows(old(self).db, rows@, m as int, earlier, w));
                        }
                    } else {
                        assert(before.words@.contains(w));
                        assert(settled_by_rows(old(self).db, rows@, m as int, earlier, w));
                    }
                }
                assert forall|k: Seq<char>| #[trigger]
                    self.db.has(k) <==> old(self).db.has(k) || named_by_row(rows@, m + 1, k) by {
                    if row_read(rows[m as int]@) {
                        assert(row.contains_key(WORD_IDX));
                        assert(row[WORD_IDX] == rows[m as int][0]);
                        assert(self.db.has(k) <==> before.has(k) || k == rows[m as int][0]@);
                    } else {
                        assert(self.db.has(k) == before.has(k));
                    }
                    if named_by_row(rows@, m as int, k) {
                        let p = choose|p: int|
                            FIRST_DATA_ROW <= p < m && p < rows.len() && row_read(
                                (#[trigger] rows[p])@,
                            ) && rows[p][0]@ == k;
                        assert(FIRST_DATA_ROW <= p < m + 1 && row_read(rows[p]@));
                    }
                    if named_by_row(rows@, m + 1, k) && !named_by_row(rows@, m as int, k) {
                        let p = choose|p: int|
                            FIRST_DATA_ROW <= p < m + 1 && p < rows.len() && row_read(
                                (#[trigger] rows[p])@,
                            ) && rows[p][0]@ == k;
                        assert(p == m);
                    }
                }
            }
            m += 1;
        }
        self.results.update_with_db(&self.db);
        let ghost synced = self.results;
        let _ = self.results.update_weights();
        proof {
            if self.db.words.len() > 0 {
                let key = self.db.words[0].key();
                assert(synced.tracks(key));
                assert(synced.records().len() > 0);
            }
            assert forall|j: int| 0 <= j < self.db.words.len() implies self.results.tracks(
                (#[trigger] self.db.words[j]).key(),
            ) by {
                lemma_same_keys(
                    views(synced.records()),
                    views(self.results.records()),
                    self.db.words[j].key(),
                );
            }
        }
        self.db.words.len()
    }

    /// The tracker's records as a list of their own, for storing or sending.
    pub fn snapshot(&self) -> (out: Vec<ExerciseResults>)
        ensures
            views(out@) == views(self.tracker().records()),
    {
        self.results.snapshot()
    }

    /// Takes the records of a snapshot over, word by word, and recomputes the
    /// weights: afterwards every word of the snapshot has the snapshot's
    /// counters, and every other word has the counters it had.
    pub fn merge_results(&mut self, snapshot: &Vec<ExerciseResults>)
        requires
            old(self).wf(),
        ensures
            final(self).wf(),
            final(self).catalog() == old(self).catalog(),
            final(self).current() == old(self).current(),
            final(self).asked() == old(self).asked(),
            forall|k: Seq<char>|
                #![trigger lookup(views(final(self).tracker().records()), k)]
                lookup(views(final(self).tracker().records()), k) == match lookup(
                    views(snapshot@),
                    k,
                ) {
                    Some(r) => Some(r),
                    None => lookup(views(old(self).tracker().records()), k),
                },
            sorted_by_score(views(final(self).tracker().records())),
            final(self).tracker().records().len() > 0 ==> final(self).tracker().weights_current()
                || sum(weights_of(views(final(self).tracker().records()))) > u64::MAX,
    {
        proof {
            self.results.lemma_wf();
        }
        let ghost before = views(self.results.records());
        self.results.merge_snapshot(snapshot);
        let ghost mid = self.results;
        let _ = self.results.update_weights();
        proof {
            mid.lemma_wf();
            self.results.lemma_wf();
            assert forall|k: Seq<char>|
                #![trigger lookup(views(self.results.records()), k)]
                lookup(views(self.results.records()), k) == match lookup(views(snapshot@), k) {
                    Some(r) => Some(r),
                    None => lookup(before, k),
                } by {
                law_snapshot_round_trip(before, views(snapshot@), k);
                lemma_lookup_permutation(views(mid.records()), views(self.results.records()), k);
            }
            assert(views(mid.records()).len() == views(self.results.records()).len()) by {
                assert(views(mid.records()).to_multiset().len() == views(
                    self.results.records(),
                ).to_multiset().len());
                vstd::seq_lib::to_multiset_len(views(mid.records()));
                vstd::seq_lib::to_multiset_len(views(self.results.records()));
            }
        }
    }

    /// Asks a new free-text exercise for the German word of a translation.
    /// Returns whether an exercise came about.
    pub fn create_exercise(&mut self) -> (made: bool)
        requires
            old(self).wf(),
        ensures
            final(self).wf(),
            final(self).catalog() == old(self).catalog(),
            final(self).tracker() == old(self).tracker(),
            made == final(self).current() is Some,
            !old(self).tracker().ready() ==> !made,
            asked_about(final(self), ExerciseType::TranslateRuDe),
    {
        self.create_exercise_of_type(&ExerciseType::TranslateRuDe)
    }

    /// Asks a new exercise of the given type. Returns whether an exercise came
    /// about; where none did, no exercise is asked any more.
    pub fn create_exercise_of_type(&mut self, ex_type: &ExerciseType) -> (made: bool)
        requires
            old(self).wf(),
        ensures
            final(self).wf(),
            final(self).catalog() == old(self).catalog(),
            final(self).tracker() == old(self).tracker(),
            made == final(self).current() is Some,
            !old(self).tracker().ready() ==> !made,
            asked_about(final(self), *ex_type),
    {
        match select_and_build(&self.db, &self.results, ex_type) {
            Some((i, ex)) => {
                let key = self.results.record(i).word.clone();
                let ghost j = choose|j: int|
                    0 <= j < self.db.words.len() && (#[trigger] self.db.words[j]).key()
                        == self.results.records()[i as int].word@ && built_for(
                        &self.db,
                        &self.db.words[j],
                        *ex_type,
                        ex@,
                    );
                proof {
                    assert(self.db.words[j].key() == key@);
                    assert(keys(views(self.results.records()))[i as int] == key@);
                }
                let ghost model = ex@;
                self.exercise = Some(ex);
                self.asked = Some(key);
                proof {
                    assert(self.asked() == Some(key@));
                    assert(self.tracker().tracks(key@));
                    assert(self.current()->Some_0@ == model);
                    assert(built_for(&self.catalog(), &self.catalog().words[j], *ex_type, model));
                    assert(asked_about(self, *ex_type));
                }
                true
            },
            None => {
                self.exercise = None;
                self.asked = None;
                assert(asked_about(self, *ex_type));
                false
            },
        }
    }

    /// The exercise that is asked.
    pub fn get_exercise(&self) -> (r: Option<&Exercise>)
        ensures
            match r {
                Some(ex) => self.current() == Some(*ex),
                None => self.current() is None,
            },
    {
        self.exercise.as_ref()
    }

    /// The options of the exercise, where one is asked and offers any.
    pub fn get_answers(&self) -> (r: Option<&Vec<String>>)
        ensures
            match r {
                Some(v) => self.current() is Some && answers_of(self.current()->Some_0.data@)
                    == Some(texts(v@)),
                None => self.current() is None || answers_of(self.current()->Some_0.data@) is None,
            },
    {
        match &self.exercise {
            None => None,
            Some(ex) => ex.get_answers(),
        }
    }

    /// The task of the exercise, where one is asked.
    pub fn get_task(&self) -> (r: Option<&str>)
        ensures
            match r {
                Some(t) => self.current() is Some && t@ == self.current()->Some_0.task@,
                None => self.current() is None,
            },
    {
        match &self.exercise {
            None => None,
            Some(ex) => Some(ex.task.as_str()),
        }
    }

    /// Grades a chosen option against the exercise that is asked. There has
    /// to be one: without an exercise there is nothing to grade.
    pub fn check_answer(&self, answer: usize) -> (ok: bool)
        requires
            self.current() is Some,
        ensures
            ok == choice_right(self.current()->Some_0.data@, answer),
    {
        match &self.exercise {
            None => false,
            Some(ex) => ex.check_answer(answer),
        }
    }

    /// The message for a wrong answer, where an exercise is asked.
    pub fn get_incorrent_message(&self) -> (r: Option<&str>)
        ensures
            match r {
                Some(t) => self.current() is Some && t@
                    == self.current()->Some_0.incorrect_message@,
                None => self.current() is None,
            },
    {
        match &self.exercise {
            None => None,
            Some(ex) => Some(ex.incorrect_message.as_str()),
        }
    }

    /// Whether the exercise that is asked wants a free-text answer.
    pub fn is_exercise_input(&self) -> (b: bool)
        ensures
            b == (self.current() is Some && (self.current()->Some_0.ex_type
                == ExerciseType::TranslateRuDe || self.current()->Some_0.ex_type
                == ExerciseType::VerbFormRandom)),
    {
        match &self.exercise {
            None => false,
            Some(ex) => match ex.ex_type {
                ExerciseType::TranslateRuDe | ExerciseType::VerbFormRandom => true,
                _ => false,
            },
        }
    }

    /// Grades a free-text answer against the exercise that is asked. There
    /// has to be one: without an exercise there is nothing to grade.
    pub fn check_answer_input(&self, answer: &str) -> (ok: bool)
        requires
            self.current() is Some,
        ensures
            ok == text_answer_right(self.current()->Some_0.data@, answer@),
    {
        match &self.exercise {
            None => false,
            Some(ex) => ex.check_spelling(answer),
        }
    }

    /// The answer to show after a free-text exercise, where an exercise is
    /// asked.
    pub fn get_correct_spelling(&self) -> (r: Option<&str>)
        ensures
            match r {
                Some(t) => self.current() is Some && t@ == correct_spelling_of(
                    self.current()->Some_0.data@,
                ),
                None => self.current() is None,
            },
    {
        match &self.exercise {
            None => None,
            Some(ex) => Some(ex.get_correct_spelling()),
        }
    }

    /// Counts the learner's answer to the exercise that is asked for the word
    /// it is about, and recomputes the weights. An exercise is counted once.
    /// Returns whether the answer was counted: it is not where no exercise is
    /// waiting to be counted, where the tracker has no record of the word, or
    /// where the record's counter is full.
    pub fn record_answer(&mut self, correct: bool) -> (counted: bool)
        requires
            old(self).wf(),
        ensures
            final(self).wf(),
            final(self).catalog() == old(self).catalog(),
            final(self).current() == old(self).current(),
            counted == countable(old(self), correct),
            final(self).asked() == if counted {
                None
            } else {
                old(self).asked()
            },
            forall|k: Seq<char>|
                #![trigger lookup(views(final(self).tracker().records()), k)]
                lookup(views(final(self).tracker().records()), k) == if counted
                    && old(self).asked() == Some(k) {
                    Some(
                        counted_once(
                            lookup(views(old(self).tracker().records()), k)->Some_0,
                            correct,
                        ),
                    )
                } else {
                    lookup(views(old(self).tracker().records()), k)
                },
            counted ==> final(self).tracker().weights_current() || sum(
                weights_of(views(final(self).tracker().records())),
            ) > u64::MAX,
            !counted ==> final(self).tracker().records() == old(self).tracker().records(),
            !counted ==> final(self).tracker().weights() == old(self).tracker().weights(),
            !counted ==> final(self).tracker().ready() == old(self).tracker().ready(),
    {
        let at = match &self.asked {
            None => {
                return false;
            },
            Some(key) => match self.results.position(key.as_str()) {
                None => {
                    proof {
                        self.results.lemma_wf();
                        let rs = views(self.results.records());
                        if lookup(rs, key@) is Some {
                            lemma_lookup_index(rs, key@);
                            let i = choose|i: int|
                                0 <= i < rs.len() && rs[i] == lookup(rs, key@)->Some_0 && rs[i].word
                                    == key@;
                            assert(keys(rs)[i] == key@);
                        }
                    }
                    return false;
                },
                Some(i) => i,
            },
        };
        proof {
            self.results.lemma_wf();
            lemma_lookup_found(views(self.results.records()), at as int);
        }
        let ghost before = self.results;
        let ghost key = self.asked->Some_0@;
        if !self.results.record_outcome(at, correct) {
            return false;
        }
        let ghost bumped = self.results;
        proof {
            bumped.lemma_wf();
            let a = views(before.records());
            let b = views(bumped.records());
            assert(b[at as int] == counted_once(a[at as int], correct));
            lemma_lookup_found(b, at as int);
            assert forall|k: Seq<char>| k != key implies lookup(b, k) == lookup(a, k) by {
                if lookup(a, k) is Some {
                    lemma_lookup_index(a, k);
                    let i = choose|i: int|
                        0 <= i < a.len() && a[i] == lookup(a, k)->Some_0 && a[i].word == k;
                    assert(b[i] == a[i]);
                    lemma_lookup_found(b, i);
                } else if lookup(b, k) is Some {
                    lemma_lookup_index(b, k);
                    let i = choose|i: int|
                        0 <= i < b.len() && b[i] == lookup(b, k)->Some_0 && b[i].word == k;
                    assert(a[i] == b[i]);
                    lemma_lookup_found(a, i);
                }
            }
        }
        let _ = self.results.update_weights();
        self.asked = None;
        proof {
            self.results.lemma_wf();
            assert forall|k: Seq<char>|
                lookup(views(self.results.records()), k) == lookup(views(bumped.records()), k) by {
                lemma_lookup_permutation(
                    views(bumped.records()),
                    views(self.results.records()),
                    k,
                );
            }
        }
        true
    }
}

} // verus!
