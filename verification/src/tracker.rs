//! The performance tracker and the weighted selector built on it: one record
//! per word, a weight per record that favours weak words, and the draws that
//! pick the next word to drill.

use crate::catalog::lemma_unique_entry;
use crate::random::{dist_weights, sample_index, total_weight, weighted_index, WeightedDist};
use crate::results::{
    counted_once, index_of_key, keys, keys_distinct, lemma_index_of_key, lemma_put_distinct,
    merged, sort_by_score, sorted_by_score, views, ExerciseResults, Record,
};
use crate::text::{str_eq, texts};
use crate::words::{
    has_form, word_has_form, Database, PartOfSpeech, VerbFormExercise, Word, WordEntry, WordFacts,
};
use vstd::prelude::*;
use vstd::seq_lib::{to_multiset_contains, to_multiset_len};

verus! {

/// The records of a session, the weights derived from them and the
/// distribution built from the weights.
pub struct GameResults {
    results: Vec<ExerciseResults>,
    results_filename: String,
    weights: Vec<u64>,
    rand_dist: Option<WeightedDist>,
    training: Vec<String>,
}

/// The spellings of the catalog's words, in catalog order.
pub open spec fn catalog_keys(db: Database) -> Seq<Seq<char>> {
    db.words@.map_values(|w: WordEntry| w.key())
}

/// The zero-score records that a catalog adds to a tracker: one for each
/// catalog word, in catalog order, that the tracker has no record of yet.
pub open spec fn fresh_records(catalog: Seq<Seq<char>>, have: Seq<Seq<char>>) -> Seq<Record>
    decreases catalog.len(),
{
    if catalog.len() == 0 {
        Seq::empty()
    } else {
        let earlier = fresh_records(catalog.drop_last(), have);
        let key = catalog.last();
        if have.contains(key) || keys(earlier).contains(key) {
            earlier
        } else {
            earlier.push(Record { word: key, correct: 0, wrong: 0 })
        }
    }
}

/// `sorted` holds the records of `records`, each as often, in ascending order
/// of score.
pub open spec fn in_score_order(records: Seq<Record>, sorted: Seq<Record>) -> bool {
    sorted.to_multiset() == records.to_multiset() && sorted_by_score(sorted)
}

/// The weight of a record, given the highest and the lowest score among all
/// records: the lower the score, the higher the weight, and never below one.
pub open spec fn weight_of(max_score: int, min_score: int, score: int) -> int {
    2 * max_score - min_score - score + 1
}

/// The highest score among the records; zero where there is none.
pub open spec fn max_score(rs: Seq<Record>) -> int
    decreases rs.len(),
{
    if rs.len() == 0 {
        0
    } else if rs.len() == 1 {
        rs[0].score()
    } else {
        let m = max_score(rs.drop_last());
        if rs.last().score() > m {
            rs.last().score()
        } else {
            m
        }
    }
}

/// The lowest score among the records; zero where there is none.
pub open spec fn min_score(rs: Seq<Record>) -> int
    decreases rs.len(),
{
    if rs.len() == 0 {
        0
    } else if rs.len() == 1 {
        rs[0].score()
    } else {
        let m = min_score(rs.drop_last());
        if rs.last().score() < m {
            rs.last().score()
        } else {
            m
        }
    }
}

/// The weights of a list of records, one per record and in the same order.
pub open spec fn weights_of(rs: Seq<Record>) -> Seq<int> {
    Seq::new(rs.len(), |i: int| weight_of(max_score(rs), min_score(rs), rs[i].score()))
}

/// The sum of a list of integers.
pub open spec fn sum(ws: Seq<int>) -> int
    decreases ws.len(),
{
    if ws.len() == 0 {
        0
    } else {
        sum(ws.drop_last()) + ws.last()
    }
}

/// A list of weights as mathematical integers.
pub open spec fn as_ints(ws: Seq<u64>) -> Seq<int> {
    ws.map_values(|w: u64| w as int)
}

/// Why weights could not be computed.
#[derive(Debug, Clone, Copy, PartialEq, Eq, Structural)]
pub enum WeightsError {
    /// There is no record to weigh.
    NoRecords,
    /// The weights add up to more than the weight type holds.
    Overflow,
}

/// Why no word was selected.
#[derive(Debug, Clone, Copy, PartialEq, Eq, Structural)]
pub enum SelectError {
    /// No distribution has been computed yet.
    NoDistribution,
    /// No record has a catalog word that meets the condition.
    Exhausted,
}

/// Every score of a list lies between its lowest and its highest score.
pub proof fn lemma_score_bounds(rs: Seq<Record>, i: int)
    requires
        0 <= i < rs.len(),
    ensures
        min_score(rs) <= rs[i].score() <= max_score(rs),
    decreases rs.len(),
{
    if rs.len() > 1 && i < rs.len() - 1 {
        lemma_score_bounds(rs.drop_last(), i);
    }
}

/// In a list sorted by score the first record has the lowest score and the
/// last record the highest.
pub proof fn lemma_sorted_extremes(rs: Seq<Record>)
    requires
        rs.len() > 0,
        sorted_by_score(rs),
    ensures
        min_score(rs) == rs[0].score(),
        max_score(rs) == rs.last().score(),
    decreases rs.len(),
{
    if rs.len() > 1 {
        let front = rs.drop_last();
        assert(sorted_by_score(front)) by {
            assert forall|i: int, j: int| 0 <= i <= j < front.len() implies front[i].score()
                <= front[j].score() by {
                assert(front[i] == rs[i] && front[j] == rs[j]);
            }
        }
        lemma_sorted_extremes(front);
        assert(front[0] == rs[0]);
        assert(front.last() == rs[rs.len() - 2]);
    }
}

/// A prefix of a list of non-negative integers sums to no more than the list.
pub proof fn lemma_sum_prefix(ws: Seq<int>, n: int)
    requires
        0 <= n <= ws.len(),
        forall|i: int| 0 <= i < ws.len() ==> ws[i] >= 0,
    ensures
        0 <= sum(ws.take(n)) <= sum(ws),
    decreases ws.len() - n,
{
    if n == ws.len() {
        assert(ws.take(n) =~= ws);
        lemma_sum_nonnegative(ws);
    } else {
        lemma_sum_prefix(ws, n + 1);
        assert(ws.take(n + 1).drop_last() =~= ws.take(n));
        lemma_sum_nonnegative(ws.take(n));
    }
}

/// A list of non-negative integers has a non-negative sum.
pub proof fn lemma_sum_nonnegative(ws: Seq<int>)
    requires
        forall|i: int| 0 <= i < ws.len() ==> ws[i] >= 0,
    ensures
        sum(ws) >= 0,
    decreases ws.len(),
{
    if ws.len() > 0 {
        lemma_sum_nonnegative(ws.drop_last());
    }
}

/// The total of a list of weights is the sum of the weights as integers.
pub proof fn lemma_total_is_sum(ws: Seq<u64>)
    ensures
        total_weight(ws) == sum(as_ints(ws)),
    decreases ws.len(),
{
    if ws.len() > 0 {
        lemma_total_is_sum(ws.drop_last());
        assert(as_ints(ws).drop_last() =~= as_ints(ws.drop_last()));
    }
}

/// A total weight is at least each of the weights.
pub proof fn lemma_total_at_least(ws: Seq<u64>, i: int)
    requires
        0 <= i < ws.len(),
    ensures
        total_weight(ws) >= ws[i],
    decreases ws.len(),
{
    lemma_total_is_sum(ws);
    lemma_total_is_sum(ws.drop_last());
    lemma_sum_nonnegative(as_ints(ws.drop_last()));
    if i < ws.len() - 1 {
        lemma_total_at_least(ws.drop_last(), i);
    }
}

/// Weights that add up to zero are all zero.
pub proof fn lemma_total_zero(ws: Seq<u64>)
    requires
        total_weight(ws) == 0,
    ensures
        forall|k: int| 0 <= k < ws.len() ==> ws[k] == 0,
{
    assert forall|k: int| 0 <= k < ws.len() implies ws[k] == 0 by {
        lemma_total_at_least(ws, k);
    }
}

/// Lists that hold the same records hold records about the same words.
pub proof fn lemma_same_keys(a: Seq<Record>, b: Seq<Record>, key: Seq<char>)
    requires
        a.to_multiset() == b.to_multiset(),
        keys(a).contains(key),
    ensures
        keys(b).contains(key),
{
    let i = choose|i: int| 0 <= i < keys(a).len() && keys(a)[i] == key;
    assert(a.contains(a[i]));
    to_multiset_contains(a, a[i]);
    to_multiset_contains(b, a[i]);
    let j = choose|j: int| 0 <= j < b.len() && b[j] == a[i];
    assert(keys(b)[j] == key);
}

/// Between the lowest and the highest score every weight is at least one.
pub proof fn law_weight_positive(max_score: int, min_score: int, score: int)
    requires
        min_score <= score <= max_score,
    ensures
        weight_of(max_score, min_score, score) >= 1,
{
}

/// With the highest and the lowest score fixed, a higher score has a strictly
/// lower weight.
pub proof fn law_weight_decreasing(max_score: int, min_score: int, lower: int, higher: int)
    requires
        lower < higher,
    ensures
        weight_of(max_score, min_score, lower) > weight_of(max_score, min_score, higher),
{
}

/// Every record of a list has a weight of at least one.
pub proof fn law_weights_positive(rs: Seq<Record>, i: int)
    requires
        0 <= i < rs.len(),
    ensures
        weights_of(rs)[i] >= 1,
{
    lemma_score_bounds(rs, i);
}

/// The record at position `i` is about a catalog word on which the condition
/// `f`, asked about `prop`, answered `verdict`.
pub open spec fn judged<T, F: Fn(&WordEntry, &T) -> bool>(
    tracker: &GameResults,
    db: &Database,
    f: F,
    prop: &T,
    i: int,
    verdict: bool,
) -> bool {
    exists|j: int|
        0 <= j < db.words.len() && (#[trigger] db.words[j]).key() == tracker.records()[i].word@
            && f.ensures((&db.words[j], prop), verdict)
}

/// What a selection under a condition `f` returns. Without a distribution it
/// fails with `NoDistribution`. With one, it returns the position of a record
/// whose catalog word `f` accepted; or it fails with `Exhausted`, and then
/// every record has no word in the catalog or a word that `f` turned down.
pub open spec fn selected_by<T, F: Fn(&WordEntry, &T) -> bool>(
    tracker: &GameResults,
    db: &Database,
    f: F,
    prop: &T,
    r: Result<usize, SelectError>,
) -> bool {
    match r {
        Ok(i) => tracker.ready() && i < tracker.records().len() && judged(
            tracker,
            db,
            f,
            prop,
            i as int,
            true,
        ),
        Err(e) => if tracker.ready() {
            e == SelectError::Exhausted && forall|i: int|
                0 <= i < tracker.records().len() ==> !db.has(tracker.records()[i].word@) || judged(
                    tracker,
                    db,
                    f,
                    prop,
                    i,
                    false,
                )
        } else {
            e == SelectError::NoDistribution
        },
    }
}

/// What a selection under a property of the word returns. Without a
/// distribution it fails with `NoDistribution`. With one, it returns the
/// position of a record whose catalog word has the property; or it fails with
/// `Exhausted`, and then every record has no word in the catalog or a word
/// without the property.
pub open spec fn selected_with(
    tracker: &GameResults,
    db: &Database,
    property: spec_fn(WordFacts) -> bool,
    r: Result<usize, SelectError>,
) -> bool {
    match r {
        Ok(i) => tracker.ready() && i < tracker.records().len() && exists|j: int|
            0 <= j < db.words.len() && (#[trigger] db.words[j]).key() == tracker.records()[i as int].word@
                && property(db.words[j].facts()),
        Err(e) => if tracker.ready() {
            e == SelectError::Exhausted && forall|i: int|
                0 <= i < tracker.records().len() ==> !db.has(tracker.records()[i].word@)
                    || exists|j: int|
                    0 <= j < db.words.len() && (#[trigger] db.words[j]).key()
                        == tracker.records()[i].word@ && !property(db.words[j].facts())
        } else {
            e == SelectError::NoDistribution
        },
    }
}

/// The property of being of a given part of speech.
pub open spec fn of_pos(pos: PartOfSpeech) -> spec_fn(WordFacts) -> bool {
    |f: WordFacts| f.pos == pos
}

/// The property of being drillable in a given verb form.
pub open spec fn knows_form(form: VerbFormExercise) -> spec_fn(WordFacts) -> bool {
    |f: WordFacts| has_form(f, form)
}

/// In a valid catalog, a record that was selected under a property is about a
/// word that has the property: a selection among the verbs never returns a
/// record of a noun, an adjective, an adverb or a preposition.
pub proof fn law_selected_has_property(
    tracker: &GameResults,
    db: &Database,
    property: spec_fn(WordFacts) -> bool,
    i: usize,
    word: &WordEntry,
)
    requires
        db.wf(),
        selected_with(tracker, db, property, Ok(i)),
        db.words@.contains(*word),
        word.key() == tracker.records()[i as int].word@,
    ensures
        property(word.facts()),
{
    let j = choose|j: int|
        0 <= j < db.words.len() && (#[trigger] db.words[j]).key() == tracker.records()[i as int].word@
            && property(db.words[j].facts());
    lemma_unique_entry(db, word, j);
}

/// A list of integers, none above `bound`, sums to no more than its length
/// times `bound`.
pub proof fn lemma_sum_bound(ws: Seq<int>, bound: int)
    requires
        forall|i: int| 0 <= i < ws.len() ==> ws[i] <= bound,
    ensures
        sum(ws) <= ws.len() * bound,
    decreases ws.len(),
{
    if ws.len() > 0 {
        let front = ws.drop_last();
        assert forall|i: int| 0 <= i < front.len() implies front[i] <= bound by {
            assert(front[i] == ws[i]);
        }
        lemma_sum_bound(front, bound);
        assert(front.len() * bound + bound == ws.len() * bound) by (nonlinear_arith)
            requires
                front.len() + 1 == ws.len(),
        ;
    }
}

/// The weights fit the weight type, so that they can be recomputed, where
/// there are no more than two to the power of thirty-two records and no
/// weight is above the largest 32-bit integer.
pub proof fn law_weights_fit(rs: Seq<Record>)
    requires
        rs.len() <= 0x1_0000_0000,
        forall|i: int| 0 <= i < rs.len() ==> (#[trigger] weights_of(rs)[i]) <= i32::MAX,
    ensures
        sum(weights_of(rs)) <= u64::MAX,
{
    let ws = weights_of(rs);
    lemma_sum_bound(ws, i32::MAX as int);
    assert(ws.len() * (i32::MAX as int) <= u64::MAX) by (nonlinear_arith)
        requires
            0 <= ws.len() <= 0x1_0000_0000,
            i32::MAX == 0x7fff_ffff,
            u64::MAX == 0xffff_ffff_ffff_ffff,
    ;
}

/// A selection under a condition that answers by a property of the word is a
/// selection under that property.
pub proof fn lemma_selected_with<T, F: Fn(&WordEntry, &T) -> bool>(
    tracker: &GameResults,
    db: &Database,
    f: F,
    prop: &T,
    property: spec_fn(WordFacts) -> bool,
    r: Result<usize, SelectError>,
)
    requires
        selected_by(tracker, db, f, prop, r),
        forall|w: &WordEntry, b: bool| #[trigger] f.ensures((w, prop), b) ==> b == property(w.facts()),
    ensures
        selected_with(tracker, db, property, r),
{
    match r {
        Ok(i) => {
            let j = choose|j: int|
                0 <= j < db.words.len() && (#[trigger] db.words[j]).key() == tracker.records()[i as int].word@
                    && f.ensures((&db.words[j], prop), true);
            assert(property(db.words[j].facts()));
        },
        Err(_) => {
            if tracker.ready() {
                assert forall|i: int| 0 <= i < tracker.records().len() implies !db.has(
                    tracker.records()[i].word@,
                ) || exists|j: int|
                    0 <= j < db.words.len() && (#[trigger] db.words[j]).key()
                        == tracker.records()[i].word@ && !property(db.words[j].facts()) by {
                    if judged(tracker, db, f, prop, i, false) {
                        let j = choose|j: int|
                            0 <= j < db.words.len() && (#[trigger] db.words[j]).key()
                                == tracker.records()[i].word@ && f.ensures(
                                (&db.words[j], prop),
                                false,
                            );
                        assert(!property(db.words[j].facts()));
                    }
                }
            }
        },
    }
}

/// Picks one of the surviving records at random, in proportion to its weight.
/// `weights[k]` is the weight of the record at position `indices[k]`.
pub fn pick_survivor(weights: &Vec<u64>, indices: &Vec<usize>) -> (r: Result<usize, SelectError>)
    requires
        weights.len() == indices.len(),
        total_weight(weights@) <= u64::MAX,
    ensures
        match r {
            Ok(i) => exists|k: int| 0 <= k < weights.len() && indices[k] == i && weights[k] > 0,
            Err(e) => e == SelectError::Exhausted && forall|k: int|
                0 <= k < weights.len() ==> weights[k] == 0,
        },
{
    match weighted_index(weights) {
        Ok(dist) => {
            let mut rng = rand::thread_rng();
            let drawn = sample_index(&dist, &mut rng);
            Ok(indices[drawn])
        },
        Err(_) => {
            proof {
                if weights.len() > 0 {
                    lemma_total_is_sum(weights@);
                    lemma_sum_nonnegative(as_ints(weights@));
                    lemma_total_zero(weights@);
                }
            }
            Err(SelectError::Exhausted)
        },
    }
}

impl GameResults {
    /// The records, in their current order.
    pub closed spec fn records(&self) -> Seq<ExerciseResults> {
        self.results@
    }

    /// The cached weights; `weights()[i]` belongs to `records()[i]`.
    pub closed spec fn weights(&self) -> Seq<u64> {
        self.weights@
    }

    /// Whether a distribution has been computed.
    pub closed spec fn ready(&self) -> bool {
        self.rand_dist is Some
    }

    /// The words marked for training.
    pub closed spec fn training(&self) -> Seq<String> {
        self.training@
    }

    /// Whether the tracker has a record about a word.
    pub open spec fn tracks(&self, key: Seq<char>) -> bool {
        keys(views(self.records())).contains(key)
    }

    /// Whether the tracker has a distribution whose weights are those of its
    /// records as they stand.
    pub open spec fn weights_current(&self) -> bool {
        self.ready() && as_ints(self.weights()) == weights_of(views(self.records()))
    }

    /// The tracker's invariant: one record per word, a total weight that fits
    /// the weight type, and either no distribution and no weights, or a
    /// distribution that was built from the cached weights, which are those of
    /// the records as they stand.
    pub closed spec fn wf(&self) -> bool {
        &&& keys_distinct(views(self.results@))
        &&& total_weight(self.weights@) <= u64::MAX
        &&& match self.rand_dist {
            Some(d) => dist_weights(d) == self.weights@ && as_ints(self.weights@) == weights_of(
                views(self.results@),
            ),
            None => self.weights@.len() == 0,
        }
    }

    /// What the invariant says in terms of the public model: a tracker with a
    /// distribution has the weights of its records as they stand, one per
    /// record and each at least one; a tracker without has no weights.
    pub proof fn lemma_wf(&self)
        requires
            self.wf(),
        ensures
            keys_distinct(views(self.records())),
            total_weight(self.weights()) <= u64::MAX,
            self.ready() == self.weights_current(),
            self.ready() ==> self.weights().len() == self.records().len(),
            self.ready() ==> forall|i: int|
                0 <= i < self.weights().len() ==> (#[trigger] self.weights()[i]) >= 1,
            !self.ready() ==> self.weights().len() == 0,
    {
        if self.ready() {
            let rs = views(self.results@);
            assert(as_ints(self.weights@).len() == weights_of(rs).len());
            assert forall|i: int| 0 <= i < self.weights@.len() implies (#[trigger] self.weights@[i])
                >= 1 by {
                law_weights_positive(rs, i);
                assert(as_ints(self.weights@)[i] == weights_of(rs)[i]);
            }
        }
    }

    /// In a tracker with a distribution there is one weight per record, every
    /// weight is at least one, a record with a higher score has a strictly
    /// lower weight, and records of equal score have equal weights.
    pub proof fn law_weights(&self, i: int, j: int)
        requires
            self.wf(),
            self.ready(),
            0 <= i < self.records().len(),
            0 <= j < self.records().len(),
        ensures
            self.weights().len() == self.records().len(),
            self.weights()[i] >= 1,
            self.records()[i]@.score() < self.records()[j]@.score() ==> self.weights()[i]
                > self.weights()[j],
            self.records()[i]@.score() == self.records()[j]@.score() ==> self.weights()[i]
                == self.weights()[j],
    {
        self.lemma_wf();
        let rs = views(self.results@);
        assert(as_ints(self.weights@)[i] == weights_of(rs)[i]);
        assert(as_ints(self.weights@)[j] == weights_of(rs)[j]);
        assert(rs[i] == self.results@[i]@ && rs[j] == self.results@[j]@);
    }

    /// Drops the distribution and the weights.
    fn drop_distribution(&mut self)
        requires
            keys_distinct(views(old(self).results@)),
        ensures
            final(self).wf(),
            final(self).results == old(self).results,
            final(self).training == old(self).training,
            final(self).rand_dist is None,
            final(self).weights@.len() == 0,
    {
        self.rand_dist = None;
        self.weights = Vec::new();
        assert(total_weight(self.weights@) == 0);
    }

    /// A tracker without records, weights or distribution.
    pub fn new() -> (r: Self)
        ensures
            r.wf(),
            r.records().len() == 0,
            r.weights().len() == 0,
            !r.ready(),
            r.training().len() == 0,
    {
        let r = GameResults {
            results: Vec::new(),
            results_filename: String::new(),
            weights: Vec::new(),
            rand_dist: None,
            training: Vec::new(),
        };
        assert(total_weight(r.weights@) == 0);
        r
    }

    /// The words marked for training.
    pub fn get_training_words(&self) -> (r: &Vec<String>)
        ensures
            r@ == self.training(),
    {
        &self.training
    }

    /// The cached weights, one per record at the time they were computed.
    pub fn get_weights(&self) -> (r: &Vec<u64>)
        ensures
            r@ == self.weights(),
    {
        &self.weights
    }

    /// Whether a distribution has been computed.
    pub fn has_distribution(&self) -> (b: bool)
        ensures
            b == self.ready(),
    {
        self.rand_dist.is_some()
    }

    /// Number of records.
    pub fn len(&self) -> (n: usize)
        ensures
            n == self.records().len(),
    {
        self.results.len()
    }

    /// The record at a position.
    pub fn record(&self, i: usize) -> (r: &ExerciseResults)
        requires
            i < self.records().len(),
        ensures
            *r == self.records()[i as int],
    {
        &self.results[i]
    }

    /// Position of the record about a word.
    pub fn position(&self, key: &str) -> (r: Option<usize>)
        ensures
            match r {
                Some(i) => i < self.records().len() && self.records()[i as int].word@ == key@,
                None => !keys(views(self.records())).contains(key@),
            },
    {
        let mut i: usize = 0;
        while i < self.results.len()
            invariant
                i <= self.results.len(),
                forall|k: int| 0 <= k < i ==> (#[trigger] self.results[k]).word@ != key@,
            decreases self.results.len() - i,
        {
            if str_eq(self.results[i].word.as_str(), key) {
                return Some(i);
            }
            i += 1;
        }
        proof {
            let ks = keys(views(self.results@));
            if ks.contains(key@) {
                let k = choose|k: int| 0 <= k < ks.len() && ks[k] == key@;
                assert(self.results[k].word@ == key@);
            }
        }
        None
    }

    /// Brings the tracker in line with the catalog: every catalog word without
    /// a record gets a zero-score record, no record is dropped, and the
    /// records are put in ascending order of score. The distribution is
    /// dropped with its weights: they are to be recomputed before the next
    /// selection.
    pub fn update_with_db(&mut self, db: &Database)
        requires
            old(self).wf(),
        ensures
            final(self).wf(),
            sorted_by_score(views(final(self).records())),
            views(final(self).records()).to_multiset() == (views(old(self).records())
                + fresh_records(catalog_keys(*db), keys(views(old(self).records())))).to_multiset(),
            forall|k: int|
                0 <= k < db.words.len() ==> final(self).tracks((#[trigger] db.words[k]).key()),
            !final(self).ready(),
            final(self).weights().len() == 0,
            final(self).training() == old(self).training(),
    {
        self.drop_distribution();
        let ghost have = keys(views(old(self).results@));
        let ghost cat = catalog_keys(*db);
        let mut i: usize = 0;
        assert(cat.take(0) =~= Seq::<Seq<char>>::empty());
        assert(views(self.results@) + Seq::<Record>::empty() =~= views(self.results@));
        while i < db.words.len()
            invariant
                i <= db.words.len(),
                have == keys(views(old(self).results@)),
                cat == catalog_keys(*db),
                views(self.results@) == views(old(self).results@) + fresh_records(
                    cat.take(i as int),
                    have,
                ),
                keys_distinct(views(self.results@)),
                self.rand_dist is None,
                self.weights@.len() == 0,
                self.training == old(self).training,
                forall|k: int|
                    0 <= k < i ==> keys(views(self.results@)).contains(
                        (#[trigger] db.words[k]).key(),
                    ),
            decreases db.words.len() - i,
        {
            let key = db.words[i].get_word();
            let ghost earlier = fresh_records(cat.take(i as int), have);
            let ghost before = views(self.results@);
            let found = self.position(key);
            proof {
                assert(cat.take(i + 1).drop_last() =~= cat.take(i as int));
                assert(cat.take(i + 1).last() == key@);
                assert(keys(before) =~= have + keys(earlier));
                assert(keys(before).contains(key@) <==> have.contains(key@) || keys(
                    earlier,
                ).contains(key@)) by {
                    if keys(before).contains(key@) {
                        let k = choose|k: int| 0 <= k < keys(before).len() && keys(before)[k] == key@;
                        if k < have.len() {
                            assert(have[k] == key@);
                        } else {
                            assert(keys(earlier)[k - have.len()] == key@);
                        }
                    }
                    if have.contains(key@) {
                        let k = choose|k: int| 0 <= k < have.len() && have[k] == key@;
                        assert(keys(before)[k] == key@);
                    }
                    if keys(earlier).contains(key@) {
                        let k = choose|k: int| 0 <= k < keys(earlier).len() && keys(earlier)[k] == key@;
                        assert(keys(before)[have.len() + k] == key@);
                    }
                }
                let fresh = Record { word: key@, correct: 0, wrong: 0 };
                assert(fresh_records(cat.take(i + 1), have) == if keys(before).contains(key@) {
                    earlier
                } else {
                    earlier.push(fresh)
                });
                if let Some(at) = found {
                    assert(keys(before)[at as int] == key@);
                }
            }
            if found.is_none() {
                let entry = ExerciseResults::new(key);
                self.results.push(entry);
                proof {
                    let fresh = Record { word: key@, correct: 0, wrong: 0 };
                    assert(keys(before.push(fresh)) =~= keys(before).push(key@));
                    assert(keys(before).push(key@)[before.len() as int] == key@);
                    assert forall|k: int| 0 <= k < i implies keys(before.push(fresh)).contains(
                        (#[trigger] db.words[k]).key(),
                    ) by {
                        let m = choose|m: int|
                            0 <= m < keys(before).len() && keys(before)[m] == db.words[k].key();
                        assert(keys(before.push(fresh))[m] == db.words[k].key());
                    }
                    assert(views(self.results@) =~= before.push(fresh));
                    assert(before.push(fresh) =~= views(old(self).results@) + earlier.push(fresh));
                    assert forall|p: int, q: int| 0 <= p < q < before.len() + 1 implies before.push(
                        fresh,
                    )[p].word != before.push(fresh)[q].word by {
                        if q == before.len() {
                            assert(keys(before)[p] == before[p].word);
                        }
                    }
                }
            }
            i += 1;
        }
        assert(cat.take(i as int) =~= cat);
        let ghost unsorted = views(self.results@);
        sort_by_score(&mut self.results);
        proof {
            assert(self.weights@ =~= Seq::<u64>::empty());
            assert(total_weight(self.weights@) == 0);
            assert forall|k: int| 0 <= k < db.words.len() implies keys(
                views(self.results@),
            ).contains((#[trigger] db.words[k]).key()) by {
                lemma_same_keys(unsorted, views(self.results@), db.words[k].key());
            }
        }
    }

    /// Recomputes the weights and the distribution from the records, which are
    /// first put in ascending order of score. Without records, or where the
    /// weights add up to more than the weight type holds, the tracker is left
    /// without weights and without a distribution.
    pub fn update_weights(&mut self) -> (r: Result<(), WeightsError>)
        requires
            old(self).wf(),
        ensures
            final(self).wf(),
            sorted_by_score(views(final(self).records())),
            views(final(self).records()).to_multiset() == views(old(self).records()).to_multiset(),
            final(self).training() == old(self).training(),
            r == if old(self).records().len() == 0 {
                Err::<(), WeightsError>(WeightsError::NoRecords)
            } else if sum(weights_of(views(final(self).records()))) > u64::MAX {
                Err::<(), WeightsError>(WeightsError::Overflow)
            } else {
                Ok::<(), WeightsError>(())
            },
            r is Ok ==> final(self).weights_current(),
            r is Err ==> !final(self).ready() && final(self).weights().len() == 0,
    {
        self.drop_distribution();
        sort_by_score(&mut self.results);
        proof {
            assert(self.weights@ =~= Seq::<u64>::empty());
            assert(total_weight(self.weights@) == 0);
        }
        let n = self.results.len();
        if n == 0 {
            return Err(WeightsError::NoRecords);
        }
        let ghost rs = views(self.results@);
        let max = self.results[n - 1].score();
        let min = self.results[0].score();
        proof {
            lemma_sorted_extremes(rs);
            lemma_score_bounds(rs, 0);
            assert(rs[0] == self.results[0]@);
            assert(rs[n - 1] == self.results[n - 1]@);
            assert forall|i: int| 0 <= i < rs.len() implies #[trigger] weights_of(rs)[i] >= 1 by {
                law_weights_positive(rs, i);
            }
        }
        let mut ws: Vec<u64> = Vec::new();
        let mut total: u64 = 0;
        let mut i: usize = 0;
        assert(as_ints(ws@) =~= weights_of(rs).take(0));
        while i < n
            invariant
                i <= n,
                n == self.results.len(),
                rs == views(self.results@),
                max == max_score(rs),
                min == min_score(rs),
                ws.len() == i,
                as_ints(ws@) == weights_of(rs).take(i as int),
                total == total_weight(ws@),
                forall|k: int| 0 <= k < rs.len() ==> #[trigger] weights_of(rs)[k] >= 1,
                self.wf(),
                self.rand_dist is None,
                self.weights@.len() == 0,
                self.training == old(self).training,
                sorted_by_score(rs),
                rs.to_multiset() == views(old(self).results@).to_multiset(),
                n == old(self).results.len(),
                -2 * usize::MAX <= min <= max <= usize::MAX,
            decreases n - i,
        {
            let score = self.results[i].score();
            proof {
                lemma_score_bounds(rs, i as int);
                assert(rs[i as int] == self.results[i as int]@);
            }
            let w: i128 = 2 * max - min - score + 1;
            assert(w == weights_of(rs)[i as int]);
            let ghost before = ws@;
            proof {
                lemma_sum_prefix(weights_of(rs), i + 1);
                assert(weights_of(rs).take(i + 1).drop_last() =~= weights_of(rs).take(i as int));
                lemma_total_is_sum(before);
            }
            if w > u64::MAX as i128 {
                return Err(WeightsError::Overflow);
            }
            let w64: u64 = w as u64;
            match total.checked_add(w64) {
                None => {
                    return Err(WeightsError::Overflow);
                },
                Some(t) => {
                    total = t;
                },
            }
            ws.push(w64);
            i += 1;
            proof {
                assert(ws@.drop_last() =~= before);
                assert(as_ints(ws@) =~= weights_of(rs).take(i as int));
            }
        }
        proof {
            assert(weights_of(rs).take(n as int) =~= weights_of(rs));
            lemma_total_is_sum(ws@);
            assert(as_ints(ws@)[0] >= 1);
            assert(ws@[0] >= 1);
            lemma_total_at_least(ws@, 0);
        }
        // There is a weight and none is zero, so a distribution comes about.
        match weighted_index(&ws) {
            Ok(dist) => {
                self.weights = ws;
                self.rand_dist = Some(dist);
                Ok(())
            },
            Err(_) => Err(WeightsError::NoRecords),
        }
    }

    /// Draws a record from the cached distribution.
    pub fn select_word_to_learn(&self) -> (r: Result<usize, SelectError>)
        requires
            self.wf(),
        ensures
            match r {
                Ok(i) => self.ready() && i < self.records().len(),
                Err(e) => e == SelectError::NoDistribution && !self.ready(),
            },
    {
        proof {
            self.lemma_wf();
        }
        match &self.rand_dist {
            None => Err(SelectError::NoDistribution),
            Some(dist) => {
                let mut rng = rand::thread_rng();
                Ok(sample_index(dist, &mut rng))
            },
        }
    }

    /// The weights and positions of the records whose catalog word meets the
    /// condition `f`. A record whose word the catalog does not hold is passed
    /// over.
    pub fn surviving_weights<T, F: Fn(&WordEntry, &T) -> bool>(
        &self,
        db: &Database,
        f: F,
        prop: &T,
    ) -> (out: (Vec<u64>, Vec<usize>))
        requires
            self.wf(),
            forall|w: &WordEntry, p: &T| f.requires((w, p)),
        ensures
            out.0.len() == out.1.len(),
            total_weight(out.0@) <= total_weight(self.weights()),
            forall|a: int, b: int| 0 <= a < b < out.1.len() ==> out.1[a] < out.1[b],
            forall|k: int|
                0 <= k < out.1.len() ==> (#[trigger] out.1[k]) < self.weights().len() && out.0[k]
                    == self.weights()[out.1[k] as int] && judged(
                    self,
                    db,
                    f,
                    prop,
                    out.1[k] as int,
                    true,
                ),
            forall|i: int|
                0 <= i < self.weights().len() ==> (exists|k: int|
                    0 <= k < out.1.len() && out.1[k] == i) || !db.has(
                    (#[trigger] self.records()[i]).word@,
                ) || judged(self, db, f, prop, i, false),
    {
        let mut weights: Vec<u64> = Vec::new();
        let mut indices: Vec<usize> = Vec::new();
        let mut i: usize = 0;
        assert(self.weights@.take(0) =~= Seq::<u64>::empty());
        proof {
            self.lemma_wf();
        }
        while i < self.weights.len()
            invariant
                self.wf(),
                self.weights@.len() <= self.results@.len(),
                forall|w: &WordEntry, p: &T| f.requires((w, p)),
                i <= self.weights.len(),
                weights.len() == indices.len(),
                total_weight(weights@) <= total_weight(self.weights@.take(i as int)),
                forall|a: int, b: int| 0 <= a < b < indices.len() ==> indices[a] < indices[b],
                forall|k: int|
                    0 <= k < indices.len() ==> (#[trigger] indices[k]) < i && weights[k]
                        == self.weights[indices[k] as int] && judged(
                        self,
                        db,
                        f,
                        prop,
                        indices[k] as int,
                        true,
                    ),
                forall|m: int|
                    0 <= m < i ==> (exists|k: int| 0 <= k < indices.len() && indices[k] == m)
                        || !db.has((#[trigger] self.results[m]).word@) || judged(
                        self,
                        db,
                        f,
                        prop,
                        m,
                        false,
                    ),
            decreases self.weights.len() - i,
        {
            let weight = self.weights[i];
            let ghost kept = indices@;
            let ghost kept_weights = weights@;
            proof {
                assert(self.weights@.take(i + 1).drop_last() =~= self.weights@.take(i as int));
            }
            let mut keep = false;
            match db.get(self.results[i].word.as_str()) {
                Some(word) => {
                    let verdict = f(word, prop);
                    proof {
                        let j = choose|j: int| 0 <= j < db.words@.len() && db.words@[j] == *word;
                        assert(db.words[j].key() == self.records()[i as int].word@);
                        assert(judged(self, db, f, prop, i as int, verdict));
                    }
                    keep = verdict;
                },
                None => {},
            }
            if keep {
                weights.push(weight);
                indices.push(i);
                proof {
                    assert(weights@.drop_last() =~= kept_weights);
                    assert forall|m: int| 0 <= m < i + 1 implies (exists|k: int|
                        0 <= k < indices.len() && indices[k] == m) || !db.has(
                        (#[trigger] self.results[m]).word@,
                    ) || judged(self, db, f, prop, m, false) by {
                        if m == i {
                            assert(indices[indices.len() - 1] == m);
                        } else if exists|k: int| 0 <= k < kept.len() && kept[k] == m {
                            let k = choose|k: int| 0 <= k < kept.len() && kept[k] == m;
                            assert(indices[k] == m);
                        }
                    }
                }
            }
            i += 1;
        }
        assert(self.weights@.take(i as int) =~= self.weights@);
        (weights, indices)
    }

    /// Draws a record among those whose catalog word meets the condition
    /// `cmp`, from a distribution over their weights alone. The weights have
    /// to be there: without a distribution the selection fails.
    pub fn select_word_by_cmp<T, F: Fn(&WordEntry, &T) -> bool>(
        &self,
        db: &Database,
        cmp: F,
        prop: &T,
    ) -> (r: Result<usize, SelectError>)
        requires
            self.wf(),
            forall|w: &WordEntry, p: &T| cmp.requires((w, p)),
        ensures
            selected_by(self, db, cmp, prop, r),
    {
        if self.rand_dist.is_none() {
            return Err(SelectError::NoDistribution);
        }
        let (weights, indices) = self.surviving_weights(db, cmp, prop);
        let r = pick_survivor(&weights, &indices);
        proof {
            self.lemma_wf();
        }
        r
    }

    /// Draws a record whose catalog word is of the given part of speech.
    pub fn select_word_by_pos(&self, db: &Database, pos: PartOfSpeech) -> (r: Result<
        usize,
        SelectError,
    >)
        requires
            self.wf(),
        ensures
            selected_with(self, db, of_pos(pos), r),
    {
        let same_pos = |word: &WordEntry, prop: &PartOfSpeech| -> (b: bool)
            ensures
                b == (word.facts().pos == *prop),
            { word.get_pos() == *prop };
        let r = self.select_word_by_cmp(db, same_pos, &pos);
        proof {
            lemma_selected_with(self, db, same_pos, &pos, of_pos(pos), r);
        }
        r
    }

    /// Draws a record whose catalog word can be drilled in the given verb
    /// form.
    pub fn select_word_with_verb_form(&self, db: &Database, form: &VerbFormExercise) -> (r: Result<
        usize,
        SelectError,
    >)
        requires
            self.wf(),
        ensures
            selected_with(self, db, knows_form(*form), r),
    {
        let drillable = |word: &WordEntry, form: &VerbFormExercise| -> (b: bool)
            ensures
                b == has_form(word.facts(), *form),
            { word_has_form(word, form) };
        let r = self.select_word_by_cmp(db, drillable, form);
        proof {
            lemma_selected_with(self, db, drillable, form, knows_form(*form), r);
        }
        r
    }

    /// Counts an answer for the record at a position. Nothing is counted, and
    /// `false` is returned, where there is no such record or its counter is
    /// full. Where the answer is counted, the distribution is dropped with its
    /// weights: they are to be recomputed before the next selection.
    pub fn record_outcome(&mut self, i: usize, correct: bool) -> (counted: bool)
        requires
            old(self).wf(),
        ensures
            final(self).wf(),
            counted ==> !final(self).ready() && final(self).weights().len() == 0,
            !counted ==> final(self).weights() == old(self).weights() && final(self).ready()
                == old(self).ready(),
            final(self).training() == old(self).training(),
            counted == (i < old(self).records().len() && if correct {
                old(self).records()[i as int].correct < usize::MAX
            } else {
                old(self).records()[i as int].wrong < usize::MAX
            }),
            !counted ==> final(self).records() == old(self).records(),
            counted ==> final(self).records().len() == old(self).records().len(),
            counted ==> final(self).records()[i as int]@ == counted_once(
                old(self).records()[i as int]@,
                correct,
            ),
            counted ==> forall|k: int|
                0 <= k < old(self).records().len() && k != i ==> final(self).records()[k]
                    == old(self).records()[k],
    {
        if i >= self.results.len() {
            return false;
        }
        let full = if correct {
            self.results[i].correct == usize::MAX
        } else {
            self.results[i].wrong == usize::MAX
        };
        if full {
            return false;
        }
        let word = self.results[i].word.clone();
        let mut entry = ExerciseResults {
            word,
            correct: self.results[i].correct,
            wrong: self.results[i].wrong,
        };
        entry.add(correct);
        self.drop_distribution();
        let ghost before = self.results@;
        self.results.set(i, entry);
        proof {
            assert(self.weights@ =~= Seq::<u64>::empty());
            assert(total_weight(self.weights@) == 0);
            assert forall|p: int, q: int| 0 <= p < q < self.results@.len() implies views(
                self.results@,
            )[p].word != views(self.results@)[q].word by {
                assert(views(before)[p].word != views(before)[q].word);
            }
        }
        true
    }

    /// The records as a list of their own, for storing or sending.
    pub fn snapshot(&self) -> (out: Vec<ExerciseResults>)
        ensures
            views(out@) == views(self.records()),
    {
        let mut out: Vec<ExerciseResults> = Vec::new();
        let mut i: usize = 0;
        while i < self.results.len()
            invariant
                i <= self.results.len(),
                views(out@) == views(self.results@).take(i as int),
            decreases self.results.len() - i,
        {
            let ghost before = views(out@);
            out.push(self.results[i].duplicate());
            i += 1;
            assert(views(out@) =~= before.push(self.results[i - 1]@));
            assert(views(out@) =~= views(self.results@).take(i as int));
        }
        assert(views(self.results@).take(i as int) =~= views(self.results@));
        out
    }

    /// Takes the records of a snapshot over, word by word: a word that has a
    /// record gets the snapshot's counters, a word that has none gets a new
    /// record at the end. Records of words that the snapshot does not hold
    /// stay as they are. The distribution is dropped with its weights: they
    /// are to be recomputed before the next selection.
    pub fn merge_snapshot(&mut self, snapshot: &Vec<ExerciseResults>)
        requires
            old(self).wf(),
        ensures
            final(self).wf(),
            views(final(self).records()) == merged(views(old(self).records()), views(snapshot@)),
            !final(self).ready(),
            final(self).weights().len() == 0,
            final(self).training() == old(self).training(),
    {
        self.drop_distribution();
        let mut i: usize = 0;
        assert(views(snapshot@).take(0) =~= Seq::<Record>::empty());
        while i < snapshot.len()
            invariant
                i <= snapshot.len(),
                old(self).wf(),
                views(self.results@) == merged(
                    views(old(self).results@),
                    views(snapshot@).take(i as int),
                ),
                keys_distinct(views(self.results@)),
                self.rand_dist is None,
                self.weights@.len() == 0,
                self.training == old(self).training,
            decreases snapshot.len() - i,
        {
            let entry = snapshot[i].duplicate();
            let ghost before = views(self.results@);
            let found = self.position(entry.word.as_str());
            proof {
                lemma_index_of_key(before, entry@.word);
                lemma_put_distinct(before, entry@);
                assert(views(snapshot@).take(i + 1).drop_last() =~= views(snapshot@).take(i as int));
                assert(views(snapshot@).take(i + 1).last() == entry@);
                let p = index_of_key(before, entry@.word);
                match found {
                    Some(at) => {
                        assert(before[at as int].word == entry@.word);
                        assert(p == at) by {
                            if p < at {
                                assert(before[p].word != before[at as int].word);
                            }
                        }
                    },
                    None => {
                        if p < before.len() {
                            assert(keys(before)[p] == entry@.word);
                        }
                    },
                }
            }
            match found {
                Some(at) => {
                    self.results.set(at, entry);
                    assert(views(self.results@) =~= before.update(at as int, entry@));
                },
                None => {
                    self.results.push(entry);
                    assert(views(self.results@) =~= before.push(entry@));
                },
            }
            i += 1;
        }
        assert(views(snapshot@).take(i as int) =~= views(snapshot@));
        assert(self.weights@ =~= Seq::<u64>::empty());
        assert(total_weight(self.weights@) == 0);
    }

    /// The `n` weakest words: the words of the `n` records with the lowest
    /// scores, in ascending order of score, or of all records where there are
    /// fewer than `n`. The records themselves stay as they are.
    pub fn get_top_words(&self, n: usize) -> (r: Vec<String>)
        ensures
            r.len() == if n <= self.records().len() {
                n as int
            } else {
                self.records().len() as int
            },
            exists|s: Seq<Record>| #[trigger]
                in_score_order(views(self.records()), s) && texts(r@) == keys(s).take(
                    r.len() as int,
                ),
    {
        let mut sorted = self.snapshot();
        sort_by_score(&mut sorted);
        let mut out: Vec<String> = Vec::new();
        let mut i: usize = 0;
        while i < n && i < sorted.len()
            invariant
                i <= n,
                i <= sorted.len(),
                out.len() == i,
                texts(out@) == keys(views(sorted@)).take(i as int),
            decreases sorted.len() - i,
        {
            let ghost before = texts(out@);
            out.push(sorted[i].word.clone());
            i += 1;
            assert(texts(out@) =~= before.push(sorted[i - 1].word@));
            assert(texts(out@) =~= keys(views(sorted@)).take(i as int));
        }
        proof {
            to_multiset_len(views(sorted@));
            to_multiset_len(views(self.results@));
            assert(in_score_order(views(self.records()), views(sorted@)));
        }
        out
    }
}

} // verus!
