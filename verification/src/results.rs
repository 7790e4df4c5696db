//! Per-word performance records: the counters, the score derived from them,
//! and the ordering of a list of records by score.

use vstd::prelude::*;
use vstd::seq_lib::{to_multiset_contains, to_multiset_insert, to_multiset_remove};

verus! {

/// How often a word was answered correctly and wrongly.
#[derive(Debug)]
pub struct ExerciseResults {
    pub word: String,
    pub correct: usize,
    pub wrong: usize,
}

/// A performance record as plain values.
pub struct Record {
    pub word: Seq<char>,
    pub correct: nat,
    pub wrong: nat,
}

impl View for ExerciseResults {
    type V = Record;

    open spec fn view(&self) -> Record {
        Record { word: self.word@, correct: self.correct as nat, wrong: self.wrong as nat }
    }
}

/// The score of a history: a wrong answer weighs twice as much as a correct
/// one.
pub open spec fn score_of(correct: nat, wrong: nat) -> int {
    correct - 2 * wrong
}

impl Record {
    /// The score of the record.
    pub open spec fn score(self) -> int {
        score_of(self.correct, self.wrong)
    }
}

/// A record after one more answer was counted.
pub open spec fn counted_once(r: Record, correct: bool) -> Record {
    if correct {
        Record { correct: r.correct + 1, ..r }
    } else {
        Record { wrong: r.wrong + 1, ..r }
    }
}

/// The records of a list as plain values.
pub open spec fn views(rs: Seq<ExerciseResults>) -> Seq<Record> {
    rs.map_values(|r: ExerciseResults| r@)
}

/// The word keys of a list of records, in order.
pub open spec fn keys(rs: Seq<Record>) -> Seq<Seq<char>> {
    rs.map_values(|r: Record| r.word)
}

/// No two records of the list are about the same word.
pub open spec fn keys_distinct(rs: Seq<Record>) -> bool {
    forall|i: int, j: int| 0 <= i < j < rs.len() ==> rs[i].word != rs[j].word
}

/// The list is in ascending order of score.
pub open spec fn sorted_by_score(rs: Seq<Record>) -> bool {
    forall|i: int, j: int| 0 <= i <= j < rs.len() ==> rs[i].score() <= rs[j].score()
}

/// The record about the word `key`, if the list holds one. Where several do,
/// the last one counts.
pub open spec fn lookup(rs: Seq<Record>, key: Seq<char>) -> Option<Record>
    decreases rs.len(),
{
    if rs.len() == 0 {
        None
    } else if rs.last().word == key {
        Some(rs.last())
    } else {
        lookup(rs.drop_last(), key)
    }
}

/// Position of the first record about the word `key`; the length of the list
/// where it holds none.
pub open spec fn index_of_key(rs: Seq<Record>, key: Seq<char>) -> int
    decreases rs.len(),
{
    if rs.len() == 0 {
        0
    } else {
        let p = index_of_key(rs.drop_last(), key);
        if p < rs.len() - 1 {
            p
        } else if rs.last().word == key {
            rs.len() - 1
        } else {
            rs.len() as int
        }
    }
}

/// The list with the record `r` put in: in place of the record about the same
/// word, or at the end where the list has none.
pub open spec fn put(rs: Seq<Record>, r: Record) -> Seq<Record> {
    let i = index_of_key(rs, r.word);
    if i < rs.len() {
        rs.update(i, r)
    } else {
        rs.push(r)
    }
}

/// The list `base` with the records of a snapshot put in, one after the
/// other.
pub open spec fn merged(base: Seq<Record>, snapshot: Seq<Record>) -> Seq<Record>
    decreases snapshot.len(),
{
    if snapshot.len() == 0 {
        base
    } else {
        put(merged(base, snapshot.drop_last()), snapshot.last())
    }
}

/// `index_of_key` is the first position that holds the key.
pub proof fn lemma_index_of_key(rs: Seq<Record>, key: Seq<char>)
    ensures
        0 <= index_of_key(rs, key) <= rs.len(),
        forall|k: int| 0 <= k < index_of_key(rs, key) ==> rs[k].word != key,
        index_of_key(rs, key) < rs.len() ==> rs[index_of_key(rs, key)].word == key,
    decreases rs.len(),
{
    if rs.len() > 0 {
        lemma_index_of_key(rs.drop_last(), key);
        let p = index_of_key(rs.drop_last(), key);
        assert forall|k: int| 0 <= k < index_of_key(rs, key) implies rs[k].word != key by {
            if k < rs.len() - 1 {
                assert(rs.drop_last()[k] == rs[k]);
            }
        }
        if p < rs.len() - 1 {
            assert(rs.drop_last()[p] == rs[p]);
        }
    }
}

/// In a list without repeated keys, looking a record's word up gives that
/// record.
pub proof fn lemma_lookup_found(rs: Seq<Record>, i: int)
    requires
        keys_distinct(rs),
        0 <= i < rs.len(),
    ensures
        lookup(rs, rs[i].word) == Some(rs[i]),
    decreases rs.len(),
{
    if i < rs.len() - 1 {
        let front = rs.drop_last();
        assert(keys_distinct(front)) by {
            assert forall|p: int, q: int| 0 <= p < q < front.len() implies front[p].word
                != front[q].word by {
                assert(front[p] == rs[p] && front[q] == rs[q]);
            }
        }
        assert(front[i] == rs[i]);
        lemma_lookup_found(front, i);
    }
}

/// A word that no record is about is not found.
pub proof fn lemma_lookup_absent(rs: Seq<Record>, key: Seq<char>)
    requires
        forall|i: int| 0 <= i < rs.len() ==> rs[i].word != key,
    ensures
        lookup(rs, key) is None,
    decreases rs.len(),
{
    if rs.len() > 0 {
        let front = rs.drop_last();
        assert forall|i: int| 0 <= i < front.len() implies front[i].word != key by {
            assert(front[i] == rs[i]);
        }
        lemma_lookup_absent(front, key);
    }
}

/// A record that is found stands in the list and is about the word looked up.
pub proof fn lemma_lookup_index(rs: Seq<Record>, key: Seq<char>)
    requires
        lookup(rs, key) is Some,
    ensures
        exists|i: int| 0 <= i < rs.len() && rs[i] == lookup(rs, key)->Some_0 && rs[i].word == key,
    decreases rs.len(),
{
    if rs.len() > 0 {
        if rs.last().word == key {
            assert(rs[rs.len() - 1] == lookup(rs, key)->Some_0);
        } else {
            lemma_lookup_index(rs.drop_last(), key);
            let i = choose|i: int|
                0 <= i < rs.drop_last().len() && rs.drop_last()[i] == lookup(
                    rs.drop_last(),
                    key,
                )->Some_0 && rs.drop_last()[i].word == key;
            assert(rs[i] == rs.drop_last()[i]);
        }
    }
}

/// Two lists without repeated keys that hold the same records find the same
/// record for every word.
pub proof fn lemma_lookup_permutation(a: Seq<Record>, b: Seq<Record>, key: Seq<char>)
    requires
        keys_distinct(a),
        keys_distinct(b),
        a.to_multiset() == b.to_multiset(),
    ensures
        lookup(a, key) == lookup(b, key),
{
    if lookup(a, key) is Some {
        lemma_lookup_index(a, key);
        let i = choose|i: int|
            0 <= i < a.len() && a[i] == lookup(a, key)->Some_0 && a[i].word == key;
        assert(a.contains(a[i]));
        to_multiset_contains(a, a[i]);
        to_multiset_contains(b, a[i]);
        let j = choose|j: int| 0 <= j < b.len() && b[j] == a[i];
        lemma_lookup_found(b, j);
    } else if lookup(b, key) is Some {
        lemma_lookup_index(b, key);
        let j = choose|j: int|
            0 <= j < b.len() && b[j] == lookup(b, key)->Some_0 && b[j].word == key;
        assert(b.contains(b[j]));
        to_multiset_contains(b, b[j]);
        to_multiset_contains(a, b[j]);
        let i = choose|i: int| 0 <= i < a.len() && a[i] == b[j];
        lemma_lookup_found(a, i);
    }
}

/// Putting a record into a list without repeated keys leaves it without
/// repeated keys.
pub proof fn lemma_put_distinct(rs: Seq<Record>, r: Record)
    requires
        keys_distinct(rs),
    ensures
        keys_distinct(put(rs, r)),
{
    lemma_index_of_key(rs, r.word);
    let i = index_of_key(rs, r.word);
    let out = put(rs, r);
    assert forall|p: int, q: int| 0 <= p < q < out.len() implies out[p].word != out[q].word by {
        if i < rs.len() {
            assert(rs[p].word != rs[q].word);
            assert(rs[i].word == r.word);
        } else {
            if q < rs.len() {
                assert(rs[p].word != rs[q].word);
            }
        }
    }
}

/// After a record was put in, its word is found with exactly that record, and
/// every other word is found as before.
pub proof fn lemma_lookup_put(rs: Seq<Record>, r: Record, key: Seq<char>)
    requires
        keys_distinct(rs),
    ensures
        lookup(put(rs, r), key) == if key == r.word {
            Some(r)
        } else {
            lookup(rs, key)
        },
{
    lemma_index_of_key(rs, r.word);
    lemma_put_distinct(rs, r);
    let i = index_of_key(rs, r.word);
    let out = put(rs, r);
    let at = if i < rs.len() { i } else { rs.len() as int };
    assert(out[at] == r);
    if key == r.word {
        lemma_lookup_found(out, at);
    } else if lookup(rs, key) is Some {
        lemma_lookup_index(rs, key);
        let p = choose|p: int|
            0 <= p < rs.len() && rs[p] == lookup(rs, key)->Some_0 && rs[p].word == key;
        assert(out[p] == rs[p]);
        lemma_lookup_found(out, p);
    } else {
        assert forall|p: int| 0 <= p < out.len() implies out[p].word != key by {
            if p != at {
                assert(out[p] == rs[p]);
                if rs[p].word == key {
                    lemma_lookup_found(rs, p);
                }
            }
        }
        lemma_lookup_absent(out, key);
    }
}

/// Merging a snapshot into a list without repeated keys leaves it without
/// repeated keys.
pub proof fn lemma_merged_distinct(base: Seq<Record>, snapshot: Seq<Record>)
    requires
        keys_distinct(base),
    ensures
        keys_distinct(merged(base, snapshot)),
    decreases snapshot.len(),
{
    if snapshot.len() > 0 {
        lemma_merged_distinct(base, snapshot.drop_last());
        lemma_put_distinct(merged(base, snapshot.drop_last()), snapshot.last());
    }
}

/// After a snapshot was merged into a tracker's records, every word of the
/// snapshot is found with the counters the snapshot has for it, and so with
/// the same score; every other word is found as before.
pub proof fn law_snapshot_round_trip(base: Seq<Record>, snapshot: Seq<Record>, key: Seq<char>)
    requires
        keys_distinct(base),
    ensures
        lookup(merged(base, snapshot), key) == match lookup(snapshot, key) {
            Some(r) => Some(r),
            None => lookup(base, key),
        },
        lookup(snapshot, key) is Some ==> lookup(merged(base, snapshot), key)->Some_0.score()
            == lookup(snapshot, key)->Some_0.score(),
    decreases snapshot.len(),
{
    if snapshot.len() > 0 {
        let front = snapshot.drop_last();
        law_snapshot_round_trip(base, front, key);
        lemma_merged_distinct(base, front);
        lemma_lookup_put(merged(base, front), snapshot.last(), key);
    }
}

/// The score is the number of correct answers minus twice the number of wrong
/// ones, whatever the history.
pub proof fn law_score(r: Record)
    ensures
        r.score() == r.correct - 2 * r.wrong,
{
}

/// Counting a correct answer raises the correct count alone and the score
/// by one; counting a wrong answer raises the wrong count alone and lowers
/// the score by two.
pub proof fn law_counting(r: Record)
    ensures
        counted_once(r, true) == (Record { correct: r.correct + 1, ..r }),
        counted_once(r, false) == (Record { wrong: r.wrong + 1, ..r }),
        counted_once(r, true).score() == r.score() + 1,
        counted_once(r, false).score() == r.score() - 2,
{
}

impl ExerciseResults {
    /// Counts one more answer: a correct one raises only the correct count, a
    /// wrong one only the wrong count.
    pub fn add(&mut self, correct: bool)
        requires
            correct ==> old(self).correct < usize::MAX,
            !correct ==> old(self).wrong < usize::MAX,
        ensures
            final(self).word == old(self).word,
            final(self)@ == counted_once(old(self)@, correct),
    {
        if correct {
            self.correct += 1;
        } else {
            self.wrong += 1;
        }
    }

    /// The score: correct answers minus twice the wrong ones.
    pub fn score(&self) -> (s: i128)
        ensures
            s == self@.score(),
    {
        self.correct as i128 - 2 * (self.wrong as i128)
    }

    /// A record without answers for a word.
    pub fn new(s: &str) -> (r: Self)
        ensures
            r.word@ == s@,
            r.correct == 0,
            r.wrong == 0,
    {
        Self { correct: 0, wrong: 0, word: s.to_owned() }
    }

    /// A copy of the record.
    pub fn duplicate(&self) -> (r: Self)
        ensures
            r@ == self@,
    {
        Self { correct: self.correct, wrong: self.wrong, word: self.word.clone() }
    }
}

impl Default for ExerciseResults {
    fn default() -> (r: Self)
        ensures
            r.word@ == Seq::<char>::empty(),
            r.correct == 0,
            r.wrong == 0,
    {
        Self { word: String::new(), correct: 0, wrong: 0 }
    }
}

/// Sorts records by ascending score.
pub fn sort_by_score(v: &mut Vec<ExerciseResults>)
    ensures
        sorted_by_score(views(final(v)@)),
        views(final(v)@).to_multiset() == views(old(v)@).to_multiset(),
        final(v).len() == old(v).len(),
        keys_distinct(views(old(v)@)) ==> keys_distinct(views(final(v)@)),
{
    let n = v.len();
    if n == 0 {
        assert(views(v@).len() == 0);
        return ;
    }
    assert(sorted_by_score(views(v@).take(1)));
    let mut i: usize = 1;
    while i < n
        invariant
            n == v.len(),
            n == old(v).len(),
            1 <= i <= n,
            sorted_by_score(views(v@).take(i as int)),
            views(v@).to_multiset() == views(old(v)@).to_multiset(),
            keys_distinct(views(old(v)@)) ==> keys_distinct(views(v@)),
        decreases n - i,
    {
        let ghost before = v@;
        let x = v.remove(i);
        let s = x.score();
        let mut j: usize = i;
        while j > 0 && v[j - 1].score() > s
            invariant
                j <= i < n,
                before.len() == n,
                v@ == before.remove(i as int),
                s == x@.score(),
                forall|k: int| j <= k < i ==> (#[trigger] v@[k])@.score() > s,
            decreases j,
        {
            j -= 1;
        }
        v.insert(j, x);
        proof {
            let mid = before.remove(i as int);
            assert(views(mid) =~= views(before).remove(i as int));
            assert(views(v@) =~= views(mid).insert(j as int, x@));
            to_multiset_remove(views(before), i as int);
            to_multiset_insert(views(mid), j as int, x@);
            assert(views(before)[i as int] == x@);
            to_multiset_contains(views(before), x@);
            assert(views(before).contains(x@));
            assert(views(v@).to_multiset() =~= views(before).to_multiset());
            let a = views(v@).take(i + 1);
            let b = views(before).take(i as int);
            assert forall|p: int, q: int| 0 <= p <= q < a.len() implies a[p].score()
                <= a[q].score() by {
                let pp = if p < j { p } else { p - 1 };
                let qq = if q < j { q } else { q - 1 };
                if p != j && q != j {
                    assert(a[p] == b[pp]);
                    assert(a[q] == b[qq]);
                } else if p == j && q != j {
                    assert(a[q] == b[qq]);
                    assert(views(mid)[qq] == mid[qq]@);
                } else if p != j && q == j {
                    assert(a[p] == b[pp]);
                    if j > 0 {
                        assert(b[pp].score() <= b[j - 1].score());
                        assert(views(mid)[j - 1] == mid[j - 1]@);
                    }
                }
            }
            if keys_distinct(views(old(v)@)) {
                let w = views(v@);
                let o = views(before);
                assert forall|p: int, q: int| 0 <= p < q < w.len() implies w[p].word
                    != w[q].word by {
                    let mp = if p == j { i as int } else if p < j { p } else { p - 1 };
                    let mq = if q == j { i as int } else if q < j { q } else { q - 1 };
                    let op = if mp < i || p == j { mp } else { mp + 1 };
                    let oq = if mq < i || q == j { mq } else { mq + 1 };
                    assert(w[p] == o[op]);
                    assert(w[q] == o[oq]);
                    assert(op != oq);
                }
            }
        }
        i += 1;
    }
    assert(views(v@).take(n as int) =~= views(v@));
}

} // verus!
