//! Operations on the catalog: group identifiers, lookup and insertion by
//! spelling, and the ingestion of catalog rows.

use crate::text::str_eq;
use crate::words::{
    article_of_code, columns_read, facts_of_row, get_article, group_assigned, is_auxiliary_text,
    names, pos_of_tag, row_accepted, Database, PartOfSpeech, PerfectVerb, RowError, Word,
    WordEntry, ARTICLE_IDX, GROUP_IDX, PERFECT_VERB_IDX, POS_IDX, TRANSLATION_IDX, WORD_IDX,
};
use std::collections::HashMap;
use vstd::prelude::*;

verus! {

broadcast use vstd::std_specs::hash::group_hash_axioms;

/// Why a row is turned down, if it is: a required column is missing, the word
/// is empty, or a tag, an article code or an auxiliary text is not a known one.
pub open spec fn row_verdict(row: Map<usize, String>) -> Option<RowError> {
    if !(row.contains_key(WORD_IDX) && row.contains_key(POS_IDX) && row.contains_key(
        TRANSLATION_IDX,
    ) && row.contains_key(GROUP_IDX)) {
        Some(RowError::MissingField)
    } else if row[WORD_IDX]@.len() == 0 {
        Some(RowError::EmptyWord)
    } else {
        match pos_of_tag(row[POS_IDX]@) {
            None => Some(RowError::UnknownPartOfSpeech),
            Some(PartOfSpeech::Noun) => if !row.contains_key(ARTICLE_IDX) {
                Some(RowError::MissingField)
            } else if article_of_code(row[ARTICLE_IDX]@) is None {
                Some(RowError::UnknownArticle)
            } else {
                None
            },
            Some(PartOfSpeech::Verb) => if row.contains_key(PERFECT_VERB_IDX)
                && !is_auxiliary_text(row[PERFECT_VERB_IDX]@) {
                Some(RowError::UnknownAuxiliary)
            } else {
                None
            },
            Some(_) => None,
        }
    }
}

/// The entry is what the row says of a word.
pub open spec fn reads_as(row: Map<usize, String>, w: WordEntry) -> bool {
    row_verdict(row) is None && w.facts() == facts_of_row(
        pos_of_tag(row[POS_IDX]@)->Some_0,
        row,
        w.facts().group_id,
    )
}

/// The entry belongs to the group `name`: its group identifier is the
/// position of that name in the list of group names.
pub open spec fn in_group(groups: Seq<Seq<char>>, w: WordEntry, name: Seq<char>) -> bool {
    w.facts().group_id < groups.len() && groups[w.facts().group_id as int] == name
}

/// Decides whether a row can be read, without changing it.
pub fn check_row(map: &HashMap<usize, String>) -> (r: Result<(), RowError>)
    ensures
        r == match row_verdict(map@) {
            Some(e) => Err::<(), RowError>(e),
            None => Ok::<(), RowError>(()),
        },
        r is Ok ==> WordEntry::reads(map@) is Some && row_accepted(
            WordEntry::reads(map@)->Some_0,
            map@,
        ),
{
    let word = match map.get(&WORD_IDX) {
        Some(w) => w,
        None => {
            return Err(RowError::MissingField);
        },
    };
    let tag = match map.get(&POS_IDX) {
        Some(t) => t,
        None => {
            return Err(RowError::MissingField);
        },
    };
    if !map.contains_key(&TRANSLATION_IDX) || !map.contains_key(&GROUP_IDX) {
        return Err(RowError::MissingField);
    }
    if word.as_str().is_empty() {
        return Err(RowError::EmptyWord);
    }
    if str_eq(tag.as_str(), "n") {
        match map.get(&ARTICLE_IDX) {
            None => Err(RowError::MissingField),
            Some(code) => match get_article(code.as_str()) {
                Ok(_) => Ok(()),
                Err(_) => Err(RowError::UnknownArticle),
            },
        }
    } else if str_eq(tag.as_str(), "v") {
        match map.get(&PERFECT_VERB_IDX) {
            None => Ok(()),
            Some(text) => match PerfectVerb::from(text.as_str()) {
                Ok(_) => Ok(()),
                Err(e) => Err(e),
            },
        }
    } else if str_eq(tag.as_str(), "adj") || str_eq(tag.as_str(), "adv") || str_eq(
        tag.as_str(),
        "prep",
    ) {
        Ok(())
    } else {
        Err(RowError::UnknownPartOfSpeech)
    }
}

impl WordEntry {
    /// Reads a catalog row into an entry. A row that cannot be read is turned
    /// down as a whole: neither the row nor the catalog changes.
    pub fn from_row(map: &mut HashMap<usize, String>, db: &mut Database) -> (r: Result<
        WordEntry,
        RowError,
    >)
        ensures
            match row_verdict(old(map)@) {
                Some(e) => r == Err::<WordEntry, RowError>(e) && final(map)@ == old(map)@
                    && *final(db) == *old(db),
                None => r is Ok && ({
                    let w = r->Ok_0;
                    let pos = pos_of_tag(old(map)@[POS_IDX]@)->Some_0;
                    &&& w.facts() == facts_of_row(pos, old(map)@, w.facts().group_id)
                    &&& w.facts().word.len() > 0
                    &&& group_assigned(
                        names(old(db).groups@),
                        names(final(db).groups@),
                        old(map)@[GROUP_IDX]@,
                        w.facts().group_id as int,
                    )
                    &&& final(db).words == old(db).words
                    &&& final(map)@ == old(map)@.remove_keys(columns_read(pos))
                }),
            },
    {
        match check_row(map) {
            Err(e) => Err(e),
            Ok(_) => Ok(WordEntry::new(map, db)),
        }
    }
}

/// In a valid catalog a spelling stands for one word.
pub proof fn lemma_unique_entry(db: &Database, word: &WordEntry, j: int)
    requires
        db.wf(),
        db.words@.contains(*word),
        0 <= j < db.words.len(),
        db.words[j].key() == word.key(),
    ensures
        db.words[j] == *word,
{
    let k = choose|k: int| 0 <= k < db.words@.len() && db.words@[k] == *word;
    if k < j {
        assert(db.words[k].key() != db.words[j].key());
    } else if j < k {
        assert(db.words[j].key() != db.words[k].key());
    }
}

impl Database {
    /// No two words share a spelling, and every noun can be written out.
    pub open spec fn wf(&self) -> bool {
        &&& forall|i: int, j: int|
            0 <= i < j < self.words.len() ==> self.words[i].key() != self.words[j].key()
        &&& forall|i: int| 0 <= i < self.words.len() ==> (#[trigger] self.words[i]).wf()
    }

    /// Every group has one name and one identifier: no group name stands
    /// twice in the list, and every word's group identifier is a position in
    /// the list.
    pub open spec fn grouped(&self) -> bool {
        &&& forall|i: int, j: int|
            0 <= i < j < self.groups.len() ==> names(self.groups@)[i] != names(self.groups@)[j]
        &&& forall|i: int|
            0 <= i < self.words.len() ==> (#[trigger] self.words[i]).facts().group_id
                < self.groups.len()
    }

    /// Whether the catalog holds a word with this spelling.
    pub open spec fn has(&self, key: Seq<char>) -> bool {
        exists|i: int| 0 <= i < self.words.len() && (#[trigger] self.words[i]).key() == key
    }

    /// An empty catalog.
    pub fn new() -> (db: Database)
        ensures
            db.groups@.len() == 0,
            db.words@.len() == 0,
            db.wf(),
            db.grouped(),
    {
        Database { groups: Vec::new(), words: Vec::new() }
    }

    /// The identifier of a group: that of its first sighting, or a new one.
    pub fn get_group_id(&mut self, name: &str) -> (id: usize)
        ensures
            group_assigned(
                names(old(self).groups@),
                names(final(self).groups@),
                name@,
                id as int,
            ),
            final(self).words == old(self).words,
    {
        let mut i: usize = 0;
        while i < self.groups.len()
            invariant
                i <= self.groups.len(),
                *self == *old(self),
                forall|k: int| 0 <= k < i ==> names(self.groups@)[k] != name@,
            decreases self.groups.len() - i,
        {
            if str_eq(self.groups[i].as_str(), name) {
                return i;
            }
            i += 1;
        }
        self.groups.push(name.to_owned());
        assert(names(self.groups@) =~= names(old(self).groups@).push(name@));
        i
    }

    /// Reads a row and puts its word into the catalog. A row that cannot be
    /// read changes nothing.
    pub fn add_row(&mut self, map: &mut HashMap<usize, String>) -> (r: Result<(), RowError>)
        ensures
            match row_verdict(old(map)@) {
                Some(e) => r == Err::<(), RowError>(e) && final(map)@ == old(map)@ && *final(self)
                    == *old(self),
                None => {
                    &&& r is Ok
                    &&& old(self).wf() ==> final(self).wf()
                    &&& old(self).grouped() ==> final(self).grouped()
                    &&& old(self).wf() ==> forall|w: WordEntry|
                        final(self).words@.contains(w) && w.key() == old(map)@[WORD_IDX]@
                            ==> #[trigger] in_group(
                            names(final(self).groups@),
                            w,
                            old(map)@[GROUP_IDX]@,
                        )
                    &&& names(final(self).groups@) == if names(old(self).groups@).contains(
                        old(map)@[GROUP_IDX]@,
                    ) {
                        names(old(self).groups@)
                    } else {
                        names(old(self).groups@).push(old(map)@[GROUP_IDX]@)
                    }
                    &&& final(self).words.len() == old(self).words.len() + if old(self).has(
                        old(map)@[WORD_IDX]@,
                    ) {
                        0int
                    } else {
                        1int
                    }
                    &&& forall|k: Seq<char>| #[trigger]
                        final(self).has(k) <==> old(self).has(k) || k == old(map)@[WORD_IDX]@
                    &&& exists|j: int|
                        0 <= j < final(self).words.len() && reads_as(
                            old(map)@,
                            #[trigger] final(self).words[j],
                        ) && group_assigned(
                            names(old(self).groups@),
                            names(final(self).groups@),
                            old(map)@[GROUP_IDX]@,
                            final(self).words[j].facts().group_id as int,
                        )
                    &&& forall|w: WordEntry| #[trigger]
                        final(self).words@.contains(w) ==> old(self).words@.contains(w)
                            || reads_as(old(map)@, w)
                    &&& forall|w: WordEntry|
                        old(self).words@.contains(w) && w.key() != old(map)@[WORD_IDX]@
                            ==> #[trigger] final(self).words@.contains(w)
                    &&& final(map)@ == old(map)@.remove_keys(
                        columns_read(pos_of_tag(old(map)@[POS_IDX]@)->Some_0),
                    )
                },
            },
    {
        match WordEntry::from_row(map, self) {
            Err(e) => Err(e),
            Ok(word) => {
                let ghost mid = *self;
                proof {
                    let before = names(old(self).groups@);
                    let name = old(map)@[GROUP_IDX]@;
                    let id = word.facts().group_id as int;
                    if id < before.len() {
                        assert(before[id] == name);
                    } else if before.contains(name) {
                        let k = choose|k: int| 0 <= k < before.len() && before[k] == name;
                        assert(before[k] != name);
                    }
                }
                assert(mid.words == old(self).words);
                let ghost entry = word;
                self.insert(word);
                proof {
                    assert(reads_as(old(map)@, entry));
                    let at = if mid.has(entry.key()) {
                        choose|i: int|
                            0 <= i < mid.words.len() && (#[trigger] mid.words[i]).key()
                                == entry.key() && self.words@ == mid.words@.update(i, entry)
                    } else {
                        mid.words.len() as int
                    };
                    assert(self.words[at] == entry);
                    assert forall|w: WordEntry| #[trigger]
                        self.words@.contains(w) implies old(self).words@.contains(w) || reads_as(
                        old(map)@,
                        w,
                    ) by {
                        let m = choose|m: int| 0 <= m < self.words@.len() && self.words@[m] == w;
                        if m != at {
                            assert(old(self).words@[m] == w);
                        }
                    }
                    assert forall|w: WordEntry|
                        old(self).words@.contains(w) && w.key() != old(map)@[WORD_IDX]@
                        implies #[trigger] self.words@.contains(w) by {
                        let m = choose|m: int|
                            0 <= m < old(self).words@.len() && old(self).words@[m] == w;
                        assert(self.words@[m] == w);
                    }
                    let now = names(self.groups@);
                    let name = old(map)@[GROUP_IDX]@;
                    assert(in_group(now, entry, name));
                    if old(self).wf() {
                        assert forall|w: WordEntry|
                            self.words@.contains(w) && w.key() == old(map)@[WORD_IDX]@
                            implies #[trigger] in_group(now, w, name) by {
                            let m = choose|m: int| 0 <= m < self.words@.len() && self.words@[m] == w;
                            if m < at {
                                assert(self.words[m].key() != self.words[at].key());
                            } else if at < m {
                                assert(self.words[at].key() != self.words[m].key());
                            }
                        }
                    }
                    if old(self).grouped() {
                        assert forall|i: int| 0 <= i < self.words.len() implies (#[trigger] self.words[i]).facts().group_id
                            < self.groups.len() by {
                            if i != at {
                                assert(old(self).words[i].facts().group_id < old(self).groups.len());
                            }
                        }
                        assert(now.len() == self.groups.len());
                    }
                }
                Ok(())
            },
        }
    }

    /// Position of the word with the given spelling.
    pub fn position(&self, key: &str) -> (r: Option<usize>)
        ensures
            match r {
                Some(i) => i < self.words.len() && self.words[i as int].key() == key@,
                None => !self.has(key@),
            },
    {
        let mut i: usize = 0;
        while i < self.words.len()
            invariant
                i <= self.words.len(),
                forall|k: int| 0 <= k < i ==> (#[trigger] self.words[k]).key() != key@,
            decreases self.words.len() - i,
        {
            if str_eq(self.words[i].get_word(), key) {
                return Some(i);
            }
            i += 1;
        }
        None
    }

    /// The word with the given spelling.
    pub fn get(&self, key: &str) -> (r: Option<&WordEntry>)
        ensures
            match r {
                Some(w) => w.key() == key@ && self.words@.contains(*w),
                None => !self.has(key@),
            },
    {
        match self.position(key) {
            Some(i) => Some(&self.words[i]),
            None => None,
        }
    }

    /// Puts a word into the catalog. A word with the same spelling is replaced
    /// where it stands; a new spelling goes to the end.
    pub fn insert(&mut self, word: WordEntry)
        ensures
            final(self).groups == old(self).groups,
            old(self).has(word.key()) ==> exists|i: int|
                0 <= i < old(self).words.len() && (#[trigger] old(self).words[i]).key()
                    == word.key() && final(self).words@ == old(self).words@.update(i, word),
            !old(self).has(word.key()) ==> final(self).words@ == old(self).words@.push(word),
            old(self).wf() && word.wf() ==> final(self).wf(),
            forall|k: Seq<char>| #[trigger] final(self).has(k) <==> old(self).has(k) || k == word.key(),
    {
        let found = self.position(word.get_word());
        let ghost entry = word;
        match found {
            Some(i) => {
                self.words.set(i, word);
            },
            None => {
                self.words.push(word);
            },
        }
        proof {
            let at = match found {
                Some(i) => i as int,
                None => old(self).words.len() as int,
            };
            assert(self.words[at].key() == entry.key());
            assert forall|k: Seq<char>| #[trigger]
                self.has(k) <==> old(self).has(k) || k == entry.key() by {
                if self.has(k) {
                    let m = choose|m: int|
                        0 <= m < self.words.len() && (#[trigger] self.words[m]).key() == k;
                    if m != at {
                        assert(old(self).words[m].key() == k);
                    }
                }
                if old(self).has(k) {
                    let m = choose|m: int|
                        0 <= m < old(self).words.len() && (#[trigger] old(self).words[m]).key()
                            == k;
                    assert(self.words[m].key() == k);
                }
            }
        }
    }
}

} // verus!
