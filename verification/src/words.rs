//! The word catalog: parts of speech, the per-word records and the catalog
//! that owns them.

use crate::spelling::{check_spelling_simple, spelling_matches};
use crate::text::{chars_of, str_eq, string_of, to_uppercase, trim_bounds, trimmed, uppercase_of};
use std::collections::HashMap;
use vstd::prelude::*;

verus! {

broadcast use vstd::std_specs::hash::group_hash_axioms;

/// The parts of speech that the catalog knows.
#[derive(Debug, Clone, Copy, PartialEq, Eq, Structural)]
pub enum PartOfSpeech {
    Noun,
    Verb,
    Adjective,
    Adverb,
    Preposition,
}

/// The article of a noun; a noun that is used in the plural only has its own.
#[derive(Debug, Clone, Copy, PartialEq, Eq, Structural)]
pub enum NounArticle {
    Der,
    Das,
    Die,
    Plural,
}

/// The article as it is written in front of a noun.
pub open spec fn article_text(a: NounArticle) -> Seq<char> {
    match a {
        NounArticle::Der => "der"@,
        NounArticle::Das => "das"@,
        NounArticle::Die => "die"@,
        NounArticle::Plural => "die"@,
    }
}

/// The article as it is offered in a list of choices.
pub open spec fn article_bullet(a: NounArticle) -> Seq<char> {
    match a {
        NounArticle::Plural => "die (plural)"@,
        _ => article_text(a),
    }
}

/// The article that a catalog code stands for.
pub open spec fn article_of_code(code: Seq<char>) -> Option<NounArticle> {
    if code == "der"@ {
        Some(NounArticle::Der)
    } else if code == "das"@ {
        Some(NounArticle::Das)
    } else if code == "die"@ {
        Some(NounArticle::Die)
    } else if code == "pl"@ {
        Some(NounArticle::Plural)
    } else {
        None
    }
}

/// The four articles in the order in which they are offered as choices.
pub open spec fn all_articles() -> Seq<NounArticle> {
    seq![NounArticle::Der, NounArticle::Das, NounArticle::Die, NounArticle::Plural]
}

impl NounArticle {
    /// The article as it is offered in a list of choices.
    pub fn answer_bullet_str(&self) -> (s: String)
        ensures
            s@ == article_bullet(*self),
    {
        match self {
            NounArticle::Plural => "die (plural)".to_owned(),
            _ => self.to_string(),
        }
    }

    /// The article as it is written in front of a noun.
    pub fn to_string(&self) -> (s: String)
        ensures
            s@ == article_text(*self),
    {
        match self {
            NounArticle::Der => "der".to_owned(),
            NounArticle::Die => "die".to_owned(),
            NounArticle::Das => "das".to_owned(),
            NounArticle::Plural => "die".to_owned(),
        }
    }

    /// Position of the article in `all_articles()`.
    pub fn ordinal(&self) -> (i: usize)
        ensures
            i < 4,
            all_articles()[i as int] == *self,
    {
        match self {
            NounArticle::Der => 0,
            NounArticle::Das => 1,
            NounArticle::Die => 2,
            NounArticle::Plural => 3,
        }
    }

    /// The four articles in the order in which they are offered.
    pub fn all() -> (v: Vec<NounArticle>)
        ensures
            v@ == all_articles(),
    {
        let mut v: Vec<NounArticle> = Vec::new();
        v.push(NounArticle::Der);
        v.push(NounArticle::Das);
        v.push(NounArticle::Die);
        v.push(NounArticle::Plural);
        assert(v@ =~= all_articles());
        v
    }
}

/// The column of the word itself.
pub const WORD_IDX: usize = 0;

/// The column of the part-of-speech tag.
pub const POS_IDX: usize = 1;

/// The column of the translation.
pub const TRANSLATION_IDX: usize = 2;

/// The column of the group name.
pub const GROUP_IDX: usize = 3;

/// The column of a noun's article code.
pub const ARTICLE_IDX: usize = 4;

/// The column of a verb's past participle.
pub const PERFECT_IDX: usize = 5;

/// The column of a verb's simple past.
pub const PRAETERITUM_IDX: usize = 6;

/// The column of the hint.
pub const HELP_IDX: usize = 7;

/// The column of a verb's auxiliary.
pub const PERFECT_VERB_IDX: usize = 8;

/// The column of a verb's third person present.
pub const PRESENT_THIRD_IDX: usize = 9;

/// The part-of-speech tag of a catalog row.
pub fn get_part_of_speech(map: &HashMap<usize, String>) -> (tag: &str)
    requires
        map@.contains_key(POS_IDX),
    ensures
        tag@ == map@[POS_IDX]@,
{
    match map.get(&POS_IDX) {
        Some(s) => s.as_str(),
        None => "",
    }
}

/// The message that reports an article code outside the four known ones.
pub open spec fn unknown_article_message(code: Seq<char>) -> Seq<char> {
    "Unknown article \""@ + code + "\""@
}

/// Reads an article code.
pub fn get_article(s: &str) -> (r: Result<NounArticle, String>)
    ensures
        match article_of_code(s@) {
            Some(a) => r == Ok::<NounArticle, String>(a),
            None => r is Err && r->Err_0@ == unknown_article_message(s@),
        },
{
    if str_eq(s, "der") {
        Ok(NounArticle::Der)
    } else if str_eq(s, "das") {
        Ok(NounArticle::Das)
    } else if str_eq(s, "die") {
        Ok(NounArticle::Die)
    } else if str_eq(s, "pl") {
        Ok(NounArticle::Plural)
    } else {
        let mut msg = "Unknown article \"".to_owned();
        msg.append(s);
        msg.append("\"");
        Err(msg)
    }
}

/// A word with its first character in uppercase and the rest unchanged.
pub open spec fn capitalized(s: Seq<char>) -> Seq<char> {
    if s.len() == 0 {
        s
    } else {
        uppercase_of(s[0]) + s.drop_first()
    }
}

/// Writes a noun with a capital initial. The rest of the noun stays as it is.
pub fn capitalize_noun(noun: &str) -> (out: String)
    requires
        noun@.len() > 0,
    ensures
        out@ == capitalized(noun@),
{
    let n = noun.unicode_len();
    let mut out = to_uppercase(noun.get_char(0));
    let rest = noun.substring_char(1, n);
    out.append(rest);
    assert(noun@.subrange(1, n as int) =~= noun@.drop_first());
    out
}

/// The auxiliary with which a verb forms its perfect: `haben`, `sein`, or
/// either of them.
#[derive(Debug, Clone, Copy, PartialEq, Eq, Structural)]
pub enum PerfectVerb {
    Haben,
    Sein,
    Both,
}

/// The auxiliary as it is written in a perfect form.
pub open spec fn auxiliary_text(v: PerfectVerb) -> Seq<char> {
    match v {
        PerfectVerb::Haben => "hat"@,
        PerfectVerb::Sein => "ist"@,
        PerfectVerb::Both => "hat/ist"@,
    }
}

/// The auxiliary that a trimmed catalog text stands for.
pub open spec fn auxiliary_of_text(t: Seq<char>) -> Option<PerfectVerb> {
    if t == "hat"@ {
        Some(PerfectVerb::Haben)
    } else if t == "ist"@ {
        Some(PerfectVerb::Sein)
    } else if t == "hat/ist"@ {
        Some(PerfectVerb::Both)
    } else {
        None
    }
}

/// Whether a catalog text names an auxiliary or, being blank, names none.
pub open spec fn is_auxiliary_text(s: Seq<char>) -> bool {
    trimmed(s).len() == 0 || auxiliary_of_text(trimmed(s)) is Some
}

/// Why a catalog row was turned down.
#[derive(Debug, Clone, Copy, PartialEq, Eq, Structural)]
pub enum RowError {
    /// The word, its translation, its group or its part-of-speech tag is missing,
    /// or a noun has no article column.
    MissingField,
    /// The word itself is empty.
    EmptyWord,
    /// The part-of-speech tag is none of `n`, `v`, `adj`, `adv`, `prep`.
    UnknownPartOfSpeech,
    /// A noun's article code is none of `der`, `das`, `die`, `pl`.
    UnknownArticle,
    /// A verb's auxiliary text is neither blank nor one of `hat`, `ist`,
    /// `hat/ist`.
    UnknownAuxiliary,
}

/// What an auxiliary text reads as: a blank text names no auxiliary, a known
/// one names its auxiliary, any other is refused.
pub open spec fn auxiliary_read(s: Seq<char>) -> Result<Option<PerfectVerb>, RowError> {
    if is_auxiliary_text(s) {
        Ok(auxiliary_of_text(trimmed(s)))
    } else {
        Err(RowError::UnknownAuxiliary)
    }
}

impl PerfectVerb {
    /// Reads an auxiliary text: a blank text names no auxiliary, a known one
    /// names its auxiliary, any other is refused.
    pub fn from(s: &str) -> (r: Result<Option<Self>, RowError>)
        ensures
            r == auxiliary_read(s@),
    {
        let v = chars_of(s);
        let (lo, hi) = trim_bounds(&v);
        let t = string_of(&v, lo, hi);
        if str_eq(t.as_str(), "hat") {
            Ok(Some(PerfectVerb::Haben))
        } else if str_eq(t.as_str(), "ist") {
            Ok(Some(PerfectVerb::Sein))
        } else if str_eq(t.as_str(), "hat/ist") {
            Ok(Some(PerfectVerb::Both))
        } else if lo == hi {
            Ok(None)
        } else {
            Err(RowError::UnknownAuxiliary)
        }
    }

    /// Reads an auxiliary text where there is one; no text names no
    /// auxiliary.
    pub fn from_option(s: Option<String>) -> (r: Result<Option<Self>, RowError>)
        ensures
            r == match s {
                Some(text) => auxiliary_read(text@),
                None => Ok::<Option<Self>, RowError>(None),
            },
    {
        match s {
            Some(text) => Self::from(text.as_str()),
            None => Ok(None),
        }
    }

    /// The auxiliary as it is written in a perfect form.
    pub fn to_string(&self) -> (s: String)
        ensures
            s@ == auxiliary_text(*self),
    {
        match self {
            PerfectVerb::Haben => "hat".to_owned(),
            PerfectVerb::Sein => "ist".to_owned(),
            PerfectVerb::Both => "hat/ist".to_owned(),
        }
    }
}

/// The text of a row's column, or the empty text where the row has no such
/// column.
pub open spec fn field(row: Map<usize, String>, column: usize) -> Seq<char> {
    if row.contains_key(column) {
        row[column]@
    } else {
        Seq::empty()
    }
}

/// The part of speech that a catalog tag stands for.
pub open spec fn pos_of_tag(tag: Seq<char>) -> Option<PartOfSpeech> {
    if tag == "n"@ {
        Some(PartOfSpeech::Noun)
    } else if tag == "v"@ {
        Some(PartOfSpeech::Verb)
    } else if tag == "adj"@ {
        Some(PartOfSpeech::Adjective)
    } else if tag == "adv"@ {
        Some(PartOfSpeech::Adverb)
    } else if tag == "prep"@ {
        Some(PartOfSpeech::Preposition)
    } else {
        None
    }
}

/// The name under which a part of speech appears in a task.
pub open spec fn pos_name(pos: PartOfSpeech) -> Seq<char> {
    match pos {
        PartOfSpeech::Noun => "noun"@,
        PartOfSpeech::Verb => "verb"@,
        PartOfSpeech::Adjective => "adj"@,
        PartOfSpeech::Adverb => "adv"@,
        PartOfSpeech::Preposition => "preposition"@,
    }
}

/// What a word entry says, as plain mathematical values. A verb form that is
/// not known is the empty text; only nouns have an article and only verbs have
/// forms and an auxiliary.
pub struct WordFacts {
    pub pos: PartOfSpeech,
    pub word: Seq<char>,
    pub translation: Seq<char>,
    pub help: Seq<char>,
    pub group_id: usize,
    pub article: Option<NounArticle>,
    pub praeteritum: Seq<char>,
    pub perfect: Seq<char>,
    pub perfect_verb: Option<PerfectVerb>,
    pub present_third: Seq<char>,
}

/// A verb form as a drillable value: nothing where the text is empty.
pub open spec fn known_form(form: Seq<char>) -> Option<Seq<char>> {
    if form.len() == 0 {
        None
    } else {
        Some(form)
    }
}

/// The full spelling of a word: a noun is written with its article and a
/// capital initial, every other word as it stands in the catalog.
pub open spec fn spelling_of(f: WordFacts) -> Seq<char> {
    match f.article {
        Some(a) => article_text(a) + " "@ + capitalized(f.word),
        None => f.word,
    }
}

/// The perfect form "auxiliary participle", where both parts are known.
pub open spec fn perfect_full_of(f: WordFacts) -> Option<Seq<char>> {
    match f.perfect_verb {
        Some(v) => if f.perfect.len() == 0 {
            None
        } else {
            Some(auxiliary_text(v) + " "@ + f.perfect)
        },
        None => None,
    }
}

/// A word whose full spelling can be written: a noun needs a first character to
/// capitalise.
pub open spec fn spellable(f: WordFacts) -> bool {
    f.article is Some ==> f.word.len() > 0
}

/// What an optional string slice holds.
pub open spec fn text_of(s: Option<&str>) -> Option<Seq<char>> {
    match s {
        Some(t) => Some(t@),
        None => None,
    }
}

/// The facts that a row states of a word of the given part of speech, once its
/// group has an identifier.
pub open spec fn facts_of_row(pos: PartOfSpeech, row: Map<usize, String>, group_id: usize)
    -> WordFacts {
    WordFacts {
        pos,
        word: row[WORD_IDX]@,
        translation: row[TRANSLATION_IDX]@,
        help: field(row, HELP_IDX),
        group_id,
        article: if pos == PartOfSpeech::Noun {
            article_of_code(row[ARTICLE_IDX]@)
        } else {
            None
        },
        praeteritum: if pos == PartOfSpeech::Verb {
            field(row, PRAETERITUM_IDX)
        } else {
            Seq::empty()
        },
        perfect: if pos == PartOfSpeech::Verb {
            field(row, PERFECT_IDX)
        } else {
            Seq::empty()
        },
        perfect_verb: if pos == PartOfSpeech::Verb && row.contains_key(PERFECT_VERB_IDX) {
            auxiliary_of_text(trimmed(row[PERFECT_VERB_IDX]@))
        } else {
            None
        },
        present_third: if pos == PartOfSpeech::Verb {
            field(row, PRESENT_THIRD_IDX)
        } else {
            Seq::empty()
        },
    }
}

/// Whether a row can be read as a word of the given part of speech: the word,
/// its translation and its group are there, a noun has a known article, and a
/// verb's auxiliary text, if any, is blank or known.
pub open spec fn row_accepted(pos: PartOfSpeech, row: Map<usize, String>) -> bool {
    &&& row.contains_key(WORD_IDX)
    &&& row.contains_key(TRANSLATION_IDX)
    &&& row.contains_key(GROUP_IDX)
    &&& pos == PartOfSpeech::Noun ==> row.contains_key(ARTICLE_IDX) && article_of_code(
        row[ARTICLE_IDX]@,
    ) is Some
    &&& pos == PartOfSpeech::Verb && row.contains_key(PERFECT_VERB_IDX) ==> is_auxiliary_text(
        row[PERFECT_VERB_IDX]@,
    )
}

/// The columns that reading a word of the given part of speech takes out of a
/// row.
pub open spec fn columns_read(pos: PartOfSpeech) -> Set<usize> {
    let common = set![WORD_IDX, GROUP_IDX, TRANSLATION_IDX, HELP_IDX];
    match pos {
        PartOfSpeech::Noun => common.insert(ARTICLE_IDX),
        PartOfSpeech::Verb => common.insert(PRAETERITUM_IDX).insert(PERFECT_IDX).insert(
            PERFECT_VERB_IDX,
        ).insert(PRESENT_THIRD_IDX),
        _ => common,
    }
}

/// The names of the groups, in the order of their identifiers.
pub open spec fn names(groups: Seq<String>) -> Seq<Seq<char>> {
    groups.map_values(|s: String| s@)
}

/// `id` is the identifier of the group `name`: the position of its first
/// sighting in `before`, or a new last position where `before` does not hold
/// it. `after` is the list of groups once the name has its identifier.
pub open spec fn group_assigned(
    before: Seq<Seq<char>>,
    after: Seq<Seq<char>>,
    name: Seq<char>,
    id: int,
) -> bool {
    &&& 0 <= id <= before.len()
    &&& forall|k: int| 0 <= k < id ==> before[k] != name
    &&& id < before.len() ==> before[id] == name && after == before
    &&& id == before.len() ==> after == before.push(name)
}

/// What the catalog holds of every word.
#[derive(Debug)]
pub struct WordCommon {
    pub word: String,
    pub group_id: usize,
    pub translation: String,
    pub help: String,
}

/// A noun with its article.
#[derive(Debug)]
pub struct Noun {
    pub common: WordCommon,
    pub article: NounArticle,
}

/// A verb with the forms that are known of it; a form that is not known is
/// empty.
#[derive(Debug)]
pub struct Verb {
    pub common: WordCommon,
    pub praeteritum: String,
    pub perfect: String,
    pub perfect_verb: Option<PerfectVerb>,
    pub present_third: String,
}

/// An adjective.
#[derive(Debug)]
pub struct Adjective {
    pub common: WordCommon,
}

/// An adverb.
#[derive(Debug)]
pub struct Adverb {
    pub common: WordCommon,
}

/// A preposition.
#[derive(Debug)]
pub struct Preposition {
    pub common: WordCommon,
}

/// One catalog entry of any part of speech.
#[derive(Debug)]
pub enum WordEntry {
    Noun(Noun),
    Verb(Verb),
    Adjective(Adjective),
    Adverb(Adverb),
    Preposition(Preposition),
}

/// The catalog: the group names, whose positions are the group identifiers, and
/// the words, no two of which share a spelling.
pub struct Database {
    pub groups: Vec<String>,
    pub words: Vec<WordEntry>,
}

impl WordCommon {
    /// Takes the shared columns out of a row and gives the row's group its
    /// identifier. A row without a hint column gives an empty hint.
    pub fn new(map: &mut HashMap<usize, String>, db: &mut Database) -> (c: Self)
        requires
            old(map)@.contains_key(WORD_IDX),
            old(map)@.contains_key(GROUP_IDX),
            old(map)@.contains_key(TRANSLATION_IDX),
        ensures
            c.word@ == old(map)@[WORD_IDX]@,
            c.translation@ == old(map)@[TRANSLATION_IDX]@,
            c.help@ == field(old(map)@, HELP_IDX),
            group_assigned(
                names(old(db).groups@),
                names(final(db).groups@),
                old(map)@[GROUP_IDX]@,
                c.group_id as int,
            ),
            final(db).words == old(db).words,
            final(map)@ == old(map)@.remove_keys(
                set![WORD_IDX, GROUP_IDX, TRANSLATION_IDX, HELP_IDX],
            ),
    {
        let word = map.remove(&WORD_IDX).unwrap();
        let group = map.remove(&GROUP_IDX).unwrap();
        let group_id = db.get_group_id(group.as_str());
        let translation = map.remove(&TRANSLATION_IDX).unwrap();
        let help = match map.remove(&HELP_IDX) {
            Some(h) => h,
            None => String::new(),
        };
        assert(map@ =~= old(map)@.remove_keys(
            set![WORD_IDX, GROUP_IDX, TRANSLATION_IDX, HELP_IDX],
        ));
        WordCommon { word, group_id, translation, help }
    }

    /// The translation.
    pub fn translation(&self) -> (r: &str)
        ensures
            r@ == self.translation@,
    {
        self.translation.as_str()
    }

    /// The word as the catalog spells it.
    pub fn get_word(&self) -> (r: &str)
        ensures
            r@ == self.word@,
    {
        self.word.as_str()
    }

    /// The hint; empty where there is none.
    pub fn get_help(&self) -> (r: &str)
        ensures
            r@ == self.help@,
    {
        self.help.as_str()
    }

    /// The identifier of the word's group.
    pub fn get_group_id(&self) -> (r: usize)
        ensures
            r == self.group_id,
    {
        self.group_id
    }
}

/// What every catalog entry offers, whatever its part of speech.
pub trait Word: Sized {
    /// What the entry says, as plain values.
    spec fn facts(&self) -> WordFacts;

    /// The part of speech under which this type reads a row, if it reads it at
    /// all.
    spec fn reads(row: Map<usize, String>) -> Option<PartOfSpeech>;

    /// The name of the part of speech as it appears in a task.
    fn pos_str(&self) -> (r: &'static str)
        ensures
            r@ == pos_name(self.facts().pos),
    ;

    /// The translation.
    fn translation(&self) -> (r: &str)
        ensures
            r@ == self.facts().translation,
    ;

    /// The full spelling: a noun with its article and a capital initial.
    fn spelling(&self) -> (r: String)
        requires
            spellable(self.facts()),
        ensures
            r@ == spelling_of(self.facts()),
    ;

    /// Grades an answer against the full spelling.
    fn check_spelling(&self, answer: &str) -> (ok: bool)
        requires
            spellable(self.facts()),
        ensures
            ok == spelling_matches(answer@, spelling_of(self.facts())),
    ;

    /// The word as the catalog spells it.
    fn get_word(&self) -> (r: &str)
        ensures
            r@ == self.facts().word,
    ;

    /// Reads the entry out of a row, taking the columns it reads out of the row
    /// and giving the row's group its identifier in the catalog.
    fn new(map: &mut HashMap<usize, String>, db: &mut Database) -> (w: Self)
        requires
            Self::reads(old(map)@) is Some,
            row_accepted(Self::reads(old(map)@)->Some_0, old(map)@),
        ensures
            w.facts() == facts_of_row(
                Self::reads(old(map)@)->Some_0,
                old(map)@,
                w.facts().group_id,
            ),
            group_assigned(
                names(old(db).groups@),
                names(final(db).groups@),
                old(map)@[GROUP_IDX]@,
                w.facts().group_id as int,
            ),
            final(db).words == old(db).words,
            final(map)@ == old(map)@.remove_keys(columns_read(Self::reads(old(map)@)->Some_0)),
    ;

    /// The hint; empty where there is none.
    fn get_help(&self) -> (r: &str)
        ensures
            r@ == self.facts().help,
    ;

    /// The identifier of the word's group.
    fn get_group_id(&self) -> (r: usize)
        ensures
            r == self.facts().group_id,
    ;

    /// The part of speech.
    fn get_pos(&self) -> (r: PartOfSpeech)
        ensures
            r == self.facts().pos,
    ;

    /// The article, where the word is a noun.
    fn get_article(&self) -> (r: Option<NounArticle>)
        ensures
            r == self.facts().article,
    ;

    /// The simple past, where it is known.
    fn get_verb_praeteritum(&self) -> (r: Option<&str>)
        ensures
            text_of(r) == known_form(self.facts().praeteritum),
    ;

    /// The past participle, where it is known.
    fn get_verb_perfect(&self) -> (r: Option<&str>)
        ensures
            text_of(r) == known_form(self.facts().perfect),
    ;

    /// The auxiliary of the perfect, where it is known.
    fn get_verb_perfect_verb(&self) -> (r: Option<&PerfectVerb>)
        ensures
            match r {
                Some(v) => self.facts().perfect_verb == Some(*v),
                None => self.facts().perfect_verb is None,
            },
    ;

    /// The perfect form, auxiliary and participle, where both are known.
    fn get_verb_perfect_full(&self) -> (r: Option<String>)
        ensures
            match r {
                Some(s) => perfect_full_of(self.facts()) == Some(s@),
                None => perfect_full_of(self.facts()) is None,
            },
    ;

    /// The third person present, where it is known.
    fn get_verb_present_third(&self) -> (r: Option<&str>)
        ensures
            text_of(r) == known_form(self.facts().present_third),
    ;
}

impl Word for Noun {
    open spec fn facts(&self) -> WordFacts {
        WordFacts {
            pos: PartOfSpeech::Noun,
            word: self.common.word@,
            translation: self.common.translation@,
            help: self.common.help@,
            group_id: self.common.group_id,
            article: Some(self.article),
            praeteritum: Seq::empty(),
            perfect: Seq::empty(),
            perfect_verb: None,
            present_third: Seq::empty(),
        }
    }

    open spec fn reads(row: Map<usize, String>) -> Option<PartOfSpeech> {
        Some(PartOfSpeech::Noun)
    }

    fn pos_str(&self) -> (r: &'static str) {
        "noun"
    }

    fn spelling(&self) -> (r: String) {
        let mut r = self.article.to_string();
        r.append(" ");
        let noun = capitalize_noun(self.common.get_word());
        r.append(noun.as_str());
        r
    }

    fn check_spelling(&self, answer: &str) -> (ok: bool) {
        check_spelling_simple(answer, self.spelling().as_str())
    }

    fn translation(&self) -> (r: &str) {
        self.common.translation()
    }

    fn get_word(&self) -> (r: &str) {
        self.common.get_word()
    }

    fn get_help(&self) -> (r: &str) {
        self.common.get_help()
    }

    fn new(map: &mut HashMap<usize, String>, db: &mut Database) -> (w: Self) {
        let common = WordCommon::new(map, db);
        let code = map.remove(&ARTICLE_IDX).unwrap();
        // An accepted row names one of the four articles, so this does not fail.
        let article = match get_article(code.as_str()) {
            Ok(a) => a,
            Err(_) => NounArticle::Der,
        };
        let w = Self { common, article };
        proof {
            assert(map@ =~= old(map)@.remove_keys(columns_read(PartOfSpeech::Noun)));
            assert(w.facts() =~= facts_of_row(PartOfSpeech::Noun, old(map)@, w.facts().group_id));
        }
        w
    }

    fn get_group_id(&self) -> (r: usize) {
        self.common.get_group_id()
    }

    fn get_pos(&self) -> (r: PartOfSpeech) {
        PartOfSpeech::Noun
    }

    fn get_article(&self) -> (r: Option<NounArticle>) {
        Some(self.article)
    }

    fn get_verb_praeteritum(&self) -> (r: Option<&str>) {
        None
    }

    fn get_verb_perfect(&self) -> (r: Option<&str>) {
        None
    }

    fn get_verb_perfect_verb(&self) -> (r: Option<&PerfectVerb>) {
        None
    }

    fn get_verb_perfect_full(&self) -> (r: Option<String>) {
        None
    }

    fn get_verb_present_third(&self) -> (r: Option<&str>) {
        None
    }
}

impl Word for Verb {
    open spec fn facts(&self) -> WordFacts {
        WordFacts {
            pos: PartOfSpeech::Verb,
            word: self.common.word@,
            translation: self.common.translation@,
            help: self.common.help@,
            group_id: self.common.group_id,
            article: None,
            praeteritum: self.praeteritum@,
            perfect: self.perfect@,
            perfect_verb: self.perfect_verb,
            present_third: self.present_third@,
        }
    }

    open spec fn reads(row: Map<usize, String>) -> Option<PartOfSpeech> {
        Some(PartOfSpeech::Verb)
    }

    fn pos_str(&self) -> (r: &'static str) {
        "verb"
    }

    fn new(map: &mut HashMap<usize, String>, db: &mut Database) -> (w: Self) {
        let common = WordCommon::new(map, db);
        let praeteritum = match map.remove(&PRAETERITUM_IDX) {
            Some(t) => t,
            None => String::new(),
        };
        let perfect = match map.remove(&PERFECT_IDX) {
            Some(t) => t,
            None => String::new(),
        };
        // An accepted row has a blank or a known auxiliary text, so this does
        // not fail.
        let perfect_verb = match PerfectVerb::from_option(map.remove(&PERFECT_VERB_IDX)) {
            Ok(v) => v,
            Err(_) => None,
        };
        let present_third = match map.remove(&PRESENT_THIRD_IDX) {
            Some(t) => t,
            None => String::new(),
        };
        let w = Self { common, praeteritum, perfect, perfect_verb, present_third };
        proof {
            assert(map@ =~= old(map)@.remove_keys(columns_read(PartOfSpeech::Verb)));
            assert(w.facts() =~= facts_of_row(PartOfSpeech::Verb, old(map)@, w.facts().group_id));
        }
        w
    }

    fn translation(&self) -> (r: &str) {
        self.common.translation()
    }

    fn spelling(&self) -> (r: String) {
        self.common.get_word().to_owned()
    }

    fn check_spelling(&self, answer: &str) -> (ok: bool) {
        check_spelling_simple(answer, self.spelling().as_str())
    }

    fn get_word(&self) -> (r: &str) {
        self.common.get_word()
    }

    fn get_help(&self) -> (r: &str) {
        self.common.get_help()
    }

    fn get_group_id(&self) -> (r: usize) {
        self.common.get_group_id()
    }

    fn get_pos(&self) -> (r: PartOfSpeech) {
        PartOfSpeech::Verb
    }

    fn get_article(&self) -> (r: Option<NounArticle>) {
        None
    }

    fn get_verb_praeteritum(&self) -> (r: Option<&str>) {
        if self.praeteritum.as_str().is_empty() {
            return None;
        }
        Some(self.praeteritum.as_str())
    }

    fn get_verb_present_third(&self) -> (r: Option<&str>) {
        if self.present_third.as_str().is_empty() {
            return None;
        }
        Some(self.present_third.as_str())
    }

    fn get_verb_perfect_verb(&self) -> (r: Option<&PerfectVerb>) {
        self.perfect_verb.as_ref()
    }

    fn get_verb_perfect(&self) -> (r: Option<&str>) {
        if self.perfect.as_str().is_empty() {
            return None;
        }
        Some(self.perfect.as_str())
    }

    fn get_verb_perfect_full(&self) -> (r: Option<String>) {
        let aux = match self.get_verb_perfect_verb() {
            Some(v) => v,
            None => {
                return None;
            },
        };
        let participle = match self.get_verb_perfect() {
            Some(p) => p,
            None => {
                return None;
            },
        };
        let mut full = aux.to_string();
        full.append(" ");
        full.append(participle);
        Some(full)
    }
}

impl Word for Adjective {
    open spec fn facts(&self) -> WordFacts {
        WordFacts {
            pos: PartOfSpeech::Adjective,
            word: self.common.word@,
            translation: self.common.translation@,
            help: self.common.help@,
            group_id: self.common.group_id,
            article: None,
            praeteritum: Seq::empty(),
            perfect: Seq::empty(),
            perfect_verb: None,
            present_third: Seq::empty(),
        }
    }

    open spec fn reads(row: Map<usize, String>) -> Option<PartOfSpeech> {
        Some(PartOfSpeech::Adjective)
    }

    fn pos_str(&self) -> (r: &'static str) {
        "adj"
    }

    fn new(map: &mut HashMap<usize, String>, db: &mut Database) -> (w: Self) {
        let w = Self { common: WordCommon::new(map, db) };
        assert(w.facts() =~= facts_of_row(PartOfSpeech::Adjective, old(map)@, w.facts().group_id));
        w
    }

    fn translation(&self) -> (r: &str) {
        self.common.translation()
    }

    fn spelling(&self) -> (r: String) {
        self.common.get_word().to_owned()
    }

    fn check_spelling(&self, answer: &str) -> (ok: bool) {
        check_spelling_simple(answer, self.spelling().as_str())
    }

    fn get_word(&self) -> (r: &str) {
        self.common.get_word()
    }

    fn get_help(&self) -> (r: &str) {
        self.common.get_help()
    }

    fn get_group_id(&self) -> (r: usize) {
        self.common.get_group_id()
    }

    fn get_pos(&self) -> (r: PartOfSpeech) {
        PartOfSpeech::Adjective
    }

    fn get_article(&self) -> (r: Option<NounArticle>) {
        None
    }

    fn get_verb_praeteritum(&self) -> (r: Option<&str>) {
        None
    }

    fn get_verb_perfect(&self) -> (r: Option<&str>) {
        None
    }

    fn get_verb_perfect_verb(&self) -> (r: Option<&PerfectVerb>) {
        None
    }

    fn get_verb_perfect_full(&self) -> (r: Option<String>) {
        None
    }

    fn get_verb_present_third(&self) -> (r: Option<&str>) {
        None
    }
}

impl Word for Adverb {
    open spec fn facts(&self) -> WordFacts {
        WordFacts {
            pos: PartOfSpeech::Adverb,
            word: self.common.word@,
            translation: self.common.translation@,
            help: self.common.help@,
            group_id: self.common.group_id,
            article: None,
            praeteritum: Seq::empty(),
            perfect: Seq::empty(),
            perfect_verb: None,
            present_third: Seq::empty(),
        }
    }

    open spec fn reads(row: Map<usize, String>) -> Option<PartOfSpeech> {
        Some(PartOfSpeech::Adverb)
    }

    fn pos_str(&self) -> (r: &'static str) {
        "adv"
    }

    fn new(map: &mut HashMap<usize, String>, db: &mut Database) -> (w: Self) {
        let w = Self { common: WordCommon::new(map, db) };
        assert(w.facts() =~= facts_of_row(PartOfSpeech::Adverb, old(map)@, w.facts().group_id));
        w
    }

    fn translation(&self) -> (r: &str) {
        self.common.translation()
    }

    fn spelling(&self) -> (r: String) {
        self.common.get_word().to_owned()
    }

    fn check_spelling(&self, answer: &str) -> (ok: bool) {
        check_spelling_simple(answer, self.spelling().as_str())
    }

    fn get_word(&self) -> (r: &str) {
        self.common.get_word()
    }

    fn get_help(&self) -> (r: &str) {
        self.common.get_help()
    }

    fn get_group_id(&self) -> (r: usize) {
        self.common.get_group_id()
    }

    fn get_pos(&self) -> (r: PartOfSpeech) {
        PartOfSpeech::Adverb
    }

    fn get_article(&self) -> (r: Option<NounArticle>) {
        None
    }

    fn get_verb_praeteritum(&self) -> (r: Option<&str>) {
        None
    }

    fn get_verb_perfect(&self) -> (r: Option<&str>) {
        None
    }

    fn get_verb_perfect_verb(&self) -> (r: Option<&PerfectVerb>) {
        None
    }

    fn get_verb_perfect_full(&self) -> (r: Option<String>) {
        None
    }

    fn get_verb_present_third(&self) -> (r: Option<&str>) {
        None
    }
}

impl Word for Preposition {
    open spec fn facts(&self) -> WordFacts {
        WordFacts {
            pos: PartOfSpeech::Preposition,
            word: self.common.word@,
            translation: self.common.translation@,
            help: self.common.help@,
            group_id: self.common.group_id,
            article: None,
            praeteritum: Seq::empty(),
            perfect: Seq::empty(),
            perfect_verb: None,
            present_third: Seq::empty(),
        }
    }

    open spec fn reads(row: Map<usize, String>) -> Option<PartOfSpeech> {
        Some(PartOfSpeech::Preposition)
    }

    fn pos_str(&self) -> (r: &'static str) {
        "preposition"
    }

    fn new(map: &mut HashMap<usize, String>, db: &mut Database) -> (w: Self) {
        let w = Self { common: WordCommon::new(map, db) };
        assert(w.facts() =~= facts_of_row(PartOfSpeech::Preposition, old(map)@, w.facts().group_id));
        w
    }

    fn translation(&self) -> (r: &str) {
        self.common.translation()
    }

    fn spelling(&self) -> (r: String) {
        self.common.get_word().to_owned()
    }

    fn check_spelling(&self, answer: &str) -> (ok: bool) {
        check_spelling_simple(answer, self.spelling().as_str())
    }

    fn get_word(&self) -> (r: &str) {
        self.common.get_word()
    }

    fn get_help(&self) -> (r: &str) {
        self.common.get_help()
    }

    fn get_group_id(&self) -> (r: usize) {
        self.common.get_group_id()
    }

    fn get_pos(&self) -> (r: PartOfSpeech) {
        PartOfSpeech::Preposition
    }

    fn get_article(&self) -> (r: Option<NounArticle>) {
        None
    }

    fn get_verb_praeteritum(&self) -> (r: Option<&str>) {
        None
    }

    fn get_verb_perfect(&self) -> (r: Option<&str>) {
        None
    }

    fn get_verb_perfect_verb(&self) -> (r: Option<&PerfectVerb>) {
        None
    }

    fn get_verb_perfect_full(&self) -> (r: Option<String>) {
        None
    }

    fn get_verb_present_third(&self) -> (r: Option<&str>) {
        None
    }
}

impl Word for WordEntry {
    open spec fn facts(&self) -> WordFacts {
        match self {
            WordEntry::Noun(w) => w.facts(),
            WordEntry::Verb(w) => w.facts(),
            WordEntry::Adjective(w) => w.facts(),
            WordEntry::Adverb(w) => w.facts(),
            WordEntry::Preposition(w) => w.facts(),
        }
    }

    open spec fn reads(row: Map<usize, String>) -> Option<PartOfSpeech> {
        if row.contains_key(POS_IDX) {
            pos_of_tag(row[POS_IDX]@)
        } else {
            None
        }
    }

    fn new(map: &mut HashMap<usize, String>, db: &mut Database) -> (w: Self) {
        let tag = get_part_of_speech(map);
        if str_eq(tag, "n") {
            WordEntry::Noun(Noun::new(map, db))
        } else if str_eq(tag, "v") {
            WordEntry::Verb(Verb::new(map, db))
        } else if str_eq(tag, "adj") {
            WordEntry::Adjective(Adjective::new(map, db))
        } else if str_eq(tag, "adv") {
            WordEntry::Adverb(Adverb::new(map, db))
        } else {
            WordEntry::Preposition(Preposition::new(map, db))
        }
    }

    fn pos_str(&self) -> (r: &'static str) {
        match self {
            WordEntry::Noun(w) => w.pos_str(),
            WordEntry::Verb(w) => w.pos_str(),
            WordEntry::Adjective(w) => w.pos_str(),
            WordEntry::Adverb(w) => w.pos_str(),
            WordEntry::Preposition(w) => w.pos_str(),
        }
    }

    fn translation(&self) -> (r: &str) {
        match self {
            WordEntry::Noun(w) => w.translation(),
            WordEntry::Verb(w) => w.translation(),
            WordEntry::Adjective(w) => w.translation(),
            WordEntry::Adverb(w) => w.translation(),
            WordEntry::Preposition(w) => w.translation(),
        }
    }

    fn spelling(&self) -> (r: String) {
        match self {
            WordEntry::Noun(w) => w.spelling(),
            WordEntry::Verb(w) => w.spelling(),
            WordEntry::Adjective(w) => w.spelling(),
            WordEntry::Adverb(w) => w.spelling(),
            WordEntry::Preposition(w) => w.spelling(),
        }
    }

    fn check_spelling(&self, answer: &str) -> (ok: bool) {
        match self {
            WordEntry::Noun(w) => w.check_spelling(answer),
            WordEntry::Verb(w) => w.check_spelling(answer),
            WordEntry::Adjective(w) => w.check_spelling(answer),
            WordEntry::Adverb(w) => w.check_spelling(answer),
            WordEntry::Preposition(w) => w.check_spelling(answer),
        }
    }

    fn get_word(&self) -> (r: &str) {
        match self {
            WordEntry::Noun(w) => w.get_word(),
            WordEntry::Verb(w) => w.get_word(),
            WordEntry::Adjective(w) => w.get_word(),
            WordEntry::Adverb(w) => w.get_word(),
            WordEntry::Preposition(w) => w.get_word(),
        }
    }

    fn get_help(&self) -> (r: &str) {
        match self {
            WordEntry::Noun(w) => w.get_help(),
            WordEntry::Verb(w) => w.get_help(),
            WordEntry::Adjective(w) => w.get_help(),
            WordEntry::Adverb(w) => w.get_help(),
            WordEntry::Preposition(w) => w.get_help(),
        }
    }

    fn get_group_id(&self) -> (r: usize) {
        match self {
            WordEntry::Noun(w) => w.get_group_id(),
            WordEntry::Verb(w) => w.get_group_id(),
            WordEntry::Adjective(w) => w.get_group_id(),
            WordEntry::Adverb(w) => w.get_group_id(),
            WordEntry::Preposition(w) => w.get_group_id(),
        }
    }

    fn get_pos(&self) -> (r: PartOfSpeech) {
        match self {
            WordEntry::Noun(w) => w.get_pos(),
            WordEntry::Verb(w) => w.get_pos(),
            WordEntry::Adjective(w) => w.get_pos(),
            WordEntry::Adverb(w) => w.get_pos(),
            WordEntry::Preposition(w) => w.get_pos(),
        }
    }

    fn get_article(&self) -> (r: Option<NounArticle>) {
        match self {
            WordEntry::Noun(w) => w.get_article(),
            WordEntry::Verb(w) => w.get_article(),
            WordEntry::Adjective(w) => w.get_article(),
            WordEntry::Adverb(w) => w.get_article(),
            WordEntry::Preposition(w) => w.get_article(),
        }
    }

    fn get_verb_praeteritum(&self) -> (r: Option<&str>) {
        match self {
            WordEntry::Noun(w) => w.get_verb_praeteritum(),
            WordEntry::Verb(w) => w.get_verb_praeteritum(),
            WordEntry::Adjective(w) => w.get_verb_praeteritum(),
            WordEntry::Adverb(w) => w.get_verb_praeteritum(),
            WordEntry::Preposition(w) => w.get_verb_praeteritum(),
        }
    }

    fn get_verb_perfect(&self) -> (r: Option<&str>) {
        match self {
            WordEntry::Noun(w) => w.get_verb_perfect(),
            WordEntry::Verb(w) => w.get_verb_perfect(),
            WordEntry::Adjective(w) => w.get_verb_perfect(),
            WordEntry::Adverb(w) => w.get_verb_perfect(),
            WordEntry::Preposition(w) => w.get_verb_perfect(),
        }
    }

    fn get_verb_perfect_verb(&self) -> (r: Option<&PerfectVerb>) {
        match self {
            WordEntry::Noun(w) => w.get_verb_perfect_verb(),
            WordEntry::Verb(w) => w.get_verb_perfect_verb(),
            WordEntry::Adjective(w) => w.get_verb_perfect_verb(),
            WordEntry::Adverb(w) => w.get_verb_perfect_verb(),
            WordEntry::Preposition(w) => w.get_verb_perfect_verb(),
        }
    }

    fn get_verb_perfect_full(&self) -> (r: Option<String>) {
        match self {
            WordEntry::Noun(w) => w.get_verb_perfect_full(),
            WordEntry::Verb(w) => w.get_verb_perfect_full(),
            WordEntry::Adjective(w) => w.get_verb_perfect_full(),
            WordEntry::Adverb(w) => w.get_verb_perfect_full(),
            WordEntry::Preposition(w) => w.get_verb_perfect_full(),
        }
    }

    fn get_verb_present_third(&self) -> (r: Option<&str>) {
        match self {
            WordEntry::Noun(w) => w.get_verb_present_third(),
            WordEntry::Verb(w) => w.get_verb_present_third(),
            WordEntry::Adjective(w) => w.get_verb_present_third(),
            WordEntry::Adverb(w) => w.get_verb_present_third(),
            WordEntry::Preposition(w) => w.get_verb_present_third(),
        }
    }
}

impl WordEntry {
    /// The spelling under which the catalog holds the entry.
    pub open spec fn key(&self) -> Seq<char> {
        self.facts().word
    }

    /// The entry can be written out in full.
    pub open spec fn wf(&self) -> bool {
        spellable(self.facts())
    }
}

/// The verb forms that can be drilled.
#[derive(Debug, Clone, Copy, PartialEq, Eq, Structural)]
pub enum VerbFormExercise {
    PresentThird,
    Praeteritum,
    Perfect,
}

/// The three verb forms, in the order in which one of them is drawn.
pub open spec fn all_verb_forms() -> Seq<VerbFormExercise> {
    seq![VerbFormExercise::PresentThird, VerbFormExercise::Praeteritum, VerbFormExercise::Perfect]
}

/// Whether a word can be drilled in a verb form: it is a verb, the form is
/// known, and for the perfect the auxiliary is known too.
pub open spec fn has_form(f: WordFacts, form: VerbFormExercise) -> bool {
    f.pos == PartOfSpeech::Verb && match form {
        VerbFormExercise::PresentThird => f.present_third.len() > 0,
        VerbFormExercise::Praeteritum => f.praeteritum.len() > 0,
        VerbFormExercise::Perfect => f.perfect_verb is Some && f.perfect.len() > 0,
    }
}

/// The answer that a verb form exercise expects.
pub open spec fn form_text(f: WordFacts, form: VerbFormExercise) -> Seq<char> {
    match form {
        VerbFormExercise::PresentThird => f.present_third,
        VerbFormExercise::Praeteritum => f.praeteritum,
        VerbFormExercise::Perfect => match f.perfect_verb {
            Some(v) => auxiliary_text(v) + " "@ + f.perfect,
            None => f.perfect,
        },
    }
}

impl VerbFormExercise {
    /// The three verb forms in the order in which one of them is drawn.
    pub fn all() -> (v: Vec<VerbFormExercise>)
        ensures
            v@ == all_verb_forms(),
    {
        let mut v: Vec<VerbFormExercise> = Vec::new();
        v.push(VerbFormExercise::PresentThird);
        v.push(VerbFormExercise::Praeteritum);
        v.push(VerbFormExercise::Perfect);
        assert(v@ =~= all_verb_forms());
        v
    }
}

/// Whether a word can be drilled in a verb form.
pub fn word_has_form(word: &WordEntry, form: &VerbFormExercise) -> (b: bool)
    ensures
        b == has_form(word.facts(), *form),
{
    if word.get_pos() != PartOfSpeech::Verb {
        return false;
    }
    let opt = match form {
        VerbFormExercise::Praeteritum => word.get_verb_praeteritum(),
        VerbFormExercise::PresentThird => word.get_verb_present_third(),
        VerbFormExercise::Perfect => {
            if word.get_verb_perfect_verb().is_none() {
                return false;
            }
            word.get_verb_perfect()
        },
    };
    opt.is_some()
}

} // verus!
