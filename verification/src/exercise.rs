//! Exercises: the four shapes, how each is built from a word, and how an
//! answer is graded.

use crate::catalog::lemma_unique_entry;
use crate::options::{fetch_word_options, options_drawn, pool_size, OptionsError};
use crate::random::choose_item;
use crate::spelling::{
    check_spelling_perfect, check_spelling_simple, perfect_matches, spelling_matches,
};
use crate::text::texts;
use crate::tracker::{knows_form, of_pos, selected_with, GameResults, SelectError};
use crate::words::{
    all_articles, all_verb_forms, article_bullet, capitalize_noun, capitalized, form_text, has_form, pos_name,
    spelling_of, Database, NounArticle, PartOfSpeech, VerbFormExercise, Word, WordEntry,
    WordFacts,
};
use vstd::prelude::*;

verus! {

/// The kinds of exercise that can be asked for.
#[derive(Debug, Clone, Copy, PartialEq, Eq, Structural)]
pub enum ExerciseType {
    SelectDe,
    TranslateRuDe,
    SelectRu,
    GuessNounArticle,
    VerbFormRandom,
}

/// The options of a multiple-choice exercise and the position of the right one.
pub struct ExerciseDataBullets {
    pub answers: Vec<String>,
    pub correct_idx: usize,
}

/// The options of an article exercise and the message for a right answer.
pub struct ExerciseDataArticle {
    pub data: ExerciseDataBullets,
    pub correct_message: String,
}

/// The answer that a free-text exercise expects.
pub struct ExerciseDataInput {
    pub correct_spelling: String,
}

/// The verb form that is asked for and the answer that is expected.
pub struct ExerciseDataVerbForm {
    pub form: VerbFormExercise,
    pub data: ExerciseDataInput,
}

/// The part of an exercise that depends on its shape.
pub enum ExerciseData {
    Bullets(ExerciseDataBullets),
    TextInput(ExerciseDataInput),
    VerbForm(ExerciseDataVerbForm),
    Article(ExerciseDataArticle),
}

/// One exercise: what is asked, what to say after a wrong answer, and what
/// the right answer is.
pub struct Exercise {
    pub ex_type: ExerciseType,
    pub task: String,
    pub incorrect_message: String,
    pub data: ExerciseData,
}

/// The type-specific part of an exercise as plain values.
pub enum DataModel {
    Bullets { answers: Seq<Seq<char>>, correct_idx: usize },
    TextInput { correct_spelling: Seq<char> },
    VerbForm { form: VerbFormExercise, correct_spelling: Seq<char> },
    Article { answers: Seq<Seq<char>>, correct_idx: usize, correct_message: Seq<char> },
}

/// An exercise as plain values.
pub struct ExerciseModel {
    pub ex_type: ExerciseType,
    pub task: Seq<char>,
    pub incorrect_message: Seq<char>,
    pub data: DataModel,
}

impl View for ExerciseData {
    type V = DataModel;

    open spec fn view(&self) -> DataModel {
        match self {
            ExerciseData::Bullets(d) => DataModel::Bullets {
                answers: texts(d.answers@),
                correct_idx: d.correct_idx,
            },
            ExerciseData::TextInput(d) => DataModel::TextInput {
                correct_spelling: d.correct_spelling@,
            },
            ExerciseData::VerbForm(d) => DataModel::VerbForm {
                form: d.form,
                correct_spelling: d.data.correct_spelling@,
            },
            ExerciseData::Article(d) => DataModel::Article {
                answers: texts(d.data.answers@),
                correct_idx: d.data.correct_idx,
                correct_message: d.correct_message@,
            },
        }
    }
}

impl View for Exercise {
    type V = ExerciseModel;

    open spec fn view(&self) -> ExerciseModel {
        ExerciseModel {
            ex_type: self.ex_type,
            task: self.task@,
            incorrect_message: self.incorrect_message@,
            data: self.data@,
        }
    }
}

/// Whether a free-text answer is right.
pub open spec fn text_answer_right(data: DataModel, input: Seq<char>) -> bool {
    match data {
        DataModel::TextInput { correct_spelling } => spelling_matches(input, correct_spelling),
        DataModel::VerbForm { form, correct_spelling } => match form {
            VerbFormExercise::Perfect => perfect_matches(input, correct_spelling),
            _ => spelling_matches(input, correct_spelling),
        },
        _ => false,
    }
}

/// Whether a chosen option is right.
pub open spec fn choice_right(data: DataModel, answer: usize) -> bool {
    match data {
        DataModel::Bullets { answers, correct_idx } => correct_idx == answer,
        DataModel::Article { answers, correct_idx, correct_message } => correct_idx == answer,
        _ => false,
    }
}

/// The answer shown to the learner after a free-text exercise.
pub open spec fn correct_spelling_of(data: DataModel) -> Seq<char> {
    match data {
        DataModel::TextInput { correct_spelling } => correct_spelling,
        DataModel::VerbForm { form, correct_spelling } => correct_spelling,
        _ => Seq::empty(),
    }
}

/// The message shown to the learner after a right answer.
pub open spec fn correct_message_of(data: DataModel) -> Seq<char> {
    match data {
        DataModel::Article { answers, correct_idx, correct_message } => correct_message,
        _ => "Correct!"@,
    }
}

/// The options offered to the learner, where the exercise has any.
pub open spec fn answers_of(data: DataModel) -> Option<Seq<Seq<char>>> {
    match data {
        DataModel::Bullets { answers, correct_idx } => Some(answers),
        DataModel::Article { answers, correct_idx, correct_message } => Some(answers),
        _ => None,
    }
}

impl Exercise {
    fn check_input_spelling(&self, input: &str) -> (ok: bool)
        ensures
            ok == (self.data is TextInput && text_answer_right(self.data@, input@)),
    {
        if let ExerciseData::TextInput(data) = &self.data {
            check_spelling_simple(input, data.correct_spelling.as_str())
        } else {
            false
        }
    }

    fn check_verb_form_spelling(&self, input: &str) -> (ok: bool)
        ensures
            ok == (self.data is VerbForm && text_answer_right(self.data@, input@)),
    {
        if let ExerciseData::VerbForm(data) = &self.data {
            let correct = data.data.correct_spelling.as_str();
            match data.form {
                VerbFormExercise::Perfect => check_spelling_perfect(input, correct),
                _ => check_spelling_simple(input, correct),
            }
        } else {
            false
        }
    }

    /// Grades a free-text answer. An exercise that offers options has no
    /// right free-text answer.
    pub fn check_spelling(&self, input: &str) -> (ok: bool)
        ensures
            ok == text_answer_right(self.data@, input@),
    {
        match self.data {
            ExerciseData::TextInput(_) => self.check_input_spelling(input),
            ExerciseData::VerbForm(_) => self.check_verb_form_spelling(input),
            _ => false,
        }
    }

    /// The answer to show after a free-text exercise; empty for an exercise
    /// that offers options.
    pub fn get_correct_spelling(&self) -> (r: &str)
        ensures
            r@ == correct_spelling_of(self.data@),
    {
        match &self.data {
            ExerciseData::TextInput(data) => data.correct_spelling.as_str(),
            ExerciseData::VerbForm(data) => data.data.correct_spelling.as_str(),
            _ => {
                proof {
                    reveal_strlit("");
                }
                assert(""@ =~= Seq::<char>::empty());
                ""
            },
        }
    }

    /// The message to show after a right answer.
    pub fn get_correct_message(&self) -> (r: &str)
        ensures
            r@ == correct_message_of(self.data@),
    {
        match &self.data {
            ExerciseData::Article(data) => data.correct_message.as_str(),
            _ => "Correct!",
        }
    }

    /// Grades a chosen option. A free-text exercise has no right option.
    pub fn check_answer(&self, answer: usize) -> (ok: bool)
        ensures
            ok == choice_right(self.data@, answer),
    {
        match &self.data {
            ExerciseData::Article(data) => data.data.correct_idx == answer,
            ExerciseData::Bullets(data) => data.correct_idx == answer,
            _ => false,
        }
    }

    /// The options that are offered, where the exercise offers any.
    pub fn get_answers(&self) -> (r: Option<&Vec<String>>)
        ensures
            match r {
                Some(v) => answers_of(self.data@) == Some(texts(v@)),
                None => answers_of(self.data@) is None,
            },
    {
        match &self.data {
            ExerciseData::Article(data) => Some(&data.data.answers),
            ExerciseData::Bullets(data) => Some(&data.answers),
            _ => None,
        }
    }
}

/// The facts of a list of options.
pub open spec fn facts_of(options: Seq<&WordEntry>) -> Seq<WordFacts> {
    options.map_values(|w: &WordEntry| w.facts())
}

/// The exercise that asks for the German word among options, given its
/// translation.
pub open spec fn select_de_model(f: WordFacts, options: Seq<WordFacts>, correct_idx: usize)
    -> ExerciseModel {
    ExerciseModel {
        ex_type: ExerciseType::SelectDe,
        task: "Select translation to Deutsch: "@ + f.translation + " ("@ + pos_name(f.pos) + ")"@,
        incorrect_message: "Incorrect! The word is "@ + spelling_of(f),
        data: DataModel::Bullets {
            answers: options.map_values(|o: WordFacts| spelling_of(o)),
            correct_idx,
        },
    }
}

/// The exercise that asks for the translation among options, given the German
/// word.
pub open spec fn select_ru_model(f: WordFacts, options: Seq<WordFacts>, correct_idx: usize)
    -> ExerciseModel {
    ExerciseModel {
        ex_type: ExerciseType::SelectRu,
        task: "Select translation to Russian: "@ + spelling_of(f) + " ("@ + pos_name(f.pos) + ")"@,
        incorrect_message: "Incorrect! The translation is "@ + f.translation,
        data: DataModel::Bullets {
            answers: options.map_values(|o: WordFacts| o.translation),
            correct_idx,
        },
    }
}

/// The hint that follows a task, where the word has one.
pub open spec fn hint_of(help: Seq<char>) -> Seq<char> {
    if help.len() == 0 {
        Seq::empty()
    } else {
        ". Hint: "@ + help
    }
}

/// The exercise that asks for the German word as free text.
pub open spec fn translate_to_de_model(f: WordFacts) -> ExerciseModel {
    ExerciseModel {
        ex_type: ExerciseType::TranslateRuDe,
        task: "Translate to German: "@ + f.translation + " ("@ + pos_name(f.pos) + ")"@ + hint_of(
            f.help,
        ),
        incorrect_message: "Incorrect! The word is "@ + spelling_of(f),
        data: DataModel::TextInput { correct_spelling: spelling_of(f) },
    }
}

/// Position of an article among the four that are offered.
pub open spec fn article_ordinal(a: NounArticle) -> usize {
    match a {
        NounArticle::Der => 0,
        NounArticle::Das => 1,
        NounArticle::Die => 2,
        NounArticle::Plural => 3,
    }
}

/// The exercise that asks for the article of a noun.
pub open spec fn guess_noun_article_model(f: WordFacts) -> ExerciseModel {
    ExerciseModel {
        ex_type: ExerciseType::GuessNounArticle,
        task: "Select the correct article for the noun: "@ + capitalized(f.word),
        incorrect_message: "Incorrect! The article is "@ + spelling_of(f) + " - "@ + f.translation,
        data: DataModel::Article {
            answers: all_articles().map_values(|a: NounArticle| article_bullet(a)),
            correct_idx: article_ordinal(f.article->Some_0),
            correct_message: "Correct! "@ + spelling_of(f) + " - "@ + f.translation,
        },
    }
}

/// The sentence that names the slot of a verb form.
pub open spec fn form_prompt(form: VerbFormExercise) -> Seq<char> {
    match form {
        VerbFormExercise::PresentThird => "Add verb in present tense: Er ... jetzt"@,
        VerbFormExercise::Praeteritum => "Add verb in Pr\u{e4}teritum : Er ... einst"@,
        VerbFormExercise::Perfect => "Add verb in Perfekt : Er ... ... gestern"@,
    }
}

/// The exercise that asks for a form of a verb.
pub open spec fn verb_form_model(f: WordFacts, form: VerbFormExercise) -> ExerciseModel {
    ExerciseModel {
        ex_type: ExerciseType::VerbFormRandom,
        task: form_prompt(form) + " [ "@ + f.word + " - "@ + f.translation + " ]"@,
        incorrect_message: "Incorrect! The form is "@ + form_text(f, form),
        data: DataModel::VerbForm { form, correct_spelling: form_text(f, form) },
    }
}

/// Builds the multiple-choice exercise that asks for the German word, out of
/// options that are already drawn.
pub fn select_de_from(word: &WordEntry, options: &Vec<&WordEntry>, correct_idx: usize) -> (ex:
    Exercise)
    requires
        word.wf(),
        forall|k: int| 0 <= k < options.len() ==> (#[trigger] options[k]).wf(),
    ensures
        ex@ == select_de_model(word.facts(), facts_of(options@), correct_idx),
{
    let mut task = "Select translation to Deutsch: ".to_owned();
    task.append(word.translation());
    task.append(" (");
    task.append(word.pos_str());
    task.append(")");
    let mut answers: Vec<String> = Vec::new();
    let mut k: usize = 0;
    while k < options.len()
        invariant
            k <= options.len(),
            answers.len() == k,
            forall|k: int| 0 <= k < options.len() ==> (#[trigger] options[k]).wf(),
            forall|m: int| 0 <= m < k ==> (#[trigger] answers[m])@ == spelling_of(options[m].facts()),
        decreases options.len() - k,
    {
        answers.push(options[k].spelling());
        k += 1;
    }
    let mut incorrect_message = "Incorrect! The word is ".to_owned();
    incorrect_message.append(word.spelling().as_str());
    assert(texts(answers@) =~= facts_of(options@).map_values(|o: WordFacts| spelling_of(o)));
    Exercise {
        ex_type: ExerciseType::SelectDe,
        task,
        incorrect_message,
        data: ExerciseData::Bullets(ExerciseDataBullets { answers, correct_idx }),
    }
}

/// Builds the multiple-choice exercise that asks for the translation, out of
/// options that are already drawn.
pub fn select_ru_from(word: &WordEntry, options: &Vec<&WordEntry>, correct_idx: usize) -> (ex:
    Exercise)
    requires
        word.wf(),
    ensures
        ex@ == select_ru_model(word.facts(), facts_of(options@), correct_idx),
{
    let mut task = "Select translation to Russian: ".to_owned();
    task.append(word.spelling().as_str());
    task.append(" (");
    task.append(word.pos_str());
    task.append(")");
    let mut answers: Vec<String> = Vec::new();
    let mut k: usize = 0;
    while k < options.len()
        invariant
            k <= options.len(),
            answers.len() == k,
            forall|m: int| 0 <= m < k ==> (#[trigger] answers[m])@ == options[m].facts().translation,
        decreases options.len() - k,
    {
        answers.push(options[k].translation().to_owned());
        k += 1;
    }
    let mut incorrect_message = "Incorrect! The translation is ".to_owned();
    incorrect_message.append(word.translation());
    assert(texts(answers@) =~= facts_of(options@).map_values(|o: WordFacts| o.translation));
    Exercise {
        ex_type: ExerciseType::SelectRu,
        task,
        incorrect_message,
        data: ExerciseData::Bullets(ExerciseDataBullets { answers, correct_idx }),
    }
}

/// Every option of a valid catalog, and a valid target, can be written out.
pub proof fn lemma_options_wf(
    db: &Database,
    word: &WordEntry,
    options: Seq<&WordEntry>,
    correct: int,
)
    requires
        db.wf(),
        word.wf(),
        options_drawn(db, word, options, correct),
    ensures
        forall|k: int| 0 <= k < options.len() ==> (#[trigger] options[k]).wf(),
{
    assert forall|k: int| 0 <= k < options.len() implies (#[trigger] options[k]).wf() by {
        if k != correct {
            let j = choose|j: int| 0 <= j < db.words@.len() && db.words@[j] == *options[k];
            assert(db.words[j].wf());
        }
    }
}

/// The multiple-choice exercise for the German word of a translation, with
/// distractors drawn from the catalog.
pub fn exercise_select_de(db: &Database, word: &WordEntry) -> (r: Result<Exercise, OptionsError>)
    requires
        db.wf(),
        word.wf(),
    ensures
        match r {
            Ok(ex) => exists|options: Seq<&WordEntry>, correct: usize| #[trigger]
                options_drawn(db, word, options, correct as int) && ex@ == select_de_model(
                    word.facts(),
                    facts_of(options),
                    correct,
                ),
            Err(e) => e == OptionsError::TooManyAttempts && pool_size(
                db.words@,
                word.facts(),
            ) > 1,
        },
{
    match fetch_word_options(db, word) {
        Ok((options, correct_idx)) => {
            proof {
                lemma_options_wf(db, word, options@, correct_idx as int);
            }
            let ex = select_de_from(word, &options, correct_idx);
            assert(options_drawn(db, word, options@, correct_idx as int));
            Ok(ex)
        },
        Err(e) => Err(e),
    }
}

/// The multiple-choice exercise for the translation of a German word, with
/// distractors drawn from the catalog.
pub fn exercise_select_ru(db: &Database, word: &WordEntry) -> (r: Result<Exercise, OptionsError>)
    requires
        word.wf(),
    ensures
        match r {
            Ok(ex) => exists|options: Seq<&WordEntry>, correct: usize| #[trigger]
                options_drawn(db, word, options, correct as int) && ex@ == select_ru_model(
                    word.facts(),
                    facts_of(options),
                    correct,
                ),
            Err(e) => e == OptionsError::TooManyAttempts && pool_size(
                db.words@,
                word.facts(),
            ) > 1,
        },
{
    match fetch_word_options(db, word) {
        Ok((options, correct_idx)) => {
            let ex = select_ru_from(word, &options, correct_idx);
            assert(options_drawn(db, word, options@, correct_idx as int));
            Ok(ex)
        },
        Err(e) => Err(e),
    }
}

/// The free-text exercise for the German word of a translation.
pub fn exercise_translate_to_de(word: &WordEntry) -> (ex: Exercise)
    requires
        word.wf(),
    ensures
        ex@ == translate_to_de_model(word.facts()),
{
    let mut task = "Translate to German: ".to_owned();
    task.append(word.translation());
    task.append(" (");
    task.append(word.pos_str());
    task.append(")");
    let help = word.get_help();
    let ghost stem = task@;
    if !help.is_empty() {
        task.append(". Hint: ");
        task.append(help);
        assert(task@ =~= stem + hint_of(help@));
    } else {
        assert(task@ =~= stem + hint_of(help@));
    }
    let correct_spelling = word.spelling();
    let mut incorrect_message = "Incorrect! The word is ".to_owned();
    incorrect_message.append(word.spelling().as_str());
    Exercise {
        ex_type: ExerciseType::TranslateRuDe,
        task,
        incorrect_message,
        data: ExerciseData::TextInput(ExerciseDataInput { correct_spelling }),
    }
}

/// The exercise that asks for the article of a noun.
pub fn exercise_guess_noun_article(word: &WordEntry) -> (ex: Exercise)
    requires
        word.facts().article is Some,
        word.facts().word.len() > 0,
    ensures
        ex@ == guess_noun_article_model(word.facts()),
{
    let mut task = "Select the correct article for the noun: ".to_owned();
    task.append(capitalize_noun(word.get_word()).as_str());
    let articles = NounArticle::all();
    let mut answers: Vec<String> = Vec::new();
    let mut k: usize = 0;
    while k < articles.len()
        invariant
            k <= articles.len(),
            answers.len() == k,
            forall|m: int| 0 <= m < k ==> (#[trigger] answers[m])@ == article_bullet(articles[m]),
        decreases articles.len() - k,
    {
        answers.push(articles[k].answer_bullet_str());
        k += 1;
    }
    let mut incorrect_message = "Incorrect! The article is ".to_owned();
    incorrect_message.append(word.spelling().as_str());
    incorrect_message.append(" - ");
    incorrect_message.append(word.translation());
    let correct_idx = match word.get_article() {
        Some(a) => a.ordinal(),
        None => 0,
    };
    let mut correct_message = "Correct! ".to_owned();
    correct_message.append(word.spelling().as_str());
    correct_message.append(" - ");
    correct_message.append(word.translation());
    assert(texts(answers@) =~= all_articles().map_values(|a: NounArticle| article_bullet(a)));
    Exercise {
        ex_type: ExerciseType::GuessNounArticle,
        task,
        incorrect_message,
        data: ExerciseData::Article(
            ExerciseDataArticle {
                data: ExerciseDataBullets { answers, correct_idx },
                correct_message,
            },
        ),
    }
}

/// The exercise that asks for one form of a verb.
pub fn exercise_verb_form(word: &WordEntry, form: VerbFormExercise) -> (ex: Exercise)
    requires
        has_form(word.facts(), form),
    ensures
        ex@ == verb_form_model(word.facts(), form),
{
    let mut task = match form {
        VerbFormExercise::PresentThird => "Add verb in present tense: Er ... jetzt".to_owned(),
        VerbFormExercise::Praeteritum => "Add verb in Pr\u{e4}teritum : Er ... einst".to_owned(),
        VerbFormExercise::Perfect => "Add verb in Perfekt : Er ... ... gestern".to_owned(),
    };
    task.append(" [ ");
    task.append(word.get_word());
    task.append(" - ");
    task.append(word.translation());
    task.append(" ]");
    let correct_spelling = match form {
        VerbFormExercise::PresentThird => match word.get_verb_present_third() {
            Some(t) => t.to_owned(),
            None => String::new(),
        },
        VerbFormExercise::Praeteritum => match word.get_verb_praeteritum() {
            Some(t) => t.to_owned(),
            None => String::new(),
        },
        VerbFormExercise::Perfect => match word.get_verb_perfect_full() {
            Some(t) => t,
            None => String::new(),
        },
    };
    let mut incorrect_message = "Incorrect! The form is ".to_owned();
    incorrect_message.append(correct_spelling.as_str());
    Exercise {
        ex_type: ExerciseType::VerbFormRandom,
        task,
        incorrect_message,
        data: ExerciseData::VerbForm(
            ExerciseDataVerbForm { data: ExerciseDataInput { correct_spelling }, form },
        ),
    }
}

/// Draws one of the three verb forms at random.
pub fn draw_verb_form() -> (form: VerbFormExercise)
    ensures
        all_verb_forms().contains(form),
{
    let mut rng = rand::thread_rng();
    // There are three forms, so one of them comes out.
    match choose_item(VerbFormExercise::all(), &mut rng) {
        Some(form) => form,
        None => VerbFormExercise::PresentThird,
    }
}

/// The exercise that asks for a form of a verb, the form drawn at random
/// among the three. The verb has to know all three, since any may be drawn.
pub fn exercise_verb_form_random(word: &WordEntry) -> (ex: Exercise)
    requires
        forall|form: VerbFormExercise| has_form(word.facts(), form),
    ensures
        exists|form: VerbFormExercise| ex@ == #[trigger] verb_form_model(word.facts(), form),
{
    exercise_verb_form(word, draw_verb_form())
}

/// What an exercise of a given type about a given catalog word is.
pub open spec fn built_for(
    db: &Database,
    word: &WordEntry,
    ex_type: ExerciseType,
    ex: ExerciseModel,
) -> bool {
    match ex_type {
        ExerciseType::SelectDe => exists|options: Seq<&WordEntry>, correct: usize| #[trigger]
            options_drawn(db, word, options, correct as int) && ex == select_de_model(
                word.facts(),
                facts_of(options),
                correct,
            ),
        ExerciseType::SelectRu => exists|options: Seq<&WordEntry>, correct: usize| #[trigger]
            options_drawn(db, word, options, correct as int) && ex == select_ru_model(
                word.facts(),
                facts_of(options),
                correct,
            ),
        ExerciseType::TranslateRuDe => ex == translate_to_de_model(word.facts()),
        ExerciseType::GuessNounArticle => word.facts().pos == PartOfSpeech::Noun && ex
            == guess_noun_article_model(word.facts()),
        ExerciseType::VerbFormRandom => exists|form: VerbFormExercise| #[trigger]
            has_form(word.facts(), form) && ex == verb_form_model(word.facts(), form),
    }
}

/// Why no exercise of a given type came about, with a distribution at hand:
/// no record meets the condition of the type, a record's word is not in the
/// catalog, or the draws for the options were given up for a word that has
/// more than one candidate.
pub open spec fn no_exercise(db: &Database, results: &GameResults, ex_type: ExerciseType) -> bool {
    match ex_type {
        ExerciseType::GuessNounArticle => selected_with(
            results,
            db,
            of_pos(PartOfSpeech::Noun),
            Err(SelectError::Exhausted),
        ),
        ExerciseType::VerbFormRandom => exists|form: VerbFormExercise| #[trigger]
            selected_with(results, db, knows_form(form), Err(SelectError::Exhausted)),
        _ => {
            ||| exists|i: int|
                0 <= i < results.records().len() && !db.has((#[trigger] results.records()[i]).word@)
            ||| ex_type != ExerciseType::TranslateRuDe && exists|i: int, j: int|
                0 <= i < results.records().len() && 0 <= j < db.words.len()
                    && (#[trigger] db.words[j]).key() == (#[trigger] results.records()[i]).word@
                    && pool_size(db.words@, db.words[j].facts()) > 1
        },
    }
}

/// Only a noun has an article.
pub proof fn lemma_noun_has_article(word: &WordEntry)
    ensures
        word.facts().pos == PartOfSpeech::Noun <==> word.facts().article is Some,
{
}

/// Selects a word for an exercise of the given type and builds the exercise:
/// a verb-form exercise draws its form first and selects among the verbs that
/// know it, an article exercise selects among the nouns, every other type
/// selects among all records. Returns the position of the selected record with
/// the exercise. Without a distribution there is no exercise, whatever the
/// type.
pub fn select_and_build(db: &Database, results: &GameResults, ex_type: &ExerciseType) -> (r:
    Option<(usize, Exercise)>)
    requires
        db.wf(),
        results.wf(),
    ensures
        !results.ready() ==> r is None,
        match r {
            Some((i, ex)) => results.ready() && i < results.records().len() && exists|j: int|
                0 <= j < db.words.len() && (#[trigger] db.words[j]).key()
                    == results.records()[i as int].word@ && built_for(
                    db,
                    &db.words[j],
                    *ex_type,
                    ex@,
                ),
            None => !results.ready() || no_exercise(db, results, *ex_type),
        },
{
    proof {
        results.lemma_wf();
    }
    let mut drawn_form: Option<VerbFormExercise> = None;
    let selected = match ex_type {
        ExerciseType::VerbFormRandom => {
            let form = draw_verb_form();
            drawn_form = Some(form);
            results.select_word_with_verb_form(db, &form)
        },
        ExerciseType::GuessNounArticle => results.select_word_by_pos(db, PartOfSpeech::Noun),
        _ => results.select_word_to_learn(),
    };
    let i = match selected {
        Ok(i) => i,
        Err(_) => {
            return None;
        },
    };
    let word = match db.get(results.record(i).word.as_str()) {
        Some(w) => w,
        None => {
            return None;
        },
    };
    let ghost j = choose|j: int| 0 <= j < db.words@.len() && db.words@[j] == *word;
    proof {
        assert(db.words[j].key() == results.records()[i as int].word@);
        assert(word.wf());
        lemma_noun_has_article(word);
        match *ex_type {
            ExerciseType::GuessNounArticle => {
                let m = choose|m: int|
                    0 <= m < db.words.len() && (#[trigger] db.words[m]).key()
                        == results.records()[i as int].word@ && db.words[m].facts().pos
                        == PartOfSpeech::Noun;
                lemma_unique_entry(db, word, m);
            },
            ExerciseType::VerbFormRandom => {
                let form = drawn_form->Some_0;
                let m = choose|m: int|
                    0 <= m < db.words.len() && (#[trigger] db.words[m]).key()
                        == results.records()[i as int].word@ && has_form(
                        db.words[m].facts(),
                        form,
                    );
                lemma_unique_entry(db, word, m);
            },
            _ => {},
        }
    }
    let ex = match ex_type {
        ExerciseType::SelectDe => match exercise_select_de(db, word) {
            Ok(ex) => ex,
            Err(_) => {
                return None;
            },
        },
        ExerciseType::TranslateRuDe => exercise_translate_to_de(word),
        ExerciseType::SelectRu => match exercise_select_ru(db, word) {
            Ok(ex) => ex,
            Err(_) => {
                return None;
            },
        },
        ExerciseType::GuessNounArticle => exercise_guess_noun_article(word),
        ExerciseType::VerbFormRandom => match drawn_form {
            Some(form) => exercise_verb_form(word, form),
            None => {
                return None;
            },
        },
    };
    assert(built_for(db, &db.words[j], *ex_type, ex@));
    Some((i, ex))
}

/// Selects a word for an exercise of the given type and builds the exercise.
pub fn create_exercise_with_type(db: &Database, results: &GameResults, ex_type: &ExerciseType) -> (r:
    Option<Exercise>)
    requires
        db.wf(),
        results.wf(),
    ensures
        !results.ready() ==> r is None,
        match r {
            Some(ex) => results.ready() && exists|i: int, j: int|
                0 <= i < results.records().len() && 0 <= j < db.words.len()
                    && (#[trigger] db.words[j]).key() == (#[trigger] results.records()[i]).word@
                    && built_for(db, &db.words[j], *ex_type, ex@),
            None => !results.ready() || no_exercise(db, results, *ex_type),
        },
{
    match select_and_build(db, results, ex_type) {
        Some((i, ex)) => {
            proof {
                let j = choose|j: int|
                    0 <= j < db.words.len() && (#[trigger] db.words[j]).key()
                        == results.records()[i as int].word@ && built_for(
                        db,
                        &db.words[j],
                        *ex_type,
                        ex@,
                    );
                assert(db.words[j].key() == results.records()[i as int].word@);
            }
            Some(ex)
        },
        None => None,
    }
}

} // verus!
