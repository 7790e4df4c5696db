use woerterbuch::exercise::{
    create_exercise_with_type, exercise_guess_noun_article, exercise_select_de,
    exercise_select_ru, exercise_translate_to_de, exercise_verb_form, exercise_verb_form_random,
    select_de_from, select_ru_from, Exercise, ExerciseData, ExerciseDataArticle,
    ExerciseDataBullets, ExerciseDataInput, ExerciseDataVerbForm, ExerciseType,
};
use woerterbuch::results::ExerciseResults;
use woerterbuch::tracker::GameResults;
use woerterbuch::words::{
    Adverb, Database, Noun, NounArticle, PerfectVerb, Verb, VerbFormExercise, Word, WordCommon,
    WordEntry,
};

fn common(word: &str, translation: &str, help: &str) -> WordCommon {
    WordCommon {
        word: word.to_string(),
        group_id: 0,
        translation: translation.to_string(),
        help: help.to_string(),
    }
}

fn noun(word: &str, translation: &str, article: NounArticle) -> WordEntry {
    WordEntry::Noun(Noun { common: common(word, translation, ""), article })
}

fn gehen() -> WordEntry {
    WordEntry::Verb(Verb {
        common: common("gehen", "to go", ""),
        praeteritum: "ging".to_string(),
        perfect: "gegangen".to_string(),
        perfect_verb: Some(PerfectVerb::Sein),
        present_third: "geht".to_string(),
    })
}

fn five_nouns() -> Database {
    let mut db = Database::new();
    db.insert(noun("hund", "dog", NounArticle::Der));
    db.insert(noun("katze", "cat", NounArticle::Die));
    db.insert(noun("pferd", "horse", NounArticle::Das));
    db.insert(noun("vogel", "bird", NounArticle::Der));
    db.insert(noun("eltern", "parents", NounArticle::Plural));
    db
}

fn bullets(ex: &Exercise) -> (&Vec<String>, usize) {
    match &ex.data {
        ExerciseData::Bullets(b) => (&b.answers, b.correct_idx),
        _ => panic!("not a multiple-choice exercise"),
    }
}

#[test]
fn five_nouns_give_four_options_with_the_right_one_marked() {
    let db = five_nouns();
    for _ in 0..50 {
        let ex = exercise_select_de(&db, &db.words[0]).unwrap();
        assert_eq!(ex.ex_type, ExerciseType::SelectDe);
        assert_eq!(ex.task, "Select translation to Deutsch: dog (noun)");
        assert_eq!(ex.incorrect_message, "Incorrect! The word is der Hund");
        let (answers, correct) = bullets(&ex);
        assert_eq!(answers.len(), 4);
        assert_eq!(answers.iter().filter(|a| *a == "der Hund").count(), 1);
        assert_eq!(answers[correct], "der Hund");
        assert!(ex.check_answer(correct));
        assert!(!ex.check_answer((correct + 1) % 4));
        assert!(!ex.check_answer(4));
        assert_eq!(ex.get_answers(), Some(answers));
        for a in answers.iter() {
            assert!(["der Hund", "die Katze", "das Pferd", "der Vogel", "die Eltern"]
                .contains(&a.as_str()));
        }
        assert!(!ex.check_spelling("der Hund"));
        assert_eq!(ex.get_correct_spelling(), "");
        assert_eq!(ex.get_correct_message(), "Correct!");
    }
}

#[test]
fn the_translation_is_asked_among_translations() {
    let db = five_nouns();
    for _ in 0..50 {
        let ex = exercise_select_ru(&db, &db.words[1]).unwrap();
        assert_eq!(ex.ex_type, ExerciseType::SelectRu);
        assert_eq!(ex.task, "Select translation to Russian: die Katze (noun)");
        assert_eq!(ex.incorrect_message, "Incorrect! The translation is cat");
        let (answers, correct) = bullets(&ex);
        assert_eq!(answers.len(), 4);
        assert_eq!(answers[correct], "cat");
        assert_eq!(answers.iter().filter(|a| *a == "cat").count(), 1);
        assert!(ex.check_answer(correct));
    }
}

#[test]
fn options_already_drawn_are_written_out_in_order() {
    let db = five_nouns();
    let options: Vec<&WordEntry> = vec![&db.words[2], &db.words[0], &db.words[4]];
    let de = select_de_from(&db.words[0], &options, 1);
    assert_eq!(de.task, "Select translation to Deutsch: dog (noun)");
    assert_eq!(bullets(&de), (&vec!["das Pferd".to_string(), "der Hund".to_string(), "die Eltern".to_string()], 1));
    let ru = select_ru_from(&db.words[0], &options, 1);
    assert_eq!(ru.task, "Select translation to Russian: der Hund (noun)");
    assert_eq!(bullets(&ru), (&vec!["horse".to_string(), "dog".to_string(), "parents".to_string()], 1));
}

#[test]
fn a_free_text_exercise_asks_for_the_spelling() {
    let word = noun("m\u{fc}he", "effort", NounArticle::Die);
    let ex = exercise_translate_to_de(&word);
    assert_eq!(ex.ex_type, ExerciseType::TranslateRuDe);
    assert_eq!(ex.task, "Translate to German: effort (noun)");
    assert_eq!(ex.incorrect_message, "Incorrect! The word is die M\u{fc}he");
    assert_eq!(ex.get_correct_spelling(), "die M\u{fc}he");
    assert_eq!(ex.get_correct_message(), "Correct!");
    assert_eq!(ex.get_answers(), None);
    assert!(ex.check_spelling("die Muehe"));
    assert!(ex.check_spelling(" DIE M\u{dc}HE"));
    assert!(!ex.check_spelling("Muehe"));
    assert!(!ex.check_answer(0));
}

#[test]
fn a_hint_follows_the_task() {
    let word = WordEntry::Adverb(Adverb { common: common("oft", "often", "nicht selten") });
    let ex = exercise_translate_to_de(&word);
    assert_eq!(ex.task, "Translate to German: often (adv). Hint: nicht selten");
    assert_eq!(ex.get_correct_spelling(), "oft");
    assert!(ex.check_spelling("Oft"));
}

#[test]
fn the_article_is_asked_among_the_four() {
    let cases = [
        (NounArticle::Der, 0, "der Hund"),
        (NounArticle::Das, 1, "das Hund"),
        (NounArticle::Die, 2, "die Hund"),
        (NounArticle::Plural, 3, "die Hund"),
    ];
    for (article, idx, spelling) in cases {
        let ex = exercise_guess_noun_article(&noun("hund", "dog", article));
        assert_eq!(ex.ex_type, ExerciseType::GuessNounArticle);
        assert_eq!(ex.task, "Select the correct article for the noun: Hund");
        assert_eq!(ex.incorrect_message, format!("Incorrect! The article is {} - dog", spelling));
        assert_eq!(ex.get_correct_message(), format!("Correct! {} - dog", spelling));
        assert_eq!(
            ex.get_answers(),
            Some(&vec![
                "der".to_string(),
                "das".to_string(),
                "die".to_string(),
                "die (plural)".to_string()
            ])
        );
        for k in 0..5 {
            assert_eq!(ex.check_answer(k), k == idx);
        }
        assert!(!ex.check_spelling(spelling));
        assert_eq!(ex.get_correct_spelling(), "");
    }
}

#[test]
fn each_verb_form_has_its_sentence_and_its_answer() {
    let word = gehen();
    let present = exercise_verb_form(&word, VerbFormExercise::PresentThird);
    assert_eq!(present.ex_type, ExerciseType::VerbFormRandom);
    assert_eq!(present.task, "Add verb in present tense: Er ... jetzt [ gehen - to go ]");
    assert_eq!(present.incorrect_message, "Incorrect! The form is geht");
    assert_eq!(present.get_correct_spelling(), "geht");
    assert!(present.check_spelling("Geht "));
    assert!(!present.check_spelling("ging"));
    let past = exercise_verb_form(&word, VerbFormExercise::Praeteritum);
    assert_eq!(past.task, "Add verb in Pr\u{e4}teritum : Er ... einst [ gehen - to go ]");
    assert_eq!(past.get_correct_spelling(), "ging");
    assert!(past.check_spelling("ging"));
    let perfect = exercise_verb_form(&word, VerbFormExercise::Perfect);
    assert_eq!(perfect.task, "Add verb in Perfekt : Er ... ... gestern [ gehen - to go ]");
    assert_eq!(perfect.incorrect_message, "Incorrect! The form is ist gegangen");
    assert_eq!(perfect.get_correct_spelling(), "ist gegangen");
    assert!(perfect.check_spelling("ist gegangen"));
    assert!(!perfect.check_spelling("hat gegangen"));
    assert!(!perfect.check_spelling("gegangen"));
    assert!(!perfect.check_spelling("istgegangen"));
    assert_eq!(perfect.get_answers(), None);
    assert!(!perfect.check_answer(0));
    assert_eq!(perfect.get_correct_message(), "Correct!");
}

#[test]
fn a_random_verb_form_is_one_of_the_three() {
    let word = gehen();
    let mut seen = std::collections::HashSet::new();
    for _ in 0..200 {
        let ex = exercise_verb_form_random(&word);
        let answer = ex.get_correct_spelling().to_string();
        assert!(["geht", "ging", "ist gegangen"].contains(&answer.as_str()));
        seen.insert(answer);
    }
    assert_eq!(seen.len(), 3);
}

#[test]
fn grading_goes_by_the_shape_of_the_exercise() {
    let text = Exercise {
        ex_type: ExerciseType::TranslateRuDe,
        task: String::new(),
        incorrect_message: String::new(),
        data: ExerciseData::TextInput(ExerciseDataInput { correct_spelling: "gr\u{fc}n".to_string() }),
    };
    assert!(text.check_spelling("gruen"));
    assert!(!text.check_answer(0));
    let form = Exercise {
        ex_type: ExerciseType::VerbFormRandom,
        task: String::new(),
        incorrect_message: String::new(),
        data: ExerciseData::VerbForm(ExerciseDataVerbForm {
            form: VerbFormExercise::Perfect,
            data: ExerciseDataInput { correct_spelling: "hat/ist gefahren".to_string() },
        }),
    };
    assert!(form.check_spelling("ist gefahren"));
    assert!(form.check_spelling("hat gefahren"));
    assert!(!form.check_spelling("hat/ist gefahren"));
    let article = Exercise {
        ex_type: ExerciseType::GuessNounArticle,
        task: String::new(),
        incorrect_message: String::new(),
        data: ExerciseData::Article(ExerciseDataArticle {
            data: ExerciseDataBullets { answers: vec!["x".to_string(), "y".to_string()], correct_idx: 1 },
            correct_message: "gut".to_string(),
        }),
    };
    assert!(article.check_answer(1));
    assert!(!article.check_answer(0));
    assert_eq!(article.get_correct_message(), "gut");
    assert_eq!(article.get_answers().map(|a| a.len()), Some(2));
}

fn session() -> (Database, GameResults) {
    let mut db = five_nouns();
    db.insert(gehen());
    db.insert(WordEntry::Adverb(Adverb { common: common("oft", "often", "") }));
    let mut results = GameResults::new();
    results.update_with_db(&db);
    assert!(results.update_weights().is_ok());
    (db, results)
}

#[test]
fn an_exercise_of_each_type_comes_about() {
    let (db, results) = session();
    for _ in 0..100 {
        let de = create_exercise_with_type(&db, &results, &ExerciseType::SelectDe).unwrap();
        assert_eq!(de.ex_type, ExerciseType::SelectDe);
        let (answers, correct) = bullets(&de);
        assert!(de.incorrect_message.ends_with(answers[correct].as_str()));
        let ru = create_exercise_with_type(&db, &results, &ExerciseType::SelectRu).unwrap();
        assert_eq!(ru.ex_type, ExerciseType::SelectRu);
        let text = create_exercise_with_type(&db, &results, &ExerciseType::TranslateRuDe).unwrap();
        assert_eq!(text.ex_type, ExerciseType::TranslateRuDe);
        assert!(text.check_spelling(text.get_correct_spelling()));
        let article =
            create_exercise_with_type(&db, &results, &ExerciseType::GuessNounArticle).unwrap();
        assert_eq!(article.ex_type, ExerciseType::GuessNounArticle);
        assert!(article.get_correct_message().starts_with("Correct! d"));
        let form = create_exercise_with_type(&db, &results, &ExerciseType::VerbFormRandom).unwrap();
        assert_eq!(form.ex_type, ExerciseType::VerbFormRandom);
        assert!(form.task.ends_with("[ gehen - to go ]"));
        assert!(form.check_spelling(form.get_correct_spelling()));
    }
}

#[test]
fn no_exercise_where_no_word_can_be_selected() {
    let db = five_nouns();
    let mut results = GameResults::new();
    results.update_with_db(&db);
    assert!(create_exercise_with_type(&db, &results, &ExerciseType::TranslateRuDe).is_none());
    assert!(create_exercise_with_type(&db, &results, &ExerciseType::SelectDe).is_none());
    assert!(results.update_weights().is_ok());
    assert!(create_exercise_with_type(&db, &results, &ExerciseType::TranslateRuDe).is_some());
    assert!(create_exercise_with_type(&db, &results, &ExerciseType::VerbFormRandom).is_none());
    assert!(create_exercise_with_type(&db, &results, &ExerciseType::GuessNounArticle).is_some());
    assert!(results.record_outcome(0, true));
    assert!(create_exercise_with_type(&db, &results, &ExerciseType::TranslateRuDe).is_none());
    assert!(create_exercise_with_type(&db, &results, &ExerciseType::GuessNounArticle).is_none());
    assert!(results.update_weights().is_ok());
    let empty = Database::new();
    assert!(create_exercise_with_type(&empty, &results, &ExerciseType::TranslateRuDe).is_none());
    assert!(create_exercise_with_type(&empty, &results, &ExerciseType::GuessNounArticle).is_none());
}

#[test]
fn a_verb_without_a_form_is_never_asked_for_it() {
    let mut db = Database::new();
    db.insert(gehen());
    db.insert(WordEntry::Verb(Verb {
        common: common("essen", "to eat", ""),
        praeteritum: String::new(),
        perfect: "gegessen".to_string(),
        perfect_verb: None,
        present_third: "isst".to_string(),
    }));
    let mut results = GameResults::new();
    results.merge_snapshot(&vec![ExerciseResults { word: "essen".to_string(), correct: 0, wrong: 50 }]);
    results.update_with_db(&db);
    assert!(results.update_weights().is_ok());
    let mut essen = 0;
    for _ in 0..300 {
        let ex = create_exercise_with_type(&db, &results, &ExerciseType::VerbFormRandom).unwrap();
        if ex.task.ends_with("[ essen - to eat ]") {
            essen += 1;
            assert_eq!(ex.get_correct_spelling(), "isst");
        } else {
            assert!(["geht", "ging", "ist gegangen"].contains(&ex.get_correct_spelling()));
        }
    }
    assert!(essen > 0);
}

#[test]
fn the_four_parts_of_an_entry_are_reachable() {
    let db = five_nouns();
    assert_eq!(db.words[4].spelling(), "die Eltern");
}
