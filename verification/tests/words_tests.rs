use std::collections::HashMap;
use woerterbuch::catalog::check_row;
use woerterbuch::words::{
    capitalize_noun, get_article, get_part_of_speech, word_has_form, Adjective, Adverb, Database,
    Noun, NounArticle, PartOfSpeech, PerfectVerb, Preposition, RowError, Verb, VerbFormExercise,
    Word, WordCommon, WordEntry,
};

fn common(word: &str, group_id: usize, translation: &str, help: &str) -> WordCommon {
    WordCommon {
        word: word.to_string(),
        group_id,
        translation: translation.to_string(),
        help: help.to_string(),
    }
}

fn row(cells: &[(usize, &str)]) -> HashMap<usize, String> {
    let mut map = HashMap::new();
    for (k, v) in cells {
        map.insert(*k, v.to_string());
    }
    map
}

fn verb(praeteritum: &str, perfect: &str, aux: Option<PerfectVerb>, present: &str) -> Verb {
    Verb {
        common: common("gehen", 1, "to go", ""),
        praeteritum: praeteritum.to_string(),
        perfect: perfect.to_string(),
        perfect_verb: aux,
        present_third: present.to_string(),
    }
}

#[test]
fn articles_are_written_out() {
    assert_eq!(NounArticle::Der.to_string(), "der");
    assert_eq!(NounArticle::Das.to_string(), "das");
    assert_eq!(NounArticle::Die.to_string(), "die");
    assert_eq!(NounArticle::Plural.to_string(), "die");
    assert_eq!(NounArticle::Der.answer_bullet_str(), "der");
    assert_eq!(NounArticle::Das.answer_bullet_str(), "das");
    assert_eq!(NounArticle::Die.answer_bullet_str(), "die");
    assert_eq!(NounArticle::Plural.answer_bullet_str(), "die (plural)");
}

#[test]
fn articles_are_offered_in_a_fixed_order() {
    let all = NounArticle::all();
    assert_eq!(
        all,
        vec![NounArticle::Der, NounArticle::Das, NounArticle::Die, NounArticle::Plural]
    );
    for a in all.iter() {
        assert_eq!(all[a.ordinal()], *a);
    }
}

#[test]
fn article_codes_are_read() {
    assert_eq!(get_article("der"), Ok(NounArticle::Der));
    assert_eq!(get_article("das"), Ok(NounArticle::Das));
    assert_eq!(get_article("die"), Ok(NounArticle::Die));
    assert_eq!(get_article("pl"), Ok(NounArticle::Plural));
    assert_eq!(get_article("den"), Err("Unknown article \"den\"".to_string()));
    assert_eq!(get_article(""), Err("Unknown article \"\"".to_string()));
    assert_eq!(get_article("Der"), Err("Unknown article \"Der\"".to_string()));
}

#[test]
fn nouns_get_a_capital_initial() {
    assert_eq!(capitalize_noun("haus"), "Haus");
    assert_eq!(capitalize_noun("Haus"), "Haus");
    assert_eq!(capitalize_noun("h"), "H");
    assert_eq!(capitalize_noun("\u{e4}rger"), "\u{c4}rger");
    assert_eq!(capitalize_noun("hausTier"), "HausTier");
    assert_eq!(capitalize_noun("\u{df}a"), "SSa");
}

#[test]
fn auxiliaries_are_read_and_written() {
    assert_eq!(PerfectVerb::from("hat"), Ok(Some(PerfectVerb::Haben)));
    assert_eq!(PerfectVerb::from(" ist "), Ok(Some(PerfectVerb::Sein)));
    assert_eq!(PerfectVerb::from("hat/ist"), Ok(Some(PerfectVerb::Both)));
    assert_eq!(PerfectVerb::from(""), Ok(None));
    assert_eq!(PerfectVerb::from("   "), Ok(None));
    assert_eq!(PerfectVerb::from_option(None), Ok(None));
    assert_eq!(PerfectVerb::from_option(Some("ist".to_string())), Ok(Some(PerfectVerb::Sein)));
    assert_eq!(PerfectVerb::from_option(Some(" ".to_string())), Ok(None));
    assert_eq!(
        PerfectVerb::from_option(Some("haben".to_string())),
        Err(RowError::UnknownAuxiliary)
    );
    assert_eq!(PerfectVerb::Haben.to_string(), "hat");
    assert_eq!(PerfectVerb::Sein.to_string(), "ist");
    assert_eq!(PerfectVerb::Both.to_string(), "hat/ist");
}

#[test]
fn unknown_auxiliaries_are_refused() {
    assert_eq!(PerfectVerb::from("hat"), Ok(Some(PerfectVerb::Haben)));
    assert_eq!(PerfectVerb::from("\tist"), Ok(Some(PerfectVerb::Sein)));
    assert_eq!(PerfectVerb::from("hat/ist "), Ok(Some(PerfectVerb::Both)));
    assert_eq!(PerfectVerb::from(""), Ok(None));
    assert_eq!(PerfectVerb::from("  "), Ok(None));
    assert_eq!(PerfectVerb::from("war"), Err(RowError::UnknownAuxiliary));
    assert_eq!(PerfectVerb::from("hat ist"), Err(RowError::UnknownAuxiliary));
    assert_eq!(PerfectVerb::from("Hat"), Err(RowError::UnknownAuxiliary));
}

#[test]
fn a_noun_is_spelled_with_article_and_capital() {
    let n = Noun { common: common("hund", 3, "dog", "bellt"), article: NounArticle::Der };
    assert_eq!(n.spelling(), "der Hund");
    assert_eq!(n.pos_str(), "noun");
    assert_eq!(n.get_pos(), PartOfSpeech::Noun);
    assert_eq!(n.get_word(), "hund");
    assert_eq!(n.translation(), "dog");
    assert_eq!(n.get_help(), "bellt");
    assert_eq!(n.get_group_id(), 3);
    assert_eq!(n.get_article(), Some(NounArticle::Der));
    assert_eq!(n.get_verb_praeteritum(), None);
    assert_eq!(n.get_verb_perfect(), None);
    assert_eq!(n.get_verb_perfect_verb(), None);
    assert_eq!(n.get_verb_perfect_full(), None);
    assert_eq!(n.get_verb_present_third(), None);
    let plural = Noun { common: common("eltern", 0, "parents", ""), article: NounArticle::Plural };
    assert_eq!(plural.spelling(), "die Eltern");
}

#[test]
fn a_noun_is_graded_with_its_article() {
    let n = Noun { common: common("m\u{fc}he", 0, "effort", ""), article: NounArticle::Die };
    assert!(n.check_spelling("die M\u{fc}he"));
    assert!(n.check_spelling("Die Muehe "));
    assert!(!n.check_spelling("M\u{fc}he"));
    assert!(!n.check_spelling("der M\u{fc}he"));
}

#[test]
fn a_verb_knows_its_forms() {
    let v = verb("ging", "gegangen", Some(PerfectVerb::Sein), "geht");
    assert_eq!(v.spelling(), "gehen");
    assert_eq!(v.pos_str(), "verb");
    assert_eq!(v.get_pos(), PartOfSpeech::Verb);
    assert_eq!(v.get_article(), None);
    assert_eq!(v.get_verb_praeteritum(), Some("ging"));
    assert_eq!(v.get_verb_perfect(), Some("gegangen"));
    assert_eq!(v.get_verb_perfect_verb(), Some(&PerfectVerb::Sein));
    assert_eq!(v.get_verb_perfect_full(), Some("ist gegangen".to_string()));
    assert_eq!(v.get_verb_present_third(), Some("geht"));
    assert!(v.check_spelling(" Gehen"));
    assert!(!v.check_spelling("geht"));
}

#[test]
fn an_empty_form_is_not_known() {
    let v = verb("", "", None, "");
    assert_eq!(v.get_verb_praeteritum(), None);
    assert_eq!(v.get_verb_perfect(), None);
    assert_eq!(v.get_verb_perfect_verb(), None);
    assert_eq!(v.get_verb_perfect_full(), None);
    assert_eq!(v.get_verb_present_third(), None);
    let no_aux = verb("ging", "gegangen", None, "geht");
    assert_eq!(no_aux.get_verb_perfect_full(), None);
    let no_participle = verb("ging", "", Some(PerfectVerb::Sein), "geht");
    assert_eq!(no_participle.get_verb_perfect_full(), None);
    let both = verb("fuhr", "gefahren", Some(PerfectVerb::Both), "f\u{e4}hrt");
    assert_eq!(both.get_verb_perfect_full(), Some("hat/ist gefahren".to_string()));
}

#[test]
fn the_other_parts_of_speech_have_plain_spellings() {
    let adj = Adjective { common: common("klein", 2, "small", "") };
    let adv = Adverb { common: common("oft", 2, "often", "") };
    let prep = Preposition { common: common("mit", 2, "with", "dativ") };
    assert_eq!(adj.pos_str(), "adj");
    assert_eq!(adv.pos_str(), "adv");
    assert_eq!(prep.pos_str(), "preposition");
    assert_eq!(adj.get_pos(), PartOfSpeech::Adjective);
    assert_eq!(adv.get_pos(), PartOfSpeech::Adverb);
    assert_eq!(prep.get_pos(), PartOfSpeech::Preposition);
    assert_eq!(adj.spelling(), "klein");
    assert_eq!(adv.spelling(), "oft");
    assert_eq!(prep.spelling(), "mit");
    assert_eq!(prep.get_help(), "dativ");
    assert_eq!(adj.get_article(), None);
    assert_eq!(adv.get_verb_perfect_full(), None);
    assert!(adj.check_spelling("KLEIN"));
    assert!(adv.check_spelling("oft "));
    assert!(!prep.check_spelling("ohne"));
}

#[test]
fn an_entry_answers_for_its_variant() {
    let e = WordEntry::Noun(Noun { common: common("katze", 1, "cat", ""), article: NounArticle::Die });
    assert_eq!(e.spelling(), "die Katze");
    assert_eq!(e.get_word(), "katze");
    assert_eq!(e.get_pos(), PartOfSpeech::Noun);
    assert_eq!(e.pos_str(), "noun");
    assert_eq!(e.get_article(), Some(NounArticle::Die));
    assert_eq!(e.get_group_id(), 1);
    assert_eq!(e.translation(), "cat");
    assert!(e.check_spelling("die katze"));
    let v = WordEntry::Verb(verb("ging", "gegangen", Some(PerfectVerb::Sein), "geht"));
    assert_eq!(v.get_verb_perfect_full(), Some("ist gegangen".to_string()));
    assert_eq!(v.get_verb_praeteritum(), Some("ging"));
    assert_eq!(v.get_verb_present_third(), Some("geht"));
    assert_eq!(v.get_verb_perfect(), Some("gegangen"));
    assert_eq!(v.get_verb_perfect_verb(), Some(&PerfectVerb::Sein));
    assert_eq!(v.get_article(), None);
    assert_eq!(v.get_help(), "");
}

#[test]
fn verb_forms_are_drillable_only_where_known() {
    let full = WordEntry::Verb(verb("ging", "gegangen", Some(PerfectVerb::Sein), "geht"));
    assert!(word_has_form(&full, &VerbFormExercise::PresentThird));
    assert!(word_has_form(&full, &VerbFormExercise::Praeteritum));
    assert!(word_has_form(&full, &VerbFormExercise::Perfect));
    let no_aux = WordEntry::Verb(verb("ging", "gegangen", None, ""));
    assert!(!word_has_form(&no_aux, &VerbFormExercise::PresentThird));
    assert!(word_has_form(&no_aux, &VerbFormExercise::Praeteritum));
    assert!(!word_has_form(&no_aux, &VerbFormExercise::Perfect));
    let no_participle = WordEntry::Verb(verb("", "", Some(PerfectVerb::Haben), "geht"));
    assert!(!word_has_form(&no_participle, &VerbFormExercise::Perfect));
    assert!(!word_has_form(&no_participle, &VerbFormExercise::Praeteritum));
    let noun = WordEntry::Noun(Noun { common: common("gang", 0, "walk", ""), article: NounArticle::Der });
    assert!(!word_has_form(&noun, &VerbFormExercise::PresentThird));
    assert_eq!(
        VerbFormExercise::all(),
        vec![
            VerbFormExercise::PresentThird,
            VerbFormExercise::Praeteritum,
            VerbFormExercise::Perfect
        ]
    );
}

#[test]
fn groups_get_their_identifier_on_first_sighting() {
    let mut db = Database::new();
    assert!(db.groups.is_empty());
    assert!(db.words.is_empty());
    assert_eq!(db.get_group_id("tiere"), 0);
    assert_eq!(db.get_group_id("haus"), 1);
    assert_eq!(db.get_group_id("tiere"), 0);
    assert_eq!(db.get_group_id("essen"), 2);
    assert_eq!(db.get_group_id("haus"), 1);
    assert_eq!(db.groups, vec!["tiere", "haus", "essen"]);
}

#[test]
fn the_tag_of_a_row_is_read() {
    let map = row(&[(0, "hund"), (1, "n")]);
    assert_eq!(get_part_of_speech(&map), "n");
}

#[test]
fn a_noun_row_is_read() {
    let mut db = Database::new();
    let mut map = row(&[
        (0, "hund"),
        (1, "n"),
        (2, "dog"),
        (3, "tiere"),
        (4, "der"),
        (5, ""),
        (6, ""),
        (7, "bellt"),
    ]);
    let n = Noun::new(&mut map, &mut db);
    assert_eq!(n.spelling(), "der Hund");
    assert_eq!(n.translation(), "dog");
    assert_eq!(n.get_help(), "bellt");
    assert_eq!(n.get_group_id(), 0);
    assert_eq!(db.groups, vec!["tiere"]);
    let mut left: Vec<usize> = map.keys().copied().collect();
    left.sort();
    assert_eq!(left, vec![1, 5, 6]);
}

#[test]
fn a_verb_row_is_read() {
    let mut db = Database::new();
    db.get_group_id("tiere");
    let mut map = row(&[
        (0, "gehen"),
        (1, "v"),
        (2, "to go"),
        (3, "bewegung"),
        (5, "gegangen"),
        (6, "ging"),
        (8, " ist"),
        (9, "geht"),
    ]);
    let v = Verb::new(&mut map, &mut db);
    assert_eq!(v.get_group_id(), 1);
    assert_eq!(v.get_help(), "");
    assert_eq!(v.get_verb_praeteritum(), Some("ging"));
    assert_eq!(v.get_verb_perfect_full(), Some("ist gegangen".to_string()));
    assert_eq!(v.get_verb_present_third(), Some("geht"));
    let mut left: Vec<usize> = map.keys().copied().collect();
    left.sort();
    assert_eq!(left, vec![1]);
}

#[test]
fn the_shared_columns_are_read() {
    let mut db = Database::new();
    let mut map = row(&[(0, "oft"), (1, "adv"), (2, "often"), (3, "zeit"), (4, "")]);
    let c = WordCommon::new(&mut map, &mut db);
    assert_eq!(c.get_word(), "oft");
    assert_eq!(c.translation(), "often");
    assert_eq!(c.get_help(), "");
    assert_eq!(c.get_group_id(), 0);
    let mut left: Vec<usize> = map.keys().copied().collect();
    left.sort();
    assert_eq!(left, vec![1, 4]);
    let mut again = row(&[(0, "nie"), (2, "never"), (3, "zeit")]);
    assert_eq!(Adverb::new(&mut again, &mut db).get_group_id(), 0);
    let mut adj = row(&[(0, "alt"), (2, "old"), (3, "alter")]);
    assert_eq!(Adjective::new(&mut adj, &mut db).get_group_id(), 1);
    let mut prep = row(&[(0, "mit"), (2, "with"), (3, "zeit"), (7, "dativ")]);
    assert_eq!(Preposition::new(&mut prep, &mut db).get_help(), "dativ");
}

#[test]
fn an_entry_is_read_by_its_tag() {
    let mut db = Database::new();
    let mut n = row(&[(0, "hund"), (1, "n"), (2, "dog"), (3, "tiere"), (4, "pl")]);
    let e = WordEntry::new(&mut n, &mut db);
    assert_eq!(e.get_pos(), PartOfSpeech::Noun);
    assert_eq!(e.get_article(), Some(NounArticle::Plural));
    let mut v = row(&[(0, "gehen"), (1, "v"), (2, "to go"), (3, "tiere")]);
    assert_eq!(WordEntry::new(&mut v, &mut db).get_pos(), PartOfSpeech::Verb);
    let mut a = row(&[(0, "alt"), (1, "adj"), (2, "old"), (3, "tiere")]);
    assert_eq!(WordEntry::new(&mut a, &mut db).get_pos(), PartOfSpeech::Adjective);
    let mut d = row(&[(0, "oft"), (1, "adv"), (2, "often"), (3, "tiere")]);
    assert_eq!(WordEntry::new(&mut d, &mut db).get_pos(), PartOfSpeech::Adverb);
    let mut p = row(&[(0, "mit"), (1, "prep"), (2, "with"), (3, "tiere")]);
    assert_eq!(WordEntry::new(&mut p, &mut db).get_pos(), PartOfSpeech::Preposition);
}

#[test]
fn a_row_is_turned_down_for_each_reason() {
    let good = row(&[(0, "hund"), (1, "n"), (2, "dog"), (3, "tiere"), (4, "der")]);
    assert_eq!(check_row(&good), Ok(()));
    assert_eq!(check_row(&row(&[(1, "n"), (2, "dog"), (3, "tiere")])), Err(RowError::MissingField));
    assert_eq!(check_row(&row(&[(0, "hund"), (2, "dog"), (3, "t")])), Err(RowError::MissingField));
    assert_eq!(check_row(&row(&[(0, "hund"), (1, "n"), (3, "t")])), Err(RowError::MissingField));
    assert_eq!(check_row(&row(&[(0, "hund"), (1, "n"), (2, "dog")])), Err(RowError::MissingField));
    assert_eq!(
        check_row(&row(&[(0, "hund"), (1, "n"), (2, "dog"), (3, "t")])),
        Err(RowError::MissingField)
    );
    assert_eq!(
        check_row(&row(&[(0, ""), (1, "n"), (2, "dog"), (3, "t"), (4, "der")])),
        Err(RowError::EmptyWord)
    );
    assert_eq!(
        check_row(&row(&[(0, "hund"), (1, "x"), (2, "dog"), (3, "t")])),
        Err(RowError::UnknownPartOfSpeech)
    );
    assert_eq!(
        check_row(&row(&[(0, "hund"), (1, "n"), (2, "dog"), (3, "t"), (4, "dem")])),
        Err(RowError::UnknownArticle)
    );
    assert_eq!(
        check_row(&row(&[(0, "gehen"), (1, "v"), (2, "go"), (3, "t"), (8, "war")])),
        Err(RowError::UnknownAuxiliary)
    );
    assert_eq!(check_row(&row(&[(0, "gehen"), (1, "v"), (2, "go"), (3, "t"), (8, "")])), Ok(()));
    assert_eq!(check_row(&row(&[(0, "gehen"), (1, "v"), (2, "go"), (3, "t")])), Ok(()));
    assert_eq!(check_row(&row(&[(0, "alt"), (1, "adj"), (2, "old"), (3, "t")])), Ok(()));
}

#[test]
fn a_refused_row_changes_nothing() {
    let mut db = Database::new();
    let mut bad = row(&[(0, "hund"), (1, "n"), (2, "dog"), (3, "tiere"), (4, "dem")]);
    let before = bad.clone();
    assert_eq!(WordEntry::from_row(&mut bad, &mut db).err(), Some(RowError::UnknownArticle));
    assert_eq!(bad, before);
    assert!(db.groups.is_empty());
    assert_eq!(db.add_row(&mut bad), Err(RowError::UnknownArticle));
    assert!(db.words.is_empty());
    assert!(db.groups.is_empty());
}

#[test]
fn rows_fill_the_catalog() {
    let mut db = Database::new();
    let mut a = row(&[(0, "hund"), (1, "n"), (2, "dog"), (3, "tiere"), (4, "der")]);
    let mut b = row(&[(0, "gehen"), (1, "v"), (2, "to go"), (3, "bewegung"), (8, "ist")]);
    let mut c = row(&[(0, "hund"), (1, "n"), (2, "hound"), (3, "tiere"), (4, "der")]);
    assert_eq!(db.add_row(&mut a), Ok(()));
    assert_eq!(db.add_row(&mut b), Ok(()));
    assert_eq!(db.words.len(), 2);
    assert_eq!(db.position("hund"), Some(0));
    assert_eq!(db.position("gehen"), Some(1));
    assert_eq!(db.position("katze"), None);
    assert_eq!(db.get("hund").map(|w| w.translation().to_string()), Some("dog".to_string()));
    assert_eq!(db.add_row(&mut c), Ok(()));
    assert_eq!(db.words.len(), 2);
    assert_eq!(db.get("hund").map(|w| w.translation().to_string()), Some("hound".to_string()));
    assert!(db.get("katze").is_none());
    assert_eq!(db.groups, vec!["tiere", "bewegung"]);
}

#[test]
fn inserting_replaces_a_word_of_the_same_spelling() {
    let mut db = Database::new();
    db.insert(WordEntry::Adverb(Adverb { common: common("oft", 0, "often", "") }));
    db.insert(WordEntry::Adverb(Adverb { common: common("nie", 0, "never", "") }));
    db.insert(WordEntry::Adverb(Adverb { common: common("oft", 0, "frequently", "") }));
    assert_eq!(db.words.len(), 2);
    assert_eq!(db.words[0].translation(), "frequently");
    assert_eq!(db.words[1].get_word(), "nie");
}
