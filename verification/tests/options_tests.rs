use woerterbuch::options::{
    arrange, candidates_of, consider_candidate, count_draw, fetch_word_options, is_used,
    positions_upto, OptionsError, ANSWER_OPTIONS, MAX_ATTEMPTS,
};
use woerterbuch::words::{
    Adjective, Database, Noun, NounArticle, PartOfSpeech, Word, WordCommon, WordEntry,
};

fn noun(word: &str, group_id: usize) -> WordEntry {
    WordEntry::Noun(Noun {
        common: WordCommon {
            word: word.to_string(),
            group_id,
            translation: format!("{} (en)", word),
            help: String::new(),
        },
        article: NounArticle::Der,
    })
}

fn adjective(word: &str, group_id: usize) -> WordEntry {
    WordEntry::Adjective(Adjective {
        common: WordCommon {
            word: word.to_string(),
            group_id,
            translation: format!("{} (en)", word),
            help: String::new(),
        },
    })
}

fn catalog(nouns: usize) -> Database {
    let mut db = Database::new();
    for k in 0..nouns {
        db.insert(noun(&format!("wort{}", k), 0));
    }
    db.insert(noun("fremd", 1));
    db.insert(adjective("klein", 0));
    db
}

fn check_options(db: &Database, target: &WordEntry, pool: usize) {
    let (options, correct) = fetch_word_options(db, target).unwrap();
    let want = if pool == 0 { 1 } else { pool.min(4) };
    assert_eq!(options.len(), want);
    assert!(correct < options.len());
    assert_eq!(options[correct].get_word(), target.get_word());
    let mut keys: Vec<&str> = options.iter().map(|w| w.get_word()).collect();
    assert_eq!(keys.iter().filter(|k| **k == target.get_word()).count(), 1);
    keys.sort();
    keys.dedup();
    assert_eq!(keys.len(), want);
    for (k, w) in options.iter().enumerate() {
        if k != correct {
            assert_eq!(w.get_group_id(), target.get_group_id());
            assert_eq!(w.get_pos(), target.get_pos());
            assert!(db.get(w.get_word()).is_some());
        }
    }
}

#[test]
fn the_limits_are_four_options_and_a_thousand_attempts() {
    assert_eq!(ANSWER_OPTIONS, 4);
    assert_eq!(MAX_ATTEMPTS, 1000);
    assert_eq!(OptionsError::TooManyAttempts, OptionsError::TooManyAttempts);
}

#[test]
fn candidates_share_group_and_part_of_speech() {
    let db = catalog(3);
    assert_eq!(candidates_of(&db, &db.words[0]), vec![0, 1, 2]);
    assert_eq!(candidates_of(&db, &db.words[3]), vec![3]);
    assert_eq!(candidates_of(&db, &db.words[4]), vec![4]);
    assert_eq!(candidates_of(&db, &noun("x", 7)), Vec::<usize>::new());
    assert_eq!(candidates_of(&db, &adjective("gross", 0)), vec![4]);
}

#[test]
fn options_hold_the_target_once_and_no_word_twice() {
    let db = catalog(6);
    for _ in 0..50 {
        for t in 0..6 {
            check_options(&db, &db.words[t], 6);
        }
    }
}

#[test]
fn a_pool_of_four_gives_all_four() {
    let db = catalog(4);
    for _ in 0..50 {
        check_options(&db, &db.words[2], 4);
    }
}

#[test]
fn a_small_pool_gives_fewer_options() {
    let three = catalog(3);
    let two = catalog(2);
    let one = catalog(1);
    for _ in 0..50 {
        check_options(&three, &three.words[1], 3);
        check_options(&two, &two.words[0], 2);
        check_options(&one, &one.words[0], 1);
        check_options(&one, &one.words[1], 1);
        check_options(&one, &one.words[2], 1);
    }
}

#[test]
fn a_target_outside_the_catalog_still_leads_its_options() {
    let db = catalog(5);
    let outsider = noun("neu", 0);
    for _ in 0..50 {
        check_options(&db, &outsider, 5);
    }
    let alone = noun("allein", 9);
    let (options, correct) = fetch_word_options(&db, &alone).unwrap();
    assert_eq!(options.len(), 1);
    assert_eq!(correct, 0);
    assert_eq!(options[0].get_word(), "allein");
}

#[test]
fn the_order_and_the_distractors_vary() {
    let db = catalog(8);
    let mut positions = std::collections::HashSet::new();
    let mut distractors = std::collections::HashSet::new();
    for _ in 0..300 {
        let (options, correct) = fetch_word_options(&db, &db.words[0]).unwrap();
        positions.insert(correct);
        for (k, w) in options.iter().enumerate() {
            if k != correct {
                distractors.insert(w.get_word().to_string());
            }
        }
    }
    assert_eq!(positions.len(), 4);
    assert!(distractors.len() > 3);
    assert!(!distractors.contains("wort0"));
    assert!(!distractors.contains("fremd"));
    assert!(!distractors.contains("klein"));
}

#[test]
fn a_drawn_candidate_is_taken_once() {
    let db = catalog(4);
    let target = noun("wort0", 0);
    let mut options: Vec<&WordEntry> = vec![&target];
    assert!(is_used(&options, &db.words[0]));
    assert!(!is_used(&options, &db.words[1]));
    assert!(!consider_candidate(&db, &target, &mut options, 0));
    assert_eq!(options.len(), 1);
    assert!(consider_candidate(&db, &target, &mut options, 2));
    assert_eq!(options.len(), 2);
    assert_eq!(options[1].get_word(), "wort2");
    assert!(!consider_candidate(&db, &target, &mut options, 2));
    assert!(consider_candidate(&db, &target, &mut options, 1));
    let keys: Vec<&str> = options.iter().map(|w| w.get_word()).collect();
    assert_eq!(keys, vec!["wort0", "wort2", "wort1"]);
}

#[test]
fn options_are_arranged_in_the_given_order() {
    let db = catalog(4);
    let options: Vec<&WordEntry> = db.words.iter().take(4).collect();
    let (out, correct) = arrange(&options, &vec![2, 0, 3, 1]);
    let keys: Vec<&str> = out.iter().map(|w| w.get_word()).collect();
    assert_eq!(keys, vec!["wort2", "wort0", "wort3", "wort1"]);
    assert_eq!(correct, 1);
    let (same, first) = arrange(&options, &positions_upto(4));
    assert_eq!(first, 0);
    assert_eq!(same[3].get_word(), "wort3");
    let (last, at) = arrange(&options, &vec![3, 2, 1, 0]);
    assert_eq!(at, 3);
    assert_eq!(last[0].get_word(), "wort3");
    let single: Vec<&WordEntry> = vec![&db.words[0]];
    assert_eq!(arrange(&single, &vec![0]).1, 0);
    assert_eq!(positions_upto(0), Vec::<usize>::new());
    assert_eq!(positions_upto(3), vec![0, 1, 2]);
    assert_eq!(db.words[0].get_pos(), PartOfSpeech::Noun);
}

#[test]
fn a_draw_is_taken_or_counted() {
    let db = catalog(4);
    let target = noun("wort0", 0);
    let mut options: Vec<&WordEntry> = vec![&target];
    let mut attempts = 0;
    assert_eq!(count_draw(&db, &target, &mut options, &mut attempts, 1), Ok(()));
    assert_eq!((options.len(), attempts), (2, 0));
    assert_eq!(options[1].get_word(), "wort1");
    assert_eq!(count_draw(&db, &target, &mut options, &mut attempts, 1), Ok(()));
    assert_eq!((options.len(), attempts), (2, 1));
    assert_eq!(count_draw(&db, &target, &mut options, &mut attempts, 0), Ok(()));
    assert_eq!((options.len(), attempts), (2, 2));
    assert_eq!(count_draw(&db, &target, &mut options, &mut attempts, 3), Ok(()));
    assert_eq!((options.len(), attempts), (3, 2));
}

#[test]
fn the_draws_are_given_up_with_the_thousandth_failed_attempt() {
    let db = catalog(4);
    let target = noun("wort0", 0);
    let mut options: Vec<&WordEntry> = vec![&target];
    let mut attempts = 0;
    for k in 1..1000 {
        assert_eq!(count_draw(&db, &target, &mut options, &mut attempts, 0), Ok(()));
        assert_eq!(attempts, k);
    }
    assert_eq!(attempts, 999);
    assert_eq!(count_draw(&db, &target, &mut options, &mut attempts, 2), Ok(()));
    assert_eq!((options.len(), attempts), (2, 999));
    assert_eq!(
        count_draw(&db, &target, &mut options, &mut attempts, 2),
        Err(OptionsError::TooManyAttempts)
    );
    assert_eq!((options.len(), attempts), (2, 1000));
}
