use wordle_solver::engine::{filter_pool, get_word_to_play_quordle, Engine, QuordleEngine, SessionState};
use wordle_solver::entropy::score;
use wordle_solver::feedback::{get_match, Match};
use wordle_solver::select::{get_word_to_play, select};

fn words(list: &[&str]) -> Vec<String> {
    list.iter().map(|w| w.to_string()).collect()
}

#[test]
fn test_get_match() {
    // Note that the 2nd "o" of broom is not reported as being in the wrong position.
    assert_eq!(
        get_match("broom", "proxy"),
        vec![
            Match::Missing,
            Match::Exact,
            Match::Exact,
            Match::Missing,
            Match::Missing,
        ]
    );
}

#[test]
fn test_get_match_exact_positions() {
    // A position is Exact exactly where the letters agree.
    assert_eq!(
        get_match("abide", "apple"),
        vec![
            Match::Exact,
            Match::Missing,
            Match::Missing,
            Match::Missing,
            Match::Exact,
        ]
    );
}

#[test]
fn test_get_match_same_word_all_exact() {
    assert_eq!(get_match("apple", "apple"), vec![Match::Exact; 5]);
}

#[test]
fn test_get_match_duplicate_letters() {
    // "rarer" holds one 'a': only the first non-exact 'a' of "arena" may be
    // marked WrongPosition; the trailing 'a' is Missing.
    assert_eq!(
        get_match("arena", "rarer"),
        vec![
            Match::WrongPosition,
            Match::WrongPosition,
            Match::WrongPosition,
            Match::Missing,
            Match::Missing,
        ]
    );
    // Marked occurrences of 'r' (Exact or WrongPosition) never exceed the
    // 'r' count of the hidden word.
    let marks = get_match("rrrrr", "rower");
    let marked = marks
        .iter()
        .filter(|m| **m != Match::Missing)
        .count();
    assert_eq!(marked, 2);
}

#[test]
fn test_score_zero_on_singleton_pool() {
    // A pool of one word forms a single group of size 1: score 0 for any guess.
    let pool = words(&["apple"]);
    assert_eq!(score("apple", &pool), 0);
    assert_eq!(score("abide", &pool), 0);
}

#[test]
fn test_score_exact_values() {
    // Two identical words form one group of size 2: 2 * log2(2) = 2.0,
    // i.e. 2 * 65536 in fixed point; four give 4 * log2(4) = 8.0.
    let pool2 = words(&["apple", "apple"]);
    assert_eq!(score("apple", &pool2), 2 * 65536);
    let pool4 = words(&["apple", "apple", "apple", "apple"]);
    assert_eq!(score("apple", &pool4), 4 * 2 * 65536);
    // A group of three: 3 * log2(3) = 4.754887..., truncated to 311616
    // in fixed point with sixteen fractional bits.
    let pool3 = words(&["apple", "apple", "apple"]);
    assert_eq!(score("apple", &pool3), 311616);
    // Groups of sizes 2 and 1 sum their weights: 2 * log2(2) + 1 * log2(1).
    let mixed = words(&["apple", "apple", "abide"]);
    assert_eq!(score("apple", &mixed), 131072);
}

#[test]
fn test_score_order_invariant() {
    let pool = words(&["abide", "amble", "apple"]);
    let reversed = words(&["apple", "amble", "abide"]);
    for guess in ["abide", "amble", "apple", "zzzzz"] {
        assert_eq!(score(guess, &pool), score(guess, &reversed));
    }
}

#[test]
fn test_selector_picks_most_informative() {
    // "zzzzz" leaves the two other words indistinguishable (one group of
    // two), while either of them splits the pool fully: the selector must
    // not pick "zzzzz", and takes the first best in order.
    let pool = words(&["zzzzz", "abcde", "abcdf"]);
    assert_eq!(get_word_to_play(&pool), Some("abcde".to_string()));
}

#[test]
fn test_selector_deterministic_tie_break() {
    // All three words split the pool into singletons (score 0): the first
    // word of the universe wins the tie, on every call.
    let pool = words(&["abide", "amble", "apple"]);
    let first = select(&pool, &pool);
    assert_eq!(first, Some("abide".to_string()));
    for _ in 0..10 {
        assert_eq!(select(&pool, &pool), first);
    }
}

#[test]
fn test_select_empty_universe() {
    let pool = words(&["apple"]);
    assert_eq!(select(&pool, &words(&[])), None);
    assert_eq!(get_word_to_play(&words(&[])), None);
}

#[test]
fn test_filter_pool_keeps_consistent_words() {
    let pool = words(&["abide", "amble", "apple"]);
    let feedback = get_match("abide", "apple");
    let filtered = filter_pool(&pool, "abide", &feedback);
    assert_eq!(filtered, words(&["apple"]));
    assert!(filtered.len() <= pool.len());
    // Filtering twice by the same feedback changes nothing more.
    let twice = filter_pool(&filtered, "abide", &feedback);
    assert_eq!(twice, filtered);
}

#[test]
fn test_engine_solves_singleton_pool() {
    // A pool holding only the hidden word: the guess equals it, scores 0,
    // and all-exact feedback solves the session.
    let mut engine = Engine::new(words(&["apple"]));
    let guess = engine.propose().unwrap();
    assert_eq!(guess, "apple");
    let feedback = get_match(&guess, "apple");
    engine.apply_feedback(&guess, &feedback);
    assert_eq!(engine.state, SessionState::Solved);
}

#[test]
fn test_engine_round_narrows_pool() {
    let mut engine = Engine::new(words(&["abide", "amble", "apple"]));
    let guess = engine.propose().unwrap();
    assert_eq!(guess, "abide");
    // The hidden word is "apple": feedback computed against it.
    let feedback = get_match(&guess, "apple");
    engine.apply_feedback(&guess, &feedback);
    assert_eq!(engine.state, SessionState::Active);
    assert_eq!(engine.pool, words(&["apple"]));
}

#[test]
fn test_engine_inconsistent_feedback_fails() {
    // No dictionary word yields all-WrongPosition feedback for "abide":
    // the pool empties and the session fails instead of looping.
    let mut engine = Engine::new(words(&["abide", "amble", "apple"]));
    let guess = engine.propose().unwrap();
    let feedback = vec![Match::WrongPosition; 5];
    engine.apply_feedback(&guess, &feedback);
    assert_eq!(engine.state, SessionState::Failed);
    assert_eq!(engine.pool.len(), 0);
}

#[test]
fn test_engine_empty_dictionary_has_no_guess() {
    let engine = Engine::new(words(&[]));
    assert_eq!(engine.propose(), None);
}

#[test]
fn test_quordle_identical_feedback_keeps_boards_identical() {
    let dict = words(&["abide", "amble", "apple"]);
    let mut engine = QuordleEngine::new(dict.clone());
    let guess = engine.propose().unwrap();
    assert_eq!(guess, "abide");
    let feedback = get_match(&guess, "apple");
    for k in 0..4 {
        engine.apply_board(k, &guess, &feedback);
    }
    for k in 0..4 {
        let pool = engine.boards[k].as_ref().unwrap();
        assert_eq!(pool, &words(&["apple"]));
        assert_eq!(pool.len(), engine.boards[0].as_ref().unwrap().len());
    }
    engine.update_dict(&guess);
    assert_eq!(engine.dict, words(&["apple"]));
    assert!(!engine.is_won());
}

#[test]
fn test_quordle_all_exact_wins() {
    let dict = words(&["abide", "apple"]);
    let mut engine = QuordleEngine::new(dict);
    let all_exact = vec![Match::Exact; 5];
    for k in 0..4 {
        engine.apply_board(k, "apple", &all_exact);
        assert!(engine.boards[k].is_none());
    }
    assert!(engine.is_won());
}

#[test]
fn test_quordle_failed_board_empties_dictionary() {
    let dict = words(&["abide", "amble"]);
    let mut engine = QuordleEngine::new(dict);
    let guess = engine.propose().unwrap();
    let impossible = vec![Match::WrongPosition; 5];
    for k in 0..4 {
        engine.apply_board(k, &guess, &impossible);
        assert_eq!(engine.boards[k].as_ref().unwrap().len(), 0);
    }
    engine.update_dict(&guess);
    assert_eq!(engine.dict.len(), 0);
    // No guessable word is left: the session reports no matching words.
    assert_eq!(engine.propose(), None);
}

#[test]
fn test_quordle_selector_skips_solved_boards() {
    let dict = words(&["zzzzz", "abcde", "abcdf"]);
    let boards = [
        Some(dict.clone()),
        None,
        None,
        Some(dict.clone()),
    ];
    assert_eq!(
        get_word_to_play_quordle(&boards, &dict),
        Some("abcde".to_string())
    );
    // With every board solved, every guess scores zero: the first word wins.
    let solved = [None, None, None, None];
    assert_eq!(
        get_word_to_play_quordle(&solved, &dict),
        Some("zzzzz".to_string())
    );
}
