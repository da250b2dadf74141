use wordle::game::{is_valid_word, GameState, Session, MAX_ATTEMPTS, WORD_LEN};
use wordle::game_logic::Status::{Green, Nothing, Yellow};
use wordle::game_logic::Status;

fn vocabulary() -> Vec<String> {
    ["ABCDE", "TESTI", "FGHIJ", "KLMNO", "PQRSU", "UVWXY", "ZABCD", "SPEED"]
        .iter()
        .map(|w| w.to_string())
        .collect()
}

fn session_with(secret: &str) -> Session {
    let words = vocabulary();
    let index = words.iter().position(|w| w == secret).unwrap();
    Session::with_secret(words, index).unwrap()
}

#[test]
fn constants() {
    assert_eq!(WORD_LEN, 5);
    assert_eq!(MAX_ATTEMPTS, 6);
}

#[test]
fn vocabulary_membership() {
    let words = vocabulary();
    assert!(is_valid_word(&words, &"TESTI".to_string()));
    assert!(!is_valid_word(&words, &"TESTA".to_string()));
    assert!(!is_valid_word(&Vec::new(), &"TESTI".to_string()));
}

#[test]
fn construction_rejects_bad_vocabularies() {
    assert!(Session::with_secret(Vec::new(), 0).is_none());
    assert!(Session::new(Vec::new()).is_none());
    assert!(Session::with_secret(vocabulary(), 8).is_none());
    let mut words = vocabulary();
    words.push("TOOLONG".to_string());
    assert!(Session::with_secret(words.clone(), 0).is_none());
    assert!(Session::new(words).is_none());
}

#[test]
fn new_session_starts_fresh() {
    let s = session_with("TESTI");
    assert_eq!(s.state(), GameState::NotStarted);
    assert_eq!(s.secret(), "TESTI");
    assert!(s.history().is_empty());
    assert_eq!(s.words().len(), 8);

    let r = Session::new(vocabulary()).unwrap();
    assert_eq!(r.state(), GameState::NotStarted);
    assert!(vocabulary().contains(r.secret()));
}

#[test]
fn invalid_length_leaves_history_unchanged() {
    let mut s = session_with("TESTI");
    assert_eq!(s.submit_guess(&"ABCDE".to_string()), GameState::InProgress);
    assert_eq!(s.submit_guess(&"ABC".to_string()), GameState::InvalidGuess);
    assert_eq!(s.history().len(), 1);
    assert_eq!(s.submit_guess(&"ABCDEF".to_string()), GameState::InvalidGuess);
    assert_eq!(s.history().len(), 1);
}

#[test]
fn unknown_word_is_invalid() {
    let mut s = session_with("TESTI");
    assert_eq!(s.submit_guess(&"QQQQQ".to_string()), GameState::InvalidGuess);
    assert!(s.history().is_empty());
    assert_eq!(s.state(), GameState::InvalidGuess);
}

#[test]
fn invalid_guess_then_valid_guess_goes_on() {
    let mut s = session_with("TESTI");
    assert_eq!(s.submit_guess(&"QQQQQ".to_string()), GameState::InvalidGuess);
    assert_eq!(s.submit_guess(&"SPEED".to_string()), GameState::InProgress);
    assert_eq!(s.history().len(), 1);
    let statuses: Vec<Status> = s.history()[0].iter().map(|e| e.status).collect();
    assert_eq!(statuses, vec![Yellow, Nothing, Yellow, Nothing, Nothing]);
}

#[test]
fn win_scenario() {
    let mut s = session_with("TESTI");
    assert_eq!(s.submit_guess(&"ABCDE".to_string()), GameState::InProgress);
    assert_eq!(s.submit_guess(&"TESTI".to_string()), GameState::Won);
    assert_eq!(s.state(), GameState::Won);
    assert_eq!(s.history().len(), 2);
    assert!(s.history()[1].iter().all(|e| e.status == Status::Green));
}

#[test]
fn first_guess_can_win() {
    let mut s = session_with("SPEED");
    assert_eq!(s.submit_guess(&"SPEED".to_string()), GameState::Won);
    assert_eq!(s.history().len(), 1);
}

#[test]
fn loss_scenario() {
    let mut s = session_with("TESTI");
    let guesses = ["ABCDE", "FGHIJ", "KLMNO", "PQRSU", "UVWXY", "ZABCD"];
    for (i, g) in guesses.iter().enumerate() {
        let state = s.submit_guess(&g.to_string());
        if i < 5 {
            assert_eq!(state, GameState::InProgress);
        } else {
            assert_eq!(state, GameState::Lost);
        }
        assert_eq!(s.history().len(), i + 1);
    }
}

#[test]
fn winning_on_the_last_attempt_is_a_win() {
    let mut s = session_with("TESTI");
    for g in ["ABCDE", "FGHIJ", "KLMNO", "PQRSU", "UVWXY"] {
        assert_eq!(s.submit_guess(&g.to_string()), GameState::InProgress);
    }
    assert_eq!(s.submit_guess(&"TESTI".to_string()), GameState::Won);
    assert_eq!(s.history().len(), 6);
}

#[test]
fn finished_session_ignores_guesses() {
    let mut s = session_with("TESTI");
    s.submit_guess(&"TESTI".to_string());
    assert_eq!(s.submit_guess(&"ABCDE".to_string()), GameState::Won);
    assert_eq!(s.submit_guess(&"AB".to_string()), GameState::Won);
    assert_eq!(s.history().len(), 1);
}

#[test]
fn restart_clears_history() {
    let mut s = session_with("TESTI");
    s.submit_guess(&"ABCDE".to_string());
    s.submit_guess(&"TESTI".to_string());
    s.restart();
    assert!(s.history().is_empty());
    assert_eq!(s.state(), GameState::InProgress);
    assert!(vocabulary().contains(s.secret()));
}

#[test]
fn restart_with_chosen_secret() {
    let mut s = session_with("TESTI");
    for g in ["ABCDE", "FGHIJ", "KLMNO", "PQRSU", "UVWXY", "ZABCD"] {
        s.submit_guess(&g.to_string());
    }
    assert_eq!(s.state(), GameState::Lost);
    s.restart_with(7);
    assert_eq!(s.secret(), "SPEED");
    assert!(s.history().is_empty());
    assert_eq!(s.submit_guess(&"SPEED".to_string()), GameState::Won);
}
