//! The session state machine: a secret drawn from a vocabulary, the results
//! of the guesses made so far, and the state of the round.
use crate::game_logic::{
    all_exact, check_word, is_feedback, lemma_all_exact_iff_equal, Element, Status,
};
use rand::Rng;
use vstd::prelude::*;
use vstd::string::StrSliceExecFns;

verus! {

/// Length of the secret and of every accepted guess.
pub const WORD_LEN: usize = 5;

/// Number of guesses a session allows.
pub const MAX_ATTEMPTS: usize = 6;

/// Where a session stands.
#[derive(PartialEq, Eq, Structural, Debug, Clone, Copy)]
pub enum GameState {
    NotStarted,
    InProgress,
    InvalidGuess,
    Won,
    Lost,
}

/// The mathematical model of a session.
pub struct SessionView {
    pub words: Seq<Seq<char>>,
    pub secret: Seq<char>,
    pub history: Seq<Seq<Element>>,
    pub state: GameState,
}

/// A round of the game.
pub struct Session {
    words: Vec<String>,
    secret: String,
    history: Vec<Vec<Element>>,
    state: GameState,
}

/// The characters of each word of a vocabulary.
pub open spec fn words_view(words: Seq<String>) -> Seq<Seq<char>> {
    words.map_values(|w: String| w@)
}

/// A usable vocabulary: not empty, and every word of the fixed length.
pub open spec fn valid_words(words: Seq<Seq<char>>) -> bool {
    &&& words.len() > 0
    &&& forall|i: int| 0 <= i < words.len() ==> (#[trigger] words[i]).len() == WORD_LEN
}

/// Whether a state ends the session.
pub open spec fn is_over(state: GameState) -> bool {
    state == GameState::Won || state == GameState::Lost
}

/// The invariant of a session.
pub open spec fn session_inv(v: SessionView) -> bool {
    &&& valid_words(v.words)
    &&& v.words.contains(v.secret)
    &&& v.history.len() <= MAX_ATTEMPTS
    &&& forall|i: int| 0 <= i < v.history.len() ==> (#[trigger] v.history[i]).len() == WORD_LEN
    &&& v.state == GameState::NotStarted ==> v.history.len() == 0
    &&& v.state == GameState::Won ==> v.history.len() > 0 && all_exact(v.history.last())
    &&& v.state == GameState::Lost ==> v.history.len() == MAX_ATTEMPTS && !all_exact(
        v.history.last(),
    )
    &&& !is_over(v.state) ==> v.history.len() < MAX_ATTEMPTS && forall|i: int|
        0 <= i < v.history.len() ==> !all_exact(#[trigger] v.history[i])
}

/// What a guess does to a session that is not over: a candidate of the wrong
/// length or outside the vocabulary leaves the history as it was and marks the
/// guess invalid; any other is evaluated, its result appended, and the session
/// is won on an all-exact result, lost when the attempts are used up, and
/// otherwise goes on.
pub open spec fn guess_step(o: SessionView, f: SessionView, g: Seq<char>) -> bool {
    &&& f.words == o.words
    &&& f.secret == o.secret
    &&& if g.len() != WORD_LEN || !o.words.contains(g) {
        f.history == o.history && f.state == GameState::InvalidGuess
    } else {
        &&& f.history.len() == o.history.len() + 1
        &&& f.history.drop_last() == o.history
        &&& is_feedback(f.history.last(), g, o.secret)
        &&& f.state == if all_exact(f.history.last()) {
            GameState::Won
        } else if f.history.len() == MAX_ATTEMPTS {
            GameState::Lost
        } else {
            GameState::InProgress
        }
    }
}

/// Relies on rand's `Rng::gen_range` on the thread-local generator: a value
/// in `0..n`; it panics on an empty range.
#[verifier::external_body]
fn random_index(n: usize) -> (r: usize)
    requires
        n > 0,
    ensures
        r < n,
{
    rand::thread_rng().gen_range(0..n)
}

/// Whether `candidate` is one of `words`.
pub fn is_valid_word(words: &Vec<String>, candidate: &String) -> (r: bool)
    ensures
        r == words_view(words@).contains(candidate@),
{
    let mut i: usize = 0;
    while i < words.len()
        invariant
            i <= words@.len(),
            forall|j: int| 0 <= j < i ==> (#[trigger] words@[j])@ != candidate@,
        decreases words@.len() - i,
    {
        if words[i] == *candidate {
            assert(words_view(words@)[i as int] == candidate@);
            return true;
        }
        i = i + 1;
    }
    assert forall|j: int| 0 <= j < words@.len() implies words_view(words@)[j] != candidate@ by {
        assert(words@[j]@ != candidate@);
    }
    false
}

/// Whether every word of `words` has the fixed length.
fn all_of_length(words: &Vec<String>) -> (r: bool)
    ensures
        r == forall|i: int|
            0 <= i < words@.len() ==> (#[trigger] words_view(words@)[i]).len() == WORD_LEN,
{
    let mut i: usize = 0;
    while i < words.len()
        invariant
            i <= words@.len(),
            forall|j: int| 0 <= j < i ==> (#[trigger] words_view(words@)[j]).len() == WORD_LEN,
        decreases words@.len() - i,
    {
        if words[i].as_str().unicode_len() != WORD_LEN {
            assert(words_view(words@)[i as int].len() != WORD_LEN);
            return false;
        }
        i = i + 1;
    }
    true
}

/// Whether every element of `r` is tagged exact.
fn all_green(r: &Vec<Element>) -> (b: bool)
    ensures
        b == all_exact(r@),
{
    let mut i: usize = 0;
    while i < r.len()
        invariant
            i <= r@.len(),
            forall|j: int| 0 <= j < i ==> (#[trigger] r@[j]).status == Status::Green,
        decreases r@.len() - i,
    {
        if r[i].status != Status::Green {
            return false;
        }
        i = i + 1;
    }
    true
}

impl View for Session {
    type V = SessionView;

    closed spec fn view(&self) -> SessionView {
        SessionView {
            words: words_view(self.words@),
            secret: self.secret@,
            history: self.history@.map_values(|h: Vec<Element>| h@),
            state: self.state,
        }
    }
}

impl Session {
    /// The session invariant holds.
    pub open spec fn wf(&self) -> bool {
        session_inv(self@)
    }

    /// A session over `words` whose secret is the word at `index`; `None`
    /// when `words` is empty, holds a word of another length, or has no word
    /// at `index`.
    pub fn with_secret(words: Vec<String>, index: usize) -> (r: Option<Session>)
        ensures
            r is Some <==> valid_words(words_view(words@)) && index < words@.len(),
            r matches Some(s) ==> {
                &&& s.wf()
                &&& s@.words == words_view(words@)
                &&& s@.secret == words@[index as int]@
                &&& s@.history.len() == 0
                &&& s@.state == GameState::NotStarted
            },
    {
        if words.len() == 0 || index >= words.len() || !all_of_length(&words) {
            return None;
        }
        let secret = words[index].clone();
        let s = Session { words, secret, history: Vec::new(), state: GameState::NotStarted };
        assert(s@.words[index as int] == s@.secret);
        assert(s@.history =~= Seq::<Seq<Element>>::empty());
        Some(s)
    }

    /// A session over `words` with a secret drawn at random from them;
    /// `None` when `words` is empty or holds a word of another length.
    pub fn new(words: Vec<String>) -> (r: Option<Session>)
        ensures
            r is Some <==> valid_words(words_view(words@)),
            r matches Some(s) ==> {
                &&& s.wf()
                &&& s@.words == words_view(words@)
                &&& s@.words.contains(s@.secret)
                &&& s@.history.len() == 0
                &&& s@.state == GameState::NotStarted
            },
    {
        if words.len() == 0 {
            return None;
        }
        let index = random_index(words.len());
        Session::with_secret(words, index)
    }

    /// The current state.
    pub fn state(&self) -> (r: GameState)
        ensures
            r == self@.state,
    {
        self.state
    }

    /// The secret word.
    pub fn secret(&self) -> (r: &String)
        ensures
            r@ == self@.secret,
    {
        &self.secret
    }

    /// The vocabulary of the session.
    pub fn words(&self) -> (r: &Vec<String>)
        ensures
            words_view(r@) == self@.words,
    {
        &self.words
    }

    /// The results of the accepted guesses, oldest first.
    pub fn history(&self) -> (r: &Vec<Vec<Element>>)
        ensures
            r@.map_values(|h: Vec<Element>| h@) == self@.history,
    {
        &self.history
    }

    /// Submits a guess. A session that is over is left as it is; otherwise
    /// the session moves as `guess_step` describes. Returns the new state.
    pub fn submit_guess(&mut self, candidate: &String) -> (r: GameState)
        requires
            old(self).wf(),
        ensures
            final(self).wf(),
            r == final(self)@.state,
            is_over(old(self)@.state) ==> final(self)@ == old(self)@,
            !is_over(old(self)@.state) ==> guess_step(old(self)@, final(self)@, candidate@),
    {
        if self.state == GameState::Won || self.state == GameState::Lost {
            return self.state;
        }
        if candidate.as_str().unicode_len() != WORD_LEN || !is_valid_word(&self.words, candidate) {
            self.state = GameState::InvalidGuess;
            return self.state;
        }
        let ghost before = self@;
        let result = check_word(candidate.clone(), self.secret.clone());
        let exact = all_green(&result);
        proof {
            lemma_all_exact_iff_equal(result@, candidate@, self.secret@);
        }
        self.history.push(result);
        assert(self@.history =~= before.history.push(result@));
        assert(self@.history.drop_last() =~= before.history);
        self.state = if exact {
            GameState::Won
        } else if self.history.len() == MAX_ATTEMPTS {
            GameState::Lost
        } else {
            GameState::InProgress
        };
        self.state
    }

    /// Starts a new round with the word at `index` as its secret: the history
    /// is emptied and the session is in progress.
    pub fn restart_with(&mut self, index: usize)
        requires
            old(self).wf(),
            index < old(self)@.words.len(),
        ensures
            final(self).wf(),
            final(self)@.words == old(self)@.words,
            final(self)@.secret == old(self)@.words[index as int],
            final(self)@.history.len() == 0,
            final(self)@.state == GameState::InProgress,
    {
        self.secret = self.words[index].clone();
        self.history = Vec::new();
        self.state = GameState::InProgress;
        assert(self@.words[index as int] == self@.secret);
        assert(self@.history =~= Seq::<Seq<Element>>::empty());
    }

    /// Starts a new round with a secret drawn at random from the vocabulary:
    /// the history is emptied and the session is in progress.
    pub fn restart(&mut self)
        requires
            old(self).wf(),
        ensures
            final(self).wf(),
            final(self)@.words == old(self)@.words,
            final(self)@.words.contains(final(self)@.secret),
            final(self)@.history.len() == 0,
            final(self)@.state == GameState::InProgress,
    {
        let index = random_index(self.words.len());
        self.restart_with(index);
    }
}

} // verus!
