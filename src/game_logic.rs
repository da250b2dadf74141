//! Evaluation of a guess against a secret word.
use vstd::prelude::*;
use vstd::string::StrSliceExecFns;

verus! {

/// The feedback tag of one guessed letter.
#[derive(PartialEq, Eq, Structural, Debug, Clone, Copy)]
pub enum Status {
    /// The letter occurs in the secret, at another position.
    Yellow,
    /// The letter is at its right position.
    Green,
    /// The letter has no unclaimed occurrence left in the secret.
    Nothing,
}

/// One guessed character with its feedback tag.
#[derive(PartialEq, Eq, Structural, Debug, Clone, Copy)]
pub struct Element {
    pub c: char,
    pub status: Status,
}

impl Element {
    /// A placeholder element, before a position has been evaluated.
    pub fn default() -> (r: Self)
        ensures
            r == (Element { c: '1', status: Status::Nothing }),
    {
        Self { c: '1', status: Status::Nothing }
    }
}

/// Occurrences of `c` in the secret `s` at positions below `n` that are not
/// matched exactly by the guess `g`: what is left for the present pass.
pub open spec fn unmatched_count(g: Seq<char>, s: Seq<char>, c: char, n: int) -> nat
    decreases n,
{
    if n <= 0 {
        0
    } else {
        unmatched_count(g, s, c, n - 1) + if s[n - 1] == c && g[n - 1] != s[n - 1] {
            1nat
        } else {
            0nat
        }
    }
}

/// Occurrences of `c` in the guess `g` at positions below `n` that are not
/// exact matches: the claims made on `c` before position `n`.
pub open spec fn pending_count(g: Seq<char>, s: Seq<char>, c: char, n: int) -> nat
    decreases n,
{
    if n <= 0 {
        0
    } else {
        pending_count(g, s, c, n - 1) + if g[n - 1] == c && g[n - 1] != s[n - 1] {
            1nat
        } else {
            0nat
        }
    }
}

/// The tag of position `i`: exact where the letters agree; otherwise present
/// while the secret still has an unclaimed occurrence of the letter after the
/// earlier positions took theirs, left to right; otherwise absent.
pub open spec fn tag_at(g: Seq<char>, s: Seq<char>, i: int) -> Status {
    if g[i] == s[i] {
        Status::Green
    } else if pending_count(g, s, g[i], i) < unmatched_count(g, s, g[i], s.len() as int) {
        Status::Yellow
    } else {
        Status::Nothing
    }
}

/// Whether `r` is the feedback for guess `g` against secret `s`: one element
/// per position, holding the guessed character and its tag.
pub open spec fn is_feedback(r: Seq<Element>, g: Seq<char>, s: Seq<char>) -> bool {
    &&& r.len() == g.len()
    &&& forall|i: int|
        0 <= i < r.len() ==> (#[trigger] r[i]).c == g[i] && r[i].status == tag_at(g, s, i)
}

/// Whether every element of a result is tagged exact.
pub open spec fn all_exact(r: Seq<Element>) -> bool {
    forall|i: int| 0 <= i < r.len() ==> (#[trigger] r[i]).status == Status::Green
}

/// Whether a guessed letter `c` that is not an exact match is present: the
/// count of `c` left in `remaining`, the multiset of the secret's unclaimed
/// letters, is positive. If so, one occurrence of `c` is consumed.
pub fn yellow_or_not(c: char, remaining: &mut Vec<char>) -> (r: bool)
    ensures
        r == old(remaining)@.contains(c),
        r ==> final(remaining)@.to_multiset() == old(remaining)@.to_multiset().remove(c),
        !r ==> final(remaining)@ == old(remaining)@,
{
    let mut k: usize = 0;
    while k < remaining.len() && remaining[k] != c
        invariant
            k <= remaining.len(),
            forall|m: int| 0 <= m < k ==> remaining@[m] != c,
        decreases remaining.len() - k,
    {
        k = k + 1;
    }
    if k < remaining.len() {
        let ghost before = remaining@;
        remaining.remove(k);
        proof {
            broadcast use vstd::seq_lib::group_to_multiset_ensures;

            assert(before.remove(k as int).to_multiset() =~= before.to_multiset().remove(c));
        }
        true
    } else {
        false
    }
}

/// Evaluates `word` against `solution`: an exact pass claims matching
/// positions, then a left-to-right pass marks each other letter present
/// while an unclaimed occurrence of it remains in the solution.
pub fn check_word(word: String, solution: String) -> (r: Vec<Element>)
    requires
        word@.len() == solution@.len(),
    ensures
        is_feedback(r@, word@, solution@),
{
    let g = word.as_str();
    let s = solution.as_str();
    let n = g.unicode_len();
    let ghost gs = word@;
    let ghost ss = solution@;
    let mut result: Vec<Element> = Vec::new();
    let mut remaining: Vec<char> = Vec::new();
    let mut i: usize = 0;
    proof {
        lemma_count_empty();
    }
    while i < n
        invariant
            n == gs.len(),
            gs == g@,
            ss == s@,
            gs.len() == ss.len(),
            i <= n,
            result@.len() == i,
            forall|j: int|
                0 <= j < i ==> #[trigger] result@[j] == (if gs[j] == ss[j] {
                    Element { c: gs[j], status: Status::Green }
                } else {
                    Element { c: '1', status: Status::Nothing }
                }),
            forall|c: char| #[trigger]
                remaining@.to_multiset().count(c) == unmatched_count(gs, ss, c, i as int),
        decreases n - i,
    {
        let ghost before = remaining@;
        let gc = g.get_char(i);
        let sc = s.get_char(i);
        if gc == sc {
            result.push(Element { c: gc, status: Status::Green });
        } else {
            result.push(Element::default());
            remaining.push(sc);
        }
        assert forall|c: char| #[trigger]
            remaining@.to_multiset().count(c) == unmatched_count(gs, ss, c, i + 1) by {
            if gs[i as int] != ss[i as int] {
                lemma_count_push(before, ss[i as int], c);
            }
        }
        i = i + 1;
    }
    let mut i: usize = 0;
    while i < n
        invariant
            n == gs.len(),
            gs == g@,
            ss == s@,
            gs.len() == ss.len(),
            i <= n,
            result@.len() == n,
            forall|j: int|
                0 <= j < i ==> #[trigger] result@[j] == (Element {
                    c: gs[j],
                    status: tag_at(gs, ss, j),
                }),
            forall|j: int|
                i <= j < n && gs[j] == ss[j] ==> #[trigger] result@[j] == (Element {
                    c: gs[j],
                    status: Status::Green,
                }),
            forall|c: char| #[trigger]
                remaining@.to_multiset().count(c) + min_nat(
                    pending_count(gs, ss, c, i as int),
                    unmatched_count(gs, ss, c, n as int),
                ) == unmatched_count(gs, ss, c, n as int),
        decreases n - i,
    {
        let ghost before = remaining@;
        let c = g.get_char(i);
        if c != s.get_char(i) {
            let present = yellow_or_not(c, &mut remaining);
            let status = if present {
                Status::Yellow
            } else {
                Status::Nothing
            };
            result.set(i, Element { c, status });
            proof {
                lemma_count_contains(before, c);
            }
        }
        assert forall|d: char| #[trigger]
            remaining@.to_multiset().count(d) + min_nat(
                pending_count(gs, ss, d, i + 1),
                unmatched_count(gs, ss, d, n as int),
            ) == unmatched_count(gs, ss, d, n as int) by {
            assert(before.to_multiset().count(d) + min_nat(
                pending_count(gs, ss, d, i as int),
                unmatched_count(gs, ss, d, n as int),
            ) == unmatched_count(gs, ss, d, n as int));
        }
        i = i + 1;
    }
    result
}

/// Occurrences of `c` in `x` at positions below `n`.
pub open spec fn count_in(x: Seq<char>, c: char, n: int) -> nat
    decreases n,
{
    if n <= 0 {
        0
    } else {
        count_in(x, c, n - 1) + if x[n - 1] == c {
            1nat
        } else {
            0nat
        }
    }
}

/// Elements of `r` below `n` that hold `c` and are marked exact or present.
pub open spec fn marked_in(r: Seq<Element>, c: char, n: int) -> nat
    decreases n,
{
    if n <= 0 {
        0
    } else {
        marked_in(r, c, n - 1) + if r[n - 1].c == c && r[n - 1].status != Status::Nothing {
            1nat
        } else {
            0nat
        }
    }
}

/// Positions below `n` where guess and secret agree on `c`.
spec fn exact_in(g: Seq<char>, s: Seq<char>, c: char, n: int) -> nat
    decreases n,
{
    if n <= 0 {
        0
    } else {
        exact_in(g, s, c, n - 1) + if g[n - 1] == c && s[n - 1] == c {
            1nat
        } else {
            0nat
        }
    }
}

proof fn lemma_marked_prefix(r: Seq<Element>, g: Seq<char>, s: Seq<char>, c: char, n: int)
    requires
        g.len() == s.len(),
        is_feedback(r, g, s),
        0 <= n <= g.len(),
    ensures
        marked_in(r, c, n) == exact_in(g, s, c, n) + min_nat(
            pending_count(g, s, c, n),
            unmatched_count(g, s, c, s.len() as int),
        ),
        count_in(g, c, n) == exact_in(g, s, c, n) + pending_count(g, s, c, n),
        count_in(s, c, n) == exact_in(g, s, c, n) + unmatched_count(g, s, c, n),
    decreases n,
{
    if n > 0 {
        lemma_marked_prefix(r, g, s, c, n - 1);
        let j = n - 1;
        assert(r[j].c == g[j] && r[j].status == tag_at(g, s, j));
    }
}

/// Each letter is marked exact or present exactly as many times as the
/// smaller of its counts in the guess and in the secret; in particular never
/// more often than it occurs in the secret.
pub proof fn lemma_letter_not_overcounted(r: Seq<Element>, g: Seq<char>, s: Seq<char>, c: char)
    requires
        g.len() == s.len(),
        is_feedback(r, g, s),
    ensures
        marked_in(r, c, r.len() as int) == min_nat(
            count_in(g, c, g.len() as int),
            count_in(s, c, s.len() as int),
        ),
        marked_in(r, c, r.len() as int) <= count_in(s, c, s.len() as int),
{
    lemma_marked_prefix(r, g, s, c, g.len() as int);
}

/// A result is all exact exactly when the guess equals the secret; in
/// particular guessing the secret itself marks every position exact.
pub proof fn lemma_all_exact_iff_equal(r: Seq<Element>, g: Seq<char>, s: Seq<char>)
    requires
        g.len() == s.len(),
        is_feedback(r, g, s),
    ensures
        all_exact(r) <==> g == s,
{
    if all_exact(r) {
        assert forall|i: int| 0 <= i < g.len() implies g[i] == s[i] by {
            assert(r[i].status == Status::Green);
        }
        assert(g =~= s);
    }
    if g == s {
        assert forall|i: int| 0 <= i < r.len() implies (#[trigger] r[i]).status == Status::Green by {
            assert(r[i].status == tag_at(g, s, i));
        }
    }
}

proof fn lemma_count_push(s: Seq<char>, x: char, c: char)
    ensures
        s.push(x).to_multiset().count(c) == s.to_multiset().count(c) + if x == c {
            1nat
        } else {
            0nat
        },
{
    broadcast use vstd::seq_lib::group_to_multiset_ensures;

}

proof fn lemma_count_empty()
    ensures
        forall|c: char| #[trigger] Seq::<char>::empty().to_multiset().count(c) == 0,
{
    broadcast use vstd::seq_lib::group_to_multiset_ensures;

    assert forall|c: char| #[trigger] Seq::<char>::empty().to_multiset().count(c) == 0 by {
        lemma_count_contains(Seq::<char>::empty(), c);
    }
}

proof fn lemma_count_contains(s: Seq<char>, c: char)
    ensures
        s.contains(c) <==> s.to_multiset().count(c) > 0,
{
    broadcast use vstd::seq_lib::group_to_multiset_ensures;

}

/// The smaller of two naturals.
pub open spec fn min_nat(a: nat, b: nat) -> nat {
    if a < b {
        a
    } else {
        b
    }
}

} // verus!
