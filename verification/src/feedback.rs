//! Feedback classification: how each position of a played word compares to
//! the hidden word, under the official duplicate-letter rule (each occurrence
//! of a letter in the hidden word licenses at most one `Exact` or
//! `WrongPosition` mark).
use vstd::prelude::*;
use vstd::string::StrSliceExecFns;

verus! {

/// Represents whether a particular position of a played word
/// matches the hidden word.
#[derive(Copy, Clone, PartialEq, Eq, Structural, Debug)]
pub enum Match {
    /// The letter is an exact match.
    Exact,
    /// The letter occurs in the hidden word, but at another position.
    WrongPosition,
    /// The letter does not occur, or all its occurrences are already
    /// accounted for by other positions.
    Missing,
}

/// The matches for a particular played word, one per position.
pub type Matches = Vec<Match>;

/// Every word has exactly this many letters.
pub const WORD_LEN: usize = 5;

/// A well-formed word: exactly five characters.
pub open spec fn wf_word(w: Seq<char>) -> bool {
    w.len() == WORD_LEN
}

/// Number of positions `j < n` of `h` that hold the character `c`.
pub open spec fn count_char(h: Seq<char>, c: char, n: int) -> int
    decreases n,
{
    if n <= 0 {
        0
    } else {
        count_char(h, c, n - 1) + if h[n - 1] == c {
            1int
        } else {
            0int
        }
    }
}

/// Number of positions `j < n` where the played word and the hidden word
/// agree and both hold `c` (the exact matches of `c`).
pub open spec fn count_exact(p: Seq<char>, h: Seq<char>, c: char, n: int) -> int
    decreases n,
{
    if n <= 0 {
        0
    } else {
        count_exact(p, h, c, n - 1) + if p[n - 1] == c && h[n - 1] == c {
            1int
        } else {
            0int
        }
    }
}

/// Number of positions `j < n` where the played word holds `c` but the
/// hidden word differs there (the inexact occurrences of `c`).
pub open spec fn count_inexact(p: Seq<char>, h: Seq<char>, c: char, n: int) -> int
    decreases n,
{
    if n <= 0 {
        0
    } else {
        count_inexact(p, h, c, n - 1) + if p[n - 1] == c && h[n - 1] != c {
            1int
        } else {
            0int
        }
    }
}

/// The outcome at position `i` of playing `p` against the hidden word `h`.
///
/// A position is `Exact` iff the letters agree there. Otherwise it is
/// `WrongPosition` only while occurrences of the letter in `h` remain that
/// are neither matched exactly nor already claimed by an earlier inexact
/// position of the same letter, so each occurrence in `h` licenses at most
/// one mark.
pub open spec fn spec_outcome(p: Seq<char>, h: Seq<char>, i: int) -> Match {
    let c = p[i];
    if p[i] == h[i] {
        Match::Exact
    } else if count_inexact(p, h, c, i) + count_exact(p, h, c, WORD_LEN as int) < count_char(
        h,
        c,
        WORD_LEN as int,
    ) {
        Match::WrongPosition
    } else {
        Match::Missing
    }
}

/// The full feedback for playing `p` against the hidden word `h`.
pub open spec fn spec_classify(p: Seq<char>, h: Seq<char>) -> Seq<Match> {
    Seq::new(WORD_LEN as nat, |i: int| spec_outcome(p, h, i))
}

/// Feedback that marks every position as an exact match: the solved signal.
pub open spec fn all_exact(f: Seq<Match>) -> bool {
    f.len() == WORD_LEN && forall|i: int| 0 <= i < f.len() ==> f[i] == Match::Exact
}

/// A position is marked `Exact` exactly when the two words agree there.
pub proof fn lemma_exact_iff(p: Seq<char>, h: Seq<char>, i: int)
    requires
        wf_word(p),
        wf_word(h),
        0 <= i < WORD_LEN,
    ensures
        (spec_classify(p, h)[i] == Match::Exact) <==> (p[i] == h[i]),
{
}

/// Playing the hidden word itself yields all-`Exact` feedback.
pub proof fn lemma_same_word_all_exact(p: Seq<char>, h: Seq<char>)
    requires
        wf_word(p),
        h == p,
    ensures
        all_exact(spec_classify(p, h)),
{
}

/// Number of positions `j < n` where the played word holds `c` and is
/// marked `WrongPosition`.
pub open spec fn count_wrongpos(p: Seq<char>, h: Seq<char>, c: char, n: int) -> int
    decreases n,
{
    if n <= 0 {
        0
    } else {
        count_wrongpos(p, h, c, n - 1) + if p[n - 1] == c && spec_outcome(p, h, n - 1)
            == Match::WrongPosition {
            1int
        } else {
            0int
        }
    }
}

proof fn lemma_count_exact_le_char(p: Seq<char>, h: Seq<char>, c: char, n: int)
    ensures
        count_exact(p, h, c, n) <= count_char(h, c, n),
    decreases n,
{
    if n > 0 {
        lemma_count_exact_le_char(p, h, c, n - 1);
    }
}

proof fn lemma_count_wrongpos_le_inexact(p: Seq<char>, h: Seq<char>, c: char, n: int)
    ensures
        count_wrongpos(p, h, c, n) <= count_inexact(p, h, c, n),
    decreases n,
{
    if n > 0 {
        lemma_count_wrongpos_le_inexact(p, h, c, n - 1);
    }
}

/// The duplicate-letter rule, as a law: for any letter `c`, the positions
/// marked `Exact` or `WrongPosition` that hold `c` never outnumber the
/// occurrences of `c` in the hidden word — each occurrence there licenses
/// at most one mark, and an occurrence claimed by an `Exact` match licenses
/// no `WrongPosition` elsewhere.
pub proof fn lemma_duplicate_letter_rule(p: Seq<char>, h: Seq<char>, c: char)
    requires
        wf_word(p),
        wf_word(h),
    ensures
        count_wrongpos(p, h, c, WORD_LEN as int) + count_exact(p, h, c, WORD_LEN as int)
            <= count_char(h, c, WORD_LEN as int),
{
    lemma_count_exact_le_char(p, h, c, WORD_LEN as int);
    lemma_wrongpos_bounded(p, h, c, WORD_LEN as int);
}

proof fn lemma_wrongpos_bounded(p: Seq<char>, h: Seq<char>, c: char, n: int)
    requires
        count_exact(p, h, c, WORD_LEN as int) <= count_char(h, c, WORD_LEN as int),
    ensures
        count_wrongpos(p, h, c, n) + count_exact(p, h, c, WORD_LEN as int) <= count_char(
            h,
            c,
            WORD_LEN as int,
        ),
    decreases n,
{
    if n > 0 {
        lemma_wrongpos_bounded(p, h, c, n - 1);
        if p[n - 1] == c && spec_outcome(p, h, n - 1) == Match::WrongPosition {
            lemma_count_wrongpos_le_inexact(p, h, c, n - 1);
        }
    }
}

fn count_char_upto(h: &str, c: char, n: usize) -> (r: usize)
    requires
        wf_word(h@),
        n <= WORD_LEN,
    ensures
        r == count_char(h@, c, n as int),
        r <= n,
{
    let mut r: usize = 0;
    let mut j: usize = 0;
    while j < n
        invariant
            j <= n,
            r == count_char(h@, c, j as int),
            r <= j,
        decreases n - j,
    {
        if h.get_char(j) == c {
            r += 1;
        }
        j += 1;
    }
    r
}

fn count_exact_upto(p: &str, h: &str, c: char, n: usize) -> (r: usize)
    requires
        wf_word(p@),
        wf_word(h@),
        n <= WORD_LEN,
    ensures
        r == count_exact(p@, h@, c, n as int),
        r <= n,
{
    let mut r: usize = 0;
    let mut j: usize = 0;
    while j < n
        invariant
            j <= n,
            r == count_exact(p@, h@, c, j as int),
            r <= j,
        decreases n - j,
    {
        let pc = p.get_char(j);
        let hc = h.get_char(j);
        if pc == c && hc == c {
            r += 1;
        }
        j += 1;
    }
    r
}

fn count_inexact_upto(p: &str, h: &str, c: char, n: usize) -> (r: usize)
    requires
        wf_word(p@),
        wf_word(h@),
        n <= WORD_LEN,
    ensures
        r == count_inexact(p@, h@, c, n as int),
        r <= n,
{
    let mut r: usize = 0;
    let mut j: usize = 0;
    while j < n
        invariant
            j <= n,
            r == count_inexact(p@, h@, c, j as int),
            r <= j,
        decreases n - j,
    {
        let pc = p.get_char(j);
        let hc = h.get_char(j);
        if pc == c && hc != c {
            r += 1;
        }
        j += 1;
    }
    r
}

/// Determines the matches for a particular played word against a hidden word.
pub fn get_match(played_word: &str, hidden_word: &str) -> (r: Matches)
    requires
        wf_word(played_word@),
        wf_word(hidden_word@),
    ensures
        r@ == spec_classify(played_word@, hidden_word@),
{
    let mut r: Vec<Match> = Vec::new();
    let mut i: usize = 0;
    while i < WORD_LEN
        invariant
            i <= WORD_LEN,
            r@.len() == i,
            forall|k: int|
                0 <= k < i ==> r@[k] == spec_outcome(played_word@, hidden_word@, k),
        decreases WORD_LEN - i,
    {
        let c = played_word.get_char(i);
        let hc = hidden_word.get_char(i);
        if c == hc {
            r.push(Match::Exact);
        } else {
            let prior = count_inexact_upto(played_word, hidden_word, c, i);
            let exact_total = count_exact_upto(played_word, hidden_word, c, WORD_LEN);
            let char_total = count_char_upto(hidden_word, c, WORD_LEN);
            if prior + exact_total < char_total {
                r.push(Match::WrongPosition);
            } else {
                r.push(Match::Missing);
            }
        }
        i += 1;
    }
    proof {
        assert(r@ =~= spec_classify(played_word@, hidden_word@));
    }
    r
}

/// Compares two feedback values position by position.
pub fn matches_eq(a: &Matches, b: &Matches) -> (r: bool)
    ensures
        r == (a@ == b@),
{
    if a.len() != b.len() {
        proof {
            assert(a@ != b@);
        }
        return false;
    }
    let mut i: usize = 0;
    while i < a.len()
        invariant
            i <= a@.len(),
            a@.len() == b@.len(),
            forall|k: int| 0 <= k < i ==> a@[k] == b@[k],
        decreases a@.len() - i,
    {
        if a[i] != b[i] {
            proof {
                assert(a@ != b@);
            }
            return false;
        }
        i += 1;
    }
    proof {
        assert(a@ =~= b@);
    }
    true
}

/// Tests whether feedback marks every position as an exact match.
pub fn is_all_exact(f: &Matches) -> (r: bool)
    ensures
        r == all_exact(f@),
{
    if f.len() != WORD_LEN {
        return false;
    }
    let mut i: usize = 0;
    while i < WORD_LEN
        invariant
            i <= WORD_LEN,
            f@.len() == WORD_LEN,
            forall|k: int| 0 <= k < i ==> f@[k] == Match::Exact,
        decreases WORD_LEN - i,
    {
        if !matches!(f[i], Match::Exact) {
            proof {
                assert(!all_exact(f@));
            }
            return false;
        }
        i += 1;
    }
    true
}

} // verus!
