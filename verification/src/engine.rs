//! Elimination engines: round-by-round narrowing of the candidate pool for
//! the single-board game, and the four-board (quordle) variant in which one
//! guess per round is played against four independently narrowing boards.
//!
//! The engines hold only plain data and pure decisions; reading the
//! dictionary, prompting for feedback and printing are the callers' business.
use crate::entropy::{wf_words, MAX_POOL};
use crate::feedback::{
    all_exact, get_match, is_all_exact, matches_eq, spec_classify, wf_word, Match, Matches,
};
use crate::select::{clone_words, get_word_to_play, par_min_scored, select_post, spec_selected,
    views_of, wf_pools};
use vstd::prelude::*;

verus! {

/// A word is consistent with feedback `m` for the guess `g` when playing
/// `g` against it would have produced exactly `m`.
pub open spec fn word_matches(g: Seq<char>, m: Seq<Match>, w: String) -> bool {
    spec_classify(g, w@) == m
}

/// The words of `pool`, in order, that are consistent with feedback `m`
/// for the guess `g`.
pub open spec fn spec_filter(g: Seq<char>, m: Seq<Match>, pool: Seq<String>) -> Seq<String>
    decreases pool.len(),
{
    if pool.len() == 0 {
        Seq::empty()
    } else {
        let rest = spec_filter(g, m, pool.drop_last());
        if word_matches(g, m, pool.last()) {
            rest.push(pool.last())
        } else {
            rest
        }
    }
}

/// Filtering never grows a pool.
pub proof fn lemma_filter_len(g: Seq<char>, m: Seq<Match>, pool: Seq<String>)
    ensures
        spec_filter(g, m, pool).len() <= pool.len(),
    decreases pool.len(),
{
    if pool.len() > 0 {
        lemma_filter_len(g, m, pool.drop_last());
    }
}

/// Every word kept by the filter is consistent with the feedback.
pub proof fn lemma_filter_members(g: Seq<char>, m: Seq<Match>, pool: Seq<String>)
    ensures
        forall|i: int|
            0 <= i < spec_filter(g, m, pool).len() ==> word_matches(
                g,
                m,
                #[trigger] spec_filter(g, m, pool)[i],
            ),
    decreases pool.len(),
{
    if pool.len() > 0 {
        lemma_filter_members(g, m, pool.drop_last());
        let rest = spec_filter(g, m, pool.drop_last());
        if word_matches(g, m, pool.last()) {
            assert(spec_filter(g, m, pool) == rest.push(pool.last()));
            assert forall|i: int| 0 <= i < spec_filter(g, m, pool).len() implies word_matches(
                g,
                m,
                spec_filter(g, m, pool)[i],
            ) by {
                if i < rest.len() {
                    assert(spec_filter(g, m, pool)[i] == rest[i]);
                } else {
                    assert(spec_filter(g, m, pool)[i] == pool.last());
                }
            }
        }
    }
}

/// A pool whose every word is consistent with the feedback passes the
/// filter unchanged.
pub proof fn lemma_filter_all_consistent(g: Seq<char>, m: Seq<Match>, pool: Seq<String>)
    requires
        forall|i: int| 0 <= i < pool.len() ==> word_matches(g, m, #[trigger] pool[i]),
    ensures
        spec_filter(g, m, pool) == pool,
    decreases pool.len(),
{
    if pool.len() == 0 {
        assert(spec_filter(g, m, pool) =~= pool);
    } else {
        lemma_filter_all_consistent(g, m, pool.drop_last());
        assert(spec_filter(g, m, pool) =~= pool);
    }
}

/// Filtering a pool twice by the same feedback is the same as filtering it
/// once.
pub proof fn lemma_filter_idempotent(g: Seq<char>, m: Seq<Match>, pool: Seq<String>)
    ensures
        spec_filter(g, m, spec_filter(g, m, pool)) == spec_filter(g, m, pool),
{
    lemma_filter_members(g, m, pool);
    lemma_filter_all_consistent(g, m, spec_filter(g, m, pool));
}

/// Keeps the words of `pool` that would have produced feedback `matches`
/// for the played word `guess`: the elimination step of a round.
pub fn filter_pool(pool: &Vec<String>, guess: &str, matches: &Matches) -> (r: Vec<String>)
    requires
        wf_words(pool@),
        wf_word(guess@),
    ensures
        r@ == spec_filter(guess@, matches@, pool@),
        r@.len() <= pool@.len(),
        wf_words(r@),
{
    let mut r: Vec<String> = Vec::new();
    let mut i: usize = 0;
    while i < pool.len()
        invariant
            i <= pool@.len(),
            r@ == spec_filter(guess@, matches@, pool@.take(i as int)),
            r@.len() <= i,
            wf_words(r@),
        decreases pool@.len() - i,
    {
        let m = get_match(guess, pool[i].as_str());
        proof {
            let prefix = pool@.take(i as int);
            let longer = pool@.take(i + 1);
            assert(longer.drop_last() =~= prefix);
            assert(longer.last() == pool@[i as int]);
        }
        if matches_eq(&m, matches) {
            r.push(pool[i].clone());
        }
        i += 1;
    }
    proof {
        assert(pool@.take(pool@.len() as int) =~= pool@);
    }
    r
}

/// The state of one elimination session or board.
#[derive(Copy, Clone, PartialEq, Eq, Structural, Debug)]
pub enum SessionState {
    /// Candidates remain and the board is still being played.
    Active,
    /// The hidden word was found: all-exact feedback was received.
    Solved,
    /// No dictionary word is consistent with the feedback received.
    Failed,
}

/// The single-board elimination engine: one candidate pool narrowed round
/// by round, with the selector drawing guesses from the pool itself.
pub struct Engine {
    /// The words still consistent with every feedback received.
    pub pool: Vec<String>,
    /// Whether the session is still running, was won, or failed.
    pub state: SessionState,
}

impl Engine {
    /// A well-formed engine: a well-formed pool of admitted size.
    pub open spec fn wf(self) -> bool {
        wf_words(self.pool@) && self.pool@.len() <= MAX_POOL
    }

    /// Starts a session with the full dictionary as the candidate pool.
    pub fn new(dictionary: Vec<String>) -> (r: Engine)
        requires
            wf_words(dictionary@),
            dictionary@.len() <= MAX_POOL,
        ensures
            r.wf(),
            r.pool@ == dictionary@,
            r.state == SessionState::Active,
    {
        Engine { pool: dictionary, state: SessionState::Active }
    }

    /// Asks the selector for the next guess: the least-scored word of the
    /// pool, or `None` when no candidate remains.
    pub fn propose(&self) -> (r: Option<String>)
        requires
            self.wf(),
        ensures
            select_post(self.pool@, self.pool@, r),
    {
        get_word_to_play(self.pool.as_slice())
    }

    /// Plays one round with externally supplied feedback: all-exact feedback
    /// solves the session; otherwise the pool is narrowed to the consistent
    /// words, and an empty result fails the session.
    pub fn apply_feedback(&mut self, guess: &str, matches: &Matches)
        requires
            old(self).wf(),
            old(self).state == SessionState::Active,
            wf_word(guess@),
        ensures
            final(self).wf(),
            all_exact(matches@) ==> final(self).state == SessionState::Solved && final(self).pool@
                == old(self).pool@,
            !all_exact(matches@) ==> {
                &&& final(self).pool@ == spec_filter(guess@, matches@, old(self).pool@)
                &&& final(self).pool@.len() <= old(self).pool@.len()
                &&& final(self).state == (if final(self).pool@.len() == 0 {
                    SessionState::Failed
                } else {
                    SessionState::Active
                })
            },
    {
        if is_all_exact(matches) {
            self.state = SessionState::Solved;
            return ;
        }
        let filtered = filter_pool(&self.pool, guess, matches);
        if filtered.len() == 0 {
            self.state = SessionState::Failed;
        }
        self.pool = filtered;
    }
}

/// A board is well formed when, if still in play, its pool is well formed
/// and of admitted size.
pub open spec fn wf_boards(q: Seq<Option<Vec<String>>>) -> bool {
    forall|k: int|
        0 <= k < q.len() ==> match #[trigger] q[k] {
            Some(p) => wf_words(p@) && p@.len() <= MAX_POOL,
            None => true,
        }
}

/// The pools of the boards still in play, in board order: solved boards
/// contribute nothing to scoring.
pub open spec fn active_pools(q: Seq<Option<Vec<String>>>) -> Seq<Seq<String>>
    decreases q.len(),
{
    if q.len() == 0 {
        Seq::empty()
    } else {
        active_pools(q.drop_last()) + match q.last() {
            Some(p) => seq![p@],
            None => Seq::<Seq<String>>::empty(),
        }
    }
}

proof fn lemma_active_pools_wf(q: Seq<Option<Vec<String>>>)
    requires
        wf_boards(q),
        q.len() <= 4,
    ensures
        active_pools(q).len() <= q.len(),
        wf_pools(active_pools(q)),
    decreases q.len(),
{
    if q.len() > 0 {
        assert(wf_boards(q.drop_last())) by {
            assert(forall|k: int|
                0 <= k < q.len() - 1 ==> #[trigger] q.drop_last()[k] == q[k]);
        }
        lemma_active_pools_wf(q.drop_last());
    }
}

/// What the quordle selector promises: `None` exactly on an empty guess
/// universe, else the first word of the universe whose combined score over
/// the still-active boards is smallest.
pub open spec fn quordle_select_post(
    q: Seq<Option<Vec<String>>>,
    dict: Seq<String>,
    r: Option<String>,
) -> bool {
    match r {
        None => dict.len() == 0,
        Some(w) => dict.len() > 0 && w == dict[spec_selected(dict, active_pools(q))],
    }
}

/// Collects the pools of the boards still in play, in board order.
fn collect_active_pools(boards: &[Option<Vec<String>>]) -> (r: Vec<Vec<String>>)
    ensures
        views_of(r@) == active_pools(boards@),
{
    let mut pools: Vec<Vec<String>> = Vec::new();
    let mut k: usize = 0;
    while k < boards.len()
        invariant
            k <= boards@.len(),
            views_of(pools@) == active_pools(boards@.take(k as int)),
        decreases boards@.len() - k,
    {
        proof {
            let prefix = boards@.take(k as int);
            let longer = boards@.take(k + 1);
            assert(longer.drop_last() =~= prefix);
            assert(longer.last() == boards@[k as int]);
        }
        match &boards[k] {
            Some(p) => {
                let c = clone_words(p.as_slice());
                pools.push(c);
                proof {
                    assert(views_of(pools@) =~= active_pools(boards@.take(k + 1)));
                }
            },
            None => {
                proof {
                    assert(views_of(pools@) =~= active_pools(boards@.take(k + 1)));
                }
            },
        }
        k += 1;
    }
    proof {
        assert(boards@.take(boards@.len() as int) =~= boards@);
    }
    pools
}

/// The shared selection step: scores the dictionary against the still-active
/// pools of `boards` and picks the least-scored word.
fn quordle_propose_from(boards: &[Option<Vec<String>>], dict: &[String]) -> (r: Option<String>)
    requires
        wf_boards(boards@),
        boards@.len() <= 4,
        wf_words(dict@),
        dict@.len() <= MAX_POOL,
    ensures
        quordle_select_post(boards@, dict@, r),
{
    let pools = collect_active_pools(boards);
    proof {
        lemma_active_pools_wf(boards@);
    }
    match par_min_scored(dict, &pools) {
        None => None,
        Some((_s, i)) => Some(dict[i].clone()),
    }
}

/// Chooses a word to play according to the entropy objective, summed over
/// the four boards: boards already solved are skipped, and the guess is
/// drawn from the shared dictionary of still-guessable words.
pub fn get_word_to_play_quordle(
    quad_words: &[Option<Vec<String>>; 4],
    dict: &[String],
) -> (r: Option<String>)
    requires
        wf_boards(quad_words@),
        wf_words(dict@),
        dict@.len() <= MAX_POOL,
    ensures
        quordle_select_post(quad_words@, dict@, r),
{
    quordle_propose_from(quad_words.as_slice(), dict)
}

/// The word the quordle selector returns meets the combined entropy
/// objective: no guessable word scores lower summed over the boards still
/// in play.
pub proof fn lemma_quordle_select_minimality(
    q: Seq<Option<Vec<String>>>,
    dict: Seq<String>,
    w: String,
)
    requires
        quordle_select_post(q, dict, Some(w)),
    ensures
        forall|j: int|
            0 <= j < dict.len() ==> crate::select::spec_total_score(w@, active_pools(q))
                <= crate::select::spec_total_score(#[trigger] dict[j]@, active_pools(q)),
{
    crate::select::lemma_selected_minimal(dict, active_pools(q), dict.len() as int);
}

/// A pool holds a given word: some entry reads the same.
pub open spec fn seq_contains_word(p: Seq<String>, w: Seq<char>) -> bool {
    exists|i: int| 0 <= i < p.len() && p[i]@ == w
}

/// Some board still in play holds the word among its candidates.
pub open spec fn in_active_board(q: Seq<Option<Vec<String>>>, w: Seq<char>) -> bool {
    exists|k: int|
        0 <= k < q.len() && match #[trigger] q[k] {
            Some(p) => seq_contains_word(p@, w),
            None => false,
        }
}

/// A word stays guessable after a round when it is still a candidate on at
/// least one board in play, and is not the word just played.
pub open spec fn keeps_word(q: Seq<Option<Vec<String>>>, played: Seq<char>, w: String) -> bool {
    in_active_board(q, w@) && w@ != played
}

/// The words of `dict`, in order, that stay guessable after a round.
pub open spec fn spec_dict_filter(
    q: Seq<Option<Vec<String>>>,
    played: Seq<char>,
    dict: Seq<String>,
) -> Seq<String>
    decreases dict.len(),
{
    if dict.len() == 0 {
        Seq::empty()
    } else {
        let rest = spec_dict_filter(q, played, dict.drop_last());
        if keeps_word(q, played, dict.last()) {
            rest.push(dict.last())
        } else {
            rest
        }
    }
}

fn pool_contains(p: &Vec<String>, w: &String) -> (r: bool)
    ensures
        r == seq_contains_word(p@, w@),
{
    let mut i: usize = 0;
    while i < p.len()
        invariant
            i <= p@.len(),
            forall|j: int| 0 <= j < i ==> p@[j]@ != w@,
        decreases p@.len() - i,
    {
        if p[i].eq(w) {
            proof {
                assert(p@[i as int]@ == w@);
            }
            return true;
        }
        i += 1;
    }
    false
}

fn word_in_active(boards: &Vec<Option<Vec<String>>>, w: &String) -> (r: bool)
    ensures
        r == in_active_board(boards@, w@),
{
    let mut k: usize = 0;
    while k < boards.len()
        invariant
            k <= boards@.len(),
            forall|j: int|
                0 <= j < k ==> !(match #[trigger] boards@[j] {
                    Some(p) => seq_contains_word(p@, w@),
                    None => false,
                }),
        decreases boards@.len() - k,
    {
        match &boards[k] {
            Some(p) => {
                if pool_contains(p, w) {
                    proof {
                        assert(0 <= k < boards@.len() && match boards@[k as int] {
                            Some(p2) => seq_contains_word(p2@, w@),
                            None => false,
                        });
                    }
                    return true;
                }
            },
            None => {},
        }
        k += 1;
    }
    false
}

/// The four-board elimination engine: four boards narrowed independently by
/// their own feedback, sharing one played word per round and one shrinking
/// dictionary of guessable words.
pub struct QuordleEngine {
    /// One entry per board: the board's candidate pool while it is in play,
    /// `None` once it is solved. A board whose pool has emptied has failed,
    /// and play continues on the others.
    pub boards: Vec<Option<Vec<String>>>,
    /// The words still worth playing: candidates of at least one board in
    /// play, the words already played excluded.
    pub dict: Vec<String>,
}

impl QuordleEngine {
    /// A well-formed engine: exactly four boards, all pools well formed.
    pub open spec fn wf(self) -> bool {
        &&& self.boards@.len() == 4
        &&& wf_boards(self.boards@)
        &&& wf_words(self.dict@)
        &&& self.dict@.len() <= MAX_POOL
    }

    /// Starts a session: four boards, each with the full dictionary as its
    /// candidate pool, and the dictionary as the guessable words.
    pub fn new(dictionary: Vec<String>) -> (r: QuordleEngine)
        requires
            wf_words(dictionary@),
            dictionary@.len() <= MAX_POOL,
        ensures
            r.wf(),
            r.dict@ == dictionary@,
            r.boards@.len() == 4,
            forall|k: int|
                0 <= k < 4 ==> match #[trigger] r.boards@[k] {
                    Some(p) => p@ == dictionary@,
                    None => false,
                },
    {
        let mut boards: Vec<Option<Vec<String>>> = Vec::new();
        boards.push(Some(clone_words(dictionary.as_slice())));
        boards.push(Some(clone_words(dictionary.as_slice())));
        boards.push(Some(clone_words(dictionary.as_slice())));
        boards.push(Some(clone_words(dictionary.as_slice())));
        QuordleEngine { boards, dict: dictionary }
    }

    /// Asks the selector for the round's shared guess.
    pub fn propose(&self) -> (r: Option<String>)
        requires
            self.wf(),
        ensures
            quordle_select_post(self.boards@, self.dict@, r),
    {
        quordle_propose_from(self.boards.as_slice(), self.dict.as_slice())
    }

    /// Applies one board's feedback for the shared guess: all-exact feedback
    /// solves and retires the board; otherwise its pool is narrowed to the
    /// consistent words, possibly to none, which is that board's failure.
    pub fn apply_board(&mut self, k: usize, guess: &str, matches: &Matches)
        requires
            old(self).wf(),
            k < 4,
            old(self).boards@[k as int] is Some,
            wf_word(guess@),
        ensures
            final(self).wf(),
            final(self).dict == old(self).dict,
            final(self).boards@.len() == 4,
            forall|j: int| 0 <= j < 4 && j != k ==> final(self).boards@[j] == old(self).boards@[j],
            all_exact(matches@) ==> final(self).boards@[k as int] is None,
            !all_exact(matches@) ==> match final(self).boards@[k as int] {
                Some(p) => p@ == spec_filter(
                    guess@,
                    matches@,
                    old(self).boards@[k as int]->Some_0@,
                ),
                None => false,
            },
    {
        if is_all_exact(matches) {
            self.boards[k] = None;
        } else {
            let filtered = match &self.boards[k] {
                Some(p) => filter_pool(p, guess, matches),
                None => Vec::new(),
            };
            self.boards[k] = Some(filtered);
        }
    }

    /// Ends a round: keeps guessable only the words still a candidate on at
    /// least one board in play, the word just played excluded.
    pub fn update_dict(&mut self, played: &String)
        requires
            old(self).wf(),
        ensures
            final(self).wf(),
            final(self).boards == old(self).boards,
            final(self).dict@ == spec_dict_filter(old(self).boards@, played@, old(self).dict@),
            final(self).dict@.len() <= old(self).dict@.len(),
    {
        let mut new_dict: Vec<String> = Vec::new();
        let mut i: usize = 0;
        while i < self.dict.len()
            invariant
                i <= self.dict@.len(),
                new_dict@ == spec_dict_filter(self.boards@, played@, self.dict@.take(i as int)),
                new_dict@.len() <= i,
                wf_words(new_dict@),
            decreases self.dict@.len() - i,
        {
            proof {
                let prefix = self.dict@.take(i as int);
                let longer = self.dict@.take(i + 1);
                assert(longer.drop_last() =~= prefix);
                assert(longer.last() == self.dict@[i as int]);
            }
            if word_in_active(&self.boards, &self.dict[i]) && !self.dict[i].eq(played) {
                new_dict.push(self.dict[i].clone());
            }
            i += 1;
        }
        proof {
            assert(self.dict@.take(self.dict@.len() as int) =~= self.dict@);
        }
        self.dict = new_dict;
    }

    /// Whether every board has been solved: the session is won.
    pub fn is_won(&self) -> (r: bool)
        requires
            self.wf(),
        ensures
            r == (forall|k: int| 0 <= k < self.boards@.len() ==> self.boards@[k] is None),
    {
        let mut k: usize = 0;
        while k < self.boards.len()
            invariant
                k <= self.boards@.len(),
                forall|j: int| 0 <= j < k ==> self.boards@[j] is None,
            decreases self.boards@.len() - k,
        {
            match &self.boards[k] {
                Some(_) => {
                    return false;
                },
                None => {},
            }
            k += 1;
        }
        true
    }
}

} // verus!
