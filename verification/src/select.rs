//! Guess selection: scan a universe of playable words, score each against
//! the current candidate pool (or pools, in the four-board variant), and
//! return the word with the smallest entropy score. Ties are broken by the
//! fixed enumeration order of the universe: the first least-scored word
//! wins, so selection is deterministic even though the scan itself runs on
//! parallel worker threads.
use crate::entropy::{score, spec_pool_score, wf_words, MAX_POOL};
use crate::feedback::wf_word;
use rayon::iter::{IndexedParallelIterator, IntoParallelRefIterator, ParallelIterator};
use vstd::prelude::*;

verus! {

/// The views of a list of pools.
pub open spec fn views_of(ps: Seq<Vec<String>>) -> Seq<Seq<String>> {
    ps.map_values(|p: Vec<String>| p@)
}

/// A well-formed list of pools: at most four (one per board), each well
/// formed and within the admitted size.
pub open spec fn wf_pools(ps: Seq<Seq<String>>) -> bool {
    ps.len() <= 4 && forall|i: int|
        0 <= i < ps.len() ==> wf_words(#[trigger] ps[i]) && ps[i].len() <= MAX_POOL
}

/// Sum of the scores of `w` against the first `n` pools.
pub open spec fn total_score_to(w: Seq<char>, ps: Seq<Seq<String>>, n: int) -> int
    decreases n,
{
    if n <= 0 {
        0
    } else {
        total_score_to(w, ps, n - 1) + spec_pool_score(w, ps[n - 1])
    }
}

/// The combined score of playing `w`: the per-pool entropy scores summed
/// over every pool (each board still in play contributes one pool).
pub open spec fn spec_total_score(w: Seq<char>, ps: Seq<Seq<String>>) -> int {
    total_score_to(w, ps, ps.len() as int)
}

/// First index among the first `n` words of the universe whose combined
/// score is smallest: the deterministic tie-break of the selector.
pub open spec fn spec_argmin(universe: Seq<String>, ps: Seq<Seq<String>>, n: int) -> int
    decreases n,
{
    if n <= 1 {
        0
    } else {
        let p = spec_argmin(universe, ps, n - 1);
        if spec_total_score(universe[n - 1]@, ps) < spec_total_score(universe[p]@, ps) {
            n - 1
        } else {
            p
        }
    }
}

/// The index of the word the selector picks from the whole universe.
pub open spec fn spec_selected(universe: Seq<String>, ps: Seq<Seq<String>>) -> int {
    spec_argmin(universe, ps, universe.len() as int)
}

/// The selected index holds a least combined score among the first `n`
/// words, and every earlier word scores strictly worse: it is the first
/// least-scored word in enumeration order.
pub proof fn lemma_selected_minimal(universe: Seq<String>, ps: Seq<Seq<String>>, n: int)
    requires
        1 <= n <= universe.len(),
    ensures
        0 <= spec_argmin(universe, ps, n) < n,
        forall|j: int|
            0 <= j < n ==> spec_total_score(universe[spec_argmin(universe, ps, n)]@, ps)
                <= spec_total_score(#[trigger] universe[j]@, ps),
        forall|j: int|
            0 <= j < spec_argmin(universe, ps, n) ==> spec_total_score(#[trigger] universe[j]@, ps)
                > spec_total_score(universe[spec_argmin(universe, ps, n)]@, ps),
    decreases n,
{
    if n > 1 {
        lemma_selected_minimal(universe, ps, n - 1);
    }
}

/// What `select` promises of its result: `None` exactly on an empty
/// universe, else the first least-scored word of the universe.
pub open spec fn select_post(pool: Seq<String>, universe: Seq<String>, r: Option<String>) -> bool {
    match r {
        None => universe.len() == 0,
        Some(w) => universe.len() > 0 && w == universe[spec_selected(universe, seq![pool])],
    }
}

/// Selection is a function of the pool and the ordered universe alone: two
/// results that both satisfy the selector's contract are the same word.
pub proof fn lemma_select_deterministic(
    pool: Seq<String>,
    universe: Seq<String>,
    r1: Option<String>,
    r2: Option<String>,
)
    requires
        select_post(pool, universe, r1),
        select_post(pool, universe, r2),
    ensures
        r1 == r2,
{
}

/// The word the selector returns meets the entropy objective: no word of
/// the universe scores lower against the pool.
pub proof fn lemma_select_minimality(pool: Seq<String>, universe: Seq<String>, w: String)
    requires
        select_post(pool, universe, Some(w)),
    ensures
        forall|j: int|
            0 <= j < universe.len() ==> spec_total_score(w@, seq![pool]) <= spec_total_score(
                #[trigger] universe[j]@,
                seq![pool],
            ),
{
    lemma_selected_minimal(universe, seq![pool], universe.len() as int);
}

/// The smaller of two (score, index) pairs, comparing score first and index
/// second: the associative, commutative reduction step of the parallel scan.
pub(crate) fn min_pair(a: (u64, usize), b: (u64, usize)) -> (r: (u64, usize))
    ensures
        r == (if b.0 < a.0 || (b.0 == a.0 && b.1 < a.1) {
            b
        } else {
            a
        }),
{
    if b.0 < a.0 || (b.0 == a.0 && b.1 < a.1) {
        b
    } else {
        a
    }
}

/// The combined score of `w` against every pool of `pools`.
fn total_score_of(w: &String, pools: &Vec<Vec<String>>) -> (r: u64)
    requires
        wf_word(w@),
        wf_pools(views_of(pools@)),
    ensures
        r == spec_total_score(w@, views_of(pools@)),
{
    let mut total: u64 = 0;
    let mut i: usize = 0;
    while i < pools.len()
        invariant
            i <= pools@.len(),
            total == total_score_to(w@, views_of(pools@), i as int),
            total <= i * 0x20000000000000,
        decreases pools@.len() - i,
    {
        proof {
            assert(views_of(pools@)[i as int] == pools@[i as int]@);
        }
        let s = score(w.as_str(), pools[i].as_slice());
        total = total + s;
        i += 1;
    }
    total
}

/// Relies on rayon's `par_iter`, `enumerate`, `map` and `reduce_with`: every
/// word of the universe is scored by the verified `total_score_of` on worker
/// threads, and the (score, index) pairs are reduced by the verified
/// `min_pair`. `min_pair` is the minimum in the lexicographic order on
/// (score, index), which is associative and commutative and the indices are
/// distinct, so whatever order rayon reduces in, the result is the unique
/// least pair: the first least-scored index. `reduce_with` returns `None`
/// exactly on an empty iterator.
#[verifier::external_body]
pub(crate) fn par_min_scored(universe: &[String], pools: &Vec<Vec<String>>) -> (r: Option<(
    u64,
    usize,
)>)
    requires
        wf_words(universe@),
        wf_pools(views_of(pools@)),
    ensures
        (match r {
            None => universe@.len() == 0,
            Some(t) => {
                &&& universe@.len() > 0
                &&& t.1 < universe@.len()
                &&& t.1 == spec_selected(universe@, views_of(pools@))
                &&& t.0 == spec_total_score(universe@[t.1 as int]@, views_of(pools@))
            },
        }),
{
    universe
        .par_iter()
        .enumerate()
        .map(|(i, w)| (total_score_of(w, pools), i))
        .reduce_with(|a, b| min_pair(a, b))
}

/// A copy of a list of words.
pub(crate) fn clone_words(words: &[String]) -> (r: Vec<String>)
    ensures
        r@ == words@,
{
    let mut r: Vec<String> = Vec::new();
    let mut i: usize = 0;
    while i < words.len()
        invariant
            i <= words@.len(),
            r@ =~= words@.take(i as int),
        decreases words@.len() - i,
    {
        r.push(words[i].clone());
        i += 1;
    }
    proof {
        assert(words@.take(words@.len() as int) =~= words@);
    }
    r
}

/// Chooses the word of `guess_universe` whose entropy score against `pool`
/// is smallest, the first such word in the order of the universe. Returns
/// `None` exactly when the universe is empty.
pub fn select(pool: &[String], guess_universe: &[String]) -> (r: Option<String>)
    requires
        wf_words(pool@),
        pool@.len() <= MAX_POOL,
        wf_words(guess_universe@),
    ensures
        select_post(pool@, guess_universe@, r),
{
    let mut pools: Vec<Vec<String>> = Vec::new();
    pools.push(clone_words(pool));
    proof {
        assert(views_of(pools@) =~= seq![pool@]);
    }
    match par_min_scored(guess_universe, &pools) {
        None => None,
        Some((_s, i)) => Some(guess_universe[i].clone()),
    }
}

/// Chooses a word to play according to the entropy objective: the candidate
/// pool is also the universe of playable words.
pub fn get_word_to_play(words: &[String]) -> (r: Option<String>)
    requires
        wf_words(words@),
        words@.len() <= MAX_POOL,
    ensures
        select_post(words@, words@, r),
{
    select(words, words)
}

} // verus!
