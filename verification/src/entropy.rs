//! Entropy scoring of a candidate guess against a pool of candidate words.
//!
//! Playing a guess splits the pool into groups of words that would produce
//! the same feedback. The score of the guess is the sum over those groups of
//! `v * log2(v)`, where `v` is the group size: the smaller the score, the
//! more evenly the guess partitions the pool, so the guess with the smallest
//! score is the most informative one. The logarithm is computed exactly in
//! binary fixed point with sixteen fractional bits, so scores are integers,
//! deterministic on every machine, and ordered as the real-valued measure is
//! up to the fixed-point resolution.
use crate::feedback::{get_match, spec_classify, wf_word, Match, Matches, WORD_LEN};
use vstd::arithmetic::power2::{lemma2_to64, lemma_pow2_adds, lemma_pow2_strictly_increases, pow2};
use vstd::multiset::Multiset;
use vstd::prelude::*;

verus! {

/// Largest admitted pool size; keeps every score within `u64` range.
pub const MAX_POOL: usize = 0x1000000;

/// A well-formed pool: every word is well formed.
pub open spec fn wf_words(ws: Seq<String>) -> bool {
    forall|i: int| 0 <= i < ws.len() ==> wf_word(ws[i]@)
}

/// Halves `z` until it lies in [65536, 131072), counting the halvings:
/// the integer part of the base-2 logarithm, with the normalized mantissa.
pub open spec fn norm(z: int) -> (int, int)
    decreases z,
{
    if z < 131072 {
        (z, 0int)
    } else {
        let r = norm(z / 2);
        (r.0, r.1 + 1)
    }
}

/// One step of fractional-bit extraction: square the mantissa and emit one
/// bit of the fractional part of the base-2 logarithm.
pub open spec fn frac_step(z: int, frac: int) -> (int, int) {
    let sq = (z * z) / 65536;
    if sq >= 131072 {
        (sq / 2, frac * 2 + 1)
    } else {
        (sq, frac * 2)
    }
}

/// `n` fractional-bit extraction steps.
pub open spec fn frac_iter(z: int, frac: int, n: nat) -> (int, int)
    decreases n,
{
    if n == 0 {
        (z, frac)
    } else {
        let s = frac_step(z, frac);
        frac_iter(s.0, s.1, (n - 1) as nat)
    }
}

/// The base-2 logarithm of `v`, in fixed point with sixteen fractional bits,
/// rounded toward zero.
pub open spec fn spec_log2fix(v: int) -> int {
    let n = norm(v * 65536);
    let f = frac_iter(n.0, 0, 16);
    n.1 * 65536 + f.1
}

/// The contribution of one feedback group of `v` words to the score:
/// `v * log2(v)` in fixed point. A group of zero or one words contributes
/// nothing, since `log2(1) == 0`.
pub open spec fn spec_weight(v: nat) -> int {
    if v <= 1 {
        0
    } else {
        v * spec_log2fix(v as int)
    }
}

/// The digit of one outcome in the base-3 encoding of a feedback value.
pub open spec fn outcome_digit(m: Match) -> int {
    match m {
        Match::Exact => 0,
        Match::WrongPosition => 1,
        Match::Missing => 2,
    }
}

/// Encodes a feedback value as a number below 243, one digit per position.
pub open spec fn feedback_code(f: Seq<Match>) -> int {
    outcome_digit(f[0]) + 3 * outcome_digit(f[1]) + 9 * outcome_digit(f[2]) + 27 * outcome_digit(
        f[3],
    ) + 81 * outcome_digit(f[4])
}

/// Number of words in the pool whose feedback for the guess `g` has code `c`.
pub open spec fn group_size(g: Seq<char>, m: Multiset<String>, c: int) -> nat {
    m.filter(|w: String| feedback_code(spec_classify(g, w@)) == c).len()
}

/// Sum of the group weights for the codes from `c` up.
pub open spec fn sum_weights_from(g: Seq<char>, m: Multiset<String>, c: int) -> int
    decreases 243 - c,
{
    if c < 0 || c >= 243 {
        0
    } else {
        spec_weight(group_size(g, m, c)) + sum_weights_from(g, m, c + 1)
    }
}

/// The entropy score of playing `g` against a pool of words. The pool is a
/// multiset: the score cannot depend on any enumeration order.
pub open spec fn spec_score(g: Seq<char>, m: Multiset<String>) -> int {
    sum_weights_from(g, m, 0)
}

/// The entropy score of playing `g` against a pool given as a sequence.
pub open spec fn spec_pool_score(g: Seq<char>, pool: Seq<String>) -> int {
    spec_score(g, pool.to_multiset())
}

/// The score is invariant to the order in which the pool is enumerated:
/// two pools holding the same words give every guess the same score.
pub proof fn lemma_score_order_invariant(g: Seq<char>, pool_a: Seq<String>, pool_b: Seq<String>)
    requires
        pool_a.to_multiset() == pool_b.to_multiset(),
    ensures
        spec_pool_score(g, pool_a) == spec_pool_score(g, pool_b),
{
}

/// The base-2 logarithm of `v` in fixed point with sixteen fractional bits.
fn log2fix(v: u64) -> (r: u64)
    requires
        1 <= v <= 0x1000000,
    ensures
        r == spec_log2fix(v as int),
        r <= 1638399,
{
    let mut z: u64 = v * 65536;
    let mut ip: u64 = 0;
    proof {
        lemma2_to64();
    }
    while z >= 131072
        invariant
            65536 <= z,
            norm((v as int) * 65536).0 == norm(z as int).0,
            norm((v as int) * 65536).1 == norm(z as int).1 + ip,
            z * pow2(ip as nat) <= v * 65536,
            ip <= 24,
        decreases z,
    {
        proof {
            lemma2_to64();
            if ip >= 24 {
                if ip > 24 {
                    lemma_pow2_strictly_increases(24, ip as nat);
                }
                assert(z * pow2(ip as nat) >= 131072 * 16777216) by (nonlinear_arith)
                    requires
                        z >= 131072,
                        pow2(ip as nat) >= 16777216,
                ;
                assert(false);
            }
            lemma_pow2_adds(ip as nat, 1);
            assert((z as int / 2) * pow2((ip + 1) as nat) <= z * pow2(ip as nat))
                by (nonlinear_arith)
                requires
                    pow2((ip + 1) as nat) == pow2(ip as nat) * 2,
                    pow2(ip as nat) >= 1,
                    z >= 0,
            ;
        }
        z = z / 2;
        ip = ip + 1;
    }
    let ghost z0 = z as int;
    let mut frac: u64 = 0;
    let mut k: u64 = 0;
    proof {
        lemma2_to64();
    }
    while k < 16
        invariant
            65536 <= z < 131072,
            k <= 16,
            frac < pow2(k as nat),
            frac_iter(z0, 0, 16) == frac_iter(z as int, frac as int, (16 - k) as nat),
        decreases 16 - k,
    {
        proof {
            lemma2_to64();
            lemma_pow2_adds(k as nat, 1);
            assert(z * z < 131072 * 131072) by (nonlinear_arith)
                requires
                    0 <= z < 131072,
            ;
            assert(z * z >= 65536 * 65536) by (nonlinear_arith)
                requires
                    z >= 65536,
            ;
            vstd::arithmetic::div_mod::lemma_div_is_ordered(
                65536int * 65536,
                (z as int) * (z as int),
                65536int,
            );
            assert(((z as int) * (z as int)) / 65536 < 262144) by (nonlinear_arith)
                requires
                    (z as int) * (z as int) < 131072 * 131072,
            ;
        }
        let sq = (z * z) / 65536;
        if sq >= 131072 {
            z = sq / 2;
            frac = frac * 2 + 1;
        } else {
            z = sq;
            frac = frac * 2;
        }
        k = k + 1;
    }
    proof {
        lemma2_to64();
    }
    ip * 65536 + frac
}

/// The fixed-point weight `v * log2(v)` of one feedback group of `v` words.
fn weight_of(v: u64) -> (r: u64)
    requires
        v <= 0x1000000,
    ensures
        r == spec_weight(v as nat),
        r <= 0x200000000000,
{
    if v <= 1 {
        0
    } else {
        let l = log2fix(v);
        proof {
            assert(v * l <= 0x1000000 * 1638399) by (nonlinear_arith)
                requires
                    2 <= v <= 0x1000000,
                    0 <= l <= 1638399,
            ;
        }
        v * l
    }
}

fn outcome_digit_of(m: Match) -> (r: usize)
    ensures
        r == outcome_digit(m),
{
    match m {
        Match::Exact => 0,
        Match::WrongPosition => 1,
        Match::Missing => 2,
    }
}

/// The base-3 code of a feedback value, a number below 243.
fn feedback_code_of(f: &Matches) -> (r: usize)
    requires
        f@.len() == WORD_LEN,
    ensures
        r == feedback_code(f@),
        r < 243,
{
    let d0 = outcome_digit_of(f[0]);
    let d1 = outcome_digit_of(f[1]);
    let d2 = outcome_digit_of(f[2]);
    let d3 = outcome_digit_of(f[3]);
    let d4 = outcome_digit_of(f[4]);
    d0 + 3 * d1 + 9 * d2 + 27 * d3 + 81 * d4
}

proof fn lemma_group_insert(g: Seq<char>, m: Multiset<String>, w: String, c: int)
    ensures
        group_size(g, m.insert(w), c) == group_size(g, m, c) + if feedback_code(
            spec_classify(g, w@),
        ) == c {
            1int
        } else {
            0int
        },
{
    broadcast use vstd::multiset::group_multiset_axioms;

    let p = |x: String| feedback_code(spec_classify(g, x@)) == c;
    if p(w) {
        assert(m.insert(w).filter(p) =~= m.filter(p).insert(w));
    } else {
        assert(m.insert(w).filter(p) =~= m.filter(p));
    }
}

proof fn lemma_group_empty(g: Seq<char>, c: int)
    ensures
        group_size(g, Seq::<String>::empty().to_multiset(), c) == 0,
{
    broadcast use vstd::multiset::group_multiset_axioms;
    broadcast use vstd::seq_lib::group_to_multiset_ensures;

    let p = |x: String| feedback_code(spec_classify(g, x@)) == c;
    let m = Seq::<String>::empty().to_multiset();
    assert(m.len() == 0);
    assert(m.filter(p) =~= Multiset::<String>::empty());
}

/// The entropy score of playing `candidate_guess` against every word of
/// `pool`: the feedback values are grouped, and the group sizes `v` summed
/// as `v * log2(v)` in fixed point. Smaller is more informative.
pub fn score(candidate_guess: &str, pool: &[String]) -> (r: u64)
    requires
        wf_word(candidate_guess@),
        wf_words(pool@),
        pool@.len() <= MAX_POOL,
    ensures
        r == spec_pool_score(candidate_guess@, pool@),
        r <= 0x20000000000000,
{
    let ghost g = candidate_guess@;
    let mut counts: Vec<u64> = vec![0u64; 243];
    proof {
        assert(pool@.take(0) =~= Seq::<String>::empty());
        assert forall|c: int| 0 <= c < 243 implies counts@[c] == group_size(
            g,
            pool@.take(0).to_multiset(),
            c,
        ) by {
            lemma_group_empty(g, c);
        }
    }
    let mut j: usize = 0;
    while j < pool.len()
        invariant
            j <= pool@.len(),
            counts@.len() == 243,
            forall|c: int|
                0 <= c < 243 ==> counts@[c] == group_size(g, pool@.take(j as int).to_multiset(), c),
            forall|c: int| 0 <= c < 243 ==> counts@[c] <= j,
        decreases pool@.len() - j,
    {
        let m = get_match(candidate_guess, pool[j].as_str());
        let code = feedback_code_of(&m);
        proof {
            let prefix = pool@.take(j as int);
            let longer = pool@.take(j + 1);
            assert(longer =~= prefix.push(pool@[j as int]));
            vstd::seq_lib::to_multiset_build(prefix, pool@[j as int]);
            assert forall|c: int| 0 <= c < 243 implies group_size(g, longer.to_multiset(), c)
                == group_size(g, prefix.to_multiset(), c) + if feedback_code(
                spec_classify(g, pool@[j as int]@),
            ) == c {
                1int
            } else {
                0int
            } by {
                lemma_group_insert(g, prefix.to_multiset(), pool@[j as int], c);
            }
        }
        counts[code] = counts[code] + 1;
        j += 1;
    }
    proof {
        assert(pool@.take(pool@.len() as int) =~= pool@);
    }
    let mut total: u64 = 0;
    let mut c: usize = 0;
    while c < 243
        invariant
            c <= 243,
            counts@.len() == 243,
            forall|k: int|
                0 <= k < 243 ==> counts@[k] == group_size(g, pool@.to_multiset(), k) && counts@[k]
                    <= pool@.len(),
            total + sum_weights_from(g, pool@.to_multiset(), c as int) == spec_score(
                g,
                pool@.to_multiset(),
            ),
            total <= c * 0x200000000000,
        decreases 243 - c,
    {
        let w = weight_of(counts[c]);
        total = total + w;
        c += 1;
    }
    total
}

} // verus!
