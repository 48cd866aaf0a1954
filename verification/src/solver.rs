//! The constraint solver: counting how many of the fixed constraints a
//! ranking violates, and hill climbing toward a violation-free ranking.

use vstd::prelude::*;

verus! {

use vstd::math::abs;
use crate::rankings::{
    Developer,
    Ranking,
    is_permutation_of_universe,
    relative_rank,
};

/// How many constraints the solver scores a ranking against.
pub open spec fn constraint_count() -> int {
    6
}

/// Whether `d` holds the best position of `s`.
pub open spec fn best_is(s: Seq<Developer>, d: Developer) -> bool {
    s.len() > 0 && s[0] == d
}

/// Whether `d` holds the worst position of `s`.
pub open spec fn worst_is(s: Seq<Developer>, d: Developer) -> bool {
    s.len() > 0 && s[s.len() - 1] == d
}

/// The number of violated constraints: one point for each of the six fixed
/// constraints that the ranking breaks.
pub open spec fn score_of(s: Seq<Developer>) -> int {
    (if best_is(s, Developer::Jessie) {
        1int
    } else {
        0int
    }) + (if worst_is(s, Developer::Evan) {
        1int
    } else {
        0int
    }) + (if best_is(s, Developer::John) || worst_is(s, Developer::John) {
        1int
    } else {
        0int
    }) + (if relative_rank(s, Developer::Sarah, Developer::Evan) <= 0 {
        1int
    } else {
        0int
    }) + (if abs(relative_rank(s, Developer::Matt, Developer::John)) <= 1 {
        1int
    } else {
        0int
    }) + (if abs(relative_rank(s, Developer::John, Developer::Evan)) <= 1 {
        1int
    } else {
        0int
    })
}

/// The number of constraints the given ranking violates.
///
/// The fixed constraints: Jessie must not be best; Evan must not be worst;
/// John must be neither best nor worst; Sarah must strictly outrank Evan;
/// Matt and John must sit at least two positions apart; so must John and
/// Evan.
pub fn compute_score(ranking: &Ranking) -> (score: u64)
    requires
        is_permutation_of_universe(ranking@),
    ensures
        score == score_of(ranking@),
        score <= constraint_count(),
{
    let mut failed_predicates: u64 = 0;
    if let Some(best) = ranking.get_best() {
        if *best == Developer::Jessie {
            failed_predicates = failed_predicates + 1;
        }
    }
    if let Some(worst) = ranking.get_worst() {
        if *worst == Developer::Evan {
            failed_predicates = failed_predicates + 1;
        }
    }
    let john_best = match ranking.get_best() {
        Some(best) => *best == Developer::John,
        None => false,
    };
    let john_worst = match ranking.get_worst() {
        Some(worst) => *worst == Developer::John,
        None => false,
    };
    if john_best || john_worst {
        failed_predicates = failed_predicates + 1;
    }
    if ranking.get_relative_rank(&Developer::Sarah, &Developer::Evan) <= 0 {
        failed_predicates = failed_predicates + 1;
    }
    let matt_john = ranking.get_relative_rank(&Developer::Matt, &Developer::John);
    if -1 <= matt_john && matt_john <= 1 {
        failed_predicates = failed_predicates + 1;
    }
    let john_evan = ranking.get_relative_rank(&Developer::John, &Developer::Evan);
    if -1 <= john_evan && john_evan <= 1 {
        failed_predicates = failed_predicates + 1;
    }
    failed_predicates
}

/// Why a search gave up: the attempt budget it exhausted, the best ranking
/// it saw, and that ranking's score.
pub struct SearchFailure {
    /// The attempt budget the failed search ran with.
    pub max_attempts: u64,
    /// The best-scoring ranking the search came across.
    pub best_ranking: Ranking,
    /// The score of `best_ranking`: its number of violated constraints.
    pub best_score: u64,
}

/// Searches for a ranking that violates no constraint, by hill climbing:
/// start from a random ranking and repeatedly rescore a random
/// transposition of the best ranking seen so far, until a zero-score
/// ranking appears or the budget runs out. The loop scores one candidate
/// per attempt, attempts `0` through `max_attempts` inclusive.
///
/// A returned ranking scores zero. A failure reports the budget together
/// with the best ranking seen and its (necessarily positive) score.
pub fn find_ranking(max_attempts: u64) -> (result: Result<Ranking, SearchFailure>)
    requires
        max_attempts < u64::MAX,
    ensures
        match result {
            Ok(r) => is_permutation_of_universe(r@) && score_of(r@) == 0,
            Err(f) => {
                &&& f.max_attempts == max_attempts
                &&& is_permutation_of_universe(f.best_ranking@)
                &&& f.best_score == score_of(f.best_ranking@)
                &&& f.best_score > 0
            },
        },
{
    let mut attempts: u64 = 0;
    let mut ranking = Ranking::random();

    let mut best_score: u64 = u64::MAX;
    let mut best_ranking = ranking.clone();

    while attempts <= max_attempts
        invariant
            max_attempts < u64::MAX,
            attempts <= max_attempts + 1,
            is_permutation_of_universe(ranking@),
            is_permutation_of_universe(best_ranking@),
            attempts == 0 ==> best_score == u64::MAX,
            attempts > 0 ==> best_score == score_of(best_ranking@) && 0 < best_score,
        decreases max_attempts + 1 - attempts,
    {
        let score = compute_score(&ranking);

        if score == 0 {
            return Ok(ranking);
        } else if score <= best_score {
            best_score = score;
            best_ranking = ranking;
        }

        proof {
            crate::rankings::lemma_permutation_facts(best_ranking@);
        }
        ranking = best_ranking.shuffle(1);
        attempts = attempts + 1;
    }

    Err(SearchFailure { max_attempts, best_ranking, best_score })
}

} // verus!
