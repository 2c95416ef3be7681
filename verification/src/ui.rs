//! Scoring: the global score resource and the death-reward listener.

use vstd::prelude::*;
use crate::enemy::{EnemyDiedEvent, EnemyType};

verus! {

/// The global score.
#[derive(Clone, Copy, Debug, PartialEq, Eq, Structural)]
pub struct Score(pub i32);

/// Marker for the scoreboard text entity of the presentation layer.
#[derive(Clone, Copy, Debug, PartialEq, Eq, Structural)]
pub struct ScoreboardUi;

/// The scoring subsystem.
pub struct UiPlugin;

/// Reward paid for a kill of the given enemy kind.
pub open spec fn reward(t: EnemyType) -> int {
    match t {
        EnemyType::Creep => 1,
        EnemyType::Standard => 2,
    }
}

/// Total reward of the death events from index `k` on.
pub open spec fn score_delta(evs: Seq<EnemyDiedEvent>, k: int) -> int
    decreases evs.len() - k,
{
    if k < 0 || k >= evs.len() {
        0
    } else {
        reward(evs[k].enemy_type) + score_delta(evs, k + 1)
    }
}

/// The total reward lies between zero and twice the event count.
pub proof fn lemma_score_delta_bounds(evs: Seq<EnemyDiedEvent>, k: int)
    requires
        0 <= k <= evs.len(),
    ensures
        0 <= score_delta(evs, k) <= 2 * (evs.len() - k),
    decreases evs.len() - k,
{
    if k < evs.len() {
        lemma_score_delta_bounds(evs, k + 1);
    }
}

/// Law: one death event changes the score by exactly the reward of its
/// enemy kind — one point for a creep, two for a standard enemy.
pub proof fn lemma_score_single(ev: EnemyDiedEvent)
    ensures
        score_delta(seq![ev], 0) == reward(ev.enemy_type),
        reward(EnemyType::Creep) == 1,
        reward(EnemyType::Standard) == 2,
{
    let evs = seq![ev];
    assert(evs[0] == ev);
    assert(score_delta(evs, 1) == 0);
}

/// Score listener: add the per-kind reward for every death of the tick.
pub fn on_enemy_died_score(score: &mut Score, events: &Vec<EnemyDiedEvent>)
    requires
        old(score).0 + 2 * events@.len() <= i32::MAX,
    ensures
        final(score).0 == old(score).0 + score_delta(events@, 0),
{
    let ghost evs = events@;
    let m = events.len();
    let mut k: usize = 0;
    proof {
        lemma_score_delta_bounds(evs, 0);
    }
    while k < m
        invariant
            evs == events@,
            m == evs.len(),
            0 <= k <= m,
            old(score).0 + 2 * evs.len() <= i32::MAX,
            old(score).0 + score_delta(evs, 0) == score.0 + score_delta(evs, k as int),
            old(score).0 <= score.0 <= old(score).0 + 2 * k,
        decreases m - k,
    {
        proof {
            lemma_score_delta_bounds(evs, k as int);
            lemma_score_delta_bounds(evs, k + 1);
        }
        match events[k].enemy_type {
            EnemyType::Creep => {
                score.0 = score.0 + 1;
            },
            EnemyType::Standard => {
                score.0 = score.0 + 2;
            },
        }
        k = k + 1;
    }
}

impl UiPlugin {
    /// One tick of the scoring subsystem.
    pub fn update(score: &mut Score, deaths: &Vec<EnemyDiedEvent>)
        requires
            old(score).0 + 2 * deaths@.len() <= i32::MAX,
        ensures
            final(score).0 == old(score).0 + score_delta(deaths@, 0),
    {
        on_enemy_died_score(score, deaths);
    }
}

} // verus!
