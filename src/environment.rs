use crate::agent::{drawn_from, one_point_mutation, Agent};
use crate::fitness::{
    is_first_max, lemma_matches_before, lemma_score_bounds, lemma_score_sum_bound,
    matches_before, score_of, score_sum,
};
use crate::random::{choose_weighted_first, entropy_rng, gen_index, weight_total};
use crate::text::chars_of;
use rand::rngs::StdRng;
use vstd::prelude::*;

verus! {

/// The population of one generation, together with the fixed target.
pub struct GuessStringEnvironment {
    pub agents: Vec<Agent>,
    pub target: String,
}

/// The guesses of `agents` all have length `len`.
pub open spec fn all_of_len(agents: Seq<Agent>, len: nat) -> bool {
    forall|i: int| 0 <= i < agents.len() ==> (#[trigger] agents[i]).guess@.len() == len
}

/// `scores` holds, in order, the score of each agent against `target`.
pub open spec fn scores_match(target: Seq<char>, agents: Seq<Agent>, scores: Seq<u16>) -> bool {
    &&& scores.len() == agents.len()
    &&& forall|i: int| 0 <= i < scores.len() ==> #[trigger] scores[i] == score_of(target, agents[i].guess@)
}

/// A child is mutated with probability one in this many.
pub const MUTATION_ONE_IN: usize = 100;

/// Under fitness-proportional selection, index `i` can be drawn: when some
/// score is positive, only an index with a positive score is.
pub open spec fn selectable(scores: Seq<u16>, i: int) -> bool {
    &&& 0 <= i < scores.len()
    &&& score_sum(scores) > 0 ==> scores[i] > 0
}

/// `child` is a crossover of two selectable agents, mutated at one point
/// or not at all.
pub open spec fn bred_from(child: Seq<char>, agents: Seq<Agent>, scores: Seq<u16>) -> bool {
    exists|a: int, b: int, mid: Seq<char>|
        selectable(scores, a) && selectable(scores, b) && #[trigger] drawn_from(
            mid,
            agents[a].guess@,
            agents[b].guess@,
        ) && (child == mid || one_point_mutation(mid, child))
}

/// Some agent of `later` scores at least as high as `agent`.
pub open spec fn matched_in(target: Seq<char>, agent: Agent, later: Seq<Agent>) -> bool {
    exists|k: int|
        0 <= k < later.len() && score_of(target, agent.guess@) <= score_of(
            target,
            (#[trigger] later[k]).guess@,
        )
}

/// The best score of `later` is at least the best score of `earlier`: every
/// agent of `earlier` is matched or beaten by some agent of `later`.
pub open spec fn best_kept(target: Seq<char>, earlier: Seq<Agent>, later: Seq<Agent>) -> bool {
    forall|j: int| 0 <= j < earlier.len() ==> matched_in(target, #[trigger] earlier[j], later)
}

/// Agent `i` has the highest score against `target`, and no earlier agent
/// has one as high.
pub open spec fn is_champion(target: Seq<char>, agents: Seq<Agent>, i: int) -> bool {
    &&& 0 <= i < agents.len()
    &&& forall|j: int|
        0 <= j < agents.len() ==> score_of(target, (#[trigger] agents[j]).guess@) <= score_of(
            target,
            agents[i].guess@,
        )
    &&& forall|j: int|
        0 <= j < i ==> score_of(target, (#[trigger] agents[j]).guess@) < score_of(
            target,
            agents[i].guess@,
        )
}

/// The best score never drops: if each generation keeps the best score of
/// the one before, the last keeps that of the first.
pub proof fn lemma_best_kept_transitive(
    target: Seq<char>,
    first: Seq<Agent>,
    middle: Seq<Agent>,
    last: Seq<Agent>,
)
    requires
        best_kept(target, first, middle),
        best_kept(target, middle, last),
    ensures
        best_kept(target, first, last),
{
    assert forall|j: int| 0 <= j < first.len() implies matched_in(
        target,
        #[trigger] first[j],
        last,
    ) by {
        assert(matched_in(target, first[j], middle));
        let m = choose|m: int|
            0 <= m < middle.len() && score_of(target, first[j].guess@) <= score_of(
                target,
                (#[trigger] middle[m]).guess@,
            );
        assert(matched_in(target, middle[m], last));
        let k = choose|k: int|
            0 <= k < last.len() && score_of(target, middle[m].guess@) <= score_of(
                target,
                (#[trigger] last[k]).guess@,
            );
        assert(score_of(target, first[j].guess@) <= score_of(target, last[k].guess@));
    }
}

impl GuessStringEnvironment {
    /// A population is non-empty, its target is non-empty and short enough
    /// for a score to fit in `u16`, the scores of a generation sum to less
    /// than `u64::MAX`, and every guess is as long as the target.
    pub open spec fn wf(&self) -> bool {
        &&& self.agents@.len() > 0
        &&& self.target@.len() > 0
        &&& self.target@.len() <= u16::MAX
        &&& self.agents@.len() * self.target@.len() <= u64::MAX
        &&& all_of_len(self.agents@, self.target@.len())
    }

    /// A population of `total_guesses` random agents, each as long as
    /// `target`, drawing from `rng`. No scoring is done here.
    pub fn new_with_rng(total_guesses: usize, target: String, rng: &mut StdRng) -> (r: Self)
        requires
            total_guesses > 0,
            target@.len() > 0,
            target@.len() <= u16::MAX,
            total_guesses * target@.len() <= u64::MAX,
        ensures
            r.wf(),
            r.target@ == target@,
            r.agents@.len() == total_guesses,
    {
        let target_len = chars_of(&target).len();
        let mut agents: Vec<Agent> = Vec::new();
        let mut i: usize = 0;
        while i < total_guesses
            invariant
                i <= total_guesses,
                target_len == target@.len(),
                agents@.len() == i,
                all_of_len(agents@, target@.len()),
            decreases total_guesses - i,
        {
            agents.push(Agent::new(target_len, rng));
            i = i + 1;
        }
        GuessStringEnvironment { agents, target }
    }

    /// As `new_with_rng`, with a generator seeded from the operating system.
    pub fn new(total_guesses: usize, target: String) -> (r: Self)
        requires
            total_guesses > 0,
            target@.len() > 0,
            target@.len() <= u16::MAX,
            total_guesses * target@.len() <= u64::MAX,
        ensures
            r.wf(),
            r.target@ == target@,
            r.agents@.len() == total_guesses,
    {
        let mut rng = entropy_rng();
        Self::new_with_rng(total_guesses, target, &mut rng)
    }

    /// The fitness of a guess: the number of positions at which it has the
    /// target's character.
    pub fn score_action(&self, agent_action: String) -> (r: u16)
        requires
            self.target@.len() <= u16::MAX,
        ensures
            r == score_of(self.target@, agent_action@),
    {
        let t = chars_of(&self.target);
        let g = chars_of(&agent_action);
        let n = if t.len() <= g.len() {
            t.len()
        } else {
            g.len()
        };
        let mut count: u16 = 0;
        let mut i: usize = 0;
        while i < n
            invariant
                t@ == self.target@,
                g@ == agent_action@,
                n <= t@.len(),
                n <= g@.len(),
                t@.len() <= u16::MAX,
                i <= n,
                count == matches_before(t@, g@, i as int),
            decreases n - i,
        {
            proof {
                lemma_matches_before(t@, g@, i as int);
            }
            if t[i] == g[i] {
                count = count + 1;
            }
            i = i + 1;
        }
        count
    }

    /// The score of every agent, in the order of `agents`.
    pub fn score_agents(&self) -> (r: Vec<u16>)
        requires
            self.target@.len() <= u16::MAX,
        ensures
            scores_match(self.target@, self.agents@, r@),
    {
        let mut scores: Vec<u16> = Vec::new();
        let mut i: usize = 0;
        while i < self.agents.len()
            invariant
                self.target@.len() <= u16::MAX,
                i <= self.agents@.len(),
                scores@.len() == i,
                forall|j: int| 0 <= j < i ==> #[trigger] scores@[j] == score_of(self.target@, self.agents@[j].guess@),
            decreases self.agents@.len() - i,
        {
            let s = self.score_action(self.agents[i].act());
            scores.push(s);
            i = i + 1;
        }
        scores
    }

    /// The agent with the highest score; among equal scores, the first.
    pub fn get_champion(&self, agent_scores: &Vec<u16>) -> (r: &Agent)
        requires
            agent_scores@.len() == self.agents@.len(),
            agent_scores@.len() > 0,
        ensures
            exists|i: int| is_first_max(agent_scores@, i) && *r == self.agents@[i],
    {
        let mut best: usize = 0;
        let mut i: usize = 1;
        while i < agent_scores.len()
            invariant
                agent_scores@.len() == self.agents@.len(),
                1 <= i <= agent_scores@.len(),
                best < i,
                forall|j: int| 0 <= j < i ==> #[trigger] agent_scores@[j] <= agent_scores@[best as int],
                forall|j: int| 0 <= j < best ==> #[trigger] agent_scores@[j] < agent_scores@[best as int],
            decreases agent_scores@.len() - i,
        {
            if agent_scores[i] > agent_scores[best] {
                best = i;
            }
            i = i + 1;
        }
        assert(is_first_max(agent_scores@, best as int));
        &self.agents[best]
    }

    /// Fitness-proportional (roulette-wheel) selection of one index: index
    /// `i` is drawn with probability `scores[i] / sum(scores)`. When every
    /// score is zero, every index is equally likely instead.
    pub fn select_parent(rng: &mut StdRng, agent_scores: &Vec<u16>) -> (r: usize)
        requires
            agent_scores@.len() > 0,
            score_sum(agent_scores@) <= u64::MAX,
        ensures
            selectable(agent_scores@, r as int),
    {
        let mut items: Vec<(usize, u64)> = Vec::new();
        let mut i: usize = 0;
        while i < agent_scores.len()
            invariant
                i <= agent_scores@.len(),
                items@.len() == i,
                forall|j: int| 0 <= j < i ==> #[trigger] items@[j] == (j as usize, agent_scores@[j] as u64),
                weight_total(items@) == score_sum(agent_scores@.take(i as int)),
            decreases agent_scores@.len() - i,
        {
            let ghost before = items@;
            items.push((i, agent_scores[i] as u64));
            assert(items@.drop_last() == before);
            assert(agent_scores@.take(i + 1).drop_last() == agent_scores@.take(i as int));
            i = i + 1;
        }
        assert(agent_scores@.take(i as int) == agent_scores@);
        match choose_weighted_first(rng, &items) {
            Some(k) => {
                let ghost j = choose|j: int|
                    0 <= j < items@.len() && items@[j].0 == k && items@[j].1 > 0;
                assert(items@[j] == (j as usize, agent_scores@[j] as u64));
                k
            },
            None => gen_index(rng, agent_scores.len()),
        }
    }

    /// Two parents, each drawn by `select_parent`, with replacement.
    pub fn get_random_parents(rng: &mut StdRng, agent_scores: &Vec<u16>) -> (r: (usize, usize))
        requires
            agent_scores@.len() > 0,
            score_sum(agent_scores@) <= u64::MAX,
        ensures
            selectable(agent_scores@, r.0 as int),
            selectable(agent_scores@, r.1 as int),
    {
        let parent_a = Self::select_parent(rng, agent_scores);
        let parent_b = Self::select_parent(rng, agent_scores);
        (parent_a, parent_b)
    }

    /// The next generation, of the same size: all slots but the last hold a
    /// crossover of two selected parents, mutated with probability one in
    /// `MUTATION_ONE_IN`; the last holds a copy of the champion.
    pub fn new_generation(&self, rng: &mut StdRng, agent_scores: &Vec<u16>) -> (r: Vec<Agent>)
        requires
            self.wf(),
            scores_match(self.target@, self.agents@, agent_scores@),
        ensures
            r@.len() == self.agents@.len(),
            all_of_len(r@, self.target@.len()),
            forall|k: int|
                0 <= k < r@.len() - 1 ==> bred_from(
                    (#[trigger] r@[k]).guess@,
                    self.agents@,
                    agent_scores@,
                ),
            exists|i: int|
                is_first_max(agent_scores@, i) && r@.last().guess@ == self.agents@[i].guess@,
            forall|j: int|
                0 <= j < self.agents@.len() ==> score_of(
                    self.target@,
                    (#[trigger] self.agents@[j]).guess@,
                ) <= score_of(self.target@, r@.last().guess@),
            best_kept(self.target@, self.agents@, r@),
    {
        let n = self.agents.len();
        proof {
            let len = self.target@.len();
            assert forall|i: int| 0 <= i < agent_scores@.len() implies #[trigger] agent_scores@[i]
                <= len by {
                lemma_score_bounds(self.target@, self.agents@[i].guess@);
            }
            lemma_score_sum_bound(agent_scores@, len);
        }
        let mut next: Vec<Agent> = Vec::new();
        let mut k: usize = 0;
        while k < n - 1
            invariant
                self.wf(),
                n == self.agents@.len(),
                scores_match(self.target@, self.agents@, agent_scores@),
                score_sum(agent_scores@) <= u64::MAX,
                k <= n - 1,
                next@.len() == k,
                all_of_len(next@, self.target@.len()),
                forall|m: int|
                    0 <= m < k ==> bred_from(
                        (#[trigger] next@[m]).guess@,
                        self.agents@,
                        agent_scores@,
                    ),
            decreases n - 1 - k,
        {
            let (a, b) = Self::get_random_parents(rng, agent_scores);
            let mut child = self.agents[a].crossover(&self.agents[b], rng);
            let ghost mid = child.guess@;
            assert(drawn_from(mid, self.agents@[a as int].guess@, self.agents@[b as int].guess@));
            if gen_index(rng, MUTATION_ONE_IN) == 0 {
                child.mutate(rng);
            }
            assert(bred_from(child.guess@, self.agents@, agent_scores@));
            next.push(child);
            k = k + 1;
        }
        let champion = self.get_champion(agent_scores);
        next.push(Agent { guess: champion.act() });
        proof {
            let i = choose|i: int| is_first_max(agent_scores@, i) && *champion == self.agents@[i];
            assert forall|j: int| 0 <= j < self.agents@.len() implies score_of(
                self.target@,
                (#[trigger] self.agents@[j]).guess@,
            ) <= score_of(self.target@, next@.last().guess@) by {
                assert(agent_scores@[j] <= agent_scores@[i]);
            }
            assert forall|m: int| 0 <= m < next@.len() - 1 implies bred_from(
                (#[trigger] next@[m]).guess@,
                self.agents@,
                agent_scores@,
            ) by {
                assert(next@[m] == next@.drop_last()[m]);
            }
            assert forall|j: int| 0 <= j < self.agents@.len() implies matched_in(
                self.target@,
                #[trigger] self.agents@[j],
                next@,
            ) by {
                assert(score_of(self.target@, self.agents@[j].guess@) <= score_of(
                    self.target@,
                    next@[n - 1].guess@,
                ));
            }
        }
        next
    }

    /// Runs `generations` generations: scores the initial population, then
    /// `generations - 1` times replaces it by `new_generation` and scores it
    /// again; returns the champion of the last generation. There is no early
    /// stop on a perfect score.
    pub fn run_with_rng(&mut self, generations: usize, rng: &mut StdRng) -> (r: &Agent)
        requires
            old(self).wf(),
            generations > 0,
        ensures
            final(self).wf(),
            final(self).target@ == old(self).target@,
            final(self).agents@.len() == old(self).agents@.len(),
            exists|i: int|
                is_champion(final(self).target@, final(self).agents@, i)
                    && *r == final(self).agents@[i],
            best_kept(old(self).target@, old(self).agents@, final(self).agents@),
            forall|j: int|
                0 <= j < old(self).agents@.len() ==> score_of(
                    old(self).target@,
                    (#[trigger] old(self).agents@[j]).guess@,
                ) <= score_of(old(self).target@, r.guess@),
    {
        let ghost start = self.agents@;
        let ghost target = self.target@;
        let mut agent_scores = self.score_agents();
        assert forall|j: int| 0 <= j < start.len() implies matched_in(
            target,
            #[trigger] start[j],
            start,
        ) by {
            assert(score_of(target, start[j].guess@) <= score_of(target, start[j].guess@));
        }
        let mut g: usize = 1;
        while g < generations
            invariant
                self.wf(),
                self.target@ == target,
                self.agents@.len() == start.len(),
                scores_match(target, self.agents@, agent_scores@),
                best_kept(target, start, self.agents@),
                1 <= g <= generations,
            decreases generations - g,
        {
            let next = self.new_generation(rng, &agent_scores);
            proof {
                lemma_best_kept_transitive(target, start, self.agents@, next@);
            }
            self.agents = next;
            agent_scores = self.score_agents();
            g = g + 1;
        }
        let champion = self.get_champion(&agent_scores);
        proof {
            let i = choose|i: int| is_first_max(agent_scores@, i) && *champion == self.agents@[i];
            let cur = self.agents@;
            assert forall|j: int| 0 <= j < cur.len() implies score_of(
                target,
                (#[trigger] cur[j]).guess@,
            ) <= score_of(target, cur[i].guess@) by {
                assert(agent_scores@[j] <= agent_scores@[i]);
            }
            assert forall|j: int| 0 <= j < i implies score_of(target, (#[trigger] cur[j]).guess@)
                < score_of(target, cur[i].guess@) by {
                assert(agent_scores@[j] < agent_scores@[i]);
            }
            assert(is_champion(target, cur, i));
            assert forall|j: int| 0 <= j < start.len() implies score_of(
                target,
                (#[trigger] start[j]).guess@,
            ) <= score_of(target, champion.guess@) by {
                assert(matched_in(target, start[j], cur));
                let k = choose|k: int|
                    0 <= k < cur.len() && score_of(target, start[j].guess@) <= score_of(
                        target,
                        (#[trigger] cur[k]).guess@,
                    );
                assert(score_of(target, cur[k].guess@) <= score_of(target, cur[i].guess@));
            }
        }
        champion
    }

    /// As `run_with_rng`, with a generator seeded from the operating system.
    pub fn run(&mut self, generations: usize) -> (r: &Agent)
        requires
            old(self).wf(),
            generations > 0,
        ensures
            final(self).wf(),
            final(self).target@ == old(self).target@,
            final(self).agents@.len() == old(self).agents@.len(),
            exists|i: int|
                is_champion(final(self).target@, final(self).agents@, i)
                    && *r == final(self).agents@[i],
            best_kept(old(self).target@, old(self).agents@, final(self).agents@),
            forall|j: int|
                0 <= j < old(self).agents@.len() ==> score_of(
                    old(self).target@,
                    (#[trigger] old(self).agents@[j]).guess@,
                ) <= score_of(old(self).target@, r.guess@),
    {
        let mut rng = entropy_rng();
        self.run_with_rng(generations, &mut rng)
    }
}

} // verus!
