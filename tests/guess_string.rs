use guess_string::agent::Agent;
use guess_string::environment::GuessStringEnvironment;
use rand::rngs::StdRng;
use rand::SeedableRng;

fn is_alnum(c: char) -> bool {
    c.is_ascii_alphanumeric()
}

fn agent(s: &str) -> Agent {
    Agent { guess: String::from(s) }
}

fn env_with(target: &str, guesses: &[&str]) -> GuessStringEnvironment {
    GuessStringEnvironment {
        agents: guesses.iter().map(|g| agent(g)).collect(),
        target: String::from(target),
    }
}

#[test]
fn test_constructor() {
    let target = "H3ll0RustEnvir0nm3nt";
    let gse = GuessStringEnvironment::new(10, String::from(target));
    for agent in gse.agents {
        assert_eq!(20, agent.guess.chars().count());
    }
}

#[test]
fn test_run() {
    let target = "H3ll0RustEnvir0nm3nt";
    let mut gse = GuessStringEnvironment::new(250, String::from(target));
    let champion = gse.run(2_000);
    assert_eq!(target, champion.guess);
}

#[test]
fn constructor_builds_requested_size_of_alphanumeric_agents() {
    let mut rng = StdRng::seed_from_u64(7);
    let gse = GuessStringEnvironment::new_with_rng(30, String::from("CAT"), &mut rng);
    assert_eq!(gse.agents.len(), 30);
    assert_eq!(gse.target, "CAT");
    for a in &gse.agents {
        assert_eq!(a.guess.chars().count(), 3);
        assert!(a.guess.chars().all(is_alnum));
    }
}

#[test]
fn agent_new_has_requested_length() {
    let mut rng = StdRng::seed_from_u64(1);
    for len in 0..40 {
        let a = Agent::new(len, &mut rng);
        assert_eq!(a.guess.chars().count(), len);
        assert!(a.guess.chars().all(is_alnum));
    }
}

#[test]
fn agent_new_draws_varied_characters() {
    let mut rng = StdRng::seed_from_u64(2);
    let a = Agent::new(200, &mut rng);
    let first = a.guess.chars().next().unwrap();
    assert!(a.guess.chars().any(|c| c != first));
}

#[test]
fn act_returns_guess() {
    let a = agent("H3ll0");
    assert_eq!(a.act(), "H3ll0");
}

#[test]
fn crossover_takes_each_character_from_a_parent() {
    let mut rng = StdRng::seed_from_u64(3);
    let a = agent(&"A".repeat(64));
    let b = agent(&"b".repeat(64));
    let child = a.crossover(&b, &mut rng);
    assert_eq!(child.guess.chars().count(), 64);
    assert!(child.guess.chars().all(|c| c == 'A' || c == 'b'));
    assert!(child.guess.contains('A'));
    assert!(child.guess.contains('b'));
}

#[test]
fn crossover_keeps_shared_positions() {
    let mut rng = StdRng::seed_from_u64(4);
    let a = agent("xAyB");
    let b = agent("xCyD");
    for _ in 0..20 {
        let child = a.crossover(&b, &mut rng);
        let cs: Vec<char> = child.guess.chars().collect();
        assert_eq!(cs.len(), 4);
        assert_eq!(cs[0], 'x');
        assert_eq!(cs[2], 'y');
        assert!(cs[1] == 'A' || cs[1] == 'C');
        assert!(cs[3] == 'B' || cs[3] == 'D');
    }
}

#[test]
fn crossover_of_empty_guesses_is_empty() {
    let mut rng = StdRng::seed_from_u64(5);
    let child = agent("").crossover(&agent(""), &mut rng);
    assert_eq!(child.guess, "");
}

#[test]
fn mutate_changes_at_most_one_position() {
    let mut rng = StdRng::seed_from_u64(6);
    let original = "~".repeat(12);
    for _ in 0..50 {
        let mut a = agent(&original);
        a.mutate(&mut rng);
        let after: Vec<char> = a.guess.chars().collect();
        assert_eq!(after.len(), 12);
        let changed: Vec<char> = after.into_iter().filter(|c| *c != '~').collect();
        // the old character is not alphanumeric, so exactly one position changed
        assert_eq!(changed.len(), 1);
        assert!(is_alnum(changed[0]));
    }
}

#[test]
fn mutate_single_character_guess() {
    let mut rng = StdRng::seed_from_u64(8);
    let mut a = agent("#");
    a.mutate(&mut rng);
    assert_eq!(a.guess.chars().count(), 1);
    assert!(a.guess.chars().all(is_alnum));
}

#[test]
fn score_action_counts_positional_matches() {
    let env = env_with("CAT", &["AAA"]);
    assert_eq!(env.score_action(String::from("CAT")), 3);
    assert_eq!(env.score_action(String::from("CAX")), 2);
    assert_eq!(env.score_action(String::from("XAX")), 1);
    assert_eq!(env.score_action(String::from("TAC")), 1);
    assert_eq!(env.score_action(String::from("ACT")), 1);
    assert_eq!(env.score_action(String::from("xyz")), 0);
}

#[test]
fn score_action_is_case_sensitive() {
    let env = env_with("CAT", &["AAA"]);
    assert_eq!(env.score_action(String::from("cat")), 0);
    assert_eq!(env.score_action(String::from("Cat")), 1);
}

#[test]
fn score_bounds_hold_and_full_score_means_exact_match() {
    let target = "H3ll0RustEnvir0nm3nt";
    let env = env_with(target, &[target]);
    assert_eq!(env.score_action(String::from(target)), 20);
    let mut rng = StdRng::seed_from_u64(9);
    for _ in 0..200 {
        let a = Agent::new(20, &mut rng);
        let s = env.score_action(a.act());
        assert!(s <= 20);
        assert_eq!(s == 20, a.guess == target);
    }
}

#[test]
fn score_agents_in_population_order() {
    let env = env_with("CAT", &["CAT", "xyz", "CAx", "xAT", "Cyz"]);
    assert_eq!(env.score_agents(), vec![3, 0, 2, 2, 1]);
}

#[test]
fn champion_is_first_of_the_best() {
    let env = env_with("CAT", &["xyz", "CAx", "xAT", "CAx"]);
    let scores = env.score_agents();
    assert_eq!(scores, vec![0, 2, 2, 2]);
    let champion = env.get_champion(&scores);
    assert!(std::ptr::eq(champion, &env.agents[1]));
    assert_eq!(champion.guess, "CAx");
}

#[test]
fn champion_of_single_agent() {
    let env = env_with("Q", &["z"]);
    let scores = env.score_agents();
    assert_eq!(env.get_champion(&scores).guess, "z");
}

#[test]
fn select_parent_with_all_zero_scores_falls_back_to_uniform() {
    let mut rng = StdRng::seed_from_u64(10);
    let scores: Vec<u16> = vec![0, 0, 0, 0];
    let mut seen = [false; 4];
    for _ in 0..200 {
        let i = GuessStringEnvironment::select_parent(&mut rng, &scores);
        assert!(i < 4);
        seen[i] = true;
    }
    assert!(seen.iter().all(|s| *s));
}

#[test]
fn select_parent_never_picks_zero_score_when_some_positive() {
    let mut rng = StdRng::seed_from_u64(11);
    let scores: Vec<u16> = vec![0, 5, 0, 2, 0];
    let mut seen = [false; 5];
    for _ in 0..200 {
        let i = GuessStringEnvironment::select_parent(&mut rng, &scores);
        assert!(i == 1 || i == 3);
        seen[i] = true;
    }
    assert!(seen[1] && seen[3]);
}

#[test]
fn select_parent_single_positive_score() {
    let mut rng = StdRng::seed_from_u64(12);
    let scores: Vec<u16> = vec![0, 0, 9];
    for _ in 0..20 {
        assert_eq!(GuessStringEnvironment::select_parent(&mut rng, &scores), 2);
    }
}

#[test]
fn random_parents_are_selectable() {
    let mut rng = StdRng::seed_from_u64(13);
    let scores: Vec<u16> = vec![4, 0, 1];
    for _ in 0..50 {
        let (a, b) = GuessStringEnvironment::get_random_parents(&mut rng, &scores);
        assert!(a == 0 || a == 2);
        assert!(b == 0 || b == 2);
    }
}

#[test]
fn selection_fallback_scenario_population() {
    let mut rng = StdRng::seed_from_u64(14);
    let env = env_with("###", &["abc", "def", "ghi"]);
    let scores = env.score_agents();
    assert_eq!(scores, vec![0, 0, 0]);
    let i = GuessStringEnvironment::select_parent(&mut rng, &scores);
    assert!(i < env.agents.len());
    let next = env.new_generation(&mut rng, &scores);
    assert_eq!(next.len(), 3);
    assert_eq!(next[2].guess, "abc");
}

#[test]
fn new_generation_keeps_size_length_and_elite() {
    let mut rng = StdRng::seed_from_u64(15);
    let env = env_with("CAT", &["xyz", "CAx", "xAT", "Czz", "zzz"]);
    let scores = env.score_agents();
    let next = env.new_generation(&mut rng, &scores);
    assert_eq!(next.len(), 5);
    for a in &next {
        assert_eq!(a.guess.chars().count(), 3);
    }
    assert_eq!(next[4].guess, "CAx");
}

#[test]
fn best_score_never_drops_across_generations() {
    let mut rng = StdRng::seed_from_u64(16);
    let mut env = GuessStringEnvironment::new_with_rng(20, String::from("Evolution"), &mut rng);
    let mut best = *env.score_agents().iter().max().unwrap();
    for _ in 0..100 {
        let scores = env.score_agents();
        env.agents = env.new_generation(&mut rng, &scores);
        assert_eq!(env.agents.len(), 20);
        for a in &env.agents {
            assert_eq!(a.guess.chars().count(), 9);
        }
        let now = *env.score_agents().iter().max().unwrap();
        assert!(now >= best);
        best = now;
    }
}

#[test]
fn run_returns_champion_not_worse_than_start() {
    let mut rng = StdRng::seed_from_u64(17);
    let mut env = GuessStringEnvironment::new_with_rng(15, String::from("Monotone"), &mut rng);
    let start = *env.score_agents().iter().max().unwrap();
    let champion = env.run_with_rng(30, &mut rng).clone();
    let scores = env.score_agents();
    let best = *scores.iter().max().unwrap();
    assert!(best >= start);
    assert_eq!(env.score_action(champion.act()), best);
    let first = scores.iter().position(|s| *s == best).unwrap();
    assert_eq!(champion.guess, env.agents[first].guess);
}

#[test]
fn run_converges_on_short_target() {
    let mut successes = 0;
    for seed in 0..10u64 {
        let mut rng = StdRng::seed_from_u64(100 + seed);
        let mut env = GuessStringEnvironment::new_with_rng(200, String::from("CAT"), &mut rng);
        let champion = env.run_with_rng(500, &mut rng);
        if champion.guess == "CAT" {
            successes += 1;
        }
    }
    assert!(successes >= 9);
}

#[test]
fn run_degenerate_single_agent_single_generation() {
    let mut rng = StdRng::seed_from_u64(18);
    let mut env = GuessStringEnvironment::new_with_rng(1, String::from("Z"), &mut rng);
    let champion = env.run_with_rng(1, &mut rng);
    assert_eq!(champion.guess.chars().count(), 1);
    let mut env2 = GuessStringEnvironment::new(1, String::from("Z"));
    assert_eq!(env2.run(1).guess.chars().count(), 1);
}

#[test]
fn mutation_rate_constant() {
    assert_eq!(guess_string::environment::MUTATION_ONE_IN, 100);
}
