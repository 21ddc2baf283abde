use fantasy_sims::error::SimError;
use fantasy_sims::league::League;
use fantasy_sims::league_data::{DraftSelection, LeagueData, Scoreboard as Game};
use fantasy_sims::math::{floor_div, isqrt, isqrt_scaled};
use fantasy_sims::records::{Scoreboard, TeamStanding};
use fantasy_sims::stats::{Stats, DEVIATE_SCALE};

fn model(samples: &[i32]) -> Stats {
    Stats::new(samples.to_vec()).unwrap()
}

/// A small xorshift generator, so that runs are repeatable.
struct Rng(u64);

impl Rng {
    fn uniform(&mut self) -> f64 {
        self.0 ^= self.0 << 13;
        self.0 ^= self.0 >> 7;
        self.0 ^= self.0 << 17;
        (self.0 >> 11) as f64 / (1u64 << 53) as f64
    }

    /// A standard-normal deviate by the Box-Muller transform, in fixed point.
    fn deviate(&mut self) -> i32 {
        let u = 1.0 - self.uniform();
        let v = self.uniform();
        let z = (-2.0 * u.ln()).sqrt() * (2.0 * std::f64::consts::PI * v).cos();
        (z * DEVIATE_SCALE as f64).round() as i32
    }

    fn rows(&mut self, trials: usize, width: usize) -> Vec<Vec<i32>> {
        (0..trials).map(|_| (0..width).map(|_| self.deviate()).collect()).collect()
    }
}

#[test]
fn std_dev_is_population_std_dev() {
    let s = model(&[2, 4, 4, 4, 5, 5, 7, 9]);
    assert_eq!(s.average(), 5);
    assert_eq!(s.std_deviation(), 2);
    assert_eq!(s.total(), 40);
}

#[test]
fn std_dev_in_hundredths() {
    let s = model(&[200, 400, 400, 400, 500, 500, 700, 900]);
    assert_eq!(s.average(), 500);
    assert_eq!(s.std_deviation(), 200);
    assert_eq!(s.total(), 4000);
}

#[test]
fn std_dev_divides_by_count() {
    // Squared deviations 1, 1 over a count of 2: variance 1, not 2.
    let s = model(&[10, 12]);
    assert_eq!(s.average(), 11);
    assert_eq!(s.std_deviation(), 1);
}

#[test]
fn std_dev_rounds_down() {
    // Variance 2/3 * 100^2, standard deviation 81.6...
    let s = model(&[0, 100, 200]);
    assert_eq!(s.std_deviation(), 81);
    assert_eq!(s.spread(), 81649);
    let one = model(&[42]);
    assert_eq!(one.std_deviation(), 0);
    assert_eq!(one.average(), 42);
}

#[test]
fn mean_rounds_down_for_negative_totals() {
    let s = model(&[-1, 0]);
    assert_eq!(s.total(), -1);
    assert_eq!(s.average(), -1);
    assert_eq!(s.std_deviation(), 0);
}

#[test]
fn extreme_samples() {
    let s = model(&[i32::MIN, i32::MAX]);
    assert_eq!(s.total(), -1);
    assert_eq!(s.average(), -1);
    assert_eq!(s.std_deviation(), 2147483647);
    assert_eq!(s.spread(), 2147483647500);
}

#[test]
fn empty_samples_are_rejected() {
    assert!(matches!(Stats::new(Vec::new()), Err(SimError::InvalidInput)));
}

#[test]
fn draw_scales_and_shifts_the_deviate() {
    let s = model(&[0, 200]);
    assert_eq!(s.std_deviation(), 100);
    assert_eq!(s.spread(), 100_000);
    assert_eq!(s.random_number(0), 100);
    assert_eq!(s.random_number(1_500_000), 250);
    assert_eq!(s.random_number(-500_000), 50);
    assert_eq!(s.random_number(-1), 99);
}

#[test]
fn drawing_leaves_the_statistics_alone() {
    let s = model(&[124, 167, 129, 174, 128]);
    let (m, d, t) = (s.average(), s.std_deviation(), s.total());
    let mut rng = Rng(7);
    for _ in 0..1000 {
        s.random_number(rng.deviate());
    }
    assert_eq!((s.average(), s.std_deviation(), s.total()), (m, d, t));
}

#[test]
fn zero_spread_draws_the_mean() {
    let s = model(&[100, 100, 100]);
    assert_eq!(s.std_deviation(), 0);
    assert_eq!(s.spread(), 0);
    assert_eq!(s.random_number(3_000_000), 100);
    assert_eq!(s.random_number(-3_000_000), 100);
}

#[test]
fn league_needs_an_even_positive_count() {
    assert!(matches!(League::new(Vec::new()), Err(SimError::InvalidConfiguration)));
    let three = vec![
        ("a".to_string(), model(&[1])),
        ("b".to_string(), model(&[2])),
        ("c".to_string(), model(&[3])),
    ];
    assert!(matches!(League::new(three), Err(SimError::InvalidConfiguration)));
}

#[test]
fn snapshot_before_any_trial_is_invalid_state() {
    let l = League::new(vec![("a".to_string(), model(&[1])), ("b".to_string(), model(&[2]))]).unwrap();
    assert!(matches!(l.snapshot(), Err(SimError::InvalidState)));
}

#[test]
fn zero_spread_favourite_wins_every_trial() {
    let mut rng = Rng(11);
    for n in [1usize, 2, 10, 250] {
        let mut l = League::new(vec![
            ("A".to_string(), model(&[100, 100, 100])),
            ("B".to_string(), model(&[0, 0, 0])),
        ])
        .unwrap();
        l.run_trials(&rng.rows(n, 2));
        let r = l.snapshot().unwrap();
        assert_eq!(r[0].wins, n as u64);
        assert_eq!(r[1].wins, 0);
        assert_eq!(r[0].win_rate_permille, 1000);
        assert_eq!(r[1].win_rate_permille, 0);
        assert_eq!(r[0].average, 100);
        assert_eq!(r[1].std_dev, 0);
    }
}

#[test]
fn zero_spread_favourite_wins_from_second_place() {
    let mut l = League::new(vec![
        ("B".to_string(), model(&[0, 0, 0])),
        ("A".to_string(), model(&[100, 100, 100])),
    ])
    .unwrap();
    l.run_trials(&Rng(3).rows(40, 2));
    let r = l.snapshot().unwrap();
    assert_eq!((r[0].wins, r[1].wins), (0, 40));
    assert_eq!(r[1].name, "A");
}

#[test]
fn ties_go_to_the_lower_index() {
    let mut l = League::new(vec![
        ("first".to_string(), model(&[50, 50])),
        ("second".to_string(), model(&[50, 50])),
    ])
    .unwrap();
    l.run_trial(&vec![1_000_000, -1_000_000]);
    let r = l.snapshot().unwrap();
    assert_eq!((r[0].wins, r[1].wins), (1, 0));
}

#[test]
fn greater_draw_wins_the_pairing() {
    let mut l = League::new(vec![
        ("a".to_string(), model(&[0, 200])),
        ("b".to_string(), model(&[0, 200])),
        ("c".to_string(), model(&[0, 200])),
        ("d".to_string(), model(&[0, 200])),
    ])
    .unwrap();
    l.run_trial(&vec![-1_000_000, 1_000_000, 2_000_000, 0]);
    let r = l.snapshot().unwrap();
    let wins: Vec<u64> = r.iter().map(|t| t.wins).collect();
    assert_eq!(wins, vec![0, 1, 1, 0]);
    assert_eq!(r[1].win_rate_permille, 1000);
}

#[test]
fn tally_counts_one_win_per_pairing_per_trial() {
    let mut l = League::new(vec![
        ("a".to_string(), model(&[12408, 16709, 12966, 17456])),
        ("b".to_string(), model(&[14692, 10900, 19506, 9812])),
        ("c".to_string(), model(&[13388, 15066, 14190, 10128])),
        ("d".to_string(), model(&[15220, 16572, 16064, 9762])),
    ])
    .unwrap();
    let mut rng = Rng(5);
    l.run_trials(&rng.rows(30, 4));
    l.run_trials(&rng.rows(20, 4));
    let r = l.snapshot().unwrap();
    assert_eq!(r[0].trials, 50);
    assert_eq!(r.iter().map(|t| t.wins).sum::<u64>(), 100);
    assert_eq!(r[0].wins + r[1].wins, 50);
    assert_eq!(r[2].wins + r[3].wins, 50);
    for t in &r {
        assert!(t.win_rate_permille <= 1000);
        assert_eq!(t.win_rate_permille, t.wins * 1000 / 50);
    }
    assert_eq!(r[0].average, 14884);
    assert_eq!(r[2].name, "c");
}

#[test]
fn higher_mean_wins_most_of_many_trials() {
    let mut l = League::new(vec![
        ("strong".to_string(), model(&[14000, 15000, 16000])),
        ("weak".to_string(), model(&[9000, 10000, 11000])),
    ])
    .unwrap();
    l.run_trials(&Rng(2024).rows(100_000, 2));
    let r = l.snapshot().unwrap();
    assert_eq!(r[0].trials, 100_000);
    assert!(r[0].win_rate_permille > 500);
    assert!(r[0].win_rate_permille > 900);
}

#[test]
fn home_win_compares_scores() {
    let mut game = Scoreboard {
        home_team: "home".to_string(),
        home_team_score: 12408,
        home_team_projected_score: 11000,
        away_team: "away".to_string(),
        away_team_score: 9812,
        away_team_projected_score: 10500,
    };
    assert!(game.home_win());
    game.away_team_score = 12408;
    assert!(!game.home_win());
}

#[test]
fn add_game_consumes_the_standing() {
    let win = Scoreboard {
        home_team: "home".to_string(),
        home_team_score: 15000,
        home_team_projected_score: 0,
        away_team: "away".to_string(),
        away_team_score: 10000,
        away_team_projected_score: 0,
    };
    let loss = Scoreboard { home_team: "home".to_string(), away_team: "away".to_string(), home_team_score: 5000, ..win };
    TeamStanding { wins: 2, losses: 1, points_scored: 30000, points_against: 25000 }.add_game(win);
    TeamStanding { wins: 2, losses: 1, points_scored: 30000, points_against: 25000 }.add_game(loss);
    let largest = TeamStanding { wins: i32::MAX - 1, losses: 0, points_scored: 0, points_against: 0 };
    largest.add_game(Scoreboard {
        home_team: "home".to_string(),
        home_team_score: 1,
        home_team_projected_score: 0,
        away_team: "away".to_string(),
        away_team_score: 0,
        away_team_projected_score: 0,
    });
}

#[test]
fn integer_square_root() {
    assert_eq!(isqrt(0), 0);
    assert_eq!(isqrt(15), 3);
    assert_eq!(isqrt(16), 4);
    assert_eq!(isqrt(u128::MAX), u64::MAX);
}

#[test]
fn floor_division() {
    assert_eq!(floor_div(7, 2), 3);
    assert_eq!(floor_div(-7, 2), -4);
    assert_eq!(floor_div(-8, 2), -4);
    assert_eq!(floor_div(0, 5), 0);
}

#[test]
fn team_names_lists_each_team_once() {
    let game = |home: &str, away: &str| Scoreboard {
        home_team: home.to_string(),
        home_team_score: 0,
        home_team_projected_score: 0,
        away_team: away.to_string(),
        away_team_score: 0,
        away_team_projected_score: 0,
    };
    let names = fantasy_sims::records::team_names(&vec![game("a", "b"), game("c", "a"), game("b", "d")]);
    assert_eq!(names, vec!["b", "a", "c", "d"]);
    assert!(fantasy_sims::records::team_names(&Vec::new()).is_empty());
}

#[test]
fn _add() {
    assert_eq!(fantasy_sims::math::add(2, 2), 4);
}

#[test]
fn draft_selection_name_round_trips() {
    let mut d = DraftSelection::new("Bijan Robinson".to_string());
    assert_eq!(d.player_name(), "Bijan Robinson");
    d.set_player_name("Puka Nacua".to_string());
    assert_eq!(d.player_name(), "Puka Nacua");
}

#[test]
fn browser_scoreboard_teams() {
    let mut g = Game::new("home".to_string(), "away".to_string(), 12408, 9812);
    assert_eq!((g.home_team(), g.away_team()), ("home".to_string(), "away".to_string()));
    g.set_home_team("Stroud Boys".to_string());
    g.set_away_team("Fully Chubbed".to_string());
    assert_eq!(g.home_team(), "Stroud Boys");
    assert_eq!(g.away_team(), "Fully Chubbed");
    assert_eq!((g.home_team_score, g.away_team_score), (12408, 9812));
}

#[test]
fn league_data_draft_copy() {
    assert!(LeagueData::new().draft_data().is_empty());
    let data = LeagueData::with_draft(vec![
        DraftSelection::new("a".to_string()),
        DraftSelection::new("b".to_string()),
    ]);
    let names: Vec<String> = data.draft_data().iter().map(|d| d.player_name()).collect();
    assert_eq!(names, vec!["a", "b"]);
}

#[test]
fn spread_below_one_unit_still_draws() {
    // Samples 0 and 1: standard deviation 0.5, kept as 500 thousandths.
    let s = model(&[0, 1]);
    assert_eq!(s.std_deviation(), 0);
    assert_eq!(s.spread(), 500);
    assert_eq!(s.random_number(0), 0);
    assert_eq!(s.random_number(2_000_000), 1);
    assert_eq!(s.random_number(-2_000_000), -1);
}

#[test]
fn sim_stops_at_the_cap() {
    let mut l = League::new(vec![("a".to_string(), model(&[10, 20])), ("b".to_string(), model(&[5, 6]))]).unwrap();
    assert!(l.sim(&vec![0, 0], 2));
    assert!(l.sim(&vec![0, 0], 2));
    assert!(!l.sim(&vec![0, 0], 2));
    assert_eq!(l.trials_run(), 2);
    let r = l.snapshot().unwrap();
    assert_eq!((r[0].wins, r[1].wins), (2, 0));
    assert_eq!(r[0].spread, 5000);
}

#[test]
fn scaled_square_root() {
    // sqrt(2) = 1.41421..., in thousandths.
    assert_eq!(isqrt_scaled(2, 1000), 1414);
    assert_eq!(isqrt_scaled(16, 1000), 4000);
    assert_eq!(isqrt_scaled(0, 1000), 0);
    assert_eq!(isqrt_scaled(15, 1), 3);
    assert_eq!(isqrt_scaled(u128::MAX, 1000), 18446744073709551615999);
}
