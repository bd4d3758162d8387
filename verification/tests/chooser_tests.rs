use chess_engine::algorithm::chooser::{GreedyChooser, StochasticChooser, NEG_INF_WEIGHT};
use chess_engine::board::Mv;

fn mv_of(m: cozy_chess::Move) -> Mv {
    Mv {
        from: m.from as u8,
        to: m.to as u8,
        promotion: m.promotion.map(|p| p as u8),
    }
}

fn parsed_choices() -> Vec<Mv> {
    vec!["a2a4", "b2b4", "c2c4", "d2d4", "e2e4", "f2f4", "g2g4", "h2h4"]
        .iter()
        .map(|a| mv_of(a.parse().unwrap()))
        .collect()
}

#[test]
fn test_greedy_chooser() {
    let chooser = GreedyChooser::default();

    let choices = parsed_choices();

    let weights: Vec<i64> = vec![0; choices.len()];

    for i in 0..choices.len() {
        for _ in 0..100 {
            let mut new_weights = weights.clone();
            new_weights[i] = 1;

            assert_eq!(chooser.pick(&choices, &new_weights), Some(choices[i]));
        }
    }
}

#[test]
fn test_stochastic_chooser() {
    let chooser = StochasticChooser::default();

    let choices = parsed_choices();

    let weights: Vec<i64> = vec![NEG_INF_WEIGHT; choices.len()];

    for i in 0..choices.len() {
        for _ in 0..100 {
            let mut new_weights = weights.clone();
            new_weights[i] = 1;

            assert_eq!(chooser.pick(&choices, &new_weights), Some(choices[i]));
        }
    }
}

#[test]
fn greedy_breaks_ties_by_first_occurrence() {
    let chooser = GreedyChooser::default();
    let choices = parsed_choices();
    let weights: Vec<i64> = vec![5, 7, 7, 1, 7, 0, 0, 0];
    for _ in 0..10 {
        assert_eq!(chooser.pick(&choices, &weights), Some(choices[1]));
    }
}

#[test]
fn choosers_return_none_only_on_empty_input() {
    let greedy = GreedyChooser::default();
    let stochastic = StochasticChooser::default();
    let no_choices: Vec<Mv> = Vec::new();
    let no_weights: Vec<i64> = Vec::new();
    assert_eq!(greedy.pick(&no_choices, &no_weights), None);
    assert_eq!(stochastic.pick(&no_choices, &no_weights), None);
}

#[test]
fn stochastic_all_minus_infinity_falls_back_to_uniform() {
    let chooser = StochasticChooser::default();
    let choices = parsed_choices();
    let weights: Vec<i64> = vec![NEG_INF_WEIGHT; choices.len()];
    for _ in 0..100 {
        let picked = chooser.pick(&choices, &weights);
        assert!(picked.is_some());
        assert!(choices.contains(&picked.unwrap()));
    }
}

#[test]
fn stochastic_never_picks_a_hopeless_candidate() {
    let chooser = StochasticChooser::default();
    let choices = parsed_choices();
    // Two viable candidates far apart, the rest hopeless.
    let mut weights: Vec<i64> = vec![NEG_INF_WEIGHT; choices.len()];
    weights[2] = 100;
    weights[5] = 101;
    for _ in 0..200 {
        let picked = chooser.pick(&choices, &weights).unwrap();
        assert!(picked == choices[2] || picked == choices[5]);
    }
}
