use bytechess::eval::evaluate;
use bytechess::fen::board_from_fen;
use bytechess::table::PawnTable;
use bytechess::params::TunableParams;
use bytechess::tuner::{
    param_step, parse_training_line, result_of_header, select_sample, update_param_by_field,
    Outcome, Trend,
};

#[test]
fn training_lines_are_read() {
    let t = parse_training_line(
        b"rnbqkbnr/pppppppp/8/8/8/8/PPPPPPPP/RNBQKBNR w KQkq - 0 1 [0.5]",
    )
    .unwrap();
    assert_eq!(t.result, Outcome::Draw);
    assert_eq!(
        t.board.bitboards,
        board_from_fen("rnbqkbnr/pppppppp/8/8/8/8/PPPPPPPP/RNBQKBNR w KQkq - 0 1").unwrap().bitboards
    );
    let w = parse_training_line(b"  4k3/8/8/8/8/8/8/4K3 b - - 3 9   [ 1 ]  ").unwrap();
    assert_eq!(w.result, Outcome::WhiteWin);
    assert_eq!(w.board.move_color, -1);
    assert_eq!(w.board.halfmove_clock, 3);
    let l = parse_training_line(b"4k3/8/8/8/8/8/8/4K3 w - - [0.0]").unwrap();
    assert_eq!(l.result, Outcome::BlackWin);
    assert_eq!(parse_training_line(b"4k3/8/8/8/8/8/8/4K3 w - - [1.0]").unwrap().result, Outcome::WhiteWin);
    assert_eq!(parse_training_line(b"4k3/8/8/8/8/8/8/4K3 w - - [0]").unwrap().result, Outcome::BlackWin);
}

#[test]
fn lines_that_are_no_training_lines_are_passed_over() {
    assert!(parse_training_line(b"").is_none());
    assert!(parse_training_line(b"# a remark [1]").is_none());
    assert!(parse_training_line(b"4k3/8/8/8/8/8/8/4K3 w - - 0 1").is_none());
    assert!(parse_training_line(b"4k3/8/8/8/8/8/8/4K3 w - - 0 1 [0.5").is_none());
    assert!(parse_training_line(b"4k3/8/8/8/8/8/8/4K3 w - - 0 1 [0.7]").is_none());
    assert!(parse_training_line(b"4k3/8/8/8/8/8/8/4K3 w - - 0 1 []").is_none());
    assert!(parse_training_line(b"4k3/8/8/8/8/8/8 w - - 0 1 [1]").is_none());
}

#[test]
fn outcome_in_half_points() {
    assert_eq!(Outcome::BlackWin.half_points(), 0);
    assert_eq!(Outcome::Draw.half_points(), 1);
    assert_eq!(Outcome::WhiteWin.half_points(), 2);
}

#[test]
fn result_headers() {
    assert_eq!(result_of_header(b"1-0"), Some(Outcome::WhiteWin));
    assert_eq!(result_of_header(b"0-1"), Some(Outcome::BlackWin));
    assert_eq!(result_of_header(b"1/2-1/2"), Some(Outcome::Draw));
    assert_eq!(result_of_header(b"*"), None);
    assert_eq!(result_of_header(b"1-0 "), None);
    assert_eq!(result_of_header(b""), None);
}

#[test]
fn small_corpus_is_sampled_whole() {
    assert_eq!(select_sample(7, 5, 10), vec![0, 1, 2, 3, 4]);
    assert_eq!(select_sample(7, 5, 5), vec![0, 1, 2, 3, 4]);
    assert_eq!(select_sample(7, 0, 3), Vec::<usize>::new());
}

#[test]
fn large_corpus_is_sampled_without_repeats() {
    let s = select_sample(42, 1000, 100);
    assert_eq!(s.len(), 100);
    let mut sorted = s.clone();
    sorted.sort();
    sorted.dedup();
    assert_eq!(sorted.len(), 100);
    assert!(s.iter().all(|&i| i < 1000));
    // a sample of a thousand that came back as the first hundred in order
    // would be no sample
    assert_ne!(s, (0..100).collect::<Vec<usize>>());
    // the same seed gives the same sample
    assert_eq!(select_sample(42, 1000, 100), s);
}

#[test]
fn step_follows_the_slope_when_it_helps() {
    assert_eq!(param_step(Trend::Rising, true, false), -1);
    assert_eq!(param_step(Trend::Rising, true, true), -1);
    assert_eq!(param_step(Trend::Rising, false, true), 0);
    assert_eq!(param_step(Trend::Falling, false, true), 1);
    assert_eq!(param_step(Trend::Falling, true, true), 1);
    assert_eq!(param_step(Trend::Falling, true, false), 0);
    assert_eq!(param_step(Trend::Flat, true, true), 0);
}

#[test]
fn a_step_changes_one_coefficient_by_one() {
    let mut p = TunableParams::baseline();
    assert!(update_param_by_field(&mut p, 0, -1));
    assert_eq!(p.pawn_mg, 64);
    assert_eq!(p.pawn_eg, 95);
    assert!(update_param_by_field(&mut p, 59, 1));
    assert_eq!(p.far_pawn_penalty_eg, 2);
    assert!(update_param_by_field(&mut p, 3, 0));
    assert_eq!(p.knight_eg, 317);
    // a step out of the limits is not taken
    p.pawn_mg = 1_000_000;
    let before = p;
    assert!(!update_param_by_field(&mut p, 0, 1));
    assert_eq!(p, before);
    p.knight_mobility_mg = -10_000;
    assert!(!update_param_by_field(&mut p, 10, -1));
    assert_eq!(p.knight_mobility_mg, -10_000);
}

#[test]
fn a_pawn_valued_too_high_scores_worse_than_the_baseline_on_even_positions() {
    // ten positions in which White is a pawn up and the game was drawn:
    // the higher the pawn is valued, the further the prediction is from
    // the result, so the error a step below is under the error a step above
    let lines: [&[u8]; 10] = [
        b"4k3/8/8/8/8/8/4P3/4K3 w - - 0 1 [0.5]",
        b"4k3/8/8/8/8/8/3P4/4K3 w - - 0 1 [0.5]",
        b"4k3/8/8/8/8/8/2P5/4K3 w - - 0 1 [0.5]",
        b"4k3/8/8/8/8/8/5P2/4K3 w - - 0 1 [0.5]",
        b"4k3/8/8/8/8/8/6P1/4K3 w - - 0 1 [0.5]",
        b"4k3/p7/8/8/8/8/PP6/4K3 w - - 0 1 [0.5]",
        b"4k3/1p6/8/8/8/8/PP6/4K3 w - - 0 1 [0.5]",
        b"4k3/2p5/8/8/8/8/1PP5/4K3 w - - 0 1 [0.5]",
        b"4k3/3p4/8/8/8/8/2PP4/4K3 w - - 0 1 [0.5]",
        b"4k3/4p3/8/8/8/8/3PP3/4K3 w - - 0 1 [0.5]",
    ];
    let positions: Vec<_> = lines.iter().map(|l| parse_training_line(l).unwrap()).collect();
    assert_eq!(positions.len(), 10);
    let error = |params: &TunableParams| -> f64 {
        let e = params.to_engine_params();
        let mut total = 0.0;
        for p in &positions {
            let mut t = PawnTable::with_slots(64);
            let eval = evaluate(&p.board, &e, &mut t) * p.board.move_color as i32;
            let predicted = 1.0 / (1.0 + (-(1.4 * eval as f64) / 200.0).exp());
            let result = p.result.half_points() as f64 / 2.0;
            total += (predicted - result).powi(2);
        }
        total / positions.len() as f64
    };
    let mut params = TunableParams::baseline();
    params.pawn_eg += 20;
    let start = params.pawn_eg;
    let mut learning_rate = 0.000001;
    for _ in 0..50 {
        let base = error(&params);
        let held = params.get_param_value(1);
        params.set_param_value(1, held + 1);
        let above = error(&params);
        params.set_param_value(1, held - 1);
        let below = error(&params);
        params.set_param_value(1, held);
        let gradient = (above - below) / 2.0;
        let trend = if gradient > learning_rate {
            Trend::Rising
        } else if gradient < -learning_rate {
            Trend::Falling
        } else {
            Trend::Flat
        };
        let step = param_step(trend, below < base, above < base);
        update_param_by_field(&mut params, 1, step);
        if error(&params) >= base {
            learning_rate *= 0.9;
        }
    }
    assert!(params.pawn_eg < start);
}

#[test]
fn a_step_is_taken_up_to_the_limit_and_not_beyond() {
    let mut p = TunableParams::baseline();
    // a weight may reach ten thousand and go no further
    p.set_param_value(10, 9_999);
    assert!(update_param_by_field(&mut p, 10, 1));
    assert_eq!(p.get_param_value(10), 10_000);
    assert!(!update_param_by_field(&mut p, 10, 1));
    assert_eq!(p.get_param_value(10), 10_000);
    assert!(update_param_by_field(&mut p, 10, -1));
    assert_eq!(p.get_param_value(10), 9_999);
    // a piece value has the wider limit
    p.set_param_value(9, 10_000);
    assert!(update_param_by_field(&mut p, 9, 1));
    assert_eq!(p.get_param_value(9), 10_001);
    p.set_param_value(9, -1_000_000);
    assert!(!update_param_by_field(&mut p, 9, -1));
    assert!(update_param_by_field(&mut p, 9, 0));
    assert_eq!(p.get_param_value(9), -1_000_000);
}

#[test]
fn setting_a_coefficient_by_number_reaches_each_of_them() {
    let mut p = TunableParams::baseline();
    for index in 0..60 {
        let before = p;
        let value = 1_000 + index as i32;
        p.set_param_value(index, value);
        for other in 0..60 {
            let expected = if other == index { value } else { before.get_param_value(other) };
            assert_eq!(p.get_param_value(other), expected);
        }
    }
}
