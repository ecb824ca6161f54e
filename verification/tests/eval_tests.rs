use lingine::eval::eval_params::{EvalParams, PARAM_COUNT, evaluate_with_params};
use lingine::eval::features::compile_features;
use lingine::eval::{evaluate, tapered_score_from_scratch};
use lingine::movegen::generate_moves;
use lingine::movelist::MoveList;
use lingine::position::Position;
use lingine::eval::param_text::format_optimized_parameters;
use lingine::score::{DRAW, PackedScore};
use lingine::types::MoveGenType;

const START: &str = "rheakaehr/9/1c5c1/p1p1p1p1p/9/9/P1P1P1P1P/1C5C1/9/RHEAKAEHR w - - 0 1";

#[test]
fn test_initial_material_evaluation_tapered() {
    let pos = Position::from_fen(START).unwrap();
    assert_eq!(evaluate(&pos), DRAW);
}

#[test]
fn test_incremental_evaluation_consistency_tapered() {
    let positions = [
        START.to_string(),
        "4k4/9/9/4P4/4p4/9/9/9/9/4K4 w - - 0 1".to_string(),
        "r1bakab1r/9/1c5c1/p1p1p1p1p/9/9/P1P1P1P1P/1C5C1/9/RHEAKAEHR w - - 0 1".to_string(),
    ];

    for (idx, fen) in positions.iter().enumerate() {
        let mut pos = Position::from_fen(fen).unwrap();
        let mut moves = MoveList::new();
        generate_moves(&pos, MoveGenType::PseudoLegal, &mut moves);

        for (m_idx, m) in moves.iter().copied().enumerate() {
            if pos.legal(m) {
                let pre_score = pos.score();
                let pre_phase = pos.phase();

                pos.do_move(m);

                let expected = tapered_score_from_scratch(&pos);
                let expected_phase = pos.calculate_board_phase();
                assert_eq!(pos.score(), expected, "Score mismatch for FEN {} move {}", idx, m_idx);
                assert_eq!(pos.phase(), expected_phase, "Phase mismatch for FEN {} move {}", idx, m_idx);

                pos.undo_move(m);

                assert_eq!(pos.score(), pre_score, "Score rollback mismatch for FEN {} move {}", idx, m_idx);
                assert_eq!(pos.phase(), pre_phase, "Phase rollback mismatch for FEN {} move {}", idx, m_idx);
            }
        }
    }
}

#[test]
fn params_vector_has_every_parameter_in_order() {
    let p = EvalParams::default();
    let v = p.to_vector();
    assert_eq!(v.len(), PARAM_COUNT);
    assert_eq!(&v[0..4], &[900, 950, 200, 200]);
    assert_eq!(&v[12..16], &[0, 0, 200, 300]);
    assert_eq!(v[16], p.psts[0][0].mg);
    assert_eq!(v[17], p.psts[0][0].eg);
    assert_eq!(v[1276], p.knight_mobility[0].mg);
    assert_eq!(v[1276], -16);
    assert_eq!(v[1377], p.bishop_count_bonus[2].eg);
    assert_eq!(v[1377], -25);
}

#[test]
fn params_vector_round_trip() {
    let p = EvalParams::default();
    let mut v = p.to_vector();
    v[0] = 1000;
    v[200] = -7;
    v[1377] = 42;
    let mut q = EvalParams::default();
    q.update_from_vector(&v);
    assert_eq!(q.material[0].mg, 1000);
    assert_eq!(q.bishop_count_bonus[2].eg, 42);
    assert_eq!(q.to_vector(), v);

    let mut r = q.clone();
    r.update_from_vector(&p.to_vector());
    assert_eq!(r.to_vector(), p.to_vector());
}

#[test]
fn default_params_evaluate_as_the_built_in_evaluation() {
    let p = EvalParams::default();
    let fens = [
        START,
        "4k4/9/9/4P4/4p4/9/9/9/9/4K4 w - - 0 1",
        "r1bakab1r/9/1c5c1/p1p1p1p1p/9/9/P1P1P1P1P/1C5C1/9/RHEAKAEHR w - - 0 1",
        "4k4/9/9/9/9/9/9/9/9/R3K4 w - - 0 1",
        "2bakab2/9/2h6/p3p3p/9/2P6/P3P3P/4C4/9/2BAKAB2 b - - 0 1",
    ];
    for fen in fens {
        let pos = Position::from_fen(fen).unwrap();
        assert_eq!(evaluate_with_params(&pos, &p), evaluate(&pos), "{}", fen);
    }
    let start = Position::from_fen(START).unwrap();
    assert_eq!(evaluate_with_params(&start, &p), 0);
}

#[test]
fn changed_params_change_the_evaluation() {
    let pos = Position::from_fen("4k4/9/9/9/9/9/9/9/9/R3K4 w - - 0 1").unwrap();
    let p = EvalParams::default();
    let mut q = EvalParams::default();
    q.material[0].mg = 0;
    q.material[0].eg = 0;
    let full = evaluate_with_params(&pos, &p);
    let without_rook_value = evaluate_with_params(&pos, &q);
    assert!(full > without_rook_value + 900);
}

#[test]
fn evaluation_scores_of_the_start_position() {
    let pos = Position::from_fen(START).unwrap();
    assert_eq!(pos.compute_evaluation_scores(), (0, 0));
    assert_eq!(pos.material_score(), 0);
    assert_eq!(pos.piece_square_table_score(), 0);
    let lone = Position::from_fen("4k4/9/9/9/9/9/9/9/9/R3K4 w - - 0 1").unwrap();
    assert_eq!(lone.material_score(), 600);
}

#[test]
fn tuning_features_of_a_lone_rook() {
    let pos = Position::from_fen("4k4/9/9/9/9/9/9/9/9/R3K4 w - - 0 1").unwrap();
    let f = compile_features(&pos);
    assert_eq!(f.features, vec![(0, 1), (8, 1), (312, 0), (379, 1), (403, 0), (406, 0)]);
    assert_eq!(f.phase, 2);

    let black = Position::from_fen("4k4/9/9/9/9/9/9/9/9/R3K4 b - - 0 1").unwrap();
    let g = compile_features(&black);
    assert_eq!(g.features, vec![(0, -1), (8, -1), (312, 0), (379, -1), (403, 0), (406, 0)]);
}

#[test]
fn tuning_features_of_the_start_position_cancel_out() {
    let pos = Position::from_fen(START).unwrap();
    let f = compile_features(&pos);
    assert!(f.features.iter().all(|&(_, c)| c == 0));
    let mut seen = std::collections::HashSet::new();
    assert!(f.features.iter().all(|&(i, _)| seen.insert(i)));
    assert_eq!(f.phase, 32);
}

#[test]
fn optimized_parameters_text_lists_each_table() {
    let mut p = EvalParams::default();
    p.material[0] = PackedScore { mg: -7, eg: 1234 };
    p.advisor_count_bonus = [
        PackedScore { mg: 1, eg: 2 },
        PackedScore { mg: -3, eg: 4 },
        PackedScore { mg: 5, eg: -2147483648 },
    ];
    p.knight_mobility = [PackedScore { mg: 0, eg: 0 }; 9];
    p.knight_mobility[8] = PackedScore { mg: 10, eg: -10 };
    p.psts[6] = [PackedScore { mg: 0, eg: 0 }; 90];
    p.psts[6][4] = PackedScore { mg: -12345, eg: 6 };
    let text = format_optimized_parameters(&p);
    assert!(text.starts_with(
        "\n=====================================================================\n  OPTIMIZED EVALUATION PARAMETERS\n"
    ));
    assert!(text.contains(
        "pub const ADVISOR_COUNT_BONUS: [PackedScore; 3] = [(1, 2), (-3, 4), (5, -2147483648)];\n"
    ));
    assert!(text.contains("\n// Material values\npub const ROOK: PackedScore = (-7, 1234);\n"));
    let knight = [
        "\npub const KNIGHT_MOBILITY_BONUS: [PackedScore; 9] = [\n",
        "    (0, 0),\n    (0, 0),\n    (0, 0),\n    (0, 0),\n",
        "    (0, 0),\n    (0, 0),\n    (0, 0),\n    (0, 0),\n",
        "    (10, -10)\n];\n",
    ]
    .concat();
    assert!(text.contains(&knight));
    let king_rank_0 = [
        "\npub const PIECE_SQUARE_TABLE_KING_TAPERED: [PackedScore; 90] = [\n",
        "    // Rank 0\n",
        "    (0, 0),      (0, 0),      (0, 0),      (0, 0),      (-12345, 6), ",
        "(0, 0),      (0, 0),      (0, 0),      (0, 0),      \n",
        "    // Rank 1\n",
    ]
    .concat();
    assert!(text.contains(&king_rank_0));
    assert!(text.ends_with("];\n"));
    assert_eq!(text.matches("[PackedScore; 90] = [").count(), 7);
    assert_eq!(text.matches("// Rank 9\n").count(), 7);
}
