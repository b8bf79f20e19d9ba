use rand::SeedableRng;
use rand::rngs::StdRng;

use librrmj::fixtures::winning_tanyao_tiles;
use librrmj::rules::{RulesConfig, RulesProfile, RulesProfileId, RulesRegistry, WinContext, WinTimingFlags};
use librrmj::scoring::{Payment, ScoringResult, WinType, Yaku, base_points, limit_band_label};
use librrmj::state::HandState;
use librrmj::tile::Tile;
use librrmj::wall::Wall;

fn result() -> ScoringResult {
    ScoringResult {
        winner: 1,
        win_type: WinType::Ron { from: 2 },
        yaku: vec![Yaku::Riichi, Yaku::Pinfu],
        dora: 2,
        ura_dora: 0,
        aka_dora: 1,
        han: 5,
        fu: 30,
        payments: vec![Payment { payer: 2, payee: 1, points: 8_000 }],
        deltas: [0, 8_000, -8_000, 0],
    }
}

#[test]
fn result_lines_describe_the_win() {
    let r = result();
    assert_eq!(r.win_type_label(), "Ron (from seat 3)");
    assert_eq!(r.limit_label(), "Mangan");
    assert_eq!(r.yaku_lines(), vec!["Riichi (1 han)", "Pinfu (1 han)"]);
    assert_eq!(r.dora_lines(), vec!["Dora: 2 han", "Aka-dora: 1 han"]);
    assert_eq!(r.payment_lines(), vec!["Seat 3 → seat 2: 8000 pts"]);
    assert_eq!(r.delta_lines(), vec!["Seat 2: +8000", "Seat 3: -8000"]);
}

#[test]
fn tsumo_label_and_limit_bands() {
    let mut r = result();
    r.win_type = WinType::Tsumo;
    assert_eq!(r.win_type_label(), "Tsumo");
    assert_eq!(limit_band_label(13, 30), "Yakuman");
    assert_eq!(limit_band_label(2, 30), "Normal");
    assert_eq!(base_points(2, 30), 480);
}

#[test]
fn ron_deltas_sum_to_zero_and_tsumo_to_the_sticks() {
    let config = RulesConfig::standard();
    let profile = RulesRegistry::get(RulesProfileId::Standard).unwrap();
    let mut wall = Wall::new(&config, StdRng::seed_from_u64(3));
    let deal = wall.deal(0).unwrap();
    let mut state = HandState::from_deal(wall, deal, config.clone());
    state.is_dealer_first_turn = false;
    state.set_concealed(1, winning_tanyao_tiles());
    state.set_table_riichi_sticks_for_test(1);
    state.set_honba_for_test(1);
    let tsumo = WinContext::new(&state, 1, WinType::Tsumo, Tile::pin(2), WinTimingFlags::default());
    let r = profile.score_win(&tsumo, &config);
    assert_eq!(r.deltas.iter().sum::<i32>(), 1_000);
    let mut ron_hand = winning_tanyao_tiles();
    ron_hand.pop();
    state.set_concealed(1, ron_hand);
    let ron = WinContext::new(&state, 1, WinType::Ron { from: 3 }, Tile::pin(2), WinTimingFlags::default());
    let r = profile.score_win(&ron, &config);
    assert_eq!(r.deltas.iter().sum::<i32>(), 0);
    assert_eq!(r.deltas[0], 0);
    assert_eq!(r.deltas[2], 0);
    assert!(r.deltas[3] < 0);
}
