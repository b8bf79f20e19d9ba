use rand::SeedableRng;
use rand::rngs::StdRng;

use librrmj::hand::{Concealed, Hand};
use librrmj::rules::standard::recommend::build_from_context;
use librrmj::rules::{
    PathDecomposition, PathGroup, Recommendation, RulesConfig, RulesProfileId, WinContext,
    WinTimingFlags, sort_recommendations,
};
use librrmj::scoring::{WinType, Yaku};
use librrmj::state::HandState;
use librrmj::tile::Tile;
use librrmj::wall::Wall;

#[test]
fn standard_profile_defaults() {
    let config = RulesConfig::standard();
    assert_eq!(config.profile, RulesProfileId::Standard);
    assert_eq!(config.starting_points, 25_000);
    assert!(config.aka_dora);
    assert!(!config.kiriage);
}

#[test]
fn default_for_matches_standard() {
    assert_eq!(
        RulesConfig::standard(),
        RulesConfig::default_for(RulesProfileId::Standard),
    );
}

#[test]
fn sort_prefers_higher_expected_points() {
    let mut paths = vec![
        Recommendation {
            shanten: 0,
            wait_count: 4,
            win_tile: None,
            yaku: vec![Yaku::Tanyao],
            han: 1,
            fu: 30,
            dora: 0,
            ura_dora: 0,
            aka_dora: 0,
            expected_points: 1_000,
            win_type: WinType::Ron { from: 0 },
        },
        Recommendation {
            shanten: 0,
            wait_count: 2,
            win_tile: None,
            yaku: vec![Yaku::Pinfu, Yaku::MenzenTsumo],
            han: 2,
            fu: 20,
            dora: 0,
            ura_dora: 0,
            aka_dora: 0,
            expected_points: 2_000,
            win_type: WinType::Tsumo,
        },
    ];
    sort_recommendations(&mut paths);
    assert_eq!(paths[0].expected_points, 2_000);
}

fn path(points: i32, shanten: i8, waits: usize) -> Recommendation {
    Recommendation {
        shanten,
        wait_count: waits,
        win_tile: None,
        yaku: vec![],
        han: 1,
        fu: 30,
        dora: 0,
        ura_dora: 0,
        aka_dora: 0,
        expected_points: points,
        win_type: WinType::Tsumo,
    }
}

#[test]
fn sort_breaks_ties_by_shanten_then_waits() {
    let mut paths = vec![path(1000, 1, 1), path(1000, 0, 5), path(1000, 0, 2), path(500, -1, 0)];
    sort_recommendations(&mut paths);
    let order: Vec<(i32, i8, usize)> = paths.iter().map(|p| (p.expected_points, p.shanten, p.wait_count)).collect();
    assert_eq!(order, vec![(1000, 0, 2), (1000, 0, 5), (1000, 1, 1), (500, -1, 0)]);
}

#[test]
fn recommendation_labels() {
    let mut p = path(2000, 0, 3);
    assert_eq!(p.shanten_label(), "Tenpai (3 waits)");
    p.shanten = -1;
    assert_eq!(p.shanten_label(), "Complete");
    p.shanten = 1;
    assert_eq!(p.shanten_label(), "1-shanten");
    p.shanten = 3;
    assert_eq!(p.shanten_label(), "3-shanten");
    assert_eq!(p.win_type_label(), "Tsumo");
    p.win_type = WinType::Ron { from: 2 };
    assert_eq!(p.win_type_label(), "Ron (seat 3)");
    p.yaku = vec![Yaku::Riichi, Yaku::Tanyao];
    assert_eq!(p.summary_line(), "Riichi, Tanyao — 1 han / 30 fu — +2000");
}

#[test]
fn format_includes_discard_wait_and_groups() {
    let decomp = PathDecomposition {
        groups: vec![
            PathGroup {
                tiles: vec![Tile::man(2), Tile::man(3), Tile::man(4)],
                open: false,
            },
            PathGroup {
                tiles: vec![Tile::pin(2), Tile::pin(2)],
                open: false,
            },
        ],
        missing: vec![Tile::sou(2)],
        suggested_discard: Some(Tile::sou(9)),
    };
    let lines = decomp.format_lines();
    assert_eq!(lines[0], "Discard 9s →");
    assert!(lines[1].contains("2m3m4m"));
    assert_eq!(lines[2], "Need +2s");
}

#[test]
fn format_sorts_and_brackets_open_groups() {
    let decomp = PathDecomposition {
        groups: vec![
            PathGroup {
                tiles: vec![Tile::pin(7), Tile::pin(5), Tile::pin(6)],
                open: true,
            },
            PathGroup {
                tiles: vec![Tile::man(1), Tile::man(1)],
                open: false,
            },
        ],
        missing: vec![Tile::sou(2), Tile::sou(5)],
        suggested_discard: None,
    };
    let lines = decomp.format_lines();
    assert_eq!(lines, vec!["[5p6p7p] 1m1m".to_string(), "Need +2s +5s".to_string()]);
    assert!(PathDecomposition::empty().format_lines().is_empty());
}

fn state_with_hand(hand: Hand) -> HandState {
    let config = RulesConfig::standard();
    let mut wall = Wall::new(&config, StdRng::seed_from_u64(7));
    let deal = wall.deal(0).unwrap();
    let mut state = HandState::from_deal(wall, deal, config);
    state.set_hand(0, hand);
    state
}

#[test]
fn pinfu_path_shows_sequences_and_wait() {
    let concealed = vec![
        Tile::man(2),
        Tile::man(3),
        Tile::man(4),
        Tile::pin(3),
        Tile::pin(4),
        Tile::pin(5),
        Tile::sou(6),
        Tile::sou(7),
        Tile::sou(8),
        Tile::sou(9),
        Tile::sou(9),
        Tile::sou(9),
        Tile::pin(2),
    ];
    let hand = Hand::new(Concealed::from_tiles(concealed), vec![]).unwrap();
    let state = state_with_hand(hand);
    let ctx = WinContext::new(
        &state,
        0,
        WinType::Tsumo,
        Tile::pin(2),
        WinTimingFlags::default(),
    );
    let decomp = build_from_context(&ctx, 0, None);
    assert!(!decomp.groups.is_empty());
    assert_eq!(decomp.missing, vec![Tile::pin(2)]);
    let lines = decomp.format_lines();
    assert!(lines.iter().any(|line| line.contains("2m3m4m")));
    assert!(lines.iter().any(|line| line.starts_with("Need +2p")));
}

#[test]
fn one_shanten_includes_suggested_discard() {
    let concealed = vec![
        Tile::man(2),
        Tile::man(3),
        Tile::man(4),
        Tile::pin(5),
        Tile::pin(6),
        Tile::pin(7),
        Tile::sou(3),
        Tile::sou(4),
        Tile::sou(5),
        Tile::sou(6),
        Tile::sou(7),
        Tile::sou(8),
        Tile::sou(9),
        Tile::pin(2),
    ];
    let hand = Hand::new(Concealed::from_tiles(concealed), vec![]).unwrap();
    let state = state_with_hand(hand);
    let ctx = WinContext::new(
        &state,
        0,
        WinType::Tsumo,
        Tile::pin(2),
        WinTimingFlags::default(),
    );
    let decomp = build_from_context(&ctx, 1, Some(Tile::sou(9)));
    assert_eq!(decomp.suggested_discard, Some(Tile::sou(9)));
    assert!(
        decomp
            .format_lines()
            .first()
            .is_some_and(|line| line.starts_with("Discard 9s"))
    );
}

#[test]
fn triple_ron_counts_only_with_double_ron() {
    let mut c = RulesConfig::standard();
    assert_eq!(c.max_rons(), 2);
    c.triple_ron = true;
    assert_eq!(c.max_rons(), 3);
    c.double_ron = false;
    assert_eq!(c.max_rons(), 1);
    c.triple_ron = false;
    assert_eq!(c.max_rons(), 1);
}

#[test]
fn sort_keeps_full_ties_in_their_order() {
    let mut first = path(3900, 0, 2);
    first.han = 3;
    let mut second = path(3900, 0, 2);
    second.han = 4;
    let mut paths = vec![path(1000, 1, 4), first.clone(), path(8000, 0, 1), second.clone()];
    sort_recommendations(&mut paths);
    assert_eq!(paths[0].expected_points, 8000);
    assert_eq!(paths[1], first);
    assert_eq!(paths[2], second);
    assert_eq!(paths[3].expected_points, 1000);
}

#[test]
fn collect_lists_waits_after_a_tenpai_keeping_discard() {
    let config = RulesConfig::standard();
    let mut wall = Wall::new(&config, StdRng::seed_from_u64(1));
    let deal = wall.deal(0).unwrap();
    let mut state = HandState::from_deal(wall, deal, config.clone());
    let mut tiles = librrmj::fixtures::tenpai_waiting_on_p2();
    tiles.push(Tile::dragon(librrmj::tile::Dragon::Red));
    state.set_concealed(0, tiles);
    let paths = librrmj::rules::standard::recommend::collect(&state, 0, &config);
    assert!(paths
        .iter()
        .any(|p| p.shanten == 1 && p.win_tile == Some(Tile::pin(2)) && p.win_type == WinType::Tsumo && p.han > 0));
}

#[test]
fn collect_lists_the_complete_path_of_a_winning_hand() {
    let config = RulesConfig::standard();
    let mut wall = Wall::new(&config, StdRng::seed_from_u64(1));
    let deal = wall.deal(0).unwrap();
    let mut state = HandState::from_deal(wall, deal, config.clone());
    state.set_concealed(0, librrmj::fixtures::winning_tanyao_tiles());
    let paths = librrmj::rules::standard::recommend::collect(&state, 0, &config);
    assert!(paths.iter().any(|p| p.shanten == -1 && p.win_type == WinType::Tsumo && p.han > 0));
}
