use rand::SeedableRng;
use rand::rngs::StdRng;

use librrmj::hand::{DEALER_HAND_SIZE, NON_DEALER_HAND_SIZE};
use librrmj::rules::RulesConfig;
use librrmj::tile::{Tile, standard_set};
use librrmj::wall::{
    WallLayout, DEAD_WALL_SIZE, INITIAL_DEAL_SIZE, LIVE_WALL_AFTER_DEAL, LIVE_WALL_AFTER_SPLIT, WALL_SIZE, Wall,
};
use librrmj::Error;

#[test]
fn standard_set_and_wall_partition_sizes() {
    let rules = RulesConfig::standard();
    let rng = StdRng::seed_from_u64(1);
    let wall = Wall::new(&rules, rng);

    assert_eq!(wall.live_remaining(), LIVE_WALL_AFTER_SPLIT);
    assert_eq!(wall.dead_wall().len(), DEAD_WALL_SIZE);
    assert_eq!(wall.live_remaining() + wall.dead_wall().len(), WALL_SIZE);
}

#[test]
fn deal_distributes_correct_tile_counts() {
    let rules = RulesConfig::standard();
    let mut wall = Wall::new(&rules, StdRng::seed_from_u64(42));
    let dealer = 2;

    let deal = wall.deal(dealer).unwrap();

    assert_eq!(deal.dealer, dealer);
    assert_eq!(deal.live_remaining, LIVE_WALL_AFTER_DEAL);
    assert_eq!(wall.live_drawn(), INITIAL_DEAL_SIZE);

    for seat in 0..4 {
        let expected = if seat == dealer {
            DEALER_HAND_SIZE
        } else {
            NON_DEALER_HAND_SIZE
        };
        assert_eq!(deal.hand(seat).total_tiles(), expected);
    }
}

#[test]
fn deal_conserves_all_tiles() {
    let rules = RulesConfig::standard();
    let mut wall = Wall::new(&rules, StdRng::seed_from_u64(7));
    let deal = wall.deal(0).unwrap();

    let mut dealt: Vec<Tile> = Vec::new();
    for hand in &deal.hands {
        dealt.extend(hand.concealed().tiles());
    }
    dealt.extend(wall.dead_wall());
    dealt.extend(wall.layout().live());

    let mut expected = standard_set(rules.aka_dora);
    dealt.sort();
    expected.sort();
    assert_eq!(dealt, expected);
}

#[test]
fn live_wall_exhaustion_after_max_draws() {
    let rules = RulesConfig::standard();
    let mut wall = Wall::new(&rules, StdRng::seed_from_u64(99));
    wall.deal(0).unwrap();

    for _ in 0..LIVE_WALL_AFTER_DEAL {
        assert!(wall.draw_live().is_ok());
    }
    assert!(matches!(wall.draw_live(), Err(Error::LiveWallExhausted)));
}

#[test]
fn dora_indicator_is_first_dead_wall_tile() {
    let rules = RulesConfig::standard();
    let wall = Wall::new(&rules, StdRng::seed_from_u64(3));
    assert_eq!(wall.dora_indicator(), wall.dead_wall()[0]);
}

#[test]
fn deal_rejects_out_of_range_dealer() {
    let rules = RulesConfig::standard();
    let mut wall = Wall::new(&rules, StdRng::seed_from_u64(5));
    assert!(matches!(wall.deal(4), Err(Error::InvalidSeat(4))));
    assert_eq!(wall.live_remaining(), LIVE_WALL_AFTER_SPLIT);
}

#[test]
fn kan_draws_rinshan_and_reveals_next_indicator() {
    let rules = RulesConfig::standard();
    let mut wall = Wall::new(&rules, StdRng::seed_from_u64(11));
    let dead: Vec<Tile> = wall.dead_wall().to_vec();
    let (rinshan, dora) = wall.apply_kan().unwrap();
    assert_eq!(rinshan, dead[10]);
    assert_eq!(dora, dead[2]);
    assert_eq!(wall.kan_count(), 1);
    assert_eq!(wall.dora_indicators(), vec![dead[0], dead[2]]);
}

#[test]
fn from_parts_checks_dead_wall_size() {
    let tiles = standard_set(false);
    let live = tiles[..100].to_vec();
    let dead = tiles[100..110].to_vec();
    assert!(matches!(
        Wall::from_parts(live, dead),
        Err(Error::InvalidDeadWallSize { expected: 14, actual: 10 })
    ));
}

#[test]
fn rinshan_tiles_are_never_indicators() {
    let dead = vec![
        Tile::man(1),
        Tile::man(2),
        Tile::man(3),
        Tile::man(4),
        Tile::man(5),
        Tile::man(6),
        Tile::man(7),
        Tile::man(8),
        Tile::man(9),
        Tile::pin(1),
        Tile::pin(2),
        Tile::pin(3),
        Tile::pin(4),
        Tile::pin(5),
    ];
    let mut layout = WallLayout::new(vec![], dead).unwrap();
    let (r1, d1) = layout.apply_kan().unwrap();
    assert_eq!(r1, Tile::pin(2));
    assert_eq!(d1, Tile::man(3));
    let (r2, d2) = layout.apply_kan().unwrap();
    assert_eq!(r2, Tile::pin(3));
    assert_eq!(d2, Tile::man(5));
    assert_ne!(d2, r1);
    assert_eq!(layout.kan_count(), 2);
    assert_eq!(layout.dora_indicators(), vec![Tile::man(1), Tile::man(3), Tile::man(5)]);
    assert_eq!(layout.ura_dora_indicators(), vec![Tile::man(2), Tile::man(4), Tile::man(6)]);
    for r in [r1, r2] {
        assert!(!layout.dora_indicators().contains(&r));
        assert!(!layout.ura_dora_indicators().contains(&r));
    }
    assert_eq!(layout.dead_remaining(), 12);
}

#[test]
fn fifth_kan_finds_no_rinshan_tile() {
    let rules = RulesConfig::standard();
    let mut wall = Wall::new(&rules, StdRng::seed_from_u64(21));
    for _ in 0..4 {
        wall.apply_kan().unwrap();
    }
    assert!(matches!(wall.apply_kan(), Err(Error::RinshanExhausted)));
    assert_eq!(wall.kan_count(), 4);
    assert_eq!(wall.dora_indicators().len(), 5);
    assert_eq!(wall.dead_remaining(), DEAD_WALL_SIZE - 4);
    assert_eq!(wall.live_remaining() + wall.dead_remaining() + 4, WALL_SIZE);
}
