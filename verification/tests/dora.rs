use librrmj::rules::dora::{dora_tile, is_aka_dora, is_hand_dora, matches_indicator_dora};
use librrmj::tile::{Dragon, Suit, Tile, Wind};

#[test]
fn indicator_dora_wraps_suit_nine_to_one() {
    assert_eq!(dora_tile(Tile::man(9)), Some(Tile::man(1)));
    assert!(matches_indicator_dora(Tile::man(1), &[Tile::man(9)]));
}

#[test]
fn aka_dora_requires_red_five() {
    assert!(is_aka_dora(Tile::red_five(Suit::Pin), true));
    assert!(!is_aka_dora(Tile::pin(5), true));
}

#[test]
fn dora_tile_advances_numbered_ranks() {
    assert_eq!(dora_tile(Tile::man(5)), Some(Tile::man(6)));
    assert_eq!(dora_tile(Tile::man(9)), Some(Tile::man(1)));
}

#[test]
fn dora_tile_advances_honors() {
    assert_eq!(dora_tile(Tile::wind(Wind::North)), Some(Tile::wind(Wind::East)));
    assert_eq!(
        dora_tile(Tile::dragon(Dragon::Red)),
        Some(Tile::dragon(Dragon::White))
    );
}

#[test]
fn hand_dora_counts_indicator_and_red_fives() {
    let indicators = [Tile::sou(4)];
    assert!(is_hand_dora(Tile::sou(5), &indicators, false));
    assert!(is_hand_dora(Tile::red_five(Suit::Sou), &indicators, false));
    assert!(is_hand_dora(Tile::red_five(Suit::Man), &indicators, true));
    assert!(!is_hand_dora(Tile::red_five(Suit::Man), &indicators, false));
    assert!(!matches_indicator_dora(Tile::sou(5), &[]));
}
