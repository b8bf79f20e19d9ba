use rand::SeedableRng;
use rand::rngs::StdRng;

use librrmj::Error;
use librrmj::action::{Action, KanIntent};
use librrmj::event::Event;
use librrmj::fixtures::{
    force_ron_setup, force_ron_win, force_tsumo_win, resolve_pending_reactions, tenpai_waiting_on_p2,
    winning_tanyao_tiles,
};
use librrmj::game::{AbortiveDrawKind, HandOutcome, MatchLength, RoundWind};
use librrmj::hand::{Concealed, Hand, Meld, MeldKind};
use librrmj::rules::flow::{GameFlowPolicy, StandardGameFlow, advance_after_hand};
use librrmj::rules::standard::cheatsheet;
use librrmj::rules::{RulesConfig, RulesProfileId, candidate_win_paths, recommendations};
use librrmj::state::{HandEndReason, HandPhase, HandState};
use librrmj::tile::{Tile, standard_set};
use librrmj::wall::{WALL_SIZE, Wall};

fn fresh(seed: u64, dealer: usize) -> HandState {
    let config = RulesConfig::standard();
    let mut wall = Wall::new(&config, StdRng::seed_from_u64(seed));
    let deal = wall.deal(dealer).unwrap();
    HandState::from_deal(wall, deal, config)
}

#[test]
fn fresh_deal_accounts_for_every_tile() {
    let state = fresh(5, 0);
    assert_eq!(state.accounted_tile_count(), WALL_SIZE);
    assert!(state.validate_tile_conservation().is_ok());
}

#[test]
fn extra_river_tile_breaks_conservation() {
    let mut state = fresh(5, 0);
    state.push_discard_for_test(2, Tile::man(1));
    assert!(matches!(
        state.validate_tile_conservation(),
        Err(Error::TileConservation { expected: 136, actual: 137 })
    ));
}

#[test]
fn draw_discard_and_pass_keep_every_tile() {
    let mut state = fresh(8, 0);
    let tile = state.hand(0).concealed().tiles()[3];
    state.apply(0, Action::Discard(tile)).unwrap();
    assert_eq!(state.pending_reaction_seat(), Some(1));
    for seat in 1..4 {
        state.apply(seat, Action::Pass).unwrap();
    }
    assert_eq!(state.legal_actions(), vec![Action::Draw]);
    assert!(state.legal_actions_for(2).is_empty());
    state.apply(1, Action::Draw).unwrap();
    assert_eq!(state.accounted_tile_count(), WALL_SIZE);
}

#[test]
fn played_out_hand_ends_in_a_zero_sum_exhaustive_draw() {
    let mut state = fresh(31, 1);
    let events = state
        .play_out_discards(|s, seat| s.hand(seat).concealed().tiles()[0])
        .unwrap();
    assert_eq!(events[0], Event::Dealt { dealer: 1 });
    assert_eq!(state.phase(), HandPhase::Ended);
    assert!(matches!(state.end_reason(), Some(HandEndReason::ExhaustiveDraw)));
    let total: i32 = state.scores().iter().sum();
    assert_eq!(total, 4 * 25_000);
    assert!(matches!(state.apply(1, Action::Draw), Err(Error::HandEnded)));
}

#[test]
fn refused_actions_name_their_reason() {
    let mut state = fresh(9, 0);
    assert!(matches!(
        state.apply(0, Action::Draw),
        Err(Error::WrongPhase { expected: HandPhase::Draw, actual: HandPhase::Discard })
    ));
    let missing = (1..=9)
        .map(Tile::sou)
        .chain((1..=9).map(Tile::pin))
        .find(|t| !state.hand(0).concealed().tiles().contains(t))
        .unwrap();
    assert!(matches!(
        state.apply(0, Action::Discard(missing)),
        Err(Error::TileNotInHand { tile }) if tile == missing
    ));
    assert!(matches!(state.apply(0, Action::Tsumo), Err(Error::CannotWin)));
    assert!(matches!(
        state.apply(0, Action::Kan(KanIntent::Open)),
        Err(Error::IllegalAction { .. })
    ));
    let tile = state.hand(0).concealed().tiles()[0];
    state.apply(0, Action::Discard(tile)).unwrap();
    assert!(matches!(state.apply(0, Action::Pass), Err(Error::NotReactingSeat { seat: 0 })));
    state.apply(2, Action::Pass).unwrap();
    assert!(matches!(state.apply(2, Action::Pass), Err(Error::AlreadyResponded { seat: 2 })));
    assert!(matches!(state.apply(3, Action::Ron), Err(Error::CannotWin)));
    assert!(matches!(
        state.apply(1, Action::Chi { tiles: [Tile::man(1), Tile::pin(2), Tile::sou(3)] }),
        Err(Error::InvalidChiSequence { .. })
    ));
    assert!(matches!(state.apply(1, Action::Tsumo), Err(Error::IllegalAction { .. })));
}

#[test]
fn riichi_needs_a_tenpai_hand() {
    let mut state = fresh(12, 0);
    state.set_concealed(
        0,
        vec![
            Tile::man(1),
            Tile::man(4),
            Tile::man(7),
            Tile::pin(1),
            Tile::pin(4),
            Tile::pin(7),
            Tile::sou(1),
            Tile::sou(4),
            Tile::sou(7),
            Tile::man(9),
            Tile::pin(9),
            Tile::sou(9),
            Tile::man(2),
            Tile::pin(5),
        ],
    );
    assert!(matches!(
        state.apply(0, Action::Riichi { discard: Tile::man(1) }),
        Err(Error::CannotDeclareRiichi)
    ));
}

#[test]
fn ron_pays_from_the_discarder_only() {
    let mut state = fresh(7, 0);
    state.set_concealed(1, tenpai_waiting_on_p2());
    let mut dealer_hand: Vec<Tile> = state.hand(0).concealed().tiles().to_vec();
    dealer_hand[0] = Tile::pin(2);
    state.set_concealed(0, dealer_hand);
    state.apply(0, Action::Discard(Tile::pin(2))).unwrap();
    state.apply(1, Action::Ron).unwrap();
    state.apply(2, Action::Pass).unwrap();
    state.apply(3, Action::Pass).unwrap();
    let scores = *state.scores();
    assert_eq!(scores.iter().sum::<i32>(), 100_000);
    assert_eq!(scores[2], 25_000);
    assert_eq!(scores[3], 25_000);
    assert_eq!(scores[1] - 25_000, 25_000 - scores[0]);
    assert!(matches!(state.end_reason(), Some(HandEndReason::Win { winners }) if winners == vec![1]));
}

#[test]
fn tsumo_with_riichi_sticks_collects_the_sticks() {
    let mut state = fresh(42, 1);
    state.set_concealed(1, winning_tanyao_tiles());
    state.last_draw = Some(Tile::pin(2));
    state.set_table_riichi_sticks_for_test(2);
    state.apply(1, Action::Tsumo).unwrap();
    let total: i32 = state.scores().iter().sum();
    assert_eq!(total, 100_000 + 2_000);
    assert_eq!(state.table_riichi_sticks(), 0);
}

#[test]
fn snapshot_restores_the_hand() {
    let mut state = fresh(13, 2);
    let tile = state.hand(2).concealed().tiles()[1];
    state.apply(2, Action::Discard(tile)).unwrap();
    let snapshot = state.to_snapshot();
    let restored = HandState::from_snapshot(snapshot, RulesConfig::standard()).unwrap();
    assert_eq!(restored.phase(), HandPhase::Reaction);
    assert_eq!(restored.dealer(), 2);
    assert_eq!(restored.discards(2), &[tile]);
    for seat in 0..4 {
        assert_eq!(restored.hand(seat), state.hand(seat));
    }
    assert_eq!(restored.accounted_tile_count(), WALL_SIZE);
}

#[test]
fn snapshot_with_missing_tile_is_refused() {
    let mut state = fresh(14, 0);
    let mut snapshot = state.to_snapshot();
    snapshot.discards[1].push(Tile::man(5));
    assert!(matches!(
        HandState::from_snapshot(snapshot, RulesConfig::standard()),
        Err(Error::TileConservation { .. })
    ));
    state.wall_mut().draw_live().unwrap();
    let mut bad_wall = state.to_snapshot();
    bad_wall.wall.dead.pop();
    assert!(matches!(
        HandState::from_snapshot(bad_wall, RulesConfig::standard()),
        Err(Error::InvalidDeadWallSize { expected: 14, actual: 13 })
    ));
}

#[test]
fn snapshot_with_bad_seat_is_restored_unsound_and_bad_kan_state_refused() {
    let state = fresh(15, 1);
    let mut bad_seat = state.to_snapshot();
    bad_seat.dealer = 4;
    let restored = HandState::from_snapshot(bad_seat, RulesConfig::standard()).unwrap();
    assert!(!restored.is_well_formed());
    assert!(HandState::from_snapshot(state.to_snapshot(), RulesConfig::standard()).unwrap().is_well_formed());
    let mut extra = state.to_snapshot();
    extra.discards[0].push(Tile::pin(2));
    extra.discards[0].push(Tile::pin(3));
    assert!(matches!(
        HandState::from_snapshot(extra, RulesConfig::standard()),
        Err(Error::TileConservation { expected: 136, actual: 138 })
    ));
    let mut bad_kans = state.to_snapshot();
    bad_kans.wall.kan_count = 7;
    assert!(matches!(
        HandState::from_snapshot(bad_kans, RulesConfig::standard()),
        Err(Error::InvalidKanState { kan_count: 7, rinshan_taken: 0 })
    ));
}

#[test]
fn replayed_events_rebuild_the_hands() {
    let mut played = fresh(55, 0);
    let events = played
        .play_out_discards(|s, seat| s.hand(seat).concealed().tiles()[0])
        .unwrap();
    let mut replay = fresh(55, 0);
    for event in &events {
        replay.apply_event(event).unwrap();
    }
    assert_eq!(replay.phase(), HandPhase::Ended);
    for seat in 0..4 {
        assert_eq!(replay.hand(seat), played.hand(seat));
        assert_eq!(replay.discards(seat), played.discards(seat));
    }
    assert_eq!(replay.scores(), played.scores());
}

#[test]
fn replay_refuses_a_foreign_dealer() {
    let mut state = fresh(3, 0);
    assert!(matches!(
        state.apply_event(&Event::Dealt { dealer: 3 }),
        Err(Error::ReplayMismatch { .. })
    ));
    assert!(matches!(state.apply_discard_followup(1), Err(Error::ReplayMismatch { .. })));
}

#[test]
fn hand_and_meld_shapes_are_checked() {
    let tiles: Vec<Tile> = (1..=9).map(Tile::man).chain((1..=6).map(Tile::pin)).collect();
    assert!(matches!(
        Hand::new(Concealed::from_tiles(tiles), vec![]),
        Err(Error::InvalidHandShape { concealed: 15, melds: 0 })
    ));
    assert!(matches!(
        Meld::pon([Tile::man(1), Tile::man(1), Tile::man(2)], Tile::man(1)),
        Err(Error::InvalidMeld { kind: MeldKind::Pon })
    ));
    assert!(Meld::chi([Tile::man(3), Tile::man(1), Tile::man(2)], Tile::man(2)).is_ok());
}

#[test]
fn oversized_wall_is_refused() {
    let mut tiles = standard_set(false);
    tiles.extend(standard_set(false).into_iter().take(8));
    let dead = tiles.split_off(tiles.len() - 14);
    assert!(matches!(Wall::from_parts(tiles, dead), Err(Error::InvalidWallSize { actual: 144 })));
}

#[test]
fn shuffled_wall_depends_on_the_seed() {
    let config = RulesConfig::standard();
    let a = Wall::new(&config, StdRng::seed_from_u64(1));
    let b = Wall::new(&config, StdRng::seed_from_u64(1));
    let c = Wall::new(&config, StdRng::seed_from_u64(2));
    assert_eq!(a, b);
    assert_ne!(a, c);
    let unshuffled = standard_set(config.aka_dora);
    assert_ne!(a.layout().live(), &unshuffled[..a.live_remaining()]);
    let mut all: Vec<Tile> = a.layout().live().to_vec();
    all.extend(a.dead_wall());
    all.sort();
    let mut expected = unshuffled;
    expected.sort();
    assert_eq!(all, expected);
}

#[test]
fn dealer_keeps_the_seat_on_a_dealer_win() {
    let next = advance_after_hand(1, 2, RoundWind::East, 2, HandOutcome::Win { winners: vec![1] }, false);
    assert_eq!(next, (1, 3, RoundWind::East, 2));
    let next = advance_after_hand(3, 2, RoundWind::East, 4, HandOutcome::ExhaustiveDraw, false);
    assert_eq!(next, (0, 0, RoundWind::South, 1));
    let next = advance_after_hand(1, 1, RoundWind::South, 2, HandOutcome::Win { winners: vec![0] }, true);
    assert_eq!(next, (2, 0, RoundWind::South, 3));
    let next = advance_after_hand(2, 1, RoundWind::East, 3, HandOutcome::AbortiveDraw(AbortiveDrawKind::FourWinds), false);
    assert_eq!(next, (2, 1, RoundWind::East, 3));
    let next = advance_after_hand(2, 1, RoundWind::East, 3, HandOutcome::AbortiveDraw(AbortiveDrawKind::FourRiichis), true);
    assert_eq!(next, (2, 2, RoundWind::East, 3));
}

#[test]
fn match_ends_after_the_final_round_or_at_the_target() {
    let flow = StandardGameFlow;
    let mut config = RulesConfig::standard();
    assert!(!flow.is_game_over(RoundWind::East, 4, &[25_000; 4], &config));
    assert!(flow.is_game_over(RoundWind::South, 4, &[25_000; 4], &config));
    config.match_length = MatchLength::EastOnly;
    assert!(flow.is_game_over(RoundWind::East, 4, &[25_000; 4], &config));
    config.target_score = Some(30_000);
    assert!(flow.is_game_over(RoundWind::East, 1, &[31_000, 23_000, 23_000, 23_000], &config));
}

#[test]
fn catalog_lists_every_scored_yaku() {
    assert_eq!(cheatsheet::rows().len(), 30);
    assert_eq!(cheatsheet::implemented_rows().len(), 30);
    assert!(cheatsheet::not_implemented_rows().is_empty());
    assert_eq!(cheatsheet::rows()[0].id, "riichi");
    assert_eq!(cheatsheet::rows()[29].label, "Suukantsu");
}

#[test]
fn tenpai_hand_recommends_its_waits() {
    let mut state = fresh(17, 0);
    state.set_concealed(1, tenpai_waiting_on_p2());
    let config = RulesConfig::standard();
    let paths = recommendations(&state, 1, &config, 10);
    assert!(!paths.is_empty());
    assert!(paths.len() <= 10);
    for pair in paths.windows(2) {
        assert!(pair[0].expected_points >= pair[1].expected_points);
    }
    let waits = [Tile::pin(2), Tile::pin(5), Tile::red_five(librrmj::tile::Suit::Pin)];
    assert!(paths.iter().all(|p| p.shanten == 0 && waits.contains(&p.win_tile.unwrap())));
    assert!(paths.iter().any(|p| p.win_tile == Some(Tile::pin(2))));
    assert!(paths.iter().any(|p| matches!(p.win_type, librrmj::scoring::WinType::Tsumo)));
    assert_eq!(candidate_win_paths(&state, 1, &config, 3).len(), paths.len().min(3));
    assert!(recommendations(&state, 1, &config, 0).is_empty());
}

#[test]
fn profile_names_parse_case_insensitively() {
    assert_eq!(RulesProfileId::parse("STANDARD"), Ok(RulesProfileId::Standard));
    assert!(RulesProfileId::parse("club").is_err());
    assert_eq!(RulesProfileId::Standard.as_str(), "standard");
    assert_eq!(RulesProfileId::Standard.next(), RulesProfileId::Standard);
}

#[test]
fn double_ron_payments_add_up() {
    let mut config = RulesConfig::standard();
    config.double_ron = true;
    let starting = config.starting_points;
    let mut wall = Wall::new(&config, StdRng::seed_from_u64(24));
    let deal = wall.deal(0).unwrap();
    let mut state = HandState::from_deal(wall, deal, config);
    state.set_concealed(1, tenpai_waiting_on_p2());
    state.set_concealed(3, tenpai_waiting_on_p2());
    let mut dealer_hand: Vec<Tile> = state.hand(0).concealed().tiles().to_vec();
    dealer_hand[0] = Tile::pin(2);
    state.set_concealed(0, dealer_hand);

    state.apply(0, Action::Discard(Tile::pin(2))).unwrap();
    state.apply(1, Action::Ron).unwrap();
    state.apply(2, Action::Pass).unwrap();
    let events = state.apply(3, Action::Ron).unwrap();
    let deltas = events
        .iter()
        .find_map(|e| match e {
            Event::ScoresAdjusted { deltas } => Some(*deltas),
            _ => None,
        })
        .unwrap();
    assert_eq!(deltas[2], 0);
    assert!(deltas[1] > 0 && deltas[3] > 0);
    assert_eq!(deltas[0], -(deltas[1] + deltas[3]));
    for seat in 0..4 {
        assert_eq!(state.scores()[seat], starting + deltas[seat]);
    }
}

#[test]
fn forced_tsumo_win_scores_the_dealer() {
    let mut state = fresh(31, 0);
    force_tsumo_win(&mut state, 0);
    assert_eq!(state.hand(0).concealed().tiles(), winning_tanyao_tiles().as_slice());
    let events = state.apply(0, Action::Tsumo).unwrap();
    assert!(events.iter().any(|e| matches!(e, Event::Won { seat: 0, .. })));
    assert_eq!(state.phase(), HandPhase::Ended);
}

#[test]
fn forced_ron_win_ends_the_hand() {
    let mut state = fresh(32, 0);
    let events = force_ron_win(&mut state, 2).unwrap();
    assert!(events.iter().any(|e| matches!(e, Event::Won { seat: 2, .. })));
    assert!(matches!(
        state.end_reason(),
        Some(HandEndReason::Win { winners }) if winners == vec![2usize]
    ));
}

#[test]
fn pending_reactions_pass_without_a_winner() {
    let mut state = fresh(33, 1);
    force_ron_setup(&mut state, 3);
    assert_eq!(state.phase(), HandPhase::Reaction);
    let events = resolve_pending_reactions(&mut state, 3).unwrap();
    assert!(events.iter().any(|e| matches!(e, Event::Won { seat: 3, .. })));
    let mut quiet = fresh(34, 1);
    let tile = quiet.hand(1).concealed().tiles()[0];
    quiet.apply(1, Action::Discard(tile)).unwrap();
    let none = resolve_pending_reactions(&mut quiet, 1).unwrap();
    assert_ne!(quiet.phase(), HandPhase::Reaction);
    assert!(!none.iter().any(|e| matches!(e, Event::Won { .. })));
}

#[test]
fn replayed_discard_and_draw_match_the_table() {
    let mut played = fresh(61, 3);
    let mut replay = HandState::from_snapshot(played.to_snapshot(), RulesConfig::standard()).unwrap();
    let tile = played.hand(3).concealed().tiles()[4];
    let events = played.apply(3, Action::Discard(tile)).unwrap();
    assert!(events.contains(&Event::Discarded { seat: 3, tile }));
    replay.apply_event(&Event::Discarded { seat: 3, tile }).unwrap();
    for seat in 0..4 {
        played.apply(seat, Action::Pass).ok();
    }
    let drawn = played.apply(0, Action::Draw).unwrap();
    replay.apply_event(&drawn[0]).unwrap();
    for seat in 0..4 {
        assert_eq!(replay.hand(seat), played.hand(seat));
        assert_eq!(replay.discards(seat), played.discards(seat));
    }
    assert_eq!(replay.wall().live_remaining(), played.wall().live_remaining());
}

#[test]
fn closed_kan_with_four_melds_is_refused() {
    let mut state = fresh(71, 0);
    let pon = |t: Tile| Meld::pon([t, t, t], t).unwrap();
    let melds = vec![pon(Tile::pin(1)), pon(Tile::pin(9)), pon(Tile::sou(1)), pon(Tile::sou(9))];
    let hand = Hand::new(Concealed::from_tiles(vec![Tile::man(7); 4]), melds).unwrap();
    state.set_hand(0, hand);
    assert!(matches!(
        state.apply(0, Action::Kan(KanIntent::Closed { tile: Tile::man(7) })),
        Err(Error::InvalidHandShape { concealed: 4, melds: 4 })
    ));
    assert_eq!(state.hand(0).melds().len(), 4);
}

#[test]
fn every_listed_discard_turn_action_is_accepted() {
    let state = fresh(81, 2);
    let actions = state.legal_actions();
    assert!(!actions.is_empty());
    for action in actions {
        let mut copy = HandState::from_snapshot(state.to_snapshot(), RulesConfig::standard()).unwrap();
        assert!(copy.apply(2, action.clone()).is_ok(), "{action:?} was listed but refused");
    }
}

#[test]
fn every_listed_answer_is_accepted() {
    let mut state = fresh(82, 0);
    let tile = state.hand(0).concealed().tiles()[3];
    state.apply(0, Action::Discard(tile)).unwrap();
    for seat in 1..4 {
        let answers = state.legal_actions_for(seat);
        assert!(answers.contains(&Action::Pass));
        for action in answers {
            let mut copy = HandState::from_snapshot(state.to_snapshot(), RulesConfig::standard()).unwrap();
            assert!(copy.apply(seat, action.clone()).is_ok(), "{action:?} was listed but refused");
        }
    }
}

#[test]
fn every_accepted_discard_is_listed() {
    let state = fresh(83, 1);
    let listed = state.legal_actions();
    for tile in state.hand(1).concealed().tiles() {
        assert!(listed.contains(&Action::Discard(*tile)));
    }
    assert!(!listed.contains(&Action::Draw));
    assert!(!listed.contains(&Action::Pass));
}

#[test]
fn applying_played_events_reproduces_the_table() {
    let mut played = fresh(91, 1);
    let events = played
        .play_out_discards(|s, seat| s.hand(seat).concealed().tiles()[0])
        .unwrap();
    let mut replay = fresh(91, 1);
    replay.apply_events(&events).unwrap();
    for seat in 0..4 {
        let mut a = replay.hand(seat).concealed().tiles().to_vec();
        let mut b = played.hand(seat).concealed().tiles().to_vec();
        a.sort_by_key(|t| (t.key(), t.is_red()));
        b.sort_by_key(|t| (t.key(), t.is_red()));
        assert_eq!(a, b);
        assert_eq!(replay.discards(seat), played.discards(seat));
    }
    assert_eq!(replay.wall().live_remaining(), played.wall().live_remaining());
    let bad = vec![Event::Drawn { seat: 7, tile: Tile::man(1) }];
    assert!(matches!(replay.apply_events(&bad), Err(Error::ReplayMismatch { .. })));
}

#[test]
fn ron_takes_the_won_discard_out_of_its_river() {
    let mut state = fresh(7, 0);
    state.set_concealed(1, tenpai_waiting_on_p2());
    let mut dealer_hand: Vec<Tile> = state.hand(0).concealed().tiles().to_vec();
    dealer_hand[0] = Tile::pin(2);
    state.set_concealed(0, dealer_hand);
    assert_eq!(state.accounted_tile_count(), 136);
    state.apply(0, Action::Discard(Tile::pin(2))).unwrap();
    assert_eq!(state.accounted_tile_count(), 136);
    state.apply(1, Action::Ron).unwrap();
    assert_eq!(state.accounted_tile_count(), 136);
    state.apply(2, Action::Pass).unwrap();
    state.apply(3, Action::Pass).unwrap();
    assert!(state.is_ended());
    assert!(state.discards(0).is_empty());
    assert_eq!(state.accounted_tile_count(), 135);
}
