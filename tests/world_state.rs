use ants_ai_challenge_api::{pos, Record, WorldState};

#[test]
fn use_builder_success() {
    let expected = WorldState {
        foods: vec![pos(6, 5)],
        waters: vec![pos(7, 6)],
        live_ants: vec![vec![pos(10, 8), pos(10, 9)], vec![pos(7, 9)]],
        dead_ants: vec![vec![], vec![], vec![], vec![pos(17, 19)]],
        hills: vec![vec![], vec![pos(7, 12)]],
    };

    let actual = WorldState::default()
        .food(pos(6, 5))
        .water(pos(7, 6))
        .live_ant(pos(7, 9), 1)
        .live_ant(pos(10, 8), 0)
        .live_ant(pos(10, 9), 0)
        .hill(pos(7, 12), 1)
        .dead_ant(pos(17, 19), 3);

    assert_eq!(expected, actual);
}

#[test]
fn per_player_getters() {
    let actual = WorldState::default()
        .food(pos(6, 5))
        .water(pos(7, 6))
        .live_ant(pos(7, 9), 1)
        .live_ant(pos(10, 8), 0)
        .live_ant(pos(10, 9), 0)
        .hill(pos(7, 12), 1)
        .dead_ant(pos(17, 19), 3);

    // Exists player indexes 0-3 for dead ants
    assert_eq!(4, actual.max_player_count());

    assert_eq!(actual.live_ants_for_player(0), vec![pos(10, 8), pos(10, 9)]);
    assert_eq!(actual.live_ants_for_player(1), vec![pos(7, 9)]);
    assert_eq!(actual.live_ants_for_player(2), vec![]);
    assert_eq!(actual.live_ants_for_player(3), vec![]);
    assert_eq!(actual.live_ants_for_player(4), vec![]);
    assert_eq!(actual.live_ants_for_player(5), vec![]);
    assert_eq!(actual.live_ants_for_player(255), vec![]);

    assert_eq!(actual.dead_ants_for_player(0), vec![]);
    assert_eq!(actual.dead_ants_for_player(1), vec![]);
    assert_eq!(actual.dead_ants_for_player(2), vec![]);
    assert_eq!(actual.dead_ants_for_player(3), vec![pos(17, 19)]);

    assert_eq!(actual.hills_for_player(0), vec![]);
    assert_eq!(actual.hills_for_player(1), vec![pos(7, 12)]);
    assert_eq!(actual.hills_for_player(2), vec![]);
    assert_eq!(actual.hills_for_player(3), vec![]);
}

#[test]
fn live_ant_grows_to_player_index_plus_one() {
    let w = WorldState::new().live_ant(pos(1, 1), 4);
    assert_eq!(w.live_ants.len(), 5);
    for k in 0..4 {
        assert!(w.live_ants[k].is_empty());
    }
    assert_eq!(w.live_ants[4], vec![pos(1, 1)]);
    // a lower index later does not shrink or regrow the collection
    let w = w.live_ant(pos(2, 2), 1);
    assert_eq!(w.live_ants.len(), 5);
    assert_eq!(w.live_ants[1], vec![pos(2, 2)]);
}

#[test]
fn max_player_count_is_one_past_highest_index() {
    assert_eq!(WorldState::new().max_player_count(), 0);
    let w = WorldState::new().food(pos(0, 0)).water(pos(1, 1));
    assert_eq!(w.max_player_count(), 0);
    let w = w.hill(pos(3, 3), 2).live_ant(pos(4, 4), 0).dead_ant(pos(5, 5), 6);
    assert_eq!(w.max_player_count(), 7);
    let w = w.live_ant(pos(6, 6), 9);
    assert_eq!(w.max_player_count(), 10);
}

#[test]
fn largest_player_index_is_accepted() {
    let w = WorldState::new().hill(pos(0, 1), 255);
    assert_eq!(w.max_player_count(), 256);
    assert_eq!(w.hills_for_player(255), vec![pos(0, 1)]);
    assert_eq!(w.hills_for_player(254), vec![]);
    assert_eq!(w.live_ants_for_player(255), vec![]);
    assert_eq!(w.dead_ants_for_player(255), vec![]);
}

#[test]
fn records_add_like_builders() {
    let by_records = WorldState::new()
        .with_record(Record::Food { at: pos(6, 5) })
        .with_record(Record::Water { at: pos(7, 6) })
        .with_record(Record::LiveAnt { at: pos(7, 9), owner: 1 })
        .with_record(Record::DeadAnt { at: pos(8, 9), owner: 0 })
        .with_record(Record::Hill { at: pos(7, 12), owner: 1 });
    let by_builders = WorldState::new()
        .food(pos(6, 5))
        .water(pos(7, 6))
        .live_ant(pos(7, 9), 1)
        .dead_ant(pos(8, 9), 0)
        .hill(pos(7, 12), 1);
    assert_eq!(by_records, by_builders);
}
