use ants_ai_challenge_api::{pos, AgentActions, Direction, Order};

#[test]
fn as_size_for_pos_wraps_both_ways() {
    let foo = pos(10, 10);
    assert_eq!(pos(0, 0), foo.as_size_for_pos(0, 0));
    assert_eq!(pos(3, 4), foo.as_size_for_pos(3, 4));
    assert_eq!(pos(0, 0), foo.as_size_for_pos(10, 10));
    assert_eq!(pos(1, 3), foo.as_size_for_pos(11, -7));
    assert_eq!(pos(9, 0), foo.as_size_for_pos(-1, -30));
    assert_eq!(pos(6, 7), pos(7, 9).as_size_for_pos(i64::MIN, i64::MAX));
    assert_eq!(pos(2, 1), pos(3, 4).as_size_for(pos(5, 9)));
}

#[test]
fn target_pos_wraps_at_edges() {
    let size = pos(20, 30);
    assert_eq!(pos(0, 5).north().target_pos(&size), pos(19, 5));
    assert_eq!(pos(19, 5).south().target_pos(&size), pos(0, 5));
    assert_eq!(pos(4, 0).west().target_pos(&size), pos(4, 29));
    assert_eq!(pos(4, 29).east().target_pos(&size), pos(4, 0));
    assert_eq!(pos(4, 7).north().target_pos(&size), pos(3, 7));
    assert_eq!(pos(4, 7).south().target_pos(&size), pos(5, 7));
    assert_eq!(pos(4, 7).west().target_pos(&size), pos(4, 6));
    assert_eq!(pos(4, 7).east().target_pos(&size), pos(4, 8));
    assert_eq!(pos(4, 7).pause().target_pos(&size), pos(4, 7));
}

#[test]
fn reverse_twice_restores_order() {
    let size = pos(3, 4);
    let dirs = [Direction::North, Direction::South, Direction::East, Direction::West];
    for r in 0..3 {
        for c in 0..4 {
            for d in dirs.iter() {
                let o = pos(r, c).order(*d);
                let t = o.target_pos(&size);
                assert!(t.row < 3 && t.col < 4);
                assert_eq!(o.reverse(&size).reverse(&size), o);
            }
        }
    }
}

#[test]
fn reverse_east_from_one_one() {
    let o = pos(1, 1).east();
    assert_eq!(o.reverse(&pos(10, 10)), Order { pos: pos(1, 2), dir: Direction::West });
    assert_eq!(Direction::North.reverse(), Direction::South);
    assert_eq!(Direction::West.reverse(), Direction::East);
    assert_eq!(Direction::NoDirection.reverse(), Direction::NoDirection);
}

#[test]
fn move_ant_keeps_order_of_calls() {
    let mut a = AgentActions::new();
    a.move_ant(pos(1, 2), Direction::North).move_ant(pos(3, 4), Direction::East);
    assert_eq!(
        a.actions,
        vec![pos(1, 2).north(), pos(3, 4).east()]
    );
}
