use sokoban::Action;
use sokoban::GameModel;
use sokoban::ObjectKind;
use sokoban::Tile;
use sokoban::Vec2;

fn places(model: &GameModel) -> Vec<(usize, usize)> {
    model.objects().iter().map(|o| (o.pos.x, o.pos.y)).collect()
}

fn kinds(model: &GameModel) -> Vec<ObjectKind> {
    model.objects().iter().map(|o| o.kind).collect()
}

fn all_apart_and_off_walls(model: &GameModel) -> bool {
    let objects = model.objects();
    let tilemap = model.tilemap();
    for (i, a) in objects.iter().enumerate() {
        if a.pos.y >= tilemap.len() || a.pos.x >= tilemap[a.pos.y].len() {
            return false;
        }
        if tilemap[a.pos.y][a.pos.x] == Tile::Wall {
            return false;
        }
        for b in objects.iter().skip(i + 1) {
            if a.pos == b.pos {
                return false;
            }
        }
    }
    true
}

#[test]
fn player_moves_into_free_cell() {
    let mut model = GameModel::new("#####\n#   #\n# @ #\n#   #\n#####").unwrap();
    model.do_action(Action::Left);
    assert_eq!(places(&model), vec![(1, 2)]);
    model.do_action(Action::Up);
    assert_eq!(places(&model), vec![(1, 1)]);
    model.do_action(Action::Right);
    assert_eq!(places(&model), vec![(2, 1)]);
    model.do_action(Action::Down);
    assert_eq!(places(&model), vec![(2, 2)]);
}

#[test]
fn wall_stops_the_player() {
    for action in [Action::Left, Action::Right, Action::Up, Action::Down] {
        let mut model = GameModel::new("###\n#@#\n###").unwrap();
        model.do_action(action);
        assert_eq!(places(&model), vec![(1, 1)]);
    }
}

#[test]
fn wall_stops_a_pushed_box() {
    let mut model = GameModel::new("#####\n#@$##\n#####").unwrap();
    model.do_action(Action::Right);
    assert_eq!(places(&model), vec![(1, 1), (2, 1)]);
    let mut model = GameModel::new("#\n$\n@\n#").unwrap();
    model.do_action(Action::Up);
    assert_eq!(places(&model), vec![(0, 1), (0, 2)]);
}

#[test]
fn box_does_not_push_box() {
    let mut model = GameModel::new("######\n#@$$ #\n######").unwrap();
    model.do_action(Action::Right);
    assert_eq!(places(&model), vec![(1, 1), (2, 1), (3, 1)]);
}

#[test]
fn box_does_not_push_player() {
    let mut model = GameModel::new("######\n#@$@ #\n######").unwrap();
    model.do_action(Action::Right);
    assert_eq!(places(&model), vec![(1, 1), (2, 1), (3, 1)]);
}

#[test]
fn player_pushes_one_box() {
    let mut model = GameModel::new("#####\n#@$ #\n#####").unwrap();
    model.do_action(Action::Right);
    assert_eq!(places(&model), vec![(2, 1), (3, 1)]);
    let mut model = GameModel::new("#\n@\n$\n \n#").unwrap();
    model.do_action(Action::Down);
    assert_eq!(places(&model), vec![(0, 2), (0, 3)]);
    model.do_action(Action::Down);
    assert_eq!(places(&model), vec![(0, 2), (0, 3)]);
}

#[test]
fn push_leaves_other_entities_in_place() {
    let mut model = GameModel::new("######\n#$   #\n#@$ $#\n######").unwrap();
    model.do_action(Action::Right);
    assert_eq!(places(&model), vec![(1, 1), (2, 2), (3, 2), (4, 2)]);
    assert_eq!(
        kinds(&model),
        vec![ObjectKind::Box, ObjectKind::Player, ObjectKind::Box, ObjectKind::Box]
    );
}

#[test]
fn player_pushes_player() {
    let mut model = GameModel::new("#@@ #").unwrap();
    model.do_action(Action::Right);
    assert_eq!(places(&model), vec![(2, 0), (3, 0)]);
}

#[test]
fn players_in_a_row_push_a_box() {
    let mut model = GameModel::new("#@@@$ #").unwrap();
    model.do_action(Action::Right);
    assert_eq!(places(&model), vec![(2, 0), (3, 0), (4, 0), (5, 0)]);
    model.do_action(Action::Right);
    assert_eq!(places(&model), vec![(2, 0), (3, 0), (4, 0), (5, 0)]);
    model.undo();
    model.undo();
    assert_eq!(places(&model), vec![(1, 0), (2, 0), (3, 0), (4, 0)]);
}

#[test]
fn only_the_first_player_is_moved() {
    let mut model = GameModel::new("# @ @ #").unwrap();
    model.do_action(Action::Left);
    assert_eq!(places(&model), vec![(1, 0), (4, 0)]);
    model.do_action(Action::Left);
    assert_eq!(places(&model), vec![(1, 0), (4, 0)]);
}

#[test]
fn without_a_player_nothing_moves() {
    let mut model = GameModel::new("#$ .#").unwrap();
    for action in [Action::Left, Action::Right, Action::Up, Action::Down] {
        model.do_action(action);
        assert_eq!(places(&model), vec![(1, 0)]);
    }
    model.undo();
    assert_eq!(places(&model), vec![(1, 0)]);
}

#[test]
fn edge_of_the_grid_stops_the_player() {
    for action in [Action::Left, Action::Right, Action::Up, Action::Down] {
        let mut model = GameModel::new("@").unwrap();
        model.do_action(action);
        assert_eq!(places(&model), vec![(0, 0)]);
    }
}

#[test]
fn end_of_a_short_row_stops_the_player() {
    let mut model = GameModel::new("   \n  @\n \n   ").unwrap();
    model.do_action(Action::Down);
    assert_eq!(places(&model), vec![(2, 1)]);
    model.do_action(Action::Right);
    assert_eq!(places(&model), vec![(2, 1)]);
    model.do_action(Action::Up);
    assert_eq!(places(&model), vec![(2, 0)]);
    model.do_action(Action::Up);
    assert_eq!(places(&model), vec![(2, 0)]);
}

#[test]
fn edge_of_the_grid_stops_a_pushed_box() {
    let mut model = GameModel::new("$@").unwrap();
    model.do_action(Action::Left);
    assert_eq!(places(&model), vec![(0, 0), (1, 0)]);
    let mut model = GameModel::new(" @$").unwrap();
    model.do_action(Action::Right);
    assert_eq!(places(&model), vec![(1, 0), (2, 0)]);
}

#[test]
fn empty_row_cannot_be_entered() {
    let mut model = GameModel::new("@\n\n ").unwrap();
    model.do_action(Action::Down);
    assert_eq!(places(&model), vec![(0, 0)]);
}

#[test]
fn undo_takes_back_one_move() {
    let mut model = GameModel::new("#####\n#@$ #\n#####").unwrap();
    model.do_action(Action::Right);
    model.undo();
    assert_eq!(places(&model), vec![(1, 1), (2, 1)]);
}

#[test]
fn undo_with_empty_history_changes_nothing() {
    let mut model = GameModel::new("#####\n#@$ #\n#####").unwrap();
    model.undo();
    model.undo();
    assert_eq!(places(&model), vec![(1, 1), (2, 1)]);
    model.do_action(Action::Right);
    model.undo();
    model.undo();
    assert_eq!(places(&model), vec![(1, 1), (2, 1)]);
}

#[test]
fn blocked_move_takes_one_undo_of_its_own() {
    let mut model = GameModel::new("#@ #").unwrap();
    model.do_action(Action::Right);
    assert_eq!(places(&model), vec![(2, 0)]);
    model.do_action(Action::Right);
    assert_eq!(places(&model), vec![(2, 0)]);
    model.undo();
    assert_eq!(places(&model), vec![(2, 0)]);
    model.undo();
    assert_eq!(places(&model), vec![(1, 0)]);
}

#[test]
fn undo_round_trip_over_many_moves() {
    let text = "########\n#      #\n# $@$  #\n#  $ . #\n#   .. #\n########";
    let mut model = GameModel::new(text).unwrap();
    let start = places(&model);
    let moves = [
        Action::Right,
        Action::Right,
        Action::Right,
        Action::Right,
        Action::Down,
        Action::Left,
        Action::Left,
        Action::Up,
        Action::Left,
        Action::Left,
        Action::Left,
        Action::Down,
        Action::Down,
        Action::Right,
        Action::Up,
    ];
    let mut trail = vec![start.clone()];
    for action in moves {
        model.do_action(action);
        trail.push(places(&model));
    }
    assert_ne!(places(&model), start);
    for expected in trail.iter().rev().skip(1) {
        model.undo();
        assert_eq!(&places(&model), expected);
    }
    assert_eq!(places(&model), start);
    model.undo();
    assert_eq!(places(&model), start);
}

#[test]
fn no_two_entities_ever_share_a_place() {
    let text = "#########\n#  $  . #\n# $@$ $ #\n#  $ @  #\n# .   $##\n#########";
    let mut model = GameModel::new(text).unwrap();
    let kinds_at_start = kinds(&model);
    let tiles_at_start = model.tilemap().clone();
    let mut seed: u32 = 12345;
    for _ in 0..2000 {
        seed = seed.wrapping_mul(1103515245).wrapping_add(12345);
        match (seed >> 16) % 6 {
            0 => model.do_action(Action::Left),
            1 => model.do_action(Action::Right),
            2 => model.do_action(Action::Up),
            3 => model.do_action(Action::Down),
            _ => model.undo(),
        }
        assert!(all_apart_and_off_walls(&model));
        assert_eq!(kinds(&model), kinds_at_start);
    }
    assert_eq!(model.tilemap(), &tiles_at_start);
}

#[test]
fn won_when_every_box_is_on_a_goal() {
    assert!(GameModel::new("#*#").unwrap().has_won());
    assert!(GameModel::new("#*@*#").unwrap().has_won());
    assert!(!GameModel::new("#$.#").unwrap().has_won());
    assert!(!GameModel::new("#*$.#").unwrap().has_won());
}

#[test]
fn won_without_boxes() {
    assert!(GameModel::new("#@ .#").unwrap().has_won());
    assert!(GameModel::new("#").unwrap().has_won());
    assert!(GameModel::new(" ").unwrap().has_won());
}

#[test]
fn pushing_a_box_off_its_goal_loses_the_win() {
    let mut model = GameModel::new("#@* #").unwrap();
    assert!(model.has_won());
    model.do_action(Action::Right);
    assert_eq!(places(&model), vec![(2, 0), (3, 0)]);
    assert!(!model.has_won());
    model.undo();
    assert!(model.has_won());
}

#[test]
fn extents_of_a_ragged_grid() {
    let model = GameModel::new("###\n#\n#####\n##").unwrap();
    assert_eq!(model.get_level_extents(), Vec2 { x: 5, y: 4 });
    let model = GameModel::new("#@ .#\n#####").unwrap();
    assert_eq!(model.get_level_extents(), Vec2 { x: 5, y: 2 });
    let model = GameModel::new("\n\n#").unwrap();
    assert_eq!(model.get_level_extents(), Vec2 { x: 1, y: 3 });
}
