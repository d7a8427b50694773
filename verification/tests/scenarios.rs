use sokoban::Action;
use sokoban::GameModel;
use sokoban::ObjectKind;
use sokoban::Tile;
use sokoban::Vec2;

fn positions(model: &GameModel) -> Vec<(usize, usize)> {
    model.objects().iter().map(|o| (o.pos.x, o.pos.y)).collect()
}

#[test]
fn player_walks_onto_goal() {
    let mut model = GameModel::new("#####\n#@ .#\n#####").unwrap();
    assert!(model.has_won());
    model.do_action(Action::Right);
    model.do_action(Action::Right);
    assert_eq!(positions(&model), vec![(3, 1)]);
    assert_eq!(model.tilemap()[1][3], Tile::Goal);
    assert!(model.has_won());
}

#[test]
fn push_box_onto_goal_wins() {
    let mut model = GameModel::new("#####\n#@$.#\n#####").unwrap();
    assert!(!model.has_won());
    model.do_action(Action::Right);
    assert_eq!(positions(&model), vec![(2, 1), (3, 1)]);
    assert_eq!(model.objects()[0].kind, ObjectKind::Player);
    assert_eq!(model.objects()[1].kind, ObjectKind::Box);
    assert!(model.has_won());
}

#[test]
fn blocked_move_then_move_then_undo() {
    let mut model = GameModel::new("#####\n#@$.#\n#####").unwrap();
    let start = positions(&model);
    model.do_action(Action::Left);
    assert_eq!(positions(&model), start);
    model.do_action(Action::Right);
    model.undo();
    assert_eq!(positions(&model), start);
    assert_eq!(model.objects()[0].pos, Vec2 { x: 1, y: 1 });
    assert!(!model.has_won());
}
