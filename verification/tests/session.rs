use sokoban::Event;
use sokoban::EventResult;
use sokoban::GameView;
use sokoban::LevelError;

const LEVEL: &str = "#####\n#@$.#\n#   #\n#####";

fn picture(view: &GameView) -> Vec<String> {
    view.draw().iter().map(|row| row.iter().collect()).collect()
}

#[test]
fn session_knows_its_level() {
    let view = GameView::new(3, Some(LEVEL)).unwrap();
    assert_eq!(view.get_level(), 3);
    assert_eq!(view.model().objects().len(), 2);
}

#[test]
fn missing_level_is_not_found() {
    assert_eq!(GameView::new(7, None).err(), Some(LevelError::LevelNotFound));
}

#[test]
fn malformed_level_is_refused() {
    assert_eq!(GameView::new(7, Some("#@?#")).err(), Some(LevelError::MalformedLevel));
    assert_eq!(GameView::new(7, Some("")).err(), Some(LevelError::MalformedLevel));
}

#[test]
fn draw_shows_tiles_and_entities() {
    let view = GameView::new(1, Some(LEVEL)).unwrap();
    assert_eq!(picture(&view), vec!["#####", "#@$.#", "#   #", "#####"]);
    let view = GameView::new(1, Some("#+*\n\n# $")).unwrap();
    assert_eq!(picture(&view), vec!["#+*", "", "# $"]);
}

#[test]
fn draw_follows_the_moves() {
    let mut view = GameView::new(1, Some(LEVEL)).unwrap();
    view.on_event(Event::Right);
    assert_eq!(picture(&view), vec!["#####", "# @*#", "#   #", "#####"]);
    view.on_event(Event::Down);
    view.on_event(Event::Right);
    view.on_event(Event::Up);
    assert_eq!(picture(&view), vec!["#####", "#  *#", "#  @#", "#####"]);
    let mut view = GameView::new(1, Some("#@.#")).unwrap();
    view.on_event(Event::Right);
    assert_eq!(picture(&view), vec!["# +#"]);
}

#[test]
fn arrow_keys_move_the_player() {
    let mut view = GameView::new(1, Some("   \n @ \n   ")).unwrap();
    assert_eq!(view.on_event(Event::Up), EventResult::Consumed { won: true });
    assert_eq!(picture(&view), vec![" @ ", "   ", "   "]);
    assert_eq!(view.on_event(Event::Left), EventResult::Consumed { won: true });
    assert_eq!(picture(&view), vec!["@  ", "   ", "   "]);
    assert_eq!(view.on_event(Event::Down), EventResult::Consumed { won: true });
    assert_eq!(picture(&view), vec!["   ", "@  ", "   "]);
    assert_eq!(view.on_event(Event::Right), EventResult::Consumed { won: true });
    assert_eq!(picture(&view), vec!["   ", " @ ", "   "]);
}

#[test]
fn letters_move_the_player() {
    let mut view = GameView::new(1, Some("   \n @ \n   ")).unwrap();
    assert_eq!(view.on_event(Event::Char('w')), EventResult::Consumed { won: true });
    assert_eq!(picture(&view), vec![" @ ", "   ", "   "]);
    assert_eq!(view.on_event(Event::Char('a')), EventResult::Consumed { won: true });
    assert_eq!(picture(&view), vec!["@  ", "   ", "   "]);
    assert_eq!(view.on_event(Event::Char('s')), EventResult::Consumed { won: true });
    assert_eq!(picture(&view), vec!["   ", "@  ", "   "]);
    assert_eq!(view.on_event(Event::Char('d')), EventResult::Consumed { won: true });
    assert_eq!(picture(&view), vec!["   ", " @ ", "   "]);
}

#[test]
fn move_reports_the_win() {
    let mut view = GameView::new(1, Some(LEVEL)).unwrap();
    assert_eq!(view.on_event(Event::Left), EventResult::Consumed { won: false });
    assert_eq!(view.on_event(Event::Right), EventResult::Consumed { won: true });
    assert!(view.model().has_won());
}

#[test]
fn restart_is_handed_back() {
    let mut view = GameView::new(1, Some(LEVEL)).unwrap();
    view.on_event(Event::Right);
    assert_eq!(view.on_event(Event::Char('r')), EventResult::Restart);
    assert_eq!(picture(&view), vec!["#####", "# @*#", "#   #", "#####"]);
    assert_eq!(view.load_level(view.get_level(), Some(LEVEL)), Ok(()));
    assert_eq!(picture(&view), vec!["#####", "#@$.#", "#   #", "#####"]);
    assert!(!view.model().has_won());
}

#[test]
fn other_events_are_ignored() {
    let mut view = GameView::new(1, Some(LEVEL)).unwrap();
    for event in [
        Event::Other,
        Event::Char('u'),
        Event::Char('x'),
        Event::Char('W'),
        Event::Char('R'),
        Event::Char(' '),
    ] {
        assert_eq!(view.on_event(event), EventResult::Ignored);
        assert_eq!(picture(&view), vec!["#####", "#@$.#", "#   #", "#####"]);
    }
}

#[test]
fn load_level_goes_to_another_level() {
    let mut view = GameView::new(1, Some(LEVEL)).unwrap();
    view.on_event(Event::Right);
    assert_eq!(view.load_level(2, Some("#@ $.#")), Ok(()));
    assert_eq!(view.get_level(), 2);
    assert_eq!(picture(&view), vec!["#@ $.#"]);
    view.model().objects();
    assert_eq!(view.on_event(Event::Left), EventResult::Consumed { won: false });
    assert_eq!(picture(&view), vec!["#@ $.#"]);
}

#[test]
fn failed_load_keeps_the_session() {
    let mut view = GameView::new(1, Some(LEVEL)).unwrap();
    view.on_event(Event::Right);
    assert_eq!(view.load_level(2, None), Err(LevelError::LevelNotFound));
    assert_eq!(view.get_level(), 1);
    assert_eq!(picture(&view), vec!["#####", "# @*#", "#   #", "#####"]);
    assert_eq!(view.load_level(2, Some("#@x#")), Err(LevelError::MalformedLevel));
    assert_eq!(view.get_level(), 1);
    assert_eq!(picture(&view), vec!["#####", "# @*#", "#   #", "#####"]);
}

#[test]
fn loading_drops_the_history() {
    let mut view = GameView::new(1, Some(LEVEL)).unwrap();
    view.on_event(Event::Right);
    assert_eq!(view.load_level(1, Some(LEVEL)), Ok(()));
    let text: Vec<String> = picture(&view);
    assert_eq!(text, vec!["#####", "#@$.#", "#   #", "#####"]);
    assert_eq!(view.model().objects().len(), 2);
}

#[test]
fn picture_of_a_level_loads_to_the_same_picture() {
    let mut view = GameView::new(1, Some(LEVEL)).unwrap();
    view.on_event(Event::Down);
    view.on_event(Event::Right);
    let drawn = picture(&view).join("\n");
    let again = GameView::new(1, Some(&drawn)).unwrap();
    assert_eq!(picture(&again), picture(&view));
    assert_eq!(again.model().tilemap(), view.model().tilemap());
}
