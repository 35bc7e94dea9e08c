use schnake::page::{color_choice_class, direction_for_key, error_summary, scoreboard_html, set_hidden_class, stage_class, stage_id, toggle_hidden_class, Stage};
use schnake::protocol::{Direction, Point, Snake};

fn has_word(class: &str, word: &str) -> bool {
    class.split_whitespace().any(|w| w == word)
}

#[test]
fn stage_classes() {
    assert_eq!(stage_id(Stage::Start), "start-screen");
    assert_eq!(stage_id(Stage::Game), "game-screen");
    assert_eq!(stage_class(Stage::Start, "start-screen"), "stage active");
    assert_eq!(stage_class(Stage::Host, "start-screen"), "stage flow-screen");
    assert_eq!(stage_class(Stage::Join, "join-screen"), "stage flow-screen active");
    assert_eq!(stage_class(Stage::Game, "game-screen"), "stage game-screen active");
    assert_eq!(stage_class(Stage::Game, "host-screen"), "stage game-screen");
}

#[test]
fn keys_map_to_directions() {
    assert_eq!(direction_for_key("ArrowUp"), Some(Direction::Up));
    assert_eq!(direction_for_key("w"), Some(Direction::Up));
    assert_eq!(direction_for_key("W"), Some(Direction::Up));
    assert_eq!(direction_for_key("ArrowDown"), Some(Direction::Down));
    assert_eq!(direction_for_key("S"), Some(Direction::Down));
    assert_eq!(direction_for_key("a"), Some(Direction::Left));
    assert_eq!(direction_for_key("ArrowLeft"), Some(Direction::Left));
    assert_eq!(direction_for_key("d"), Some(Direction::Right));
    assert_eq!(direction_for_key("ArrowRight"), Some(Direction::Right));
    assert_eq!(direction_for_key("x"), None);
    assert_eq!(direction_for_key("Enter"), None);
    assert_eq!(direction_for_key(""), None);
}

#[test]
fn scoreboard_lists_players() {
    let snakes = vec![
        Snake {
            id: "a".to_string(),
            name: "<Ann>".to_string(),
            color: "#2f7d54".to_string(),
            body: vec![Point { x: 1, y: 1 }],
            dir: Direction::Right,
            pending: Direction::Right,
            score: 12,
        },
        Snake {
            id: "b".to_string(),
            name: "Bob".to_string(),
            color: "#d14d41".to_string(),
            body: vec![Point { x: 2, y: 2 }],
            dir: Direction::Up,
            pending: Direction::Up,
            score: 0,
        },
    ];
    assert_eq!(
        scoreboard_html(&snakes),
        "<span class=\"score\"><span class=\"swatch\" style=\"background:#2f7d54\"></span>&lt;Ann&gt;: 12</span><span class=\"score\"><span class=\"swatch\" style=\"background:#d14d41\"></span>Bob: 0</span>"
    );
    assert_eq!(scoreboard_html(&vec![]), "");
}

#[test]
fn hiding_and_showing() {
    assert_eq!(set_hidden_class("btn", true), Some("btn hidden".to_string()));
    assert_eq!(set_hidden_class("", true), Some(" hidden".to_string()));
    assert_eq!(set_hidden_class("btn hidden", true), None);
    assert_eq!(set_hidden_class("btn", false), None);
    assert_eq!(set_hidden_class("a  hidden\tb hidden", false), Some("a b".to_string()));
    assert_eq!(set_hidden_class("hidden", false), Some("".to_string()));
    assert_eq!(set_hidden_class("nothidden", false), None);
}

#[test]
fn toggling_flips_hidden() {
    assert_eq!(toggle_hidden_class("panel"), "panel hidden");
    assert_eq!(toggle_hidden_class("panel hidden"), "panel");
    for class in ["", "x", "x hidden", "  hidden  y ", "hiddenx"] {
        let once = toggle_hidden_class(class);
        assert_eq!(has_word(&once, "hidden"), !has_word(class, "hidden"));
        let twice = toggle_hidden_class(&once);
        assert_eq!(has_word(&twice, "hidden"), has_word(class, "hidden"));
    }
}

#[test]
fn error_summaries() {
    assert_eq!(error_summary(Some("TypeError"), Some("bad")), Some("TypeError: bad".to_string()));
    assert_eq!(error_summary(None, Some("bad")), Some("bad".to_string()));
    assert_eq!(error_summary(Some("TypeError"), Some("")), Some("TypeError".to_string()));
    assert_eq!(error_summary(Some("TypeError"), None), Some("TypeError".to_string()));
    assert_eq!(error_summary(Some(""), Some("")), None);
    assert_eq!(error_summary(None, None), None);
}

#[test]
fn color_buttons() {
    assert_eq!(color_choice_class("#2f7d54", "#2f7d54"), "color-choice selected");
    assert_eq!(color_choice_class("#2f7d54", "#d14d41"), "color-choice");
}

#[test]
fn hiding_keeps_other_classes_in_order() {
    let hidden = set_hidden_class("b  a\tc", true).unwrap();
    assert_eq!(hidden.split_whitespace().collect::<Vec<_>>(), vec!["b", "a", "c", "hidden"]);
    assert_eq!(set_hidden_class(&hidden, true), None);
    let shown = set_hidden_class("x hidden y hidden z", false).unwrap();
    assert_eq!(shown, "x y z");
    assert_eq!(set_hidden_class(&shown, false), None);
}

#[test]
fn toggling_twice_restores_classes() {
    let once = toggle_hidden_class("a b");
    assert_eq!(once, "a b hidden");
    assert_eq!(toggle_hidden_class(&once), "a b");
    let c = "hidden a hidden b";
    let twice = toggle_hidden_class(&toggle_hidden_class(c));
    assert_eq!(twice, "a b hidden");
    let mut x: Vec<_> = twice.split_whitespace().collect();
    let mut y: Vec<_> = c.split_whitespace().collect();
    x.sort();
    x.dedup();
    y.sort();
    y.dedup();
    assert_eq!(x, y);
}
