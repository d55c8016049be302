//! Colours and bars.

use pv::display::{bar, Theme};

const COLOUR: Theme = Theme { enabled: true };
const PLAIN: Theme = Theme { enabled: false };

#[test]
fn colour_is_for_terminals_unless_asked_for() {
    let always = Some("always".to_string());
    assert!(Theme::new(&always, true, false).enabled);
    assert!(Theme::new(&None, false, true).enabled);
    assert!(!Theme::new(&None, true, true).enabled);
    assert!(!Theme::new(&Some("never".to_string()), false, false).enabled);
}

#[test]
fn paint_wraps_only_where_colour_is_on() {
    assert_eq!(COLOUR.red("x"), "\x1b[31mx\x1b[0m");
    assert_eq!(COLOUR.bold("x"), "\x1b[1mx\x1b[0m");
    assert_eq!(COLOUR.dim("x"), "\x1b[2mx\x1b[0m");
    assert_eq!(COLOUR.green("x"), "\x1b[32mx\x1b[0m");
    assert_eq!(COLOUR.yellow("x"), "\x1b[33mx\x1b[0m");
    assert_eq!(COLOUR.cyan("x"), "\x1b[36mx\x1b[0m");
    assert_eq!(COLOUR.magenta("x"), "\x1b[35mx\x1b[0m");
    assert_eq!(PLAIN.paint("31", "x"), "x");
    assert_eq!(PLAIN.title("a", "b"), "a  b");
    assert_eq!(
        PLAIN.section("s"),
        "── s ─────────────────────────────────────────"
    );
}

#[test]
fn severities_have_thresholds() {
    assert_eq!(PLAIN.severity(44), "CALM");
    assert_eq!(PLAIN.severity(45), "WATCH");
    assert_eq!(PLAIN.severity(75), "HOT");
    assert_eq!(COLOUR.severity(75), "\x1b[31mHOT\x1b[0m");
    assert_eq!(COLOUR.score_colored(50), "\x1b[33m█████░░░░░\x1b[0m");
}

#[test]
fn bars_fill_with_the_score() {
    assert_eq!(bar(0, 4), "░░░░");
    assert_eq!(bar(74, 4), "██░░");
    assert_eq!(bar(255, 4), "████");
    assert_eq!(bar(100, 0), "");
}
