//! Cards, and the pauses between them.

use pv::display::Theme;
use pv::notify::{
    desktop, local_hms, local_hour, offset_named, render, tz_offset, wrap, Cooldowns, Level, Notice,
};

const PLAIN: Theme = Theme { enabled: false };
const SEC: u64 = 1_000_000_000;

#[test]
fn a_valve_rests_unless_it_escalates() {
    let mut c = Cooldowns::new();
    assert!(c.allow("V-01", Level::Warning, 0));
    assert!(!c.allow("V-01", Level::Warning, 599 * SEC + SEC - 1));
    assert!(c.allow("V-01", Level::Critical, 1));
    assert!(!c.allow("V-01", Level::Advisory, 800 * SEC));
    assert!(c.allow("V-01", Level::Critical, 300 * SEC + 1));
    assert!(c.allow("V-02", Level::Advisory, 2));
}

#[test]
fn long_lines_break_between_words() {
    assert_eq!(wrap("short", 10), vec!["short"]);
    assert_eq!(wrap("one two three", 7), vec!["one two", "three"]);
    assert_eq!(wrap("ünïcödé wörds", 7), vec!["ünïcödé", "wörds"]);
    assert_eq!(wrap("abcdefghij k", 4), vec!["abcdefghij", "k"]);
    assert!(wrap("      ", 3).is_empty());
}

#[test]
fn offsets_shift_the_clock() {
    assert_eq!(tz_offset("+0530\n"), 19_800);
    assert_eq!(tz_offset("-0800"), -28_800);
    assert_eq!(tz_offset("UTC"), 0);
    assert_eq!(offset_named("+0100"), Some(3600));
    assert_eq!(offset_named(" \n"), None);
    assert_eq!(offset_named("é0100"), None);
    assert_eq!(local_hms(0, -1), "23:59:59");
    assert_eq!(local_hms(86_400 + 3_661, 0), "01:01:01");
    assert_eq!(local_hour(3 * 3600, -4 * 3600), 23);
}

fn notice(level: Level) -> Notice {
    Notice {
        level,
        valve: "V-01",
        title: "Memory is filling".to_string(),
        gauge: Some(("RAM".to_string(), 82)),
        obs: vec!["first".to_string(), "second line".to_string()],
        suggest: Some("pv suspend firefox".to_string()),
    }
}

#[test]
fn cards_are_stamped() {
    let card = render(&PLAIN, &notice(Level::Warning), 3_661, 0);
    let lines: Vec<&str> = card.split('\n').collect();
    assert_eq!(lines[0], format!("╔═[ PV::VALVE ]═[ V-01 WARNING ]{}╗", "═".repeat(25)));
    assert_eq!(lines[1], format!("║ {:<54} ║", "01:01:01 · local watch · vent 0x0E4D"));
    assert_eq!(lines[2], format!("║ {:<54} ║", ""));
    assert_eq!(lines[3], format!("║ {:<54} ║", "Memory is filling"));
    assert_eq!(lines[4], format!("║ {:<54} ║", "RAM ▰▰▰▰▰▰▰▰▱▱ 82%"));
    assert_eq!(lines[6], format!("║ {:<54} ║", "first"));
    assert_eq!(lines[9], format!("║ {:<54} ║", "› pv suspend firefox"));
    assert_eq!(lines[10], format!("╚═[ end of line ]{}╝", "═".repeat(40)));
    assert!(card.ends_with("╝\n\n"));
    for l in &lines[..11] {
        assert_eq!(l.chars().count(), 58, "{l}");
    }
}

#[test]
fn critical_cards_let_off_steam() {
    let card = render(&PLAIN, &notice(Level::Critical), 0, 0);
    assert!(card.starts_with("   )   (   )"));
    assert!(card.contains("STEAM OVERPRESSURE"));
    let card = render(&Theme { enabled: true }, &notice(Level::Advisory), 0, 0);
    assert!(card.starts_with("\x1b[36m╔═\x1b[0m"));
}

#[test]
fn the_desktop_gets_the_same_words() {
    assert_eq!(
        desktop(&notice(Level::Critical)),
        vec![
            "-u",
            "critical",
            "PV :: Memory is filling",
            "first\nsecond line\n\n› pv suspend firefox"
        ]
    );
    let mut n = notice(Level::Advisory);
    n.suggest = None;
    assert_eq!(desktop(&n)[1], "low");
    assert_eq!(desktop(&n)[3], "first\nsecond line");
}
