//! Numbers, pieces of text, and orders.

use pv::fixed::{
    dec, dec2, dec64, exceeds, hex, isqrt, parse_hex, parse_i32, parse_u32, parse_u64, ratio,
    round, u64_or,
};
use pv::order::{comes_before, rank, rank_texts};
use pv::scan::{
    contains, find, lines, pieces, replace, strip_prefix, strip_suffix, trim, words,
};
use pv::text::control;

#[test]
fn numerals_read_back() {
    for n in [0u64, 7, 10, 1_000_000, u64::MAX] {
        assert_eq!(dec64(n), n.to_string());
        assert_eq!(parse_u64(&dec64(n)), Some(n));
    }
    assert_eq!(dec(u128::MAX), u128::MAX.to_string());
    assert_eq!(dec2(7), "07");
    assert_eq!(hex(0xbeef, false), "beef");
    assert_eq!(hex(0xbeef, true), "BEEF");
}

#[test]
fn numbers_are_read_as_std_reads_them() {
    for s in ["", "+", "-", "+5", "-5", "-0", "007", "4294967295", "4294967296", "1 ", "x", "٣"] {
        assert_eq!(parse_u32(s), s.parse::<u32>().ok(), "{s:?}");
        assert_eq!(parse_i32(s), s.parse::<i32>().ok(), "{s:?}");
        assert_eq!(parse_hex(s), u32::from_str_radix(s, 16).ok(), "{s:?}");
    }
    assert_eq!(parse_hex("00b0"), Some(0xb0));
    assert_eq!(parse_hex("FFFFFFFF"), Some(u32::MAX));
    assert_eq!(u64_or("nope", 9), 9);
}

#[test]
fn ties_go_to_the_even_neighbour() {
    for (num, den) in [(1u128, 2u128), (3, 2), (5, 2), (7, 8), (1, 8), (1537, 1024), (2560, 1024)] {
        let x = num as f64 / den as f64;
        assert_eq!(ratio(num, den, 0), format!("{x:.0}"));
        assert_eq!(ratio(num, den, 1), format!("{x:.1}"));
        assert_eq!(ratio(num, den, 2), format!("{x:.2}"));
    }
    assert_eq!(round(5, 2), 2);
    assert_eq!(round(7, 2), 4);
    assert_eq!(isqrt(99), 9);
    assert_eq!(isqrt(100), 10);
}

#[test]
fn text_is_cut_as_std_cuts_it() {
    for s in ["", "\n", "a\nb", "a\r\nb\n", "a\n\n", "\r", "x\u{a0}y \u{3000}z", " é  b "] {
        assert_eq!(lines(s), s.lines().collect::<Vec<_>>(), "{s:?}");
        assert_eq!(words(s), s.split_whitespace().collect::<Vec<_>>(), "{s:?}");
        assert_eq!(trim(s), s.trim(), "{s:?}");
        assert_eq!(pieces(s, 'b'), s.split('b').collect::<Vec<_>>(), "{s:?}");
        assert_eq!(replace(s, "b", "<é>"), s.replace('b', "<é>"), "{s:?}");
        assert_eq!(contains(s, "b"), s.contains('b'));
        assert_eq!(strip_prefix(s, "a").as_deref(), s.strip_prefix('a'));
    }
    assert_eq!(find("ababc", "abc"), Some(2));
    assert_eq!(find("abc", ""), Some(0));
    assert_eq!(replace("aaa", "aa", "b"), "ba");
    assert_eq!(strip_suffix("x (deleted) (deleted)", " (deleted)"), "x");
}

#[test]
fn spaces_are_those_of_unicode() {
    for n in 0..0x11_0000u32 {
        if let Some(c) = char::from_u32(n) {
            if n < 0x3100 || c.is_whitespace() {
                let s = format!("a{c}b");
                assert_eq!(words(&s).len(), if c.is_whitespace() { 2 } else { 1 }, "{n:x}");
            }
        }
    }
}

#[test]
fn orders_are_stable() {
    assert_eq!(rank(&vec![(1, 0), (5, 1), (5, 2), (1, 0)]), vec![2, 1, 0, 3]);
    let names: Vec<String> = ["b", "a", "b", "é", "Z"].iter().map(|s| s.to_string()).collect();
    assert_eq!(rank_texts(&names), vec![4, 1, 0, 2, 3]);
    assert!(comes_before("ab", "abc") && !comes_before("b", "abc"));
}

#[test]
fn fractions_compare_without_their_products() {
    let top = u128::MAX;
    assert!(exceeds(2, 3, 1, 2) && !exceeds(1, 2, 2, 3));
    assert!(!exceeds(3, 6, 1, 2) && !exceeds(1, 2, 3, 6));
    assert!(!exceeds(0, 1, 0, 5) && exceeds(1, top, 0, 1));
    // the products of these lie far beyond any integer
    assert!(exceeds(top, top - 1, top - 1, top));
    assert!(!exceeds(top - 1, top, top, top - 1));
    assert!(exceeds(top - 1, top, top - 2, top - 1));
    for a in 0u128..12 {
        for b in 1u128..12 {
            for c in 0u128..12 {
                for d in 1u128..12 {
                    assert_eq!(exceeds(a, b, c, d), a * d > c * b);
                }
            }
        }
    }
}

#[test]
fn control_characters_are_those_of_std() {
    for c in '\0'..=char::MAX {
        assert_eq!(control(c), c.is_control(), "{c:?}");
    }
}
