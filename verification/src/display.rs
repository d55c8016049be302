//! Terminal rendering: colours, pressure bars, table cells.

use vstd::prelude::*;

use crate::text::{
    cat2, cat3, cat5, chars_of, opt_text, owned, pad_left, pad_right, padded_left, padded_right,
    repeat, repeated, same, text_between,
};

verus! {

#[derive(Clone, Copy)]
pub struct Theme {
    pub enabled: bool,
}

/// A text in a colour, or as it is where colours are off.
pub open spec fn painted(t: Theme, code: Seq<char>, s: Seq<char>) -> Seq<char> {
    if t.enabled {
        "\x1b["@ + code + "m"@ + s + "\x1b[0m"@
    } else {
        s
    }
}

/// The colour code of a score: red from 75, yellow from 45, green below.
pub open spec fn score_code(score: u8) -> Seq<char> {
    if score >= 75 {
        "31"@
    } else if score >= 45 {
        "33"@
    } else {
        "32"@
    }
}

pub open spec fn severity_label(score: u8) -> Seq<char> {
    if score >= 75 {
        "HOT"@
    } else if score >= 45 {
        "WATCH"@
    } else {
        "CALM"@
    }
}

/// A bar of a given width, filled in proportion to a score.
pub open spec fn bar_text(score: u8, width: nat) -> Seq<char> {
    let share = score as nat * width / 100;
    let filled = if share > width {
        width
    } else {
        share
    };
    repeated('█', filled) + repeated('░', (width - filled) as nat)
}

pub fn bar(score: u8, width: usize) -> (r: String)
    requires
        score * width <= usize::MAX,
    ensures
        r@ == bar_text(score, width as nat),
        r@.len() == width,
{
    let share: usize = score as usize * width / 100;
    let filled: usize = if share > width {
        width
    } else {
        share
    };
    cat2(repeat('█', filled).as_str(), repeat('░', width - filled).as_str())
}

/// A text in a column: filled up with spaces, or cut off and marked where it
/// is too long.
pub open spec fn cell_text(s: Seq<char>, width: nat) -> Seq<char> {
    if s.len() > width && width > 0 {
        s.take(width - 1) + "…"@
    } else {
        padded_right(s, width)
    }
}

/// A section divider.
pub open spec fn section_text(t: Theme, label: Seq<char>) -> Seq<char> {
    painted(t, "36"@, "── "@ + label + " ─────────────────────────────────────────"@)
}

pub open spec fn title_text(t: Theme, label: Seq<char>, detail: Seq<char>) -> Seq<char> {
    painted(t, "1"@, label) + "  "@ + painted(t, "2"@, detail)
}

impl Theme {
    /// Colours are on where `PV_COLOR` is "always", and otherwise on a
    /// terminal unless `NO_COLOR` is set.
    pub fn new(pv_color: &Option<String>, no_color: bool, tty: bool) -> (r: Self)
        ensures
            r.enabled == (opt_text(*pv_color) == Some("always"@) || (!no_color && tty)),
    {
        let force: bool = match pv_color {
            Some(v) => same(v.as_str(), "always"),
            None => false,
        };
        Theme { enabled: force || (!no_color && tty) }
    }

    pub fn paint(&self, code: &str, s: &str) -> (r: String)
        ensures
            r@ == painted(*self, code@, s@),
    {
        if self.enabled {
            cat5("\x1b[", code, "m", s, "\x1b[0m")
        } else {
            owned(s)
        }
    }

    pub fn bold(&self, s: &str) -> (r: String)
        ensures
            r@ == painted(*self, "1"@, s@),
    {
        self.paint("1", s)
    }

    pub fn dim(&self, s: &str) -> (r: String)
        ensures
            r@ == painted(*self, "2"@, s@),
    {
        self.paint("2", s)
    }

    pub fn red(&self, s: &str) -> (r: String)
        ensures
            r@ == painted(*self, "31"@, s@),
    {
        self.paint("31", s)
    }

    pub fn green(&self, s: &str) -> (r: String)
        ensures
            r@ == painted(*self, "32"@, s@),
    {
        self.paint("32", s)
    }

    pub fn yellow(&self, s: &str) -> (r: String)
        ensures
            r@ == painted(*self, "33"@, s@),
    {
        self.paint("33", s)
    }

    pub fn cyan(&self, s: &str) -> (r: String)
        ensures
            r@ == painted(*self, "36"@, s@),
    {
        self.paint("36", s)
    }

    pub fn magenta(&self, s: &str) -> (r: String)
        ensures
            r@ == painted(*self, "35"@, s@),
    {
        self.paint("35", s)
    }

    /// A compact section divider that remains readable without colour.
    pub fn section(&self, label: &str) -> (r: String)
        ensures
            r@ == section_text(*self, label@),
    {
        self.cyan(
            cat3("── ", label, " ─────────────────────────────────────────").as_str(),
        )
    }

    pub fn title(&self, label: &str, detail: &str) -> (r: String)
        ensures
            r@ == title_text(*self, label@, detail@),
    {
        cat3(self.bold(label).as_str(), "  ", self.dim(detail).as_str())
    }

    pub fn severity(&self, score: u8) -> (r: String)
        ensures
            r@ == painted(*self, score_code(score), severity_label(score)),
    {
        self.scored(
            score,
            if score >= 75 {
                "HOT"
            } else if score >= 45 {
                "WATCH"
            } else {
                "CALM"
            },
        )
    }

    /// A text in the colour of a score.
    pub fn scored(&self, score: u8, s: &str) -> (r: String)
        ensures
            r@ == painted(*self, score_code(score), s@),
    {
        if score >= 75 {
            self.red(s)
        } else if score >= 45 {
            self.yellow(s)
        } else {
            self.green(s)
        }
    }

    pub fn score_colored(&self, score: u8) -> (r: String)
        ensures
            r@ == painted(*self, score_code(score), bar_text(score, 10)),
    {
        self.scored(score, bar(score, 10).as_str())
    }

    /// A table cell of a given width.
    pub fn cell(&self, s: &str, width: usize) -> (r: String)
        ensures
            r@ == cell_text(s@, width as nat),
    {
        let v: Vec<char> = chars_of(s);
        if v.len() > width && width > 0 {
            let head: String = text_between(&v, 0, width - 1);
            assert(head@ =~= s@.take(width - 1));
            cat2(head.as_str(), "…")
        } else {
            pad_right(s, width)
        }
    }

    /// A number in a column, flush right.
    pub fn number(&self, s: &str, width: usize) -> (r: String)
        ensures
            r@ == padded_left(s@, width as nat, ' '),
    {
        pad_left(s, width, ' ')
    }

    /// A column heading.
    pub fn table_header(&self, s: &str) -> (r: String)
        ensures
            r@ == painted(*self, "1"@, s@),
    {
        self.bold(s)
    }
}

// ------------------------------------------------------------ laws

/// A bar is exactly as wide as asked, and a higher score fills no less of it.
pub proof fn bars_keep_their_width(a: u8, b: u8, width: nat, i: int)
    requires
        a <= b,
        0 <= i < width,
    ensures
        bar_text(a, width).len() == width,
        bar_text(a, width)[i] == '█' ==> bar_text(b, width)[i] == '█',
{
    assert(a as nat * width / 100 <= b as nat * width / 100) by (nonlinear_arith)
        requires
            a <= b,
    ;
    let share = b as nat * width / 100;
    let filled = if share > width {
        width
    } else {
        share
    };
    if i < filled {
        assert(bar_text(b, width)[i] == repeated('█', filled)[i]);
    }
}

/// A cell is exactly as wide as asked.
pub proof fn cells_keep_their_width(s: Seq<char>, width: nat)
    requires
        width > 0,
    ensures
        cell_text(s, width).len() == width,
{
    reveal_strlit("…");
}

/// A score is hot and red from 75 on, to be watched and yellow from 45 on,
/// and calm and green below.
pub proof fn scores_are_judged_by_their_height(score: u8)
    ensures
        score >= 75 ==> score_code(score) == "31"@ && severity_label(score) == "HOT"@,
        45 <= score < 75 ==> score_code(score) == "33"@ && severity_label(score) == "WATCH"@,
        score < 45 ==> score_code(score) == "32"@ && severity_label(score) == "CALM"@,
{
}

/// A bar is filled as far as the score goes.
pub proof fn bars_fill_by_the_score(score: u8, width: nat, i: int)
    requires
        score <= 100,
        0 <= i < width,
    ensures
        bar_text(score, width)[i] == '█' <==> (i + 1) * 100 <= score * width,
        bar_text(score, width)[i] == '░' <==> (i + 1) * 100 > score * width,
{
    let share = score as nat * width / 100;
    assert(score as nat * width <= 100 * width) by (nonlinear_arith)
        requires
            score <= 100,
    ;
    assert(share <= width);
    assert(i < share <==> (i + 1) * 100 <= score as nat * width);
}

/// A cell shows a text that fits from its start, filled up with spaces, and
/// cuts a longer one with a mark at its end.
pub proof fn cells_show_their_text(s: Seq<char>, width: nat, i: int)
    requires
        0 <= i < width,
    ensures
        s.len() <= width && i < s.len() ==> cell_text(s, width)[i] == s[i],
        s.len() <= width && i >= s.len() ==> cell_text(s, width)[i] == ' ',
        s.len() > width && i < width - 1 ==> cell_text(s, width)[i] == s[i],
        s.len() > width && i == width - 1 ==> cell_text(s, width)[i] == '…',
{
    reveal_strlit("…");
}

/// Colours go around a text and change nothing of it, and none are there where
/// they are off.
pub proof fn colours_go_around_a_text(code: Seq<char>, s: Seq<char>)
    ensures
        painted(Theme { enabled: false }, code, s) == s,
        painted(Theme { enabled: true }, code, s) == "\x1b["@ + code + "m"@ + s + "\x1b[0m"@,
{
}

} // verus!
