//! Text laid out for the terminal: progress bars and the aligned rows of
//! the command-line model listings.

use vstd::prelude::*;
use crate::model::Model;
use crate::size::{format_size, size_text};
use crate::text::{decimal, push_char, push_decimal, push_str};

verus! {

/// `n` copies of `c`.
pub open spec fn repeated(c: char, n: nat) -> Seq<char> {
    Seq::new(n, |i: int| c)
}

/// `s` followed by spaces up to `width` characters (as `{:<width}` pads).
pub open spec fn padded_right(s: Seq<char>, width: nat) -> Seq<char> {
    if s.len() < width {
        s + repeated(' ', (width - s.len()) as nat)
    } else {
        s
    }
}

/// `s` preceded by spaces up to `width` characters (as `{:>width}` pads).
pub open spec fn padded_left(s: Seq<char>, width: nat) -> Seq<char> {
    if s.len() < width {
        repeated(' ', (width - s.len()) as nat) + s
    } else {
        s
    }
}

/// Appends `n` copies of `c`.
fn push_repeated(s: &mut String, c: char, n: usize)
    ensures
        final(s)@ == old(s)@ + repeated(c, n as nat),
{
    let mut i: usize = 0;
    while i < n
        invariant
            i <= n,
            s@ == old(s)@ + repeated(c, i as nat),
        decreases n - i,
    {
        push_char(s, c);
        i = i + 1;
        assert(s@ =~= old(s)@ + repeated(c, i as nat));
    }
}

/// A progress bar: `[`, `filled` full blocks (at most `width`), light
/// shade for the rest of the `width` cells, `] `, then the percentage and
/// `%`.
pub open spec fn bar_text(filled: usize, width: u16, pct: u16) -> Seq<char> {
    let f: nat = if filled <= width { filled as nat } else { width as nat };
    "["@ + repeated('\u{2588}', f) + repeated('\u{2591}', (width - f) as nat) + "] "@ + decimal(
        pct as nat,
    ) + "%"@
}

/// Renders a progress bar of `width` cells with `filled` of them full,
/// labelled with `pct` percent (`bar_text`). How many cells are full is
/// the caller's rounding of `pct` percent of `width`.
pub fn progress_bar_text(filled: usize, width: u16, pct: u16) -> (r: String)
    ensures
        r@ == bar_text(filled, width, pct),
{
    let f: usize = if filled <= width as usize {
        filled
    } else {
        width as usize
    };
    let mut s = String::new();
    push_str(&mut s, "[");
    push_repeated(&mut s, '\u{2588}', f);
    push_repeated(&mut s, '\u{2591}', width as usize - f);
    push_str(&mut s, "] ");
    push_decimal(&mut s, pct as u64);
    push_str(&mut s, "%");
    assert(s@ =~= bar_text(filled, width, pct));
    s
}

/// The size shown for a model in a listing: its catalogue size when known,
/// else the remembered size, else 0.
pub open spec fn shown_size(m: Model, cached: Option<u64>) -> u64 {
    if m.size_bytes > 0 {
        m.size_bytes
    } else {
        match cached {
            Some(c) => c,
            None => 0,
        }
    }
}

/// The size shown for a model in a listing (`shown_size`); `cached` is the
/// size remembered for its URL.
pub fn listed_size(m: &Model, cached: Option<u64>) -> (r: u64)
    ensures
        r == shown_size(*m, cached),
{
    if m.size_bytes > 0 {
        m.size_bytes
    } else {
        match cached {
            Some(c) => c,
            None => 0,
        }
    }
}

/// Appends `t` padded on the right to `width` characters.
fn push_padded_right(s: &mut String, t: &str, width: usize)
    ensures
        final(s)@ == old(s)@ + padded_right(t@, width as nat),
{
    push_str(s, t);
    let n = crate::text::chars_of(t).len();
    if n < width {
        push_repeated(s, ' ', width - n);
    }
    assert(s@ =~= old(s)@ + padded_right(t@, width as nat));
}

/// Appends `t` padded on the left to `width` characters.
fn push_padded_left(s: &mut String, t: &str, width: usize)
    ensures
        final(s)@ == old(s)@ + padded_left(t@, width as nat),
{
    let n = crate::text::chars_of(t).len();
    if n < width {
        push_repeated(s, ' ', width - n);
    }
    push_str(s, t);
    assert(s@ =~= old(s)@ + padded_left(t@, width as nat));
}

/// `t` padded with spaces on the right to `width` characters.
pub fn pad_right(t: &str, width: usize) -> (r: String)
    ensures
        r@ == padded_right(t@, width as nat),
{
    let mut s = String::new();
    push_padded_right(&mut s, t, width);
    s
}

/// `t` padded with spaces on the left to `width` characters.
pub fn pad_left(t: &str, width: usize) -> (r: String)
    ensures
        r@ == padded_left(t@, width as nat),
{
    let mut s = String::new();
    push_padded_left(&mut s, t, width);
    s
}

/// "category/filename" of a model.
pub open spec fn model_label(m: Model) -> Seq<char> {
    m.category@ + "/"@ + m.filename@
}

fn label_of(m: &Model) -> (r: String)
    ensures
        r@ == model_label(*m),
{
    let mut s = String::new();
    push_str(&mut s, m.category.as_str());
    push_str(&mut s, "/");
    push_str(&mut s, m.filename.as_str());
    s
}

/// A row of the model list: two spaces, the label padded to 50 characters,
/// a space, the size right-aligned in 12 characters, two spaces and a check
/// mark or a cross.
pub open spec fn list_row_text(m: Model, size: u64, exists: bool) -> Seq<char> {
    "  "@ + padded_right(model_label(m), 50) + " "@ + padded_left(size_text(size), 12) + "  "@ + (
    if exists {
        "\u{2713}"@
    } else {
        "\u{2717}"@
    })
}

/// Renders a row of the model list (`list_row_text`) for a model of
/// `size` bytes that is, or is not, on disk.
pub fn list_row(m: &Model, size: u64, exists: bool) -> (r: String)
    ensures
        r@ == list_row_text(*m, size, exists),
{
    let label = label_of(m);
    let size_s = format_size(size);
    let mut s = String::new();
    push_str(&mut s, "  ");
    push_padded_right(&mut s, label.as_str(), 50);
    push_str(&mut s, " ");
    push_padded_left(&mut s, size_s.as_str(), 12);
    push_str(&mut s, "  ");
    if exists {
        push_str(&mut s, "\u{2713}");
    } else {
        push_str(&mut s, "\u{2717}");
    }
    assert(s@ =~= list_row_text(*m, size, exists));
    s
}

/// A row of the status report: the label padded to 55 characters, a space,
/// the size right-aligned in 12 characters, a space, and a green "READY"
/// or a red "MISSING" mark.
pub open spec fn status_row_text(m: Model, size: u64, exists: bool) -> Seq<char> {
    padded_right(model_label(m), 55) + " "@ + padded_left(size_text(size), 12) + " "@ + (if exists {
        "\u{1b}[32m\u{2713} READY\u{1b}[0m"@
    } else {
        "\u{1b}[31m\u{2717} MISSING\u{1b}[0m"@
    })
}

/// Renders a row of the status report (`status_row_text`).
pub fn status_row(m: &Model, size: u64, exists: bool) -> (r: String)
    ensures
        r@ == status_row_text(*m, size, exists),
{
    let label = label_of(m);
    let size_s = format_size(size);
    let mut s = String::new();
    push_padded_right(&mut s, label.as_str(), 55);
    push_str(&mut s, " ");
    push_padded_left(&mut s, size_s.as_str(), 12);
    push_str(&mut s, " ");
    if exists {
        push_str(&mut s, "\u{1b}[32m\u{2713} READY\u{1b}[0m");
    } else {
        push_str(&mut s, "\u{1b}[31m\u{2717} MISSING\u{1b}[0m");
    }
    assert(s@ =~= status_row_text(*m, size, exists));
    s
}

/// The message logged after the log was offered to the clipboard:
/// "✓ Logs copied (<n> lines)" when it was taken, else where the session log
/// is kept: "Log: <path> (<n> lines)".
pub open spec fn copy_outcome_text(copied: bool, log_path: Seq<char>, lines: nat) -> Seq<char> {
    if copied {
        "\u{2713} Logs copied ("@ + decimal(lines) + " lines)"@
    } else {
        "Log: "@ + log_path + " ("@ + decimal(lines) + " lines)"@
    }
}

/// The message logged after copying `lines` log lines (`copy_outcome_text`).
pub fn copy_outcome(copied: bool, log_path: &str, lines: usize) -> (r: String)
    ensures
        r@ == copy_outcome_text(copied, log_path@, lines as nat),
{
    let mut s = String::new();
    if copied {
        push_str(&mut s, "\u{2713} Logs copied (");
    } else {
        push_str(&mut s, "Log: ");
        push_str(&mut s, log_path);
        push_str(&mut s, " (");
    }
    push_decimal(&mut s, lines as u64);
    push_str(&mut s, " lines)");
    s
}

} // verus!
