use vstd::prelude::*;
use crate::json::{entries_view, json_object_entries, object_entries};
use crate::text::decimal;

verus! {

/// The escape sequence that moves the cursor to column `x`, row `y` (one-based).
pub open spec fn goto_text(x: nat, y: nat) -> Seq<char> {
    "\x1B["@ + decimal(y) + ";"@ + decimal(x) + "H"@
}

/// The escape sequence that selects magenta (palette colour 5) as foreground.
pub open spec fn magenta_fg() -> Seq<char> {
    "\x1B[38;5;5m"@
}

/// The escape sequence that selects yellow (palette colour 3) as foreground.
pub open spec fn yellow_fg() -> Seq<char> {
    "\x1B[38;5;3m"@
}

/// Relies on the `Display` form of `termion::cursor::Goto(x, y)`, which writes
/// `ESC [ y ; x H`; its debug assertion refuses `Goto(0, 0)`.
#[verifier::external_body]
fn cursor_goto(x: u16, y: u16) -> (r: String)
    requires
        x != 0 || y != 0,
    ensures
        r@ == goto_text(x as nat, y as nat),
{
    format!("{}", termion::cursor::Goto(x, y))
}

/// Relies on the `Display` form of `termion::color::Fg(termion::color::Magenta)`:
/// the magenta escape sequence, or nothing where the environment disables colour.
#[verifier::external_body]
fn fg_magenta() -> (r: String)
    ensures
        r@ == magenta_fg() || r@.len() == 0,
{
    format!("{}", termion::color::Fg(termion::color::Magenta))
}

/// Relies on the `Display` form of `termion::color::Fg(termion::color::Yellow)`:
/// the yellow escape sequence, or nothing where the environment disables colour.
#[verifier::external_body]
fn fg_yellow() -> (r: String)
    ensures
        r@ == yellow_fg() || r@.len() == 0,
{
    format!("{}", termion::color::Fg(termion::color::Yellow))
}

/// `c` is the colour prefix of a record with ordinal `n`: magenta for an even
/// ordinal, yellow for an odd one, or empty where colour is disabled.
pub open spec fn is_color_for(n: nat, c: Seq<char>) -> bool {
    c.len() == 0 || c == (if n % 2 == 0 {
        magenta_fg()
    } else {
        yellow_fg()
    })
}

/// The text of an object's entries: per entry the key, a tab, the value's form,
/// a newline, then `bottom`.
pub open spec fn entries_text(es: Seq<(Seq<char>, Seq<char>)>, bottom: Seq<char>) -> Seq<char>
    decreases es.len(),
{
    if es.len() == 0 {
        Seq::empty()
    } else {
        entries_text(es.drop_last(), bottom) + es.last().0 + "\t"@ + es.last().1 + "\n"@ + bottom
    }
}

/// The text that follows the colour prefix for the raw record `line`.
pub open spec fn record_text(line: Seq<char>, bottom: Seq<char>) -> Seq<char> {
    match json_object_entries(line) {
        Some(es) => entries_text(es, bottom),
        None => "INVALID JSON LINE: "@ + line,
    }
}

/// The colour prefix for line ordinal `line_count`.
pub fn color(line_count: u16) -> (r: String)
    ensures
        is_color_for(line_count as nat, r@),
{
    if line_count % 2 == 0 {
        fg_magenta()
    } else {
        fg_yellow()
    }
}

/// Formats one raw record for display on a screen `screen_height` rows high: a
/// move to the start of the bottom row, the colour prefix of `line_count`, then
/// either the object's entries (each ended by a newline and a move back to the
/// bottom row)
/// or, for anything that is not a JSON object, `INVALID JSON LINE: ` and the
/// record verbatim.
pub fn generate_line(line: String, line_count: u16, screen_height: u16) -> (r: String)
    ensures
        exists|c: Seq<char>|
            is_color_for(line_count as nat, c) && r@ == goto_text(1, screen_height as nat) + c
                + record_text(line@, goto_text(1, screen_height as nat)),
{
    let mut output = cursor_goto(1, screen_height);
    let c = color(line_count);
    output.append(c.as_str());
    let ghost head = output@;
    let ghost bottom = goto_text(1, screen_height as nat);
    match object_entries(line.as_str()) {
        Some(entries) => {
            let ghost es = entries_view(entries@);
            let mut i: usize = 0;
            while i < entries.len()
                invariant
                    i <= entries.len(),
                    es == entries_view(entries@),
                    bottom == goto_text(1, screen_height as nat),
                    output@ == head + entries_text(es.subrange(0, i as int), bottom),
                decreases entries.len() - i,
            {
                let g = cursor_goto(1, screen_height);
                let ghost prev = output@;
                let ghost e = es[i as int];
                output.append(entries[i].0.as_str());
                output.append("\t");
                output.append(entries[i].1.as_str());
                output.append("\n");
                output.append(g.as_str());
                proof {
                    let s = es.subrange(0, i + 1);
                    assert(s.drop_last() =~= es.subrange(0, i as int));
                    assert(s.last() == es[i as int]);
                    assert(es[i as int] == (entries@[i as int].0@, entries@[i as int].1@));
                    assert(entries_text(s, bottom) == entries_text(es.subrange(0, i as int), bottom)
                        + e.0 + "\t"@ + e.1 + "\n"@ + bottom);
                    assert(output@ =~= prev + e.0 + "\t"@ + e.1 + "\n"@ + bottom);
                    assert(output@ =~= head + entries_text(s, bottom));
                }
                i = i + 1;
            }
            assert(es.subrange(0, i as int) =~= es);
        },
        None => {
            output.append("INVALID JSON LINE: ");
            output.append(line.as_str());
        },
    }
    assert(output@ =~= goto_text(1, screen_height as nat) + c@ + record_text(line@, bottom));
    output
}

} // verus!
