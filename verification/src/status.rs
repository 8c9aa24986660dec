//! The one-line status display of a single process, drawn with termion's
//! escape sequences.
use vstd::prelude::*;
use crate::text::{append_decimal, decimal};

verus! {

/// The control sequence introducer, `ESC [`.
pub open spec fn csi() -> Seq<char> {
    seq!['\x1b', '[']
}

/// termion's `cursor::Goto(x, y)`: `ESC [ y ; x H` (one-based column `x`, row `y`).
pub open spec fn goto_code(x: u16, y: u16) -> Seq<char> {
    csi() + decimal(y as nat) + seq![';'] + decimal(x as nat) + seq!['H']
}

/// termion's `clear::CurrentLine`: `ESC [ 2 K`.
pub open spec fn clear_line_code() -> Seq<char> {
    csi() + seq!['2', 'K']
}

/// termion's `color::Fg(color::Reset)`: `ESC [ 39 m`.
pub open spec fn fg_reset_code() -> Seq<char> {
    csi() + seq!['3', '9', 'm']
}

/// termion's foreground colour `n` of the 256-colour palette: `ESC [ 38;5;n m`.
pub open spec fn fg_palette_code(n: char) -> Seq<char> {
    csi() + seq!['3', '8', ';', '5', ';', n, 'm']
}

/// Renders termion's `cursor::Goto(x, y)`. Its `Display` writes `ESC [ y ; x H`
/// with both numbers in decimal; it asserts in debug builds that the position is
/// not `(0, 0)`.
#[verifier::external_body]
fn goto_text(x: u16, y: u16) -> (res: String)
    requires
        !(x == 0 && y == 0),
    ensures
        res@ == goto_code(x, y),
{
    format!("{}", termion::cursor::Goto(x, y))
}

/// Renders termion's `clear::CurrentLine`, whose `Display` writes `ESC [ 2 K`.
#[verifier::external_body]
fn clear_line_text() -> (res: String)
    ensures
        res@ == clear_line_code(),
{
    format!("{}", termion::clear::CurrentLine)
}

/// Renders termion's `color::Fg(color::Reset)`, whose `Display` always writes `ESC [ 39 m`.
#[verifier::external_body]
fn fg_reset_text() -> (res: String)
    ensures
        res@ == fg_reset_code(),
{
    format!("{}", termion::color::Fg(termion::color::Reset))
}

/// The blue and yellow foreground switches as termion renders them.
pub open spec fn highlight_codes(blue: Seq<char>, yellow: Seq<char>) -> bool {
    (blue == fg_palette_code('4') && yellow == fg_palette_code('3')) || (blue.len() == 0 && yellow.len() == 0)
}

/// Renders termion's `color::Fg(color::Blue)` and `color::Fg(color::Yellow)`.
/// Their `Display` writes `ESC [ 38;5;4 m` and `ESC [ 38;5;3 m`, or nothing when
/// the `NO_COLOR` environment variable is set; termion reads that variable once
/// per process, so both are written or neither. Which of the two depends on the
/// environment and is not stated.
#[verifier::external_body]
fn fg_highlight_texts() -> (res: (String, String))
    ensures
        highlight_codes(res.0@, res.1@),
{
    (format!("{}", termion::color::Fg(termion::color::Blue)), format!("{}", termion::color::Fg(termion::color::Yellow)))
}

/// The status line of one process: cursor placement and line clearing, then
/// `PID: pid NAME: name CPU cpu% MEM: memMb CPU Total: total`, with the given
/// colour switches in between. `cpu`, `mem` and `total` are the texts that show
/// the measurements.
pub open spec fn status_text(
    goto: Seq<char>,
    clear: Seq<char>,
    reset: Seq<char>,
    blue: Seq<char>,
    yellow: Seq<char>,
    pid: u32,
    name: Seq<char>,
    cpu: Seq<char>,
    mem: Seq<char>,
    total: Seq<char>,
) -> Seq<char> {
    goto + clear + "PID: "@ + decimal(pid as nat) + " "@ + reset + "NAME: "@ + name + " "@ + blue + "CPU "@ + cpu
        + "% "@ + reset + "MEM: "@ + mem + "Mb "@ + yellow + "CPU Total: "@ + total + " "@ + reset
}

/// Builds the status line from the escape sequences and the field texts.
pub fn compose_status_line(
    goto: &str,
    clear: &str,
    reset: &str,
    blue: &str,
    yellow: &str,
    pid: u32,
    name: &str,
    cpu: &str,
    mem: &str,
    total: &str,
) -> (res: String)
    ensures
        res@ == status_text(goto@, clear@, reset@, blue@, yellow@, pid, name@, cpu@, mem@, total@),
{
    let mut s = String::from_str(goto);
    s.append(clear);
    s.append("PID: ");
    append_decimal(&mut s, pid as u64);
    s.append(" ");
    s.append(reset);
    s.append("NAME: ");
    s.append(name);
    s.append(" ");
    s.append(blue);
    s.append("CPU ");
    s.append(cpu);
    s.append("% ");
    s.append(reset);
    s.append("MEM: ");
    s.append(mem);
    s.append("Mb ");
    s.append(yellow);
    s.append("CPU Total: ");
    s.append(total);
    s.append(" ");
    s.append(reset);
    assert(s@ =~= status_text(goto@, clear@, reset@, blue@, yellow@, pid, name@, cpu@, mem@, total@));
    s
}

/// The status line of a process drawn on terminal row `row`, from column one.
/// The blue and yellow switches are termion's, which are both empty when
/// colours are disabled (see `fg_highlight_texts`).
pub fn status_line(row: u16, pid: u32, name: &str, cpu: &str, mem: &str, total: &str) -> (res: String)
    ensures
        exists|blue: Seq<char>, yellow: Seq<char>|
            highlight_codes(blue, yellow) && res@ == status_text(
                goto_code(1, row),
                clear_line_code(),
                fg_reset_code(),
                blue,
                yellow,
                pid,
                name@,
                cpu@,
                mem@,
                total@,
            ),
{
    let goto = goto_text(1, row);
    let clear = clear_line_text();
    let reset = fg_reset_text();
    let (blue, yellow) = fg_highlight_texts();
    compose_status_line(
        goto.as_str(),
        clear.as_str(),
        reset.as_str(),
        blue.as_str(),
        yellow.as_str(),
        pid,
        name,
        cpu,
        mem,
        total,
    )
}

} // verus!
