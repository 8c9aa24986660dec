//! The lines of the process table as the terminal shows them.
use vstd::prelude::*;
use crate::table::{is_nan_key, ProcessRow, POS_INF_KEY};
use crate::text::{append_decimal, append_padded, decimal, pad_right, truncate_name, truncated};

verus! {

/// A terminal colour used in the table.
#[derive(Copy, Clone, PartialEq, Eq, Structural, Debug)]
pub enum Color {
    Red,
    Yellow,
    Green,
    Reset,
}

/// The ANSI escape sequence that switches to `c`.
pub open spec fn color_code(c: Color) -> Seq<char> {
    match c {
        Color::Red => seq!['\x1b', '[', '3', '1', 'm'],
        Color::Yellow => seq!['\x1b', '[', '3', '3', 'm'],
        Color::Green => seq!['\x1b', '[', '3', '2', 'm'],
        Color::Reset => seq!['\x1b', '[', '0', 'm'],
    }
}

/// The escape sequence of `c`.
pub fn color_text(c: Color) -> (res: &'static str)
    ensures
        res@ == color_code(c),
{
    proof {
        reveal_strlit("\x1b[31m");
        reveal_strlit("\x1b[33m");
        reveal_strlit("\x1b[32m");
        reveal_strlit("\x1b[0m");
    }
    match c {
        Color::Red => "\x1b[31m",
        Color::Yellow => "\x1b[33m",
        Color::Green => "\x1b[32m",
        Color::Reset => "\x1b[0m",
    }
}

/// Ordering key of a CPU share of 50 %: from there on the share is shown in red.
pub const CPU_RED_FROM: u64 = 0xC049_0000_0000_0000;

/// Ordering key of a CPU share of 20 %: from there on the share is shown in yellow.
pub const CPU_YELLOW_FROM: u64 = 0xC034_0000_0000_0000;

/// Ordering key of 100 MB: memory above it is shown in yellow.
pub const MEM_YELLOW_ABOVE: u64 = 0xC059_0000_0000_0000;

/// The colour of a CPU share with ordering key `cpu`: a NaN share compares
/// below every threshold and is green.
pub open spec fn spec_cpu_color(cpu: u64) -> Color {
    if is_nan_key(cpu) {
        Color::Green
    } else if cpu >= CPU_RED_FROM {
        Color::Red
    } else if cpu >= CPU_YELLOW_FROM {
        Color::Yellow
    } else {
        Color::Green
    }
}

/// The colour of a memory size with ordering key `mem`: a NaN size is not
/// above the threshold and keeps the terminal's colour.
pub open spec fn spec_mem_color(mem: u64) -> Color {
    if !is_nan_key(mem) && mem > MEM_YELLOW_ABOVE {
        Color::Yellow
    } else {
        Color::Reset
    }
}

/// Red from 50 % CPU, yellow from 20 %, green below (and for NaN).
pub fn cpu_color(cpu: u64) -> (res: Color)
    ensures
        res == spec_cpu_color(cpu),
{
    if cpu > POS_INF_KEY {
        Color::Green
    } else if cpu >= CPU_RED_FROM {
        Color::Red
    } else if cpu >= CPU_YELLOW_FROM {
        Color::Yellow
    } else {
        Color::Green
    }
}

/// Yellow above 100 MB, the terminal's colour otherwise (and for NaN).
pub fn mem_color(mem: u64) -> (res: Color)
    ensures
        res == spec_mem_color(mem),
{
    if mem > MEM_YELLOW_ABOVE && mem <= POS_INF_KEY {
        Color::Yellow
    } else {
        Color::Reset
    }
}

/// Width of the PID column.
pub const PID_WIDTH: usize = 6;

/// Width of the NAME column; longer names are cut to it.
pub const NAME_WIDTH: usize = 18;

/// Width of the CPU% column.
pub const CPU_WIDTH: usize = 8;

/// Width of the RAM MB column.
pub const MEM_WIDTH: usize = 10;

/// Width of the RAM % column.
pub const PERCENT_WIDTH: usize = 8;

/// Width of the IO column.
pub const IO_WIDTH: usize = 10;

/// The column titles, each in its field, separated by one space.
pub open spec fn header_text(show_io: bool) -> Seq<char> {
    let base = pad_right("PID"@, PID_WIDTH as nat) + " "@ + pad_right("NAME"@, NAME_WIDTH as nat) + " "@
        + pad_right("CPU%"@, CPU_WIDTH as nat) + " "@ + pad_right("RAM MB"@, MEM_WIDTH as nat) + " "@
        + pad_right("RAM %"@, PERCENT_WIDTH as nat);
    if show_io {
        base + " "@ + pad_right("IO (B/s)"@, IO_WIDTH as nat)
    } else {
        base
    }
}

/// The title line of the table; the IO column only when `show_io`.
pub fn header_line(show_io: bool) -> (res: String)
    ensures
        res@ == header_text(show_io),
{
    let mut s = String::new();
    append_padded(&mut s, "PID", PID_WIDTH);
    s.append(" ");
    append_padded(&mut s, "NAME", NAME_WIDTH);
    s.append(" ");
    append_padded(&mut s, "CPU%", CPU_WIDTH);
    s.append(" ");
    append_padded(&mut s, "RAM MB", MEM_WIDTH);
    s.append(" ");
    append_padded(&mut s, "RAM %", PERCENT_WIDTH);
    if show_io {
        s.append(" ");
        append_padded(&mut s, "IO (B/s)", IO_WIDTH);
    }
    assert(s@ =~= header_text(show_io));
    s
}

/// One table line for `row`. The measured values come as the texts that show
/// them (`cpu`, `mem`, `percent`, `io`); the CPU and memory fields are coloured
/// from the row's keys.
pub open spec fn row_text(
    row: ProcessRow,
    cpu: Seq<char>,
    mem: Seq<char>,
    percent: Seq<char>,
    io: Seq<char>,
    show_io: bool,
) -> Seq<char> {
    let base = pad_right(decimal(row.pid as nat), PID_WIDTH as nat) + " "@
        + pad_right(truncated(row.name@, NAME_WIDTH as nat), NAME_WIDTH as nat) + " "@
        + color_code(spec_cpu_color(row.cpu)) + pad_right(cpu, CPU_WIDTH as nat) + color_code(Color::Reset) + " "@
        + color_code(spec_mem_color(row.mem)) + pad_right(mem, MEM_WIDTH as nat) + color_code(Color::Reset) + " "@
        + pad_right(percent, PERCENT_WIDTH as nat);
    if show_io {
        base + " "@ + pad_right(io, IO_WIDTH as nat)
    } else {
        base
    }
}

/// The table line of `row`; the IO field only when `show_io`.
pub fn row_line(row: &ProcessRow, cpu: &str, mem: &str, percent: &str, io: &str, show_io: bool) -> (res: String)
    ensures
        res@ == row_text(*row, cpu@, mem@, percent@, io@, show_io),
{
    let mut s = String::new();
    let mut pid = String::new();
    append_decimal(&mut pid, row.pid as u64);
    append_padded(&mut s, pid.as_str(), PID_WIDTH);
    s.append(" ");
    let name = truncate_name(row.name.as_str(), NAME_WIDTH);
    append_padded(&mut s, name.as_str(), NAME_WIDTH);
    s.append(" ");
    s.append(color_text(cpu_color(row.cpu)));
    append_padded(&mut s, cpu, CPU_WIDTH);
    s.append(color_text(Color::Reset));
    s.append(" ");
    s.append(color_text(mem_color(row.mem)));
    append_padded(&mut s, mem, MEM_WIDTH);
    s.append(color_text(Color::Reset));
    s.append(" ");
    append_padded(&mut s, percent, PERCENT_WIDTH);
    if show_io {
        s.append(" ");
        append_padded(&mut s, io, IO_WIDTH);
    }
    assert(s@ =~= row_text(*row, cpu@, mem@, percent@, io@, show_io));
    s
}

} // verus!

verus! {

/// The colours by the measured value. The keys below are those of 50.0
/// (`0xC049_0000_0000_0000`), 20.0 (`0xC034_0000_0000_0000`), 100.0
/// (`0xC059_0000_0000_0000`) and +∞ (`0xFFF0_0000_0000_0000`); keys above +∞'s
/// or below −∞'s (`0x000F_FFFF_FFFF_FFFF`) are NaNs. A CPU share is red from 50 %
/// on, yellow from 20 % below 50 %, and green otherwise (NaN included); a memory
/// size is yellow exactly when it is above 100 MB (NaN is not), and keeps the
/// terminal's colour otherwise. Hence a larger measurement never gets a weaker
/// highlight.
pub proof fn lemma_colors_by_value(c: u64, m: u64, m2: u64)
    ensures
        (spec_cpu_color(c) == Color::Red) <==> (0xC049_0000_0000_0000u64 <= c && c <= 0xFFF0_0000_0000_0000u64),
        (spec_cpu_color(c) == Color::Yellow) <==> (0xC034_0000_0000_0000u64 <= c && c < 0xC049_0000_0000_0000u64),
        (spec_cpu_color(c) == Color::Green) <==> (c < 0xC034_0000_0000_0000u64 || c > 0xFFF0_0000_0000_0000u64),
        (spec_mem_color(m) == Color::Yellow) <==> (0xC059_0000_0000_0000u64 < m && m <= 0xFFF0_0000_0000_0000u64),
        (spec_mem_color(m) == Color::Reset) <==> !(0xC059_0000_0000_0000u64 < m && m <= 0xFFF0_0000_0000_0000u64),
        m <= m2 <= 0xFFF0_0000_0000_0000u64 && spec_mem_color(m) == Color::Yellow ==> spec_mem_color(m2) == Color::Yellow,
{
}

} // verus!
