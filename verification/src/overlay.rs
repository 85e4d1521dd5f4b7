//! The sheet that covers a frozen pane until a key is pressed.

use vstd::prelude::*;
use vstd::string::*;

use crate::text;
use crate::text::{chars_of, parse_u16};

verus! {

/// How long a sheet stands before it is drawn anew.
pub const REDRAW_MS: u64 = 600;

/// The same character some times over.
pub open spec fn repeated(c: char, n: int) -> Seq<char> {
    Seq::new(
        if n < 0 {
            0
        } else {
            n as nat
        },
        |i: int| c,
    )
}

/// Writes the same character some times over.
fn repeat(c: char, n: usize) -> (r: String)
    ensures
        r@ == repeated(c, n as int),
{
    let mut out = String::new();
    let mut i: usize = 0;
    while i < n
        invariant
            i <= n,
            out@ =~= repeated(c, i as int),
        decreases n - i,
    {
        out.push(c);
        i = i + 1;
    }
    out
}

/// The room between the borders of a sheet.
pub open spec fn inner(width: int) -> int {
    if width < 2 {
        0
    } else {
        width - 2
    }
}

/// A text in the middle between the borders of a sheet, or as much of it as there is
/// room for.
pub open spec fn centered(text: Seq<char>, width: int) -> Seq<char> {
    let room = inner(width);
    if text.len() >= room {
        text.take(room)
    } else {
        let pad = room - text.len();
        repeated(' ', pad / 2) + text + repeated(' ', pad - pad / 2)
    }
}

/// Sets a text in the middle between the borders of a sheet.
pub fn center(text: &str, width: usize) -> (r: String)
    ensures
        r@ == centered(text@, width as int),
{
    let room: usize = width.saturating_sub(2);
    let chars = chars_of(text);
    if chars.len() >= room {
        let part = text.substring_char(0, room).to_owned();
        assert(part@ =~= text@.take(room as int));
        part
    } else {
        let pad: usize = room - chars.len();
        let left: usize = pad / 2;
        let right: usize = pad - left;
        repeat(' ', left).concat(text).concat(repeat(' ', right).as_str())
    }
}

/// What lies between the borders fills the room there, whatever the text is.
pub proof fn centered_text_fills_the_room(text: Seq<char>, width: int)
    ensures
        centered(text, width).len() == inner(width),
{
}

/// A size: what a variable says, unless that is too small, or else the usual one.
pub open spec fn size_in(variable: Option<Seq<char>>, least: u16, usual: u16) -> u16 {
    let said = match variable {
        Some(value) => text::number_up_to(value, 0xffff),
        None => None,
    };
    match said {
        Some(n) => if n >= least {
            n as u16
        } else {
            usual
        },
        None => usual,
    }
}

fn size_of(variable: Option<&str>, least: u16, usual: u16) -> (r: u16)
    ensures
        r == size_in(variable.deep_view(), least, usual),
{
    let said = match variable {
        Some(value) => parse_u16(value),
        None => None,
    };
    match said {
        Some(n) => if n >= least {
            n
        } else {
            usual
        },
        None => usual,
    }
}

/// The size of the terminal, in columns and rows, by two variables.
pub fn term_size(columns: Option<&str>, lines: Option<&str>) -> (r: (u16, u16))
    ensures
        r.0 == size_in(columns.deep_view(), 20, 80),
        r.1 == size_in(lines.deep_view(), 6, 24),
{
    (size_of(columns, 20, 80), size_of(lines, 6, 24))
}

/// How wide a sheet is.
pub open spec fn sheet_width(columns: u16) -> int {
    if columns < 40 {
        40
    } else if columns > 64 {
        64
    } else {
        columns as int
    }
}

/// How high a sheet is.
pub open spec fn sheet_height(rows: u16) -> int {
    if rows < 7 {
        rows as int
    } else {
        7
    }
}

/// How far in a sheet begins, on a side that has so much room.
pub open spec fn margin(room: u16, size: int) -> int {
    if room < size {
        0
    } else {
        (room - size) / 2
    }
}

/// The end of a line of a sheet.
pub open spec fn line_end() -> Seq<char> {
    "\u{1b}[0m\n"@
}

/// A text some times over.
pub open spec fn lines_over(line: Seq<char>, n: int) -> Seq<char>
    decreases n,
{
    if n <= 0 {
        Seq::empty()
    } else {
        lines_over(line, n - 1) + line
    }
}

/// A line of a sheet with a text in the middle.
pub open spec fn text_line(left: Seq<char>, text: Seq<char>, width: int) -> Seq<char> {
    left + "│"@ + centered(text, width) + "│"@ + line_end()
}

/// What draws a sheet.
pub open spec fn sheet(columns: u16, rows: u16) -> Seq<char> {
    let width = sheet_width(columns);
    let left = repeated(' ', margin(columns, width));
    let border = repeated('─', inner(width));
    "\u{1b}[2J\u{1b}[H\u{1b}[?25l\u{1b}[48;5;17m\u{1b}[38;5;255m"@ + "\n"@ + lines_over(
        left + line_end(),
        margin(rows, sheet_height(rows)),
    ) + (left + "╭"@ + border + "╮"@ + line_end()) + text_line(left, "❄  已冻结"@, width)
        + text_line(left, "整个标签页已冻结 · 内存已释放"@, width) + text_line(
        left,
        "按任意键 恢复整个 tab"@,
        width,
    ) + (left + "╰"@ + border + "╯"@ + line_end())
}

fn write_line(left: &str, text: &str, width: usize) -> (r: String)
    ensures
        r@ == text_line(left@, text@, width as int),
{
    left.to_owned().concat("│").concat(center(text, width).as_str()).concat("│").concat(
        "\u{1b}[0m\n",
    )
}

/// Draws a sheet for a terminal of some size.
pub fn draw(columns: u16, rows: u16) -> (r: String)
    ensures
        r@ == sheet(columns, rows),
{
    let width: usize = if columns < 40 {
        40
    } else if columns > 64 {
        64
    } else {
        columns as usize
    };
    let height: usize = if rows < 7 {
        rows as usize
    } else {
        7
    };
    let left_pad: usize = (columns as usize).saturating_sub(width) / 2;
    let top_pad: usize = (rows as usize).saturating_sub(height) / 2;
    let left = repeat(' ', left_pad);
    let border = repeat('─', width - 2);
    let blank = left.clone().concat("\u{1b}[0m\n");
    let mut out = "\u{1b}[2J\u{1b}[H\u{1b}[?25l\u{1b}[48;5;17m\u{1b}[38;5;255m".to_owned().concat(
        "\n",
    );
    let ghost front = out@;
    let mut i: usize = 0;
    assert(out@ =~= front + lines_over(blank@, 0));
    while i < top_pad
        invariant
            i <= top_pad,
            out@ == front + lines_over(blank@, i as int),
        decreases top_pad - i,
    {
        out.append(blank.as_str());
        i = i + 1;
        assert(out@ =~= front + lines_over(blank@, i as int));
    }
    let top = left.clone().concat("╭").concat(border.as_str()).concat("╮").concat(
        "\u{1b}[0m\n",
    );
    let bottom = left.clone().concat("╰").concat(border.as_str()).concat("╯").concat(
        "\u{1b}[0m\n",
    );
    out.append(top.as_str());
    out.append(write_line(left.as_str(), "❄  已冻结", width).as_str());
    out.append(
        write_line(left.as_str(), "整个标签页已冻结 · 内存已释放", width).as_str(),
    );
    out.append(write_line(left.as_str(), "按任意键 恢复整个 tab", width).as_str());
    out.append(bottom.as_str());
    out
}

/// What takes a sheet away.
pub fn clear() -> (r: String)
    ensures
        r@ == "\u{1b}[?25h\u{1b}[0m\u{1b}[2J\u{1b}[H"@,
{
    "\u{1b}[?25h\u{1b}[0m\u{1b}[2J\u{1b}[H".to_owned()
}

/// A text that there is room for stands whole between blanks, as many on its left as on
/// its right, or one fewer; of a text that is too long the beginning is shown.
pub proof fn text_stands_in_the_middle(text: Seq<char>, width: int, i: int)
    requires
        width >= 2,
    ensures
        ({
            let line = centered(text, width);
            let room = width - 2;
            let left = (room - text.len()) / 2;
            &&& line.len() == room
            &&& text.len() <= room ==> {
                &&& 0 <= i < text.len() ==> line[left + i] == text[i]
                &&& 0 <= i < left ==> line[i] == ' '
                &&& left + text.len() <= i < room ==> line[i] == ' '
            }
            &&& text.len() > room && 0 <= i < room ==> line[i] == text[i]
        }),
{
}

/// A size is the one that a variable tells, if that is a number of its least size or
/// more and fits; otherwise the usual one.
pub proof fn size_is_as_told(n: u64, least: u16, usual: u16)
    ensures
        size_in(Some(text::decimal_of(n as nat)), least, usual) == (if least <= n <= 0xffff {
            n as u16
        } else {
            usual
        }),
        size_in(None, least, usual) == usual,
{
    text::numbers_are_read(n);
    let digits = text::decimal_of(n as nat);
    assert(text::number(digits) == Some(n));
}

/// A sheet is forty to sixty-four columns wide and up to seven rows high, and stands in
/// the middle of a terminal that is larger.
pub proof fn sheet_fits_the_terminal(columns: u16, rows: u16)
    ensures
        40 <= sheet_width(columns) <= 64,
        40 <= columns <= 64 ==> sheet_width(columns) == columns,
        sheet_height(rows) <= 7,
        rows <= 7 ==> sheet_height(rows) == rows,
        rows > 7 ==> sheet_height(rows) == 7,
        columns <= 64 ==> margin(columns, sheet_width(columns)) == 0,
        columns > 64 ==> {
            let left = margin(columns, sheet_width(columns));
            0 <= (columns - 64) - 2 * left <= 1
        },
        rows > 7 ==> {
            let top = margin(rows, sheet_height(rows));
            0 <= (rows - 7) - 2 * top <= 1
        },
        rows <= 7 ==> margin(rows, sheet_height(rows)) == 0,
{
}

/// That a part is in a text as a whole.
pub open spec fn shows(text: Seq<char>, part: Seq<char>, at: int) -> bool {
    0 <= at <= at + part.len() <= text.len() && text.subrange(at, at + part.len()) == part
}

/// A sheet shows its three lines of text between borders, in order and on lines of their
/// own, each as far in as the others and as wide as the sheet.
pub proof fn sheet_shows_its_lines(columns: u16, rows: u16) -> (at: (int, int, int, int, int))
    ensures
        ({
            let width = sheet_width(columns);
            let left = repeated(' ', margin(columns, width));
            let end = "\u{1b}[0m\n"@;
            let top = left + "╭"@ + repeated('─', width - 2) + "╮"@ + end;
            let first = left + "│"@ + centered("❄  已冻结"@, width) + "│"@ + end;
            let second = left + "│"@ + centered("整个标签页已冻结 · 内存已释放"@, width) + "│"@
                + end;
            let third = left + "│"@ + centered("按任意键 恢复整个 tab"@, width) + "│"@ + end;
            let bottom = left + "╰"@ + repeated('─', width - 2) + "╯"@ + end;
            let all = sheet(columns, rows);
            &&& shows(all, top, at.0)
            &&& shows(all, first, at.1)
            &&& shows(all, second, at.2)
            &&& shows(all, third, at.3)
            &&& shows(all, bottom, at.4)
            &&& at.1 == at.0 + top.len()
            &&& at.2 == at.1 + first.len()
            &&& at.3 == at.2 + second.len()
            &&& at.4 == at.3 + third.len()
            &&& all.len() == at.4 + bottom.len()
        }),
{
    let width = sheet_width(columns);
    let left = repeated(' ', margin(columns, width));
    let border = repeated('─', inner(width));
    let head = "\u{1b}[2J\u{1b}[H\u{1b}[?25l\u{1b}[48;5;17m\u{1b}[38;5;255m"@ + "\n"@
        + lines_over(left + line_end(), margin(rows, sheet_height(rows)));
    let top = left + "╭"@ + border + "╮"@ + line_end();
    let first = text_line(left, "❄  已冻结"@, width);
    let second = text_line(left, "整个标签页已冻结 · 内存已释放"@, width);
    let third = text_line(left, "按任意键 恢复整个 tab"@, width);
    let bottom = left + "╰"@ + border + "╯"@ + line_end();
    let all = sheet(columns, rows);
    assert(all == head + top + first + second + third + bottom);
    let a = head.len() as int;
    let b = a + top.len();
    let c = b + first.len();
    let d = c + second.len();
    let e = d + third.len();
    assert(all.subrange(a, b) =~= top);
    assert(all.subrange(b, c) =~= first);
    assert(all.subrange(c, d) =~= second);
    assert(all.subrange(d, e) =~= third);
    assert(all.subrange(e, e + bottom.len()) =~= bottom);
    (a, b, c, d, e)
}

} // verus!
