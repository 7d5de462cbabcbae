//! Terminal rendering of the numbered model: a frame around each file, a
//! title row with the change kind, path and revision, and every line with
//! its line number, in colour.
use crate::file::{File, FileModel, Hunk, LINE, LineModel, MODIFIER, file_max};
use vstd::prelude::*;

verus! {

/// A foreground colour of the terminal.
#[derive(Debug, Clone, Copy, PartialEq, Eq, Structural)]
pub enum TermColour {
    Red,
    Green,
    Yellow,
    Blue,
    Purple,
    White,
    Fixed(u8),
}

/// The text `t` wrapped in the escape codes of foreground colour `c` (none
/// for `None`) and, when `bold` holds, of bold weight.
pub uninterp spec fn painted(c: Option<TermColour>, bold: bool, t: Seq<char>) -> Seq<char>;

/// Relies on ansi_term's `Style::paint` and the `Display` of the painted
/// string: the text wrapped in the escape codes of the style, which depend on
/// the style and the text alone.
#[verifier::external_body]
fn paint(c: Option<TermColour>, bold: bool, text: &str) -> (r: String)
    ensures
        r@ == painted(c, bold, text@),
{
    let foreground = match c {
        Some(TermColour::Red) => Some(ansi_term::Colour::Red),
        Some(TermColour::Green) => Some(ansi_term::Colour::Green),
        Some(TermColour::Yellow) => Some(ansi_term::Colour::Yellow),
        Some(TermColour::Blue) => Some(ansi_term::Colour::Blue),
        Some(TermColour::Purple) => Some(ansi_term::Colour::Purple),
        Some(TermColour::White) => Some(ansi_term::Colour::White),
        Some(TermColour::Fixed(n)) => Some(ansi_term::Colour::Fixed(n)),
        None => None,
    };
    let style = ansi_term::Style { foreground, is_bold: bold, ..ansi_term::Style::new() };
    style.paint(text).to_string()
}

/// Colour of the frame and of the line numbers.
pub const FIXED_COLOUR: u8 = 244;

pub const HORIZONTAL: char = '─';

pub const ANCHOR_UP: char = '┬';

pub const ANCHOR_MIDDLE: char = '┼';

pub const ANCHOR_DOWN: char = '┴';

// ---------------------------------------------------------------------------
// What each piece of the output is.
// ---------------------------------------------------------------------------

pub open spec fn border(t: Seq<char>) -> Seq<char> {
    painted(Some(TermColour::Fixed(FIXED_COLOUR)), false, t)
}

/// `n` copies of `c` (none when `n` is not positive).
pub open spec fn repeat(c: char, n: int) -> Seq<char> {
    Seq::new(if n > 0 {
        n as nat
    } else {
        0
    }, |i: int| c)
}

/// `n` copies of `t`, one after the other.
pub open spec fn repeat_seq(t: Seq<char>, n: nat) -> Seq<char>
    decreases n,
{
    if n == 0 {
        Seq::empty()
    } else {
        repeat_seq(t, (n - 1) as nat) + t
    }
}

pub open spec fn digit_char(d: nat) -> char {
    if d == 0 {
        '0'
    } else if d == 1 {
        '1'
    } else if d == 2 {
        '2'
    } else if d == 3 {
        '3'
    } else if d == 4 {
        '4'
    } else if d == 5 {
        '5'
    } else if d == 6 {
        '6'
    } else if d == 7 {
        '7'
    } else if d == 8 {
        '8'
    } else {
        '9'
    }
}

/// The decimal digits of `n`.
pub open spec fn decimal(n: nat) -> Seq<char>
    decreases n,
{
    if n < 10 {
        seq![digit_char(n)]
    } else {
        decimal(n / 10) + seq![digit_char(n % 10)]
    }
}

/// A frame line: `width - 1` strokes, with `anchor` set in just before the
/// stroke at column `ln_width` when that column lies inside the line.
pub open spec fn horizontal_text(width: int, ln_width: int, anchor: char) -> Seq<char> {
    (if 1 <= ln_width < width {
        repeat(HORIZONTAL, ln_width - 1) + seq![anchor] + repeat(HORIZONTAL, width - ln_width)
    } else {
        repeat(HORIZONTAL, width - 1)
    }) + seq!['\n']
}

/// The two rows that mark the gap between hunks.
pub open spec fn cut_text(width: int) -> Seq<char> {
    let n = if width > 0 {
        (width / 2) as nat
    } else {
        0
    };
    repeat_seq(border("⸝"@) + border("⸜"@), n) + seq!['\n'] + repeat_seq(
        border("⸍"@) + border("⸌"@),
        n,
    ) + seq!['\n']
}

pub open spec fn modifier_symbol(m: MODIFIER) -> Seq<char> {
    match m {
        MODIFIER::ADD => painted(Some(TermColour::Green), true, "A"@),
        MODIFIER::MODIFIED => painted(Some(TermColour::Yellow), true, "M"@),
        MODIFIER::RENAMED => painted(Some(TermColour::Purple), true, "M"@),
        MODIFIER::DELETE => painted(Some(TermColour::Red), true, "D"@),
    }
}

/// The title row of a file: indent, change kind, path and revision.
pub open spec fn filename_text(m: MODIFIER, name: Seq<char>, commit: Seq<char>, ln_width: int) -> Seq<
    char,
> {
    repeat(' ', ln_width - 1) + border("│"@) + " "@ + modifier_symbol(m) + " "@ + painted(
        None,
        true,
        name,
    ) + " "@ + painted(Some(TermColour::Blue), true, "@"@) + painted(
        Some(TermColour::Blue),
        false,
        commit,
    ) + "\n"@
}

/// The number column: the number right-aligned before one space and the
/// separator, or only blanks when the column is too narrow for it.
pub open spec fn number_text(ln_width: int, n: nat) -> Seq<char> {
    let d = decimal(n);
    (if ln_width >= d.len() + 2 {
        repeat(' ', ln_width - d.len() - 2) + border(d) + " "@
    } else {
        repeat(' ', ln_width - 1)
    }) + border("│"@)
}

pub open spec fn line_text(ln_width: int, l: LineModel) -> Seq<char> {
    match l {
        LineModel::Add { number, text } => number_text(ln_width, number as nat) + painted(
            Some(TermColour::Green),
            false,
            "+"@ + text,
        ) + "\n"@,
        LineModel::Rem { number, text } => number_text(ln_width, number as nat) + painted(
            Some(TermColour::Red),
            false,
            "-"@ + text,
        ) + "\n"@,
        LineModel::Nop { number_right, text, .. } => number_text(ln_width, number_right as nat)
            + painted(Some(TermColour::White), false, " "@ + text) + "\n"@,
    }
}

pub open spec fn lines_text(ln_width: int, h: Seq<LineModel>) -> Seq<char>
    decreases h.len(),
{
    if h.len() == 0 {
        Seq::empty()
    } else {
        lines_text(ln_width, h.drop_last()) + line_text(ln_width, h.last())
    }
}

/// The first `k` hunks, each but the last followed by a cut.
pub open spec fn hunks_text(width: int, ln_width: int, hs: Seq<Seq<LineModel>>, k: int) -> Seq<char>
    decreases k,
{
    if k <= 0 {
        Seq::empty()
    } else {
        hunks_text(width, ln_width, hs, k - 1) + lines_text(ln_width, hs[k - 1]) + if hs.len() > 1
            && k - 1 != hs.len() - 1 {
            cut_text(width)
        } else {
            Seq::empty()
        }
    }
}

/// Width of the number column of a file: its largest number's digits and three more.
pub open spec fn number_width(f: FileModel) -> int {
    decimal(file_max(f.hunks) as nat).len() + 3int
}

pub open spec fn file_text(width: int, f: FileModel) -> Seq<char> {
    let ln = number_width(f);
    border(horizontal_text(width, ln, ANCHOR_UP)) + filename_text(
        f.modifier,
        f.filename,
        f.commit_id,
        ln,
    ) + border(horizontal_text(width, ln, ANCHOR_MIDDLE)) + hunks_text(
        width,
        ln,
        f.hunks,
        f.hunks.len() as int,
    ) + border(horizontal_text(width, ln, ANCHOR_DOWN))
}

pub open spec fn files_text(width: int, fs: Seq<FileModel>) -> Seq<char>
    decreases fs.len(),
{
    if fs.len() == 0 {
        Seq::empty()
    } else {
        files_text(width, fs.drop_last()) + file_text(width, fs.last())
    }
}

// ---------------------------------------------------------------------------
// Building the pieces.
// ---------------------------------------------------------------------------

fn digit(d: u64) -> (c: char)
    requires
        d < 10,
    ensures
        c == digit_char(d as nat),
{
    if d == 0 {
        '0'
    } else if d == 1 {
        '1'
    } else if d == 2 {
        '2'
    } else if d == 3 {
        '3'
    } else if d == 4 {
        '4'
    } else if d == 5 {
        '5'
    } else if d == 6 {
        '6'
    } else if d == 7 {
        '7'
    } else if d == 8 {
        '8'
    } else {
        '9'
    }
}

/// The decimal digits of `n`.
pub fn decimal_string(n: u64) -> (r: String)
    ensures
        r@ == decimal(n as nat),
    decreases n,
{
    if n < 10 {
        let mut s = String::new();
        s.push(digit(n));
        s
    } else {
        let mut s = decimal_string(n / 10);
        s.push(digit(n % 10));
        s
    }
}

pub open spec fn pow10(k: nat) -> nat
    decreases k,
{
    if k == 0 {
        1
    } else {
        10 * pow10((k - 1) as nat)
    }
}

proof fn lemma_decimal_len(n: nat, k: nat)
    requires
        1 <= k,
        n < pow10(k),
    ensures
        decimal(n).len() <= k,
    decreases n,
{
    if n >= 10 {
        if k == 1 {
            assert(pow10(1) == 10 * pow10(0));
        }
        assert(pow10(k) == 10 * pow10((k - 1) as nat));
        assert(n / 10 < pow10((k - 1) as nat)) by (nonlinear_arith)
            requires
                n < 10 * pow10((k - 1) as nat),
        ;
        lemma_decimal_len(n / 10, (k - 1) as nat);
    }
}

/// A 64-bit number has at most twenty digits.
proof fn lemma_decimal_len_u64(n: u64)
    ensures
        decimal(n as nat).len() <= 20,
{
    reveal_with_fuel(pow10, 21);
    assert(pow10(20) == 100000000000000000000nat);
    lemma_decimal_len(n as nat, 20);
}

fn push_repeat(out: &mut String, c: char, n: usize)
    ensures
        final(out)@ == old(out)@ + repeat(c, n as int),
{
    let ghost start = out@;
    let mut k: usize = 0;
    while k < n
        invariant
            k <= n,
            out@ == start + repeat(c, k as int),
        decreases n - k,
    {
        out.push(c);
        assert(start + repeat(c, k + 1) =~= start + repeat(c, k as int) + seq![c]);
        k += 1;
    }
}

/// A frame line of the terminal's width, with `indent_char` where the
/// number column meets it.
pub fn get_horizontal_line(width: usize, ln_width: usize, indent_char: char) -> (r: String)
    ensures
        r@ == border(horizontal_text(width as int, ln_width as int, indent_char)),
{
    let mut line = String::new();
    let mut i: usize = 1;
    while i < width
        invariant
            1 <= i,
            width >= 1 ==> i <= width,
            width == 0 ==> i == 1,
            line@ == (if 1 <= ln_width < i {
                repeat(HORIZONTAL, ln_width - 1) + seq![indent_char] + repeat(
                    HORIZONTAL,
                    i - ln_width,
                )
            } else {
                repeat(HORIZONTAL, i - 1)
            }),
        decreases width - i,
    {
        if i == ln_width {
            line.push(indent_char);
        }
        line.push(HORIZONTAL);
        proof {
            if 1 <= ln_width < i + 1 {
                assert(line@ =~= repeat(HORIZONTAL, ln_width - 1) + seq![indent_char] + repeat(
                    HORIZONTAL,
                    i + 1 - ln_width,
                ));
            } else {
                assert(line@ =~= repeat(HORIZONTAL, i as int));
            }
        }
        i += 1;
    }
    let ghost body = line@;
    line.push('\n');
    proof {
        if width == 0 {
            assert(body =~= repeat(HORIZONTAL, width - 1));
        } else {
            assert(i == width);
        }
        assert(line@ =~= horizontal_text(width as int, ln_width as int, indent_char));
    }
    paint(Some(TermColour::Fixed(FIXED_COLOUR)), false, line.as_str())
}

/// The rows that mark the gap between two hunks of a file.
pub fn get_cut(width: usize) -> (r: String)
    ensures
        r@ == cut_text(width as int),
{
    let down = paint(Some(TermColour::Fixed(FIXED_COLOUR)), false, "⸝").concat(
        paint(Some(TermColour::Fixed(FIXED_COLOUR)), false, "⸜").as_str(),
    );
    let up = paint(Some(TermColour::Fixed(FIXED_COLOUR)), false, "⸍").concat(
        paint(Some(TermColour::Fixed(FIXED_COLOUR)), false, "⸌").as_str(),
    );
    let n = width / 2;
    let mut output = String::new();
    let mut k: usize = 0;
    while k < n
        invariant
            k <= n,
            output@ == repeat_seq(down@, k as nat),
        decreases n - k,
    {
        output.append(down.as_str());
        k += 1;
    }
    output.push('\n');
    let mut k: usize = 0;
    let ghost first = output@;
    while k < n
        invariant
            k <= n,
            output@ == first + repeat_seq(up@, k as nat),
        decreases n - k,
    {
        output.append(up.as_str());
        assert(first + repeat_seq(up@, (k + 1) as nat) =~= first + repeat_seq(up@, k as nat) + up@);
        k += 1;
    }
    output.push('\n');
    output
}

/// The title row of a file.
pub fn get_filename(modifier: MODIFIER, filename: &str, commit_id: &str, ln_width: usize) -> (r: String)
    ensures
        r@ == filename_text(modifier, filename@, commit_id@, ln_width as int),
{
    let modifier_symbol = match modifier {
        MODIFIER::ADD => paint(Some(TermColour::Green), true, "A"),
        MODIFIER::MODIFIED => paint(Some(TermColour::Yellow), true, "M"),
        MODIFIER::RENAMED => paint(Some(TermColour::Purple), true, "M"),
        MODIFIER::DELETE => paint(Some(TermColour::Red), true, "D"),
    };
    let mut output = String::new();
    if ln_width > 0 {
        push_repeat(&mut output, ' ', ln_width - 1);
    }
    output.append(paint(Some(TermColour::Fixed(FIXED_COLOUR)), false, "│").as_str());
    output.append(" ");
    output.append(modifier_symbol.as_str());
    output.append(" ");
    output.append(paint(None, true, filename).as_str());
    output.append(" ");
    output.append(paint(Some(TermColour::Blue), true, "@").as_str());
    output.append(paint(Some(TermColour::Blue), false, commit_id).as_str());
    output.append("\n");
    assert(output@ =~= filename_text(modifier, filename@, commit_id@, ln_width as int));
    output
}

/// The number column of a line.
pub fn get_line_number(ln_width: usize, line_number: u64) -> (r: String)
    ensures
        r@ == number_text(ln_width as int, line_number as nat),
{
    let digits = decimal_string(line_number);
    let len = digits.as_str().unicode_len();
    proof {
        lemma_decimal_len_u64(line_number);
    }
    let mut output = String::new();
    if ln_width >= len + 2 {
        push_repeat(&mut output, ' ', ln_width - len - 2);
        output.append(paint(Some(TermColour::Fixed(FIXED_COLOUR)), false, digits.as_str()).as_str());
        output.append(" ");
    } else if ln_width > 0 {
        push_repeat(&mut output, ' ', ln_width - 1);
    }
    output.append(paint(Some(TermColour::Fixed(FIXED_COLOUR)), false, "│").as_str());
    assert(output@ =~= number_text(ln_width as int, line_number as nat));
    output
}

/// One line of a hunk: its number column and its coloured text.
pub fn get_line_content(ln_width: usize, line: &LINE) -> (r: String)
    ensures
        r@ == line_text(ln_width as int, line@),
{
    let (number, colour, sign, text) = match line {
        LINE::ADD { number, line } => (*number, TermColour::Green, "+", line),
        LINE::REM { number, line } => (*number, TermColour::Red, "-", line),
        LINE::NOP { number_right, line, .. } => (*number_right, TermColour::White, " ", line),
    };
    let mut output = get_line_number(ln_width, number);
    let body = String::from_str(sign).concat(text.as_str());
    output.append(paint(Some(colour), false, body.as_str()).as_str());
    output.append("\n");
    output
}

fn print_lines(ln_width: usize, hunk: &Hunk) -> (r: String)
    ensures
        r@ == lines_text(ln_width as int, hunk@),
{
    let ghost h = hunk@;
    let mut output = String::new();
    let mut j: usize = 0;
    while j < hunk.content.len()
        invariant
            h == hunk@,
            j <= hunk.content.len(),
            output@ == lines_text(ln_width as int, h.take(j as int)),
        decreases hunk.content.len() - j,
    {
        proof {
            assert(h.take(j + 1).drop_last() =~= h.take(j as int));
            assert(h.take(j + 1).last() == hunk.content@[j as int]@);
        }
        output.append(get_line_content(ln_width, &hunk.content[j]).as_str());
        j += 1;
    }
    assert(h.take(j as int) =~= h);
    output
}

fn print_file(width: usize, file: &File) -> (r: String)
    ensures
        r@ == file_text(width as int, file@),
{
    let ghost f = file@;
    let max_line_number = file.get_max_line_number_size();
    let digits = decimal_string(max_line_number);
    proof {
        lemma_decimal_len_u64(max_line_number);
    }
    let ln_width = digits.as_str().unicode_len() + 3;
    let mut output = get_horizontal_line(width, ln_width, ANCHOR_UP);
    output.append(
        get_filename(file.modifier, file.filename.as_str(), file.commit_id.as_str(), ln_width).as_str(),
    );
    output.append(get_horizontal_line(width, ln_width, ANCHOR_MIDDLE).as_str());
    let ghost head = output@;
    let n = file.hunks.len();
    let mut i: usize = 0;
    while i < n
        invariant
            f == file@,
            n == f.hunks.len(),
            i <= n,
            output@ == head + hunks_text(width as int, ln_width as int, f.hunks, i as int),
        decreases n - i,
    {
        assert(f.hunks[i as int] == file.hunks@[i as int]@);
        output.append(print_lines(ln_width, &file.hunks[i]).as_str());
        if n > 1 && i != n - 1 {
            output.append(get_cut(width).as_str());
        }
        proof {
            let k = i + 1;
            assert(hunks_text(width as int, ln_width as int, f.hunks, k as int) == hunks_text(
                width as int,
                ln_width as int,
                f.hunks,
                i as int,
            ) + lines_text(ln_width as int, f.hunks[i as int]) + if f.hunks.len() > 1 && i
                != f.hunks.len() - 1 {
                cut_text(width as int)
            } else {
                Seq::empty()
            });
            if n > 1 && i != n - 1 {
                assert(output@ =~= head + hunks_text(width as int, ln_width as int, f.hunks, k as int));
            } else {
                assert(output@ =~= head + hunks_text(width as int, ln_width as int, f.hunks, k as int));
            }
        }
        i += 1;
    }
    output.append(get_horizontal_line(width, ln_width, ANCHOR_DOWN).as_str());
    assert(output@ =~= file_text(width as int, f));
    output
}

/// Renders the files for a terminal `term_width` columns wide.
pub fn print(files: &Vec<File>, term_width: usize) -> (r: String)
    ensures
        r@ == files_text(term_width as int, files@.map_values(|f: File| f@)),
{
    let ghost fs = files@.map_values(|f: File| f@);
    let mut printable_output = String::new();
    let mut i: usize = 0;
    while i < files.len()
        invariant
            fs == files@.map_values(|f: File| f@),
            i <= files.len(),
            printable_output@ == files_text(term_width as int, fs.take(i as int)),
        decreases files.len() - i,
    {
        proof {
            assert(fs.take(i + 1).drop_last() =~= fs.take(i as int));
            assert(fs.take(i + 1).last() == files@[i as int]@);
        }
        printable_output.append(print_file(term_width, &files[i]).as_str());
        i += 1;
    }
    assert(fs.take(i as int) =~= fs);
    printable_output
}

} // verus!
