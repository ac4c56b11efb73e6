//! The terminal boxes that report on a run: the header with the run's
//! settings, the line that counts the pixels, the line with the elapsed
//! time, and the tips.
//!
//! The boxes are measured in bytes of encoded text. `ui_len` is the width
//! of a box between its corners.
use crate::frame::frame_lines;
use crate::frame::framed;
use crate::frame::lemma_widest_bounds;
use crate::frame::texts;
use crate::frame::widest;
use crate::frame::widest_line;
use crate::text::byte_len;
use crate::text::byte_length;
use crate::text::char_width;
use crate::text::decimal;
use crate::text::lemma_byte_len_ascii;
use crate::text::lemma_byte_len_char;
use crate::text::lemma_byte_len_concat;
use crate::text::lemma_decimal_digits;
use crate::text::lemma_decimal_shorter;
use crate::text::push_decimal;
use crate::text::push_repeated;
use crate::text::repeated;
use vstd::prelude::*;
use vstd::utf8::is_ascii_chars;

verus! {

/// The text that moves the cursor back to the start of the line above.
pub open spec fn line_above() -> Seq<char> {
    "\r\x1b[1A"@
}

/// The last line of a box and the bottom edge below it: the line's text,
/// filled up with spaces to the width of the box, the right border, the
/// bottom edge, and what ends the box. The line is drawn over the one above
/// the cursor.
pub open spec fn closing_line(head: Seq<char>, ui_len: nat, ending: Seq<char>) -> Seq<char> {
    line_above() + head + repeated(' ', (ui_len + 1 - byte_len(head)) as nat) + "  ║\n╚"@
        + repeated('═', ui_len) + ending
}

/// The text of the line that counts the pixels.
pub open spec fn progress_head(current: nat, total: nat) -> Seq<char> {
    "║  Processing pixel : "@ + decimal(current) + "/"@ + decimal(total)
}

/// The text of the line with the elapsed time, in minutes and seconds.
pub open spec fn elapsed_head(seconds: nat) -> Seq<char> {
    "║  Elapsed time:  "@ + decimal(seconds / 60) + "m "@ + decimal(seconds % 60) + "s"@
}

/// A text in ASCII but for one box-drawing character takes two bytes more
/// than it has characters.
pub proof fn lemma_byte_len_bordered(text: Seq<char>, border: int)
    requires
        0 <= border < text.len(),
        char_width(text[border]) == 3,
        is_ascii_chars(text.subrange(0, border)),
        is_ascii_chars(text.subrange(border + 1, text.len() as int)),
    ensures
        byte_len(text) == text.len() + 2,
{
    let before = text.subrange(0, border);
    let after = text.subrange(border + 1, text.len() as int);
    assert(text =~= before + seq![text[border]] + after);
    lemma_byte_len_concat(before, seq![text[border]]);
    lemma_byte_len_concat(before + seq![text[border]], after);
    lemma_byte_len_char(text[border]);
    lemma_byte_len_ascii(before);
    lemma_byte_len_ascii(after);
}

/// The line that counts the pixels takes twenty-five bytes and its digits.
pub proof fn lemma_progress_head_len(current: nat, total: nat)
    ensures
        byte_len(progress_head(current, total))
            == 25 + decimal(current).len() + decimal(total).len(),
{
    let label = "║  Processing pixel : "@;
    reveal_strlit("║  Processing pixel : ");
    reveal_strlit("/");
    lemma_byte_len_bordered(label, 0);
    lemma_byte_len_ascii("/"@);
    lemma_decimal_digits(current);
    lemma_decimal_digits(total);
    lemma_byte_len_concat(label, decimal(current));
    lemma_byte_len_concat(label + decimal(current), "/"@);
    lemma_byte_len_concat(label + decimal(current) + "/"@, decimal(total));
}

/// The line with the elapsed time takes twenty-three bytes and its digits.
pub proof fn lemma_elapsed_head_len(seconds: nat)
    ensures
        byte_len(elapsed_head(seconds))
            == 23 + decimal(seconds / 60).len() + decimal(seconds % 60).len(),
{
    let label = "║  Elapsed time:  "@;
    reveal_strlit("║  Elapsed time:  ");
    reveal_strlit("m ");
    reveal_strlit("s");
    lemma_byte_len_bordered(label, 0);
    lemma_byte_len_ascii("m "@);
    lemma_byte_len_ascii("s"@);
    lemma_decimal_digits(seconds / 60);
    lemma_decimal_digits(seconds % 60);
    let minutes = decimal(seconds / 60);
    let rest = decimal(seconds % 60);
    lemma_byte_len_concat(label, minutes);
    lemma_byte_len_concat(label + minutes, "m "@);
    lemma_byte_len_concat(label + minutes + "m "@, rest);
    lemma_byte_len_concat(label + minutes + "m "@ + rest, "s"@);
}

/// Draws the last line of a box from its text.
fn close_box(head: String, ui_len: usize, ending: &str) -> (drawn: String)
    requires
        1 <= byte_len(head@) <= ui_len + 1,
        byte_len(head@) <= usize::MAX,
    ensures
        drawn@ == closing_line(head@, ui_len as nat, ending@),
{
    let taken: usize = byte_length(&head);
    let padding: usize = if taken > ui_len {
        0
    } else {
        ui_len - taken + 1
    };
    let mut drawn = String::from_str("\r\x1b[1A");
    drawn.append(head.as_str());
    proof {
        reveal_strlit(" ");
    }
    push_repeated(&mut drawn, " ", padding);
    drawn.append("  ║\n╚");
    proof {
        reveal_strlit("═");
    }
    push_repeated(&mut drawn, "═", ui_len);
    drawn.append(ending);
    drawn
}

/// Whether the line that counts the pixels fits into a box of the given
/// width.
pub fn progress_fits(current: usize, total: usize, ui_len: usize) -> (fits: bool)
    ensures
        fits == (byte_len(progress_head(current as nat, total as nat)) <= ui_len + 1),
{
    let mut head = String::from_str("║  Processing pixel : ");
    push_decimal(&mut head, current as u64);
    head.append("/");
    push_decimal(&mut head, total as u64);
    proof {
        lemma_progress_head_len(current as nat, total as nat);
        lemma_decimal_digits(current as nat);
        lemma_decimal_digits(total as nat);
    }
    let taken: usize = byte_length(&head);
    taken <= ui_len || taken - ui_len == 1
}

/// Whether the line with the elapsed time fits into a box of the given
/// width.
pub fn elapsed_fits(seconds: u64, ui_len: usize) -> (fits: bool)
    ensures
        fits == (byte_len(elapsed_head(seconds as nat)) <= ui_len + 1),
{
    let mut head = String::from_str("║  Elapsed time:  ");
    push_decimal(&mut head, seconds / 60);
    head.append("m ");
    push_decimal(&mut head, seconds % 60);
    head.append("s");
    proof {
        lemma_elapsed_head_len(seconds as nat);
        lemma_decimal_digits((seconds / 60) as nat);
        lemma_decimal_digits((seconds % 60) as nat);
    }
    let taken: usize = byte_length(&head);
    taken <= ui_len || taken - ui_len == 1
}

/// The body of the box while the image is computed: the number of the pixel
/// that was last received, out of the total, drawn over the line before.
pub fn gen_processing_ui(current: usize, total: usize, ui_len: usize) -> (drawn: String)
    requires
        byte_len(progress_head(current as nat, total as nat)) <= ui_len + 1,
    ensures
        drawn@ == closing_line(progress_head(current as nat, total as nat), ui_len as nat, "╝"@),
{
    let mut head = String::from_str("║  Processing pixel : ");
    push_decimal(&mut head, current as u64);
    head.append("/");
    push_decimal(&mut head, total as u64);
    proof {
        lemma_progress_head_len(current as nat, total as nat);
        lemma_decimal_digits(current as nat);
        lemma_decimal_digits(total as nat);
    }
    close_box(head, ui_len, "╝")
}

/// The body of the box once the image is written: the time that the run
/// took, drawn over the line that counted the pixels.
pub fn gen_last_ui(elapsed_seconds: u64, ui_len: usize) -> (drawn: String)
    requires
        byte_len(elapsed_head(elapsed_seconds as nat)) <= ui_len + 1,
    ensures
        drawn@ == closing_line(elapsed_head(elapsed_seconds as nat), ui_len as nat, "╝\n\n\n"@),
{
    let mut head = String::from_str("║  Elapsed time:  ");
    push_decimal(&mut head, elapsed_seconds / 60);
    head.append("m ");
    push_decimal(&mut head, elapsed_seconds % 60);
    head.append("s");
    proof {
        lemma_elapsed_head_len(elapsed_seconds as nat);
        lemma_decimal_digits((elapsed_seconds / 60) as nat);
        lemma_decimal_digits((elapsed_seconds % 60) as nat);
    }
    close_box(head, ui_len, "╝\n\n\n")
}

/// The version shown in the header.
pub const VERSION: u64 = 1;

/// Whether a text can start a line of a box: a line break, the left border,
/// and ASCII after that.
pub open spec fn starts_line(label: Seq<char>) -> bool {
    &&& label.len() >= 2
    &&& label[0] == '\n'
    &&& label[1] == '║'
    &&& is_ascii_chars(label.subrange(2, label.len() as int))
}

/// The line of a note, or no line where there is no note.
pub open spec fn indented(note: Seq<char>) -> Seq<Seq<char>> {
    if note.len() == 0 {
        Seq::empty()
    } else {
        seq!["\n║    "@ + note]
    }
}

/// The lines of a titled pair of notes, after an empty line; no lines where
/// there is neither note.
pub open spec fn noted(title: Seq<char>, first: Seq<char>, second: Seq<char>) -> Seq<Seq<char>> {
    if first.len() == 0 && second.len() == 0 {
        Seq::empty()
    } else {
        seq!["\n║  "@, title] + indented(first) + indented(second)
    }
}

/// The lines of the box of tips.
pub open spec fn tip_lines(tip_file: Seq<char>, tip_size: Seq<char>) -> Seq<Seq<char>> {
    seq!["\n║  Tips : "@] + indented(tip_file) + indented(tip_size) + seq!["\n║  "@]
}

/// The box of tips: as wide as its widest line, or nothing where there is
/// no tip.
pub open spec fn tips_box(tip_file: Seq<char>, tip_size: Seq<char>) -> Seq<char> {
    if tip_file.len() == 0 && tip_size.len() == 0 {
        Seq::empty()
    } else {
        let lines = tip_lines(tip_file, tip_size);
        let ui_len = (widest(lines, 0) - 2) as nat;
        "╔"@ + repeated('═', ui_len) + "╗"@ + framed(lines, ui_len + 2) + "\n╚"@
            + repeated('═', ui_len) + "╝\n\n"@
    }
}

/// The line that counts the pixels when all of them are done, with its right
/// border: the header leaves room for it.
pub open spec fn full_progress(total: nat) -> Seq<char> {
    progress_head(total, total) + "  ║"@
}

/// The lines of the header.
pub open spec fn header_lines(
    file_path: Seq<char>,
    width: nat,
    height: nat,
    threads: nat,
    warning_file: Seq<char>,
    warning_size: Seq<char>,
    err_file: Seq<char>,
    err_size: Seq<char>,
) -> Seq<Seq<char>> {
    seq![
        "\n║  Bugglers v"@ + decimal(VERSION as nat),
        "\n║  Using "@ + decimal(threads) + " threads"@,
        "\n║  "@,
        "\n║  Image Size : "@ + decimal(width) + "x"@ + decimal(height) + " pixels"@,
        "\n║  File used : "@ + file_path,
    ] + noted("\n║  Warning(s) :"@, warning_file, warning_size)
        + noted("\n║  Error(s) :"@, err_file, err_size) + seq!["\n║  "@]
}

/// The width of the box under a header with the given lines, for an image
/// of `total` pixels.
pub open spec fn header_len(lines: Seq<Seq<char>>, total: nat) -> nat {
    (widest(lines, byte_len(full_progress(total))) - 2) as nat
}

/// The header: the top edge, the lines, and the rule below them.
pub open spec fn header_box(lines: Seq<Seq<char>>, ui_len: nat) -> Seq<char> {
    "\n\n╔"@ + repeated('═', ui_len) + "╗"@ + framed(lines, ui_len + 2) + "\n╟"@
        + repeated('─', ui_len) + "╢\n\n"@
}

/// A text that starts a line takes two bytes more than it has characters.
pub proof fn lemma_byte_len_line_start(label: Seq<char>)
    requires
        starts_line(label),
    ensures
        byte_len(label) == label.len() + 2,
{
    assert(label.subrange(0, 1) =~= seq!['\n']);
    lemma_byte_len_bordered(label, 1);
}

/// The header leaves room for the line that counts the pixels, whichever
/// pixel has been reached.
pub proof fn lemma_header_fits_progress(lines: Seq<Seq<char>>, current: nat, total: nat)
    requires
        current <= total,
    ensures
        byte_len(progress_head(current, total)) <= header_len(lines, total) + 1,
{
    reveal_strlit("  ║");
    lemma_byte_len_bordered("  ║"@, 2);
    lemma_byte_len_concat(progress_head(total, total), "  ║"@);
    lemma_widest_bounds(lines, byte_len(full_progress(total)));
    lemma_progress_head_len(current, total);
    lemma_progress_head_len(total, total);
    lemma_decimal_shorter(current, total);
}

/// Starts a line of a box.
fn start_line(label: &str) -> (line: String)
    requires
        starts_line(label@),
    ensures
        line@ == label@,
        byte_len(line@) == label@.len() + 2,
{
    proof {
        lemma_byte_len_line_start(label@);
    }
    String::from_str(label)
}

/// Appends a number to a line.
fn push_number(line: &mut String, number: usize)
    ensures
        final(line)@ == old(line)@ + decimal(number as nat),
        byte_len(final(line)@) == byte_len(old(line)@) + decimal(number as nat).len(),
        byte_len(final(line)@) <= byte_len(old(line)@) + 20,
{
    proof {
        lemma_decimal_digits(number as nat);
        lemma_byte_len_concat(line@, decimal(number as nat));
    }
    push_decimal(line, number as u64);
}

/// Appends a text to a line.
fn push_text(line: &mut String, piece: &str)
    ensures
        final(line)@ == old(line)@ + piece@,
        byte_len(final(line)@) == byte_len(old(line)@) + byte_len(piece@),
{
    proof {
        lemma_byte_len_concat(line@, piece@);
    }
    line.append(piece);
}

/// Appends the line of a note, where there is a note.
fn push_indented(lines: &mut Vec<String>, note: &String)
    requires
        byte_len(note@) + 8 <= usize::MAX,
        forall|line: int|
            0 <= line < old(lines)@.len() ==> byte_len(#[trigger] old(lines)@[line]@) <= usize::MAX,
    ensures
        texts(final(lines)@) == texts(old(lines)@) + indented(note@),
        forall|line: int|
            0 <= line < final(lines)@.len() ==> byte_len(#[trigger] final(lines)@[line]@)
                <= usize::MAX,
{
    if note.as_str().is_empty() {
        assert(texts(lines@) =~= texts(old(lines)@) + indented(note@));
    } else {
        proof {
            reveal_strlit("\n║    ");
        }
        let mut line = start_line("\n║    ");
        push_text(&mut line, note.as_str());
        lines.push(line);
        assert(texts(lines@) =~= texts(old(lines)@) + indented(note@));
    }
}

/// Appends the lines of a titled pair of notes, where there is a note.
fn push_noted(lines: &mut Vec<String>, title: &str, first: &String, second: &String)
    requires
        starts_line(title@),
        title@.len() + 2 <= usize::MAX,
        byte_len(first@) + 8 <= usize::MAX,
        byte_len(second@) + 8 <= usize::MAX,
        forall|line: int|
            0 <= line < old(lines)@.len() ==> byte_len(#[trigger] old(lines)@[line]@) <= usize::MAX,
    ensures
        texts(final(lines)@) == texts(old(lines)@) + noted(title@, first@, second@),
        forall|line: int|
            0 <= line < final(lines)@.len() ==> byte_len(#[trigger] final(lines)@[line]@)
                <= usize::MAX,
{
    if first.as_str().is_empty() && second.as_str().is_empty() {
        assert(texts(lines@) =~= texts(old(lines)@) + noted(title@, first@, second@));
    } else {
        proof {
            reveal_strlit("\n║  ");
        }
        lines.push(start_line("\n║  "));
        lines.push(start_line(title));
        let ghost titled = texts(lines@);
        assert(titled =~= texts(old(lines)@) + seq!["\n║  "@, title@]);
        push_indented(lines, first);
        push_indented(lines, second);
        assert(texts(lines@) =~= texts(old(lines)@) + noted(title@, first@, second@));
    }
}

/// The box of tips on how to choose the file and the size, or nothing where
/// there is no tip to give.
pub fn gen_tips(tip_file: String, tip_size: String) -> (drawn: String)
    requires
        byte_len(tip_file@) + 8 <= usize::MAX,
        byte_len(tip_size@) + 8 <= usize::MAX,
    ensures
        drawn@ == tips_box(tip_file@, tip_size@),
{
    if tip_file.as_str().is_empty() && tip_size.as_str().is_empty() {
        return String::new();
    }
    proof {
        reveal_strlit("\n║  Tips : ");
        reveal_strlit("\n║  ");
    }
    let mut lines: Vec<String> = Vec::new();
    lines.push(start_line("\n║  Tips : "));
    assert(texts(lines@) =~= seq!["\n║  Tips : "@]);
    push_indented(&mut lines, &tip_file);
    push_indented(&mut lines, &tip_size);
    lines.push(start_line("\n║  "));
    assert(texts(lines@) =~= tip_lines(tip_file@, tip_size@));
    proof {
        lemma_widest_bounds(texts(lines@), 0);
        assert(texts(lines@)[0] == "\n║  Tips : "@);
    }
    let ui_len: usize = widest_line(&lines, 0) - 2;
    let mut drawn = String::from_str("╔");
    proof {
        reveal_strlit("═");
    }
    push_repeated(&mut drawn, "═", ui_len);
    drawn.append("╗");
    proof {
        assert forall|line: int| 0 <= line < lines@.len() implies byte_len(
            #[trigger] lines@[line]@,
        ) <= ui_len + 2 by {
            assert(texts(lines@)[line] == lines@[line]@);
        }
    }
    frame_lines(&mut drawn, &lines, ui_len + 2);
    drawn.append("\n╚");
    push_repeated(&mut drawn, "═", ui_len);
    drawn.append("╝\n\n");
    drawn
}

/// The header of the terminal display: the program, the number of threads,
/// the size of the image, the file, and the warnings and errors of the
/// arguments. With it comes the width of the box, which the lines drawn
/// below the header take.
pub fn gen_ui(
    file_path: String,
    width: usize,
    height: usize,
    nb_threads: usize,
    warning_file: String,
    warning_size: String,
    err_file: String,
    err_size: String,
) -> (drawn: (String, usize))
    requires
        width * height <= usize::MAX,
        byte_len(file_path@) + 18 <= usize::MAX,
        byte_len(warning_file@) + 8 <= usize::MAX,
        byte_len(warning_size@) + 8 <= usize::MAX,
        byte_len(err_file@) + 8 <= usize::MAX,
        byte_len(err_size@) + 8 <= usize::MAX,
    ensures
        ({
            let lines = header_lines(
                file_path@,
                width as nat,
                height as nat,
                nb_threads as nat,
                warning_file@,
                warning_size@,
                err_file@,
                err_size@,
            );
            &&& drawn.1 == header_len(lines, (width * height) as nat)
            &&& drawn.0@ == header_box(lines, drawn.1 as nat)
        }),
{
    let total: usize = width * height;
    proof {
        reveal_strlit("\n║  Bugglers v");
        reveal_strlit("\n║  Using ");
        reveal_strlit(" threads");
        reveal_strlit("\n║  ");
        reveal_strlit("\n║  Image Size : ");
        reveal_strlit("x");
        reveal_strlit(" pixels");
        reveal_strlit("\n║  File used : ");
        reveal_strlit("\n║  Warning(s) :");
        reveal_strlit("\n║  Error(s) :");
        lemma_byte_len_ascii(" threads"@);
        lemma_byte_len_ascii("x"@);
        lemma_byte_len_ascii(" pixels"@);
    }
    let mut name = start_line("\n║  Bugglers v");
    push_number(&mut name, VERSION as usize);
    let mut threads = start_line("\n║  Using ");
    push_number(&mut threads, nb_threads);
    push_text(&mut threads, " threads");
    let mut size = start_line("\n║  Image Size : ");
    push_number(&mut size, width);
    push_text(&mut size, "x");
    push_number(&mut size, height);
    push_text(&mut size, " pixels");
    let mut file = start_line("\n║  File used : ");
    push_text(&mut file, file_path.as_str());

    let mut lines: Vec<String> = Vec::new();
    lines.push(name);
    lines.push(threads);
    lines.push(start_line("\n║  "));
    lines.push(size);
    lines.push(file);
    let ghost fixed = texts(lines@);
    assert(fixed =~= seq![
        "\n║  Bugglers v"@ + decimal(VERSION as nat),
        "\n║  Using "@ + decimal(nb_threads as nat) + " threads"@,
        "\n║  "@,
        "\n║  Image Size : "@ + decimal(width as nat) + "x"@ + decimal(height as nat)
            + " pixels"@,
        "\n║  File used : "@ + file_path@,
    ]);
    push_noted(&mut lines, "\n║  Warning(s) :", &warning_file, &warning_size);
    push_noted(&mut lines, "\n║  Error(s) :", &err_file, &err_size);
    lines.push(start_line("\n║  "));
    let ghost wanted = header_lines(
        file_path@,
        width as nat,
        height as nat,
        nb_threads as nat,
        warning_file@,
        warning_size@,
        err_file@,
        err_size@,
    );
    assert(texts(lines@) =~= wanted);

    let mut blank = String::from_str("║  Processing pixel : ");
    push_number(&mut blank, total);
    push_text(&mut blank, "/");
    push_number(&mut blank, total);
    push_text(&mut blank, "  ║");
    proof {
        reveal_strlit("  ║");
        reveal_strlit("/");
        lemma_byte_len_ascii("/"@);
        lemma_byte_len_bordered("  ║"@, 2);
        lemma_progress_head_len(total as nat, total as nat);
        lemma_widest_bounds(wanted, byte_len(full_progress(total as nat)));
    }
    let least: usize = byte_length(&blank);
    let ui_len: usize = widest_line(&lines, least) - 2;
    let mut drawn = String::from_str("\n\n╔");
    proof {
        reveal_strlit("═");
        reveal_strlit("─");
    }
    push_repeated(&mut drawn, "═", ui_len);
    drawn.append("╗");
    proof {
        assert forall|line: int| 0 <= line < lines@.len() implies byte_len(
            #[trigger] lines@[line]@,
        ) <= ui_len + 2 by {
            assert(texts(lines@)[line] == lines@[line]@);
        }
    }
    frame_lines(&mut drawn, &lines, ui_len + 2);
    drawn.append("\n╟");
    push_repeated(&mut drawn, "─", ui_len);
    drawn.append("╢\n\n");
    (drawn, ui_len)
}

} // verus!
