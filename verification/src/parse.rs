//! The palette text format.
//!
//! A palette is written one colour per line. A line holds exactly three
//! fields separated by ASCII white space: the red, green and blue channel,
//! each a decimal integer from 0 to 255. Lines end at a line feed; the last
//! line may go without one. A carriage return is white space like any
//! other, so a line may as well end in a carriage return and a line feed.

use crate::color::Color;
use crate::palette::{Palette, PaletteError};
use vstd::prelude::*;
use vstd::slice::slice_subrange;

verus! {

/// The line feed that ends a line.
pub const LINE_FEED: u8 = 0x0A;

/// The sign that may stand before the digits of a field.
pub const PLUS_SIGN: u8 = 0x2B;

/// The digit `0`; the other digits follow it.
pub const DIGIT_ZERO: u8 = 0x30;

/// The digit `9`.
pub const DIGIT_NINE: u8 = 0x39;

/// ASCII white space: space, tab, line feed, form feed, carriage return.
pub open spec fn is_space(b: u8) -> bool {
    b == 0x20 || b == 0x09 || b == 0x0A || b == 0x0C || b == 0x0D
}

/// One of the ten ASCII digits.
pub open spec fn is_digit(b: u8) -> bool {
    DIGIT_ZERO <= b <= DIGIT_NINE
}

/// The kinds of byte runs that the format is made of.
#[derive(Clone, Copy, Debug, PartialEq, Eq, Structural)]
pub enum Run {
    /// White space between fields.
    Space,
    /// A field: anything but white space.
    Field,
    /// A line: anything but a line feed.
    Line,
}

/// Whether byte `b` may stand in a run of kind `run`.
pub open spec fn belongs(run: Run, b: u8) -> bool {
    match run {
        Run::Space => is_space(b),
        Run::Field => !is_space(b),
        Run::Line => b != LINE_FEED,
    }
}

/// Where the longest run of kind `run` that starts at `from` ends: the
/// first position at or after `from` whose byte is not of the run, or the
/// length of `s` if there is none.
pub open spec fn run_end(run: Run, s: Seq<u8>, from: int) -> int
    decreases s.len() - from,
{
    if 0 <= from < s.len() && belongs(run, s[from]) {
        run_end(run, s, from + 1)
    } else {
        from
    }
}

/// `run_end` stays within `s`, everything before it is of the run, and the
/// byte at it, if there is one, is not.
pub proof fn lemma_run_end(run: Run, s: Seq<u8>, from: int)
    requires
        0 <= from <= s.len(),
    ensures
        from <= run_end(run, s, from) <= s.len(),
        forall|i: int| from <= i < run_end(run, s, from) ==> belongs(run, #[trigger] s[i]),
        run_end(run, s, from) < s.len() ==> !belongs(run, s[run_end(run, s, from)]),
    decreases s.len() - from,
{
    if from < s.len() && belongs(run, s[from]) {
        lemma_run_end(run, s, from + 1);
    }
}

/// A position that ends a run started at `from` is `run_end`.
pub proof fn lemma_run_end_is(run: Run, s: Seq<u8>, from: int, end: int)
    requires
        0 <= from <= end <= s.len(),
        forall|i: int| from <= i < end ==> belongs(run, #[trigger] s[i]),
        end < s.len() ==> !belongs(run, s[end]),
    ensures
        run_end(run, s, from) == end,
    decreases end - from,
{
    if from < end {
        assert(belongs(run, s[from]));
        lemma_run_end_is(run, s, from + 1, end);
    }
}

/// The lines of `text` from position `from` on. Each line runs up to the
/// next line feed, which is not part of it, or to the end of the text. A
/// line feed at the very end of the text starts no further line.
pub open spec fn lines_from(text: Seq<u8>, from: int) -> Seq<Seq<u8>>
    decreases text.len() - from,
    via lines_from_terminates
{
    if 0 <= from < text.len() {
        let end = run_end(Run::Line, text, from);
        if end < text.len() {
            seq![text.subrange(from, end)] + lines_from(text, end + 1)
        } else {
            seq![text.subrange(from, end)]
        }
    } else {
        Seq::empty()
    }
}

#[via_fn]
proof fn lines_from_terminates(text: Seq<u8>, from: int) {
    if 0 <= from < text.len() {
        lemma_run_end(Run::Line, text, from);
    }
}

/// The lines of `text`, in order.
pub open spec fn lines(text: Seq<u8>) -> Seq<Seq<u8>> {
    lines_from(text, 0)
}

/// The fields of `line` from position `from` on: the maximal runs of bytes
/// that are not white space.
pub open spec fn fields_from(line: Seq<u8>, from: int) -> Seq<Seq<u8>>
    decreases line.len() - from,
    via fields_from_terminates
{
    let start = run_end(Run::Space, line, from);
    if 0 <= from && start < line.len() {
        let end = run_end(Run::Field, line, start);
        seq![line.subrange(start, end)] + fields_from(line, end)
    } else {
        Seq::empty()
    }
}

#[via_fn]
proof fn fields_from_terminates(line: Seq<u8>, from: int) {
    let start = run_end(Run::Space, line, from);
    if 0 <= from && start < line.len() {
        lemma_run_end(Run::Space, line, from);
        lemma_run_end(Run::Field, line, start + 1);
    }
}

/// The fields of `line`, in order.
pub open spec fn fields(line: Seq<u8>) -> Seq<Seq<u8>> {
    fields_from(line, 0)
}

/// What a byte counts for as a decimal digit; nothing if it is none.
pub open spec fn digit_value(b: u8) -> nat {
    if is_digit(b) {
        (b - DIGIT_ZERO) as nat
    } else {
        0
    }
}

/// The number that the digits `digits` write in base ten.
pub open spec fn decimal_value(digits: Seq<u8>) -> nat
    decreases digits.len(),
{
    if digits.len() == 0 {
        0
    } else {
        10 * decimal_value(digits.drop_last()) + digit_value(digits.last())
    }
}

/// At least one byte, and digits only.
pub open spec fn is_decimal(digits: Seq<u8>) -> bool {
    digits.len() >= 1 && forall|i: int| 0 <= i < digits.len() ==> is_digit(#[trigger] digits[i])
}

/// The digits of a field: the field without the plus sign that may lead it.
pub open spec fn digits_of(field: Seq<u8>) -> Seq<u8> {
    if field.len() >= 1 && field[0] == PLUS_SIGN {
        field.subrange(1, field.len() as int)
    } else {
        field
    }
}

/// The channel value that `field` writes: an optional plus sign, then one
/// or more digits whose number is at most 255. Leading zeros are accepted.
pub open spec fn channel_value(field: Seq<u8>) -> Option<u8> {
    let digits = digits_of(field);
    if is_decimal(digits) && decimal_value(digits) <= 255 {
        Some(decimal_value(digits) as u8)
    } else {
        None
    }
}

/// The colour that `line` writes: exactly three fields, each a channel
/// value, in the order red, green, blue.
pub open spec fn line_color(line: Seq<u8>) -> Option<Color> {
    let f = fields(line);
    if f.len() == 3 && channel_value(f[0]) is Some && channel_value(f[1]) is Some && channel_value(
        f[2],
    ) is Some {
        Some(
            Color {
                r: channel_value(f[0]).unwrap(),
                g: channel_value(f[1]).unwrap(),
                b: channel_value(f[2]).unwrap(),
            },
        )
    } else {
        None
    }
}

/// Every line of `ls` writes a colour.
pub open spec fn all_lines_valid(ls: Seq<Seq<u8>>) -> bool {
    forall|i: int| 0 <= i < ls.len() ==> line_color(#[trigger] ls[i]) is Some
}

/// Line `i` of `ls` writes no colour, and every line before it does.
pub open spec fn is_first_invalid_line(ls: Seq<Seq<u8>>, i: int) -> bool {
    &&& 0 <= i < ls.len()
    &&& line_color(ls[i]) is None
    &&& forall|j: int| 0 <= j < i ==> line_color(#[trigger] ls[j]) is Some
}

/// The colours that the lines `ls` write, in order.
pub open spec fn line_colors(ls: Seq<Seq<u8>>) -> Seq<Color> {
    Seq::new(ls.len(), |i: int| line_color(ls[i]).unwrap())
}

/// A number does not shrink when more digits follow it.
proof fn lemma_decimal_value_grows(digits: Seq<u8>, k: int)
    requires
        0 <= k <= digits.len(),
    ensures
        decimal_value(digits.take(k)) <= decimal_value(digits),
    decreases digits.len() - k,
{
    if k == digits.len() {
        assert(digits.take(k) =~= digits);
    } else {
        lemma_decimal_value_grows(digits.drop_last(), k);
        assert(digits.drop_last().take(k) =~= digits.take(k));
    }
}

/// Tells whether byte `b` may stand in a run of kind `run`.
fn in_run(run: Run, b: u8) -> (out: bool)
    ensures
        out == belongs(run, b),
{
    let space: bool = b == 0x20 || b == 0x09 || b == 0x0A || b == 0x0C || b == 0x0D;
    match run {
        Run::Space => space,
        Run::Field => !space,
        Run::Line => b != LINE_FEED,
    }
}

/// Finds the end of the run of kind `run` that starts at `from`.
fn scan(run: Run, bytes: &[u8], from: usize) -> (end: usize)
    requires
        from <= bytes@.len(),
    ensures
        from <= end <= bytes@.len(),
        end == run_end(run, bytes@, from as int),
{
    let mut i: usize = from;
    while i < bytes.len() && in_run(run, bytes[i])
        invariant
            from <= i <= bytes@.len(),
            forall|j: int| from <= j < i ==> belongs(run, #[trigger] bytes@[j]),
        decreases bytes@.len() - i,
    {
        i += 1;
    }
    proof {
        lemma_run_end_is(run, bytes@, from as int, i as int);
    }
    i
}

/// Reads one field as a channel value.
fn parse_channel(field: &[u8]) -> (out: Option<u8>)
    ensures
        out == channel_value(field@),
{
    let start: usize = if field.len() >= 1 && field[0] == PLUS_SIGN {
        1
    } else {
        0
    };
    let ghost digits = digits_of(field@);
    assert(digits =~= field@.subrange(start as int, field@.len() as int));
    if start == field.len() {
        return None;
    }
    let mut value: u32 = 0;
    let mut i: usize = start;
    while i < field.len()
        invariant
            start <= i <= field@.len(),
            digits == digits_of(field@),
            digits == field@.subrange(start as int, field@.len() as int),
            digits.len() >= 1,
            value == decimal_value(digits.take(i - start)),
            value <= 255,
            forall|j: int| 0 <= j < i - start ==> is_digit(#[trigger] digits[j]),
        decreases field@.len() - i,
    {
        let b: u8 = field[i];
        assert(digits[i - start] == b);
        if b < DIGIT_ZERO || b > DIGIT_NINE {
            return None;
        }
        let ghost next = digits.take(i - start + 1);
        assert(decimal_value(next) == 10 * value + digit_value(b)) by {
            assert(next.drop_last() =~= digits.take(i - start));
            assert(next.last() == b);
        }
        value = value * 10 + (b - DIGIT_ZERO) as u32;
        if value > 255 {
            proof {
                lemma_decimal_value_grows(digits, i - start + 1);
            }
            return None;
        }
        i += 1;
    }
    assert(digits.take(i - start) =~= digits);
    Some(value as u8)
}

/// Reads one line of a palette text as a colour. The answer is `None`
/// unless the line holds exactly three fields and each is a channel value.
pub fn str_to_rgb(line: &[u8]) -> (out: Option<Color>)
    ensures
        out == line_color(line@),
{
    let mut values: Vec<u8> = Vec::new();
    let mut pos: usize = 0;
    let ghost mut done: Seq<Seq<u8>> = Seq::empty();
    loop
        invariant
            pos <= line@.len(),
            fields(line@) == done + fields_from(line@, pos as int),
            done.len() == values@.len(),
            values@.len() <= 3,
            forall|k: int|
                0 <= k < done.len() ==> channel_value(#[trigger] done[k]) == Some(values@[k]),
        ensures
            fields(line@) == done,
            done.len() == values@.len(),
            values@.len() <= 3,
            forall|k: int|
                0 <= k < done.len() ==> channel_value(#[trigger] done[k]) == Some(values@[k]),
        decreases line@.len() - pos,
    {
        let start: usize = scan(Run::Space, line, pos);
        if start >= line.len() {
            assert(fields_from(line@, pos as int) =~= Seq::empty());
            assert(done + Seq::<Seq<u8>>::empty() =~= done);
            break ;
        }
        let end: usize = scan(Run::Field, line, start);
        proof {
            lemma_run_end(Run::Field, line@, start as int + 1);
            lemma_run_end(Run::Space, line@, pos as int);
        }
        let ghost field = line@.subrange(start as int, end as int);
        assert(fields_from(line@, pos as int) == seq![field] + fields_from(line@, end as int));
        assert(fields(line@)[done.len() as int] == field);
        if values.len() == 3 {
            return None;
        }
        match parse_channel(slice_subrange(line, start, end)) {
            None => {
                return None;
            },
            Some(value) => {
                values.push(value);
            },
        }
        proof {
            assert(done + (seq![field] + fields_from(line@, end as int)) =~= done.push(field)
                + fields_from(line@, end as int));
            done = done.push(field);
        }
        pos = end;
    }
    if values.len() == 3 {
        Some(Color { r: values[0], g: values[1], b: values[2] })
    } else {
        None
    }
}

/// Reads a palette from `text`, one colour per line.
///
/// The first line that does not write a colour ends the reading with
/// `ParseRGBError` and its zero-based index. A text without any line gives
/// `NotEnoughDataError`. Otherwise the palette holds the colours of all
/// lines in their order.
pub fn parse_palette(text: &[u8]) -> (out: Result<Palette, PaletteError>)
    ensures
        out is Ok <==> text@.len() >= 1 && all_lines_valid(lines(text@)),
        out matches Ok(palette) ==> palette@ == line_colors(lines(text@)),
        out matches Err(PaletteError::ParseRGBError { line }) ==> is_first_invalid_line(
            lines(text@),
            line as int,
        ),
        out == Err::<Palette, PaletteError>(PaletteError::NotEnoughDataError) <==> text@.len()
            == 0,
{
    let mut colors: Vec<Color> = Vec::new();
    let mut pos: usize = 0;
    let ghost mut done: Seq<Seq<u8>> = Seq::empty();
    while pos < text.len()
        invariant
            pos <= text@.len(),
            lines(text@) == done + lines_from(text@, pos as int),
            done.len() == colors@.len(),
            forall|k: int|
                0 <= k < done.len() ==> line_color(#[trigger] done[k]) == Some(colors@[k]),
        decreases text@.len() - pos,
    {
        let end: usize = scan(Run::Line, text, pos);
        let ghost line = text@.subrange(pos as int, end as int);
        let ghost next: int = if end < text@.len() {
            end as int + 1
        } else {
            end as int
        };
        assert(lines_from(text@, pos as int) =~= seq![line] + lines_from(text@, next));
        assert(lines(text@)[done.len() as int] == line);
        match str_to_rgb(slice_subrange(text, pos, end)) {
            None => {
                assert(is_first_invalid_line(lines(text@), done.len() as int));
                return Err(PaletteError::ParseRGBError { line: colors.len() });
            },
            Some(color) => {
                colors.push(color);
            },
        }
        proof {
            assert(done + (seq![line] + lines_from(text@, next)) =~= done.push(line) + lines_from(
                text@,
                next,
            ));
            done = done.push(line);
        }
        if end < text.len() {
            pos = end + 1;
        } else {
            pos = end;
        }
    }
    proof {
        assert(lines_from(text@, pos as int) =~= Seq::empty());
        assert(done + Seq::<Seq<u8>>::empty() =~= done);
        assert(colors@ =~= line_colors(lines(text@)));
    }
    Palette::new(colors)
}

} // verus!
