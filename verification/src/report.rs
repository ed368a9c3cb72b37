use crate::signature::Signature;
use crate::text::{chars_of, string_of};
use vstd::prelude::*;

verus! {

/// The colour in which a result line is printed.
#[derive(Clone, Copy, Debug, PartialEq, Eq, Structural)]
pub enum StatusColor {
    Green,
    Yellow,
    Magenta,
    Cyan,
    Red,
    White,
}

/// The colour of a status code: green for 2xx, yellow for 3xx, magenta for
/// 400, cyan for 401 to 499, red for 5xx, white for anything else.
pub open spec fn color_of(status: u16) -> StatusColor {
    if 200 <= status <= 299 {
        StatusColor::Green
    } else if 300 <= status <= 399 {
        StatusColor::Yellow
    } else if status == 400 {
        StatusColor::Magenta
    } else if 401 <= status <= 499 {
        StatusColor::Cyan
    } else if 500 <= status <= 599 {
        StatusColor::Red
    } else {
        StatusColor::White
    }
}

/// The colour of a status code.
pub fn status_color(status: u16) -> (color: StatusColor)
    ensures
        color == color_of(status),
{
    if 200 <= status && status <= 299 {
        StatusColor::Green
    } else if 300 <= status && status <= 399 {
        StatusColor::Yellow
    } else if status == 400 {
        StatusColor::Magenta
    } else if 401 <= status && status <= 499 {
        StatusColor::Cyan
    } else if 500 <= status && status <= 599 {
        StatusColor::Red
    } else {
        StatusColor::White
    }
}

/// The character of a decimal digit.
pub open spec fn digit(d: nat) -> char {
    if d == 0 {
        '0'
    } else if d == 1 {
        '1'
    } else if d == 2 {
        '2'
    } else if d == 3 {
        '3'
    } else if d == 4 {
        '4'
    } else if d == 5 {
        '5'
    } else if d == 6 {
        '6'
    } else if d == 7 {
        '7'
    } else if d == 8 {
        '8'
    } else {
        '9'
    }
}

/// A number in decimal, without leading zeros.
pub open spec fn decimal(n: nat) -> Seq<char>
    decreases n,
{
    if n < 10 {
        seq![digit(n)]
    } else {
        decimal(n / 10).push(digit(n % 10))
    }
}

/// `count` times the character `fill`.
pub open spec fn fill_of(fill: char, count: nat) -> Seq<char> {
    Seq::new(count, |i: int| fill)
}

/// How many characters `text` lacks to `width`.
pub open spec fn shortfall(text: Seq<char>, width: nat) -> nat {
    if text.len() < width {
        (width - text.len()) as nat
    } else {
        0
    }
}

/// `text` set to the left of a cell `width` characters wide: spaces follow
/// it up to the width; a longer text is kept whole.
pub open spec fn cell(text: Seq<char>, width: nat) -> Seq<char> {
    text + fill_of(' ', shortfall(text, width))
}

/// `text` with zeros in front up to `width` characters.
pub open spec fn zero_filled(text: Seq<char>, width: nat) -> Seq<char> {
    fill_of('0', shortfall(text, width)) + text
}

/// Cells side by side, each at its width, one space between them; nothing
/// where there is not one width for each cell.
pub open spec fn row(cells: Seq<Seq<char>>, widths: Seq<nat>) -> Seq<char>
    decreases cells.len(),
{
    if cells.len() == 0 || widths.len() != cells.len() {
        Seq::empty()
    } else if cells.len() == 1 {
        cell(cells[0], widths[0])
    } else {
        row(cells.drop_last(), widths.drop_last()) + seq![' '] + cell(cells.last(), widths.last())
    }
}

/// The character of the digit `d`.
fn digit_char(d: u8) -> (c: char)
    requires
        d < 10,
    ensures
        c == digit(d as nat),
{
    if d == 0 {
        '0'
    } else if d == 1 {
        '1'
    } else if d == 2 {
        '2'
    } else if d == 3 {
        '3'
    } else if d == 4 {
        '4'
    } else if d == 5 {
        '5'
    } else if d == 6 {
        '6'
    } else if d == 7 {
        '7'
    } else if d == 8 {
        '8'
    } else {
        '9'
    }
}

/// Writes `n` in decimal.
pub fn decimal_chars(n: u128) -> (out: Vec<char>)
    ensures
        out@ == decimal(n as nat),
    decreases n,
{
    if n < 10 {
        let mut out: Vec<char> = Vec::new();
        out.push(digit_char(n as u8));
        out
    } else {
        let mut out = decimal_chars(n / 10);
        out.push(digit_char((n % 10) as u8));
        out
    }
}

/// Appends `count` times `fill` to `out`.
fn push_fill(out: &mut Vec<char>, fill: char, count: usize)
    ensures
        final(out)@ == old(out)@ + fill_of(fill, count as nat),
{
    let ghost before = out@;
    let mut i: usize = 0;
    assert(before + fill_of(fill, 0) == before);
    while i < count
        invariant
            i <= count,
            out@ == before + fill_of(fill, i as nat),
        decreases count - i,
    {
        out.push(fill);
        assert((before + fill_of(fill, i as nat)).push(fill) == before + fill_of(
            fill,
            (i + 1) as nat,
        ));
        i += 1;
    }
}

/// Appends the characters of `text` to `out`.
fn push_all(out: &mut Vec<char>, text: &Vec<char>)
    ensures
        final(out)@ == old(out)@ + text@,
{
    let ghost before = out@;
    let mut i: usize = 0;
    assert(before + text@.take(0) == before);
    while i < text.len()
        invariant
            i <= text.len(),
            out@ == before + text@.take(i as int),
        decreases text.len() - i,
    {
        out.push(text[i]);
        assert((before + text@.take(i as int)).push(text@[i as int]) == before + text@.take(i + 1));
        i += 1;
    }
    assert(text@.take(text.len() as int) == text@);
}

/// How many characters `text` lacks to `width`.
fn lacking(text: &Vec<char>, width: usize) -> (count: usize)
    ensures
        count == shortfall(text@, width as nat),
{
    if text.len() < width {
        width - text.len()
    } else {
        0
    }
}

/// Appends `text` as a cell of `width` characters to `out`.
fn push_cell(out: &mut Vec<char>, text: &Vec<char>, width: usize)
    ensures
        final(out)@ == old(out)@ + cell(text@, width as nat),
{
    let ghost before = out@;
    push_all(out, text);
    push_fill(out, ' ', lacking(text, width));
    assert((before + text@) + fill_of(' ', shortfall(text@, width as nat)) == before + cell(
        text@,
        width as nat,
    ));
}

/// `n` in decimal with zeros in front up to `width` characters.
pub fn zero_filled_chars(n: u128, width: usize) -> (out: Vec<char>)
    ensures
        out@ == zero_filled(decimal(n as nat), width as nat),
{
    let digits = decimal_chars(n);
    let mut out: Vec<char> = Vec::new();
    push_fill(&mut out, '0', lacking(&digits, width));
    push_all(&mut out, &digits);
    assert(Seq::<char>::empty() + fill_of('0', shortfall(digits@, width as nat)) == fill_of(
        '0',
        shortfall(digits@, width as nat),
    ));
    out
}

/// What each text of a list holds, in the list's order.
pub open spec fn char_rows(list: Seq<Vec<char>>) -> Seq<Seq<char>> {
    Seq::new(list.len(), |i: int| list[i]@)
}

/// The widths of a list as numbers.
pub open spec fn widths_of(list: Seq<usize>) -> Seq<nat> {
    Seq::new(list.len(), |i: int| list[i] as nat)
}

/// Sets `cells` side by side, each at its width, one space between them.
pub fn format_row(cells: &Vec<Vec<char>>, widths: &Vec<usize>) -> (out: Vec<char>)
    ensures
        out@ == row(char_rows(cells@), widths_of(widths@)),
{
    let mut out: Vec<char> = Vec::new();
    if cells.len() == 0 || widths.len() != cells.len() {
        return out;
    }
    let ghost all = char_rows(cells@);
    let ghost wide = widths_of(widths@);
    push_cell(&mut out, &cells[0], widths[0]);
    assert(Seq::<char>::empty() + cell(all[0], wide[0]) == cell(all[0], wide[0]));
    assert(all.take(1).len() == 1 && wide.take(1).len() == 1);
    assert(all.take(1)[0] == all[0] && wide.take(1)[0] == wide[0]);
    let mut i: usize = 1;
    while i < cells.len()
        invariant
            1 <= i <= cells.len(),
            widths.len() == cells.len(),
            all == char_rows(cells@),
            wide == widths_of(widths@),
            out@ == row(all.take(i as int), wide.take(i as int)),
        decreases cells.len() - i,
    {
        let ghost before = out@;
        out.push(' ');
        push_cell(&mut out, &cells[i], widths[i]);
        proof {
            let next = all.take(i + 1);
            let next_wide = wide.take(i + 1);
            assert(next.drop_last() == all.take(i as int));
            assert(next_wide.drop_last() == wide.take(i as int));
            assert(next.last() == all[i as int]);
            assert(next_wide.last() == wide[i as int]);
            assert(before.push(' ') + cell(all[i as int], wide[i as int]) == before + seq![' ']
                + cell(all[i as int], wide[i as int]));
        }
        i += 1;
    }
    assert(all.take(cells.len() as int) == all);
    assert(wide.take(cells.len() as int) == wide);
    out
}

/// How wide the cells of a line of a path run are.
pub open spec fn path_widths() -> Seq<nat> {
    seq![10, 10, 10, 10, 12, 50]
}

/// How wide the cells of a line of a virtual-host run are.
pub open spec fn host_widths() -> Seq<nat> {
    seq![12, 15, 10, 10, 12, 50]
}

/// How a payload pair is shown: the secondary payload, a bar, the primary
/// payload; the primary alone where there is no secondary.
pub open spec fn shown_payload(primary: Seq<char>, secondary: Option<Seq<char>>) -> Seq<char> {
    match secondary {
        Some(s) => s + seq![' ', '|', ' '] + primary,
        None => primary,
    }
}

/// The line of a reported result of a path run: the position counted from 1
/// in six digits, the status code, the three counts of the signature and the
/// payload.
pub open spec fn result_text(
    position: nat,
    status: u16,
    signature: Signature,
    payload: Seq<char>,
) -> Seq<char> {
    row(
        seq![
            zero_filled(decimal(position + 1), 6),
            decimal(status as nat),
            decimal(signature.lines as nat),
            decimal(signature.words as nat),
            decimal(signature.chars as nat),
            payload,
        ],
        path_widths(),
    )
}

/// The line of a result of a virtual-host run: the position counted from 0,
/// the status as the caller words it, the three counts and the label.
pub open spec fn host_text(
    position: nat,
    status: Seq<char>,
    signature: Signature,
    label: Seq<char>,
) -> Seq<char> {
    row(
        seq![
            decimal(position),
            status,
            decimal(signature.lines as nat),
            decimal(signature.words as nat),
            decimal(signature.chars as nat),
            label,
        ],
        host_widths(),
    )
}

/// The heading of the table.
pub open spec fn header_text() -> Seq<char> {
    row(seq!["ID"@, "Response"@, "Lines"@, "Words"@, "Chars"@, "Payload"@], path_widths())
}

/// The widths of a path run's cells.
fn path_cell_widths() -> (widths: Vec<usize>)
    ensures
        widths_of(widths@) == path_widths(),
{
    let mut widths: Vec<usize> = Vec::new();
    widths.push(10);
    widths.push(10);
    widths.push(10);
    widths.push(10);
    widths.push(12);
    widths.push(50);
    assert(widths_of(widths@) =~= path_widths());
    widths
}

/// The widths of a virtual-host run's cells.
fn host_cell_widths() -> (widths: Vec<usize>)
    ensures
        widths_of(widths@) == host_widths(),
{
    let mut widths: Vec<usize> = Vec::new();
    widths.push(12);
    widths.push(15);
    widths.push(10);
    widths.push(10);
    widths.push(12);
    widths.push(50);
    assert(widths_of(widths@) =~= host_widths());
    widths
}

/// Shows a payload pair.
pub fn payload_display(primary: &str, secondary: Option<&str>) -> (shown: String)
    ensures
        shown@ == shown_payload(
            primary@,
            match secondary {
                Some(s) => Some(s@),
                None => None,
            },
        ),
{
    let mut out: Vec<char> = Vec::new();
    match secondary {
        Some(s) => {
            let first = chars_of(s);
            push_all(&mut out, &first);
            out.push(' ');
            out.push('|');
            out.push(' ');
            let last = chars_of(primary);
            push_all(&mut out, &last);
            assert(out@ == s@ + seq![' ', '|', ' '] + primary@);
        },
        None => {
            let only = chars_of(primary);
            push_all(&mut out, &only);
            assert(out@ == primary@);
        },
    }
    string_of(&out)
}

/// The line that reports a result of a path run.
pub fn result_line(position: usize, status: u16, signature: &Signature, payload: &str) -> (line:
    String)
    ensures
        line@ == result_text(position as nat, status, *signature, payload@),
{
    let mut cells: Vec<Vec<char>> = Vec::new();
    cells.push(zero_filled_chars(position as u128 + 1, 6));
    cells.push(decimal_chars(status as u128));
    cells.push(decimal_chars(signature.lines as u128));
    cells.push(decimal_chars(signature.words as u128));
    cells.push(decimal_chars(signature.chars as u128));
    cells.push(chars_of(payload));
    let widths = path_cell_widths();
    assert(char_rows(cells@) =~= seq![
        zero_filled(decimal((position + 1) as nat), 6),
        decimal(status as nat),
        decimal(signature.lines as nat),
        decimal(signature.words as nat),
        decimal(signature.chars as nat),
        payload@,
    ]);
    let out = format_row(&cells, &widths);
    string_of(&out)
}

/// The line that reports a result of a virtual-host run.
pub fn host_line(position: usize, status: &str, signature: &Signature, label: &str) -> (line:
    String)
    ensures
        line@ == host_text(position as nat, status@, *signature, label@),
{
    let mut cells: Vec<Vec<char>> = Vec::new();
    cells.push(decimal_chars(position as u128));
    cells.push(chars_of(status));
    cells.push(decimal_chars(signature.lines as u128));
    cells.push(decimal_chars(signature.words as u128));
    cells.push(decimal_chars(signature.chars as u128));
    cells.push(chars_of(label));
    let widths = host_cell_widths();
    assert(char_rows(cells@) =~= seq![
        decimal(position as nat),
        status@,
        decimal(signature.lines as nat),
        decimal(signature.words as nat),
        decimal(signature.chars as nat),
        label@,
    ]);
    let out = format_row(&cells, &widths);
    string_of(&out)
}

/// The heading of the table of results.
pub fn header_line() -> (line: String)
    ensures
        line@ == header_text(),
{
    let mut cells: Vec<Vec<char>> = Vec::new();
    cells.push(chars_of("ID"));
    cells.push(chars_of("Response"));
    cells.push(chars_of("Lines"));
    cells.push(chars_of("Words"));
    cells.push(chars_of("Chars"));
    cells.push(chars_of("Payload"));
    let widths = path_cell_widths();
    assert(char_rows(cells@) =~= seq![
        "ID"@,
        "Response"@,
        "Lines"@,
        "Words"@,
        "Chars"@,
        "Payload"@,
    ]);
    let out = format_row(&cells, &widths);
    string_of(&out)
}

/// The rule above and below the heading: 94 equals signs.
pub fn rule_line() -> (line: String)
    ensures
        line@ == fill_of('=', 94),
{
    let mut out: Vec<char> = Vec::new();
    push_fill(&mut out, '=', 94);
    assert(Seq::<char>::empty() + fill_of('=', 94) == fill_of('=', 94));
    string_of(&out)
}

} // verus!
