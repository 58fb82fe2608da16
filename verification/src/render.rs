use vstd::prelude::*;

use crate::table::{AggEntry, AggTable};
use vstd::string::{StrSliceExecFns, StringExecFns};

verus! {

/// The character for one digit value, decimal or upper-case hexadecimal.
pub open spec fn digit_char(d: int) -> char {
    if d == 0 {
        '0'
    } else if d == 1 {
        '1'
    } else if d == 2 {
        '2'
    } else if d == 3 {
        '3'
    } else if d == 4 {
        '4'
    } else if d == 5 {
        '5'
    } else if d == 6 {
        '6'
    } else if d == 7 {
        '7'
    } else if d == 8 {
        '8'
    } else if d == 9 {
        '9'
    } else if d == 10 {
        'A'
    } else if d == 11 {
        'B'
    } else if d == 12 {
        'C'
    } else if d == 13 {
        'D'
    } else if d == 14 {
        'E'
    } else {
        'F'
    }
}

/// The decimal digits of a number, most significant first.
pub open spec fn spec_dec(n: nat) -> Seq<char>
    decreases n,
{
    if n < 10 {
        seq![digit_char(n as int)]
    } else {
        spec_dec(n / 10).push(digit_char((n % 10) as int))
    }
}

/// The upper-case hexadecimal digits of a number, most significant first.
pub open spec fn spec_hex(n: nat) -> Seq<char>
    decreases n,
{
    if n < 16 {
        seq![digit_char(n as int)]
    } else {
        spec_hex(n / 16).push(digit_char((n % 16) as int))
    }
}

/// A run of one character.
pub open spec fn spec_repeat(c: char, n: nat) -> Seq<char>
    decreases n,
{
    if n == 0 {
        Seq::empty()
    } else {
        spec_repeat(c, (n - 1) as nat).push(c)
    }
}

/// The text padded on the right with spaces out to the given width; text
/// already that wide stays as it is.
pub open spec fn spec_pad_right(cs: Seq<char>, width: nat) -> Seq<char> {
    if cs.len() >= width {
        cs
    } else {
        cs + spec_repeat(' ', (width - cs.len()) as nat)
    }
}

/// The digits padded on the left with zeros out to the given width.
pub open spec fn spec_pad_zeros(cs: Seq<char>, width: nat) -> Seq<char> {
    if cs.len() >= width {
        cs
    } else {
        spec_repeat('0', (width - cs.len()) as nat) + cs
    }
}

/// A count of microseconds written as seconds with six digits after the
/// point.
pub open spec fn spec_fixed_micros(us: u64) -> Seq<char> {
    spec_dec((us / 1000000) as nat) + seq!['.'] + spec_pad_zeros(
        spec_dec((us % 1000000) as nat),
        6,
    )
}

/// The identifier column: `0x`, then the raw identifier word in upper-case
/// hexadecimal, zero-padded to eight digits for an extended-addressed frame
/// and to three digits for a standard-addressed one.
pub open spec fn spec_id_field(identifier: u32, extended: bool) -> Seq<char> {
    seq!['0', 'x'] + spec_pad_zeros(spec_hex(identifier as nat), if extended {
        8
    } else {
        3
    })
}

/// The payload written as space-separated upper-case hexadecimal byte pairs.
pub open spec fn spec_payload_hex(p: Seq<u8>) -> Seq<char>
    decreases p.len(),
{
    if p.len() == 0 {
        Seq::empty()
    } else if p.len() == 1 {
        spec_byte_hex(p[0])
    } else {
        spec_payload_hex(p.drop_last()) + seq![' '] + spec_byte_hex(p.last())
    }
}

/// One byte as exactly two upper-case hexadecimal digits.
pub open spec fn spec_byte_hex(b: u8) -> Seq<char> {
    seq![digit_char(b as int / 16), digit_char(b as int % 16)]
}

/// One table row: count, last-seen time, interval, identifier, length and
/// payload, each left-aligned in its column.
pub open spec fn spec_entry_line(e: AggEntry) -> Seq<char> {
    spec_pad_right(spec_dec(e.count as nat), 7) + seq![' '] + spec_pad_right(
        spec_fixed_micros(e.last_seen_micros),
        14,
    ) + seq![' '] + spec_pad_right(spec_fixed_micros(e.interval_micros), 11) + seq![' ']
        + spec_pad_right(spec_id_field(e.last_frame.identifier, e.last_frame.extended), 11)
        + seq![' '] + spec_pad_right(spec_dec(e.last_frame.length as nat), 4) + seq![' ']
        + spec_payload_hex(e.last_frame.payload@)
}

pub open spec fn spec_header() -> Seq<char> {
    "Count   Time           dt          ID          DLC  Data"@
}

fn digit_str(d: u8) -> (s: &'static str)
    requires
        d < 16,
    ensures
        s@ == seq![digit_char(d as int)],
{
    proof {
        reveal_strlit("0");
        reveal_strlit("1");
        reveal_strlit("2");
        reveal_strlit("3");
        reveal_strlit("4");
        reveal_strlit("5");
        reveal_strlit("6");
        reveal_strlit("7");
        reveal_strlit("8");
        reveal_strlit("9");
        reveal_strlit("A");
        reveal_strlit("B");
        reveal_strlit("C");
        reveal_strlit("D");
        reveal_strlit("E");
        reveal_strlit("F");
    }
    match d {
        0 => "0",
        1 => "1",
        2 => "2",
        3 => "3",
        4 => "4",
        5 => "5",
        6 => "6",
        7 => "7",
        8 => "8",
        9 => "9",
        10 => "A",
        11 => "B",
        12 => "C",
        13 => "D",
        14 => "E",
        _ => "F",
    }
}

/// A number in decimal.
pub fn fmt_u64_dec(n: u64) -> (s: String)
    ensures
        s@ == spec_dec(n as nat),
    decreases n,
{
    if n < 10 {
        digit_str(n as u8).to_owned()
    } else {
        let mut s = fmt_u64_dec(n / 10);
        s.append(digit_str((n % 10) as u8));
        proof {
            assert(spec_dec((n as nat) / 10).push(digit_char(((n as nat) % 10) as int)) =~= spec_dec(
                (n as nat) / 10,
            ) + seq![digit_char(((n as nat) % 10) as int)]);
        }
        s
    }
}

/// A number in upper-case hexadecimal.
pub fn fmt_u32_hex(n: u32) -> (s: String)
    ensures
        s@ == spec_hex(n as nat),
    decreases n,
{
    if n < 16 {
        digit_str(n as u8).to_owned()
    } else {
        let mut s = fmt_u32_hex(n / 16);
        s.append(digit_str((n % 16) as u8));
        proof {
            assert(spec_hex((n as nat) / 16).push(digit_char(((n as nat) % 16) as int)) =~= spec_hex(
                (n as nat) / 16,
            ) + seq![digit_char(((n as nat) % 16) as int)]);
        }
        s
    }
}

fn push_repeated(s: &mut String, piece: &str, n: usize, Ghost(c): Ghost<char>)
    requires
        piece@ == seq![c],
    ensures
        final(s)@ == old(s)@ + spec_repeat(c, n as nat),
{
    let mut i: usize = 0;
    proof {
        assert(s@ + spec_repeat(c, 0) =~= s@);
    }
    while i < n
        invariant
            i <= n,
            piece@ == seq![c],
            s@ == old(s)@ + spec_repeat(c, i as nat),
        decreases n - i,
    {
        s.append(piece);
        i = i + 1;
        proof {
            assert(old(s)@ + spec_repeat(c, i as nat) =~= (old(s)@ + spec_repeat(
                c,
                (i - 1) as nat,
            )) + seq![c]);
        }
    }
}

/// The text padded on the right with spaces out to the given width.
fn pad_right(s: &mut String, width: usize)
    ensures
        final(s)@ == spec_pad_right(old(s)@, width as nat),
{
    proof {
        reveal_strlit(" ");
        assert(" "@ =~= seq![' ']);
    }
    let l = s.as_str().unicode_len();
    if l < width {
        push_repeated(s, " ", width - l, Ghost(' '));
    } else {
        proof {
            assert(s@ + spec_repeat(' ', 0) =~= s@);
        }
    }
}

/// The digits padded on the left with zeros out to the given width.
fn pad_zeros(digits: String, width: usize) -> (s: String)
    ensures
        s@ == spec_pad_zeros(digits@, width as nat),
{
    proof {
        reveal_strlit("0");
        assert("0"@ =~= seq!['0']);
    }
    let l = digits.as_str().unicode_len();
    if l < width {
        let mut s = String::new();
        push_repeated(&mut s, "0", width - l, Ghost('0'));
        proof {
            assert(Seq::<char>::empty() + spec_repeat('0', (width - l) as nat) =~= spec_repeat(
                '0',
                (width - l) as nat,
            ));
        }
        s.append(digits.as_str());
        s
    } else {
        digits
    }
}

/// A count of microseconds as seconds with six digits after the point.
pub fn fmt_fixed_micros(us: u64) -> (s: String)
    ensures
        s@ == spec_fixed_micros(us),
{
    proof {
        reveal_strlit(".");
    }
    let mut s = fmt_u64_dec(us / 1000000);
    s.append(".");
    let frac = pad_zeros(fmt_u64_dec(us % 1000000), 6);
    s.append(frac.as_str());
    proof {
        assert(s@ =~= spec_fixed_micros(us));
    }
    s
}

/// One byte as two upper-case hexadecimal digits.
pub fn fmt_byte_hex(b: u8) -> (s: String)
    ensures
        s@ == spec_byte_hex(b),
{
    let mut s = digit_str(b / 16).to_owned();
    s.append(digit_str(b % 16));
    proof {
        assert(s@ =~= spec_byte_hex(b));
    }
    s
}

/// The payload as space-separated upper-case hexadecimal byte pairs.
pub fn fmt_payload_hex(p: &Vec<u8>) -> (s: String)
    ensures
        s@ == spec_payload_hex(p@),
{
    proof {
        reveal_strlit(" ");
    }
    let mut s = String::new();
    let mut i: usize = 0;
    proof {
        assert(p@.subrange(0, 0) =~= Seq::<u8>::empty());
    }
    while i < p.len()
        invariant
            i <= p@.len(),
            s@ == spec_payload_hex(p@.subrange(0, i as int)),
        decreases p@.len() - i,
    {
        if i > 0 {
            s.append(" ");
        }
        let pair = fmt_byte_hex(p[i]);
        s.append(pair.as_str());
        i = i + 1;
        proof {
            let pre = p@.subrange(0, i as int);
            reveal_strlit(" ");
            assert(" "@ =~= seq![' ']);
            assert(pre.drop_last() =~= p@.subrange(0, i - 1));
            assert(pre.last() == p@[i - 1]);
            assert(s@ =~= spec_payload_hex(pre));
        }
    }
    proof {
        assert(p@.subrange(0, p@.len() as int) =~= p@);
    }
    s
}

/// The identifier column for one frame.
pub fn fmt_id_field(identifier: u32, extended: bool) -> (s: String)
    ensures
        s@ == spec_id_field(identifier, extended),
{
    proof {
        reveal_strlit("0x");
    }
    let width: usize = if extended {
        8
    } else {
        3
    };
    let digits = pad_zeros(fmt_u32_hex(identifier), width);
    let mut s = "0x".to_owned();
    s.append(digits.as_str());
    proof {
        assert(s@ =~= spec_id_field(identifier, extended));
    }
    s
}

/// One line of the rendered table, and whether the rendering sink should
/// visually distinguish it (it carries an error-flagged frame).
pub struct DisplayLine {
    pub text: String,
    pub highlight: bool,
}

/// One table row, written out column by column.
pub fn entry_line(e: &AggEntry) -> (s: String)
    ensures
        s@ == spec_entry_line(*e),
{
    proof {
        reveal_strlit(" ");
    }
    let mut s = fmt_u64_dec(e.count);
    pad_right(&mut s, 7);
    s.append(" ");
    let mut t = fmt_fixed_micros(e.last_seen_micros);
    pad_right(&mut t, 14);
    s.append(t.as_str());
    s.append(" ");
    let mut dt = fmt_fixed_micros(e.interval_micros);
    pad_right(&mut dt, 11);
    s.append(dt.as_str());
    s.append(" ");
    let mut id = fmt_id_field(e.last_frame.identifier, e.last_frame.extended);
    pad_right(&mut id, 11);
    s.append(id.as_str());
    s.append(" ");
    let mut dlc = fmt_u64_dec(e.last_frame.length as u64);
    pad_right(&mut dlc, 4);
    s.append(dlc.as_str());
    s.append(" ");
    let data = fmt_payload_hex(&e.last_frame.payload);
    s.append(data.as_str());
    proof {
        assert(s@ =~= spec_entry_line(*e));
    }
    s
}

pub fn header_line() -> (s: String)
    ensures
        s@ == spec_header(),
{
    "Count   Time           dt          ID          DLC  Data".to_owned()
}

/// The render projection: the header, then one line per table entry in the
/// table's current order, each marked for highlighting exactly when its
/// frame is error-flagged.
pub fn render_lines(t: &AggTable) -> (lines: Vec<DisplayLine>)
    ensures
        lines@.len() == t@.len() + 1,
        lines@[0].text@ == spec_header(),
        lines@[0].highlight == false,
        forall|i: int|
            0 <= i < t@.len() ==> lines@[i + 1].text@ == spec_entry_line(#[trigger] t@[i].1)
                && lines@[i + 1].highlight == t@[i].1.last_frame.is_error_frame,
{
    let mut lines: Vec<DisplayLine> = Vec::new();
    lines.push(DisplayLine { text: header_line(), highlight: false });
    let n = t.len();
    let mut i: usize = 0;
    while i < n
        invariant
            n == t@.len(),
            i <= n,
            lines@.len() == i + 1,
            lines@[0].text@ == spec_header(),
            lines@[0].highlight == false,
            forall|j: int|
                0 <= j < i ==> lines@[j + 1].text@ == spec_entry_line(#[trigger] t@[j].1)
                    && lines@[j + 1].highlight == t@[j].1.last_frame.is_error_frame,
        decreases n - i,
    {
        let e = t.entry_at(i);
        let text = entry_line(e);
        lines.push(DisplayLine { text, highlight: e.last_frame.is_error_frame });
        i = i + 1;
    }
    lines
}

/// The largest scroll offset the viewport allows: one short of scrolling the
/// last line away, never negative, and capped at what the offset can hold.
pub open spec fn spec_max_scroll(total_lines: int, viewport_height: int) -> int {
    let m = total_lines - viewport_height + 1;
    if m < 0 {
        0
    } else if m > u16::MAX {
        u16::MAX as int
    } else {
        m
    }
}

pub fn max_scroll(total_lines: usize, viewport_height: u16) -> (r: u16)
    ensures
        r as int == spec_max_scroll(total_lines as int, viewport_height as int),
{
    let h = viewport_height as usize;
    let m: usize = if h >= 1 {
        if total_lines >= h - 1 {
            total_lines - (h - 1)
        } else {
            0
        }
    } else {
        if total_lines < usize::MAX {
            total_lines + 1
        } else {
            usize::MAX
        }
    };
    if m > u16::MAX as usize {
        u16::MAX
    } else {
        m as u16
    }
}

} // verus!
