//! The two-row readout shared by the menu bar icon and the floating widget:
//! `c 8% m57%` over `↓27K ↑.4M`.
use vstd::prelude::*;

use crate::text::{
    all_digits, decimal, digit_char, digit_value, digits_value, int_chars, int_text, is_digit,
    lemma_decimal_shape, lemma_decimal_value, lemma_digit_char, pad_left, push_decimal,
    push_padded, string_of, CharClass, parse_i32, strip, strip_start, strip_end,
};
use crate::placement::saved_widget_x_reads_back;

verus! {

pub const KIB: u64 = 1024;

pub const MIB: u64 = 1048576;

pub const GIB: u64 = 1073741824;

/// The tenths digit shown for a value below one `unit`: `bps * 10 / unit`
/// rounded down and kept within `1..=9`.
pub open spec fn tenths_digit(bps: nat, unit: nat) -> nat {
    let d = bps * 10 / unit;
    if d < 1 {
        1
    } else if d > 9 {
        9
    } else {
        d
    }
}

/// `.d`: a value below one `unit`, in tenths of it.
pub open spec fn tenths_text(bps: nat, unit: nat) -> Seq<char> {
    seq!['.', digit_char(tenths_digit(bps, unit))]
}

/// The number part of a byte rate: whole bytes below 100; tenths of the next
/// unit up to one unit; whole units below 100 of them; at most `99` gigabytes.
pub open spec fn speed_number(bps: nat) -> Seq<char> {
    if bps < 100 {
        decimal(bps)
    } else if bps < KIB {
        tenths_text(bps, KIB as nat)
    } else if bps < 100 * KIB {
        decimal(bps / (KIB as nat))
    } else if bps < MIB {
        tenths_text(bps, MIB as nat)
    } else if bps < 100 * MIB {
        decimal(bps / (MIB as nat))
    } else if bps < GIB {
        tenths_text(bps, GIB as nat)
    } else if bps / (GIB as nat) < 99 {
        decimal(bps / (GIB as nat))
    } else {
        decimal(99)
    }
}

/// The unit letter of a byte rate.
pub open spec fn speed_unit(bps: nat) -> Seq<char> {
    if bps < 100 {
        seq!['B']
    } else if bps < 100 * KIB {
        seq!['K']
    } else if bps < 100 * MIB {
        seq!['M']
    } else {
        seq!['G']
    }
}

/// `min(x, 99)`, the cap applied to both percentages.
pub open spec fn cap99(x: int) -> int {
    if x < 99 {
        x
    } else {
        99
    }
}

/// The first row: `c{cpu:>2}% m{mem:>2}%`, each percentage capped at 99.
pub open spec fn usage_row(cpu: int, mem: int) -> Seq<char> {
    seq!['c'] + pad_left(int_text(cap99(cpu)), 2) + seq!['%', ' ', 'm'] + pad_left(
        int_text(cap99(mem)),
        2,
    ) + seq!['%']
}

/// The second row: `↓{down:>2}{unit} ↑{up:>2}{unit}`.
pub open spec fn speed_row(down: nat, up: nat) -> Seq<char> {
    seq!['↓'] + pad_left(speed_number(down), 2) + speed_unit(down) + seq![' ', '↑'] + pad_left(
        speed_number(up),
        2,
    ) + speed_unit(up)
}

fn tenths_chars(bps: u64, unit: u64) -> (v: Vec<char>)
    requires
        unit > 0,
        bps < unit,
        unit <= GIB,
    ensures
        v@ == tenths_text(bps as nat, unit as nat),
{
    let d = bps * 10 / unit;
    let d = if d < 1 {
        1
    } else if d > 9 {
        9
    } else {
        d
    };
    let mut v: Vec<char> = Vec::new();
    v.push('.');
    v.push((48u8 + d as u8) as char);
    assert(v@ =~= tenths_text(bps as nat, unit as nat));
    v
}

fn decimal_chars(n: u64) -> (v: Vec<char>)
    ensures
        v@ == decimal(n as nat),
{
    let mut v: Vec<char> = Vec::new();
    push_decimal(&mut v, n);
    assert(v@ =~= decimal(n as nat));
    v
}

fn speed_number_chars(bps: u64) -> (v: Vec<char>)
    ensures
        v@ == speed_number(bps as nat),
{
    if bps < 100 {
        decimal_chars(bps)
    } else if bps < KIB {
        tenths_chars(bps, KIB)
    } else if bps < 100 * KIB {
        decimal_chars(bps / KIB)
    } else if bps < MIB {
        tenths_chars(bps, MIB)
    } else if bps < 100 * MIB {
        decimal_chars(bps / MIB)
    } else if bps < GIB {
        tenths_chars(bps, GIB)
    } else if bps / GIB < 99 {
        decimal_chars(bps / GIB)
    } else {
        decimal_chars(99)
    }
}

fn speed_unit_str(bps: u64) -> (u: &'static str)
    ensures
        u@ == speed_unit(bps as nat),
{
    proof {
        reveal_strlit("B");
        reveal_strlit("K");
        reveal_strlit("M");
        reveal_strlit("G");
    }
    if bps < 100 {
        "B"
    } else if bps < 100 * KIB {
        "K"
    } else if bps < 100 * MIB {
        "M"
    } else {
        "G"
    }
}

/// Splits a byte rate (bytes in the last second) into the number and the
/// unit letter that the readout shows.
pub fn format_speed(bps: u64) -> (r: (String, &'static str))
    ensures
        r.0@ == speed_number(bps as nat),
        r.1@ == speed_unit(bps as nat),
{
    let v = speed_number_chars(bps);
    (string_of(&v), speed_unit_str(bps))
}

fn unit_char(bps: u64) -> (c: char)
    ensures
        seq![c] == speed_unit(bps as nat),
{
    if bps < 100 {
        'B'
    } else if bps < 100 * KIB {
        'K'
    } else if bps < 100 * MIB {
        'M'
    } else {
        'G'
    }
}

fn capped(x: i32) -> (r: i32)
    ensures
        r == cap99(x as int),
{
    if x < 99 {
        x
    } else {
        99
    }
}

/// The two rows of the readout for the given CPU and memory percentages and
/// download and upload rates.
pub fn format_rows(cpu: i32, mem: i32, down_bps: u64, up_bps: u64) -> (r: (String, String))
    ensures
        r.0@ == usage_row(cpu as int, mem as int),
        r.1@ == speed_row(down_bps as nat, up_bps as nat),
{
    let mut row1: Vec<char> = Vec::new();
    row1.push('c');
    push_padded(&mut row1, &int_chars(capped(cpu) as i64), 2);
    row1.push('%');
    row1.push(' ');
    row1.push('m');
    push_padded(&mut row1, &int_chars(capped(mem) as i64), 2);
    row1.push('%');
    assert(row1@ =~= usage_row(cpu as int, mem as int));

    let mut row2: Vec<char> = Vec::new();
    row2.push('↓');
    push_padded(&mut row2, &speed_number_chars(down_bps), 2);
    row2.push(unit_char(down_bps));
    row2.push(' ');
    row2.push('↑');
    push_padded(&mut row2, &speed_number_chars(up_bps), 2);
    row2.push(unit_char(up_bps));
    assert(row2@ =~= speed_row(down_bps as nat, up_bps as nat));
    (string_of(&row1), string_of(&row2))
}

proof fn lemma_speed_number_width(bps: nat)
    ensures
        1 <= speed_number(bps).len() <= 2,
{
    if bps < 100 {
        lemma_decimal_shape(bps);
    } else if bps < KIB {
    } else if bps < 100 * KIB {
        lemma_decimal_shape(bps / (KIB as nat));
    } else if bps < MIB {
    } else if bps < 100 * MIB {
        lemma_decimal_shape(bps / (MIB as nat));
    } else if bps < GIB {
    } else if bps / (GIB as nat) < 99 {
        lemma_decimal_shape(bps / (GIB as nat));
    } else {
        lemma_decimal_shape(99);
    }
}

proof fn lemma_percent_width(x: int)
    requires
        x >= -9,
    ensures
        pad_left(int_text(cap99(x)), 2).len() == 2,
{
    let c = cap99(x);
    if c < 0 {
        lemma_decimal_shape((-c) as nat);
    } else {
        lemma_decimal_shape(c as nat);
    }
}

/// The speed row is always nine characters wide, so the readout does not
/// shift as the rates change.
pub proof fn speed_row_is_nine_wide(down: nat, up: nat)
    ensures
        speed_row(down, up).len() == 9,
{
    lemma_speed_number_width(down);
    lemma_speed_number_width(up);
}

/// The usage row is nine characters wide for every percentage from -9 up
/// (values above 99 are capped).
pub proof fn usage_row_is_nine_wide(cpu: int, mem: int)
    requires
        cpu >= -9,
        mem >= -9,
    ensures
        usage_row(cpu, mem).len() == 9,
{
    lemma_percent_width(cpu);
    lemma_percent_width(mem);
}

/// A tenths figure `.d` of `unit` for `bps`: `d` tenths of the unit rounded
/// down, shown as at least `.1` and at most `.9`.
pub open spec fn tenths_bracket(bps: nat, unit: nat, d: nat) -> bool {
    &&& 1 <= d <= 9
    &&& (d == 1 || d * unit <= bps * 10)
    &&& (d == 9 || bps * 10 < (d + 1) * unit)
}

/// A whole number `n` of `unit` for `bps`: `bps` rounded down to whole units.
pub open spec fn whole_bracket(bps: nat, unit: nat, n: Seq<char>) -> bool {
    &&& n.len() >= 1
    &&& all_digits(n)
    &&& digits_value(n) * unit <= bps < (digits_value(n) + 1) * unit
}

/// A tenths figure: a point and one digit.
pub open spec fn tenths_shape(bps: nat, unit: nat, n: Seq<char>) -> bool {
    &&& n.len() == 2
    &&& n[0] == '.'
    &&& is_digit(n[1])
    &&& tenths_bracket(bps, unit, digit_value(n[1]))
}

proof fn lemma_whole(bps: nat, unit: nat)
    requires
        unit > 0,
    ensures
        whole_bracket(bps, unit, decimal(bps / unit)),
{
    lemma_decimal_shape(bps / unit);
    lemma_decimal_value(bps / unit);
    let q = bps / unit;
    assert(q * unit <= bps < (q + 1) * unit) by (nonlinear_arith)
        requires
            unit > 0,
            q == bps / unit,
    ;
}

proof fn lemma_tenths(bps: nat, unit: nat)
    requires
        unit > 0,
        bps < unit,
    ensures
        tenths_shape(bps, unit, tenths_text(bps, unit)),
{
    let raw = bps * 10 / unit;
    assert(raw * unit <= bps * 10 < (raw + 1) * unit) by (nonlinear_arith)
        requires
            unit > 0,
            raw == bps * 10 / unit,
    ;
    assert(raw <= 9) by (nonlinear_arith)
        requires
            raw * unit <= bps * 10,
            bps < unit,
            unit > 0,
    ;
    let d = tenths_digit(bps, unit);
    assert(d == if raw < 1 {
        1
    } else {
        raw
    });
    lemma_digit_char(d);
    let n = tenths_text(bps, unit);
    assert(n[1] == digit_char(d));
    assert(digit_value(n[1]) == d);
    if raw < 1 {
        assert(raw == 0);
        assert(bps * 10 < unit);
        assert(bps * 10 < (d + 1) * unit) by (nonlinear_arith)
            requires
                bps * 10 < unit,
                d == 1,
        ;
    } else {
        assert(d * unit <= bps * 10);
        assert(bps * 10 < (d + 1) * unit);
    }
    assert(tenths_bracket(bps, unit, d));
}

/// The readout brackets the rate: the unit letter is `B` below 100 bytes,
/// `K` below 100 KiB, `M` below 100 MiB and `G` above; a whole number `n`
/// of a unit means the rate is at least `n` and below `n + 1` of that unit
/// (bytes exactly; gigabytes shown as at most 99), and a tenths figure `.d`
/// means `d` tenths of the next unit, rounded down, from `.1` to `.9`.
pub proof fn speed_reading_brackets_rate(bps: nat)
    ensures
        speed_unit(bps).len() == 1,
        (speed_unit(bps)[0] == 'B') <==> bps < 100,
        (speed_unit(bps)[0] == 'K') <==> (100 <= bps && bps < 102400),
        (speed_unit(bps)[0] == 'M') <==> (102400 <= bps && bps < 104857600),
        (speed_unit(bps)[0] == 'G') <==> 104857600 <= bps,
        bps < 100 ==> whole_bracket(bps, 1, speed_number(bps)),
        100 <= bps < 1024 ==> tenths_shape(bps, 1024, speed_number(bps)),
        1024 <= bps < 102400 ==> whole_bracket(bps, 1024, speed_number(bps)),
        102400 <= bps < 1048576 ==> tenths_shape(bps, 1048576, speed_number(bps)),
        1048576 <= bps < 104857600 ==> whole_bracket(bps, 1048576, speed_number(bps)),
        104857600 <= bps < 1073741824 ==> tenths_shape(bps, 1073741824, speed_number(bps)),
        1073741824 <= bps < 99 * 1073741824 ==> whole_bracket(bps, 1073741824, speed_number(bps)),
        99 * 1073741824 <= bps ==> speed_number(bps) == seq!['9', '9'],
{
    if bps < 100 {
        lemma_whole(bps, 1);
    } else if bps < 1024 {
        lemma_tenths(bps, 1024);
    } else if bps < 102400 {
        lemma_whole(bps, 1024);
    } else if bps < 1048576 {
        lemma_tenths(bps, 1048576);
    } else if bps < 104857600 {
        lemma_whole(bps, 1048576);
    } else if bps < 1073741824 {
        lemma_tenths(bps, 1073741824);
    } else if bps < 99 * 1073741824 {
        lemma_whole(bps, 1073741824);
    } else {
        assert(decimal(99) =~= decimal(9).push(digit_char(9)));
        assert(digit_char(9) == '9') by {
            lemma_digit_char(9);
        }
        assert(decimal(99) =~= seq!['9', '9']);
    }
}

proof fn lemma_strip_leading_space(t: Seq<char>)
    ensures
        strip(seq![' '] + t, CharClass::WhiteSpace) == strip(t, CharClass::WhiteSpace),
{
    let s = seq![' '] + t;
    assert(s[0] == ' ');
    assert(s.drop_first() =~= t);
    assert(strip_start(s, CharClass::WhiteSpace) == strip_start(t, CharClass::WhiteSpace));
}

proof fn lemma_percent_field(x: i32)
    requires
        x >= -9,
    ensures
        ({
            let c: i32 = if x < 99 {
                x
            } else {
                99
            };
            let f = pad_left(int_text(cap99(x as int)), 2);
            &&& f.len() == 2
            &&& parse_i32(strip(f, CharClass::WhiteSpace)) == Some(c)
        }),
{
    let c: i32 = if x < 99 {
        x
    } else {
        99
    };
    assert(c as int == cap99(x as int));
    lemma_percent_width(x as int);
    saved_widget_x_reads_back(c);
    let t = int_text(c as int);
    if t.len() < 2 {
        assert(pad_left(t, 2) =~= seq![' '] + t);
        lemma_strip_leading_space(t);
    }
}

/// The usage row reads back as the percentages it shows: after `c` the two
/// columns hold the CPU percentage and after `m` the memory percentage,
/// each capped at 99, for every percentage from -9 up.
pub proof fn usage_row_shows_percentages(cpu: i32, mem: i32)
    requires
        cpu >= -9,
        mem >= -9,
    ensures
        ({
            let row = usage_row(cpu as int, mem as int);
            &&& row[0] == 'c'
            &&& row[3] == '%'
            &&& row[5] == 'm'
            &&& row[8] == '%'
            &&& parse_i32(strip(row.subrange(1, 3), CharClass::WhiteSpace)) == Some(
                if cpu < 99 {
                    cpu
                } else {
                    99i32
                },
            )
            &&& parse_i32(strip(row.subrange(6, 8), CharClass::WhiteSpace)) == Some(
                if mem < 99 {
                    mem
                } else {
                    99i32
                },
            )
        }),
{
    lemma_percent_field(cpu);
    lemma_percent_field(mem);
    let a = pad_left(int_text(cap99(cpu as int)), 2);
    let b = pad_left(int_text(cap99(mem as int)), 2);
    let row = usage_row(cpu as int, mem as int);
    assert(row =~= seq!['c'] + a + seq!['%', ' ', 'm'] + b + seq!['%']);
    assert(row.subrange(1, 3) =~= a);
    assert(row.subrange(6, 8) =~= b);
}

proof fn lemma_speed_field(bps: nat)
    ensures
        pad_left(speed_number(bps), 2).len() == 2,
        strip(pad_left(speed_number(bps), 2), CharClass::WhiteSpace) == speed_number(bps),
{
    lemma_speed_number_width(bps);
    speed_reading_brackets_rate(bps);
    let n = speed_number(bps);
    lemma_speed_number_ends(bps);
    if n.len() < 2 {
        assert(pad_left(n, 2) =~= seq![' '] + n);
        lemma_strip_leading_space(n);
    }
    crate::text::lemma_strip_start_at(n, CharClass::WhiteSpace, 0);
    assert(n.skip(0) =~= n);
    crate::text::lemma_strip_end_at(n, CharClass::WhiteSpace, n.len() as int);
    assert(n.take(n.len() as int) =~= n);
}

proof fn lemma_speed_number_ends(bps: nat)
    ensures
        speed_number(bps).len() >= 1,
        !crate::text::is_white_space(speed_number(bps)[0]),
        !crate::text::is_white_space(speed_number(bps).last()),
{
    lemma_speed_number_width(bps);
    let n = speed_number(bps);
    speed_reading_brackets_rate(bps);
    if n[0] != '.' {
        assert(is_digit(n[0]));
    }
    assert(is_digit(n.last()));
}

/// The speed row reads back as the rates it shows: the download figure and
/// its unit after the down arrow, the upload figure and its unit after the
/// up arrow.
pub proof fn speed_row_shows_rates(down: nat, up: nat)
    ensures
        ({
            let row = speed_row(down, up);
            &&& row[0] == '↓'
            &&& strip(row.subrange(1, 3), CharClass::WhiteSpace) == speed_number(down)
            &&& row[3] == speed_unit(down)[0]
            &&& row[4] == ' '
            &&& row[5] == '↑'
            &&& strip(row.subrange(6, 8), CharClass::WhiteSpace) == speed_number(up)
            &&& row[8] == speed_unit(up)[0]
        }),
{
    lemma_speed_field(down);
    lemma_speed_field(up);
    speed_reading_brackets_rate(down);
    speed_reading_brackets_rate(up);
    let a = pad_left(speed_number(down), 2);
    let b = pad_left(speed_number(up), 2);
    let row = speed_row(down, up);
    assert(row =~= seq!['↓'] + a + speed_unit(down) + seq![' ', '↑'] + b + speed_unit(up));
    assert(row.subrange(1, 3) =~= a);
    assert(row.subrange(6, 8) =~= b);
}

} // verus!
