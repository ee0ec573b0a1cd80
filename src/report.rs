//! The output manager's report, read line by line into outputs.
//!
//! A line that starts at the left margin and reads `<name> "<description>"`
//! opens a new output; indented lines update the open one. Whatever does not
//! match a known shape is passed over, and a number that cannot be read
//! takes its default.

use vstd::prelude::*;
use crate::model::{Output, OutputMode, OutputModel};
use crate::text::{
    chars_eq, split_lines, string_from_chars, to_chars, trim_exec,
    contains_exec, find_char_from, is_ws_char, lemma_find_char, lemma_skip_digits,
    lemma_skip_number, occurs_at_exec, parse_digits, rfind_char_below, skip_digits_from,
    skip_non_ws_from, skip_number_from, skip_ws_from, slice_chars, is_digit,
    contains, digits_value, find_char, has_prefix, is_ws, lines_of, occurs_at, rfind_char,
    skip_digits, skip_non_ws, skip_number, skip_ws, trim,
};
use crate::words::{
    key_make_chars, key_model_chars, key_physical_size_chars, key_serial_chars,
    key_transform_chars, modes_marker_chars, word_normal_chars,
    key_enabled_chars, key_position_chars, key_scale_chars, word_current_chars, word_hz_chars,
    word_no_chars, word_open_chars, word_preferred_chars, word_px_chars, word_yes_chars,
    key_enabled, key_make, key_model, key_physical_size, key_position, key_scale, key_serial,
    key_transform, modes_marker, word_current, word_hz, word_no, word_normal, word_open,
    word_preferred, word_px, word_yes,
};

verus! {

/// The index where the value of the field `key` starts in `line`: the key,
/// at least one whitespace character, and then the first one that is not.
pub open spec fn field_start(line: Seq<char>, key: Seq<char>) -> Option<int> {
    if has_prefix(line, key) && key.len() < line.len() && is_ws(line[key.len() as int]) {
        Some(skip_ws(line, key.len() as int))
    } else {
        None
    }
}

/// The rest of the line after the field `key` and its whitespace.
pub open spec fn text_field(line: Seq<char>, key: Seq<char>) -> Option<Seq<char>> {
    match field_start(line, key) {
        Some(v) => Some(line.subrange(v, line.len() as int)),
        None => None,
    }
}

pub open spec fn enabled_field(line: Seq<char>) -> Option<bool> {
    match field_start(line, key_enabled()) {
        Some(v) => if occurs_at(line, v, word_yes()) {
            Some(true)
        } else if occurs_at(line, v, word_no()) {
            Some(false)
        } else {
            None
        },
        None => None,
    }
}

/// An integer that starts at `i`, an optional minus sign and digits: its
/// value (zero where it does not fit in an `i32`) and the index after it.
pub open spec fn signed_at(line: Seq<char>, i: int) -> Option<(i32, int)> {
    let neg = 0 <= i < line.len() && line[i] == '-';
    let j = if neg { i + 1 } else { i };
    let e = skip_digits(line, j);
    if e > j {
        let mag = digits_value(line.subrange(j, e)) as int;
        let v = if neg { -mag } else { mag };
        Some((if i32::MIN <= v <= i32::MAX { v as i32 } else { 0i32 }, e))
    } else {
        None
    }
}

pub open spec fn position_field(line: Seq<char>) -> Option<(i32, i32)> {
    match field_start(line, key_position()) {
        Some(v) => match signed_at(line, v) {
            Some((x, e)) => if e < line.len() && line[e] == ',' {
                match signed_at(line, e + 1) {
                    Some((y, _)) => Some((x, y)),
                    None => None,
                }
            } else {
                None
            },
            None => None,
        },
        None => None,
    }
}

/// The first six decimals of `f`, padded with zeros.
pub open spec fn frac6(f: Seq<char>) -> Seq<char> {
    (f + seq!['0', '0', '0', '0', '0', '0']).take(6)
}

/// A decimal number made of digits and at most one dot, with at least one
/// digit, in millionths (further decimals are cut off); `None` where it is
/// not such a number or does not fit in a `u64`.
pub open spec fn decimal_value(s: Seq<char>) -> Option<u64> {
    let k = find_char(s, '.', 0);
    let ip = s.take(k);
    let fp = if k < s.len() { s.subrange(k + 1, s.len() as int) } else { Seq::empty() };
    let v = digits_value(ip + frac6(fp));
    if find_char(s, '.', k + 1) == s.len() && ip.len() + fp.len() > 0 && v <= u64::MAX {
        Some(v as u64)
    } else {
        None
    }
}

/// The scale, in millionths; one where the number cannot be read.
pub open spec fn scale_field(line: Seq<char>) -> Option<u64> {
    match field_start(line, key_scale()) {
        Some(v) => {
            let e = skip_number(line, v);
            if e > v {
                Some(
                    match decimal_value(line.subrange(v, e)) {
                        Some(x) => x,
                        None => 1_000_000u64,
                    },
                )
            } else {
                None
            }
        },
        None => None,
    }
}

/// The flag list of a mode line, between ` (` at `h` and the last `)`.
pub open spec fn mode_flags(line: Seq<char>, h: int) -> Option<Seq<char>> {
    let q = rfind_char(line, ')', line.len() as int);
    if occurs_at(line, h, word_open()) && q >= h + 2 {
        Some(line.subrange(h + 2, q))
    } else {
        None
    }
}

pub open spec fn size_value(d: Seq<char>) -> i32 {
    if digits_value(d) <= i32::MAX {
        digits_value(d) as i32
    } else {
        0
    }
}

/// A mode line: `<w>x<h> px, <rate> Hz`, indented, with an optional flag
/// list in parentheses.
pub open spec fn mode_line(line: Seq<char>) -> Option<OutputMode> {
    let i0 = skip_ws(line, 0);
    let a = skip_digits(line, i0);
    let b = skip_digits(line, a + 1);
    let c0 = b + 5;
    let c = skip_number(line, c0);
    if i0 > 0 && a > i0 && a < line.len() && line[a] == 'x' && b > a + 1 && occurs_at(
        line,
        b,
        word_px(),
    ) && c > c0 && occurs_at(line, c, word_hz()) {
        let flags = mode_flags(line, c + 3);
        Some(
            OutputMode {
                width: size_value(line.subrange(i0, a)),
                height: size_value(line.subrange(a + 1, b)),
                refresh_rate: match decimal_value(line.subrange(c0, c)) {
                    Some(x) => x,
                    None => 0,
                },
                current: match flags {
                    Some(f) => contains(f, word_current()),
                    None => false,
                },
                preferred: match flags {
                    Some(f) => contains(f, word_preferred()),
                    None => false,
                },
            },
        )
    } else {
        None
    }
}

/// The name and description of a line that opens an output.
pub open spec fn header_line(line: Seq<char>) -> Option<(Seq<char>, Seq<char>)> {
    let t = skip_non_ws(line, 0);
    let u = skip_ws(line, t);
    let q = rfind_char(line, '"', line.len() as int);
    if line.len() > 0 && !is_ws(line[0]) && u > t && u < line.len() && line[u] == '"' && q > u {
        Some((line.take(t), line.subrange(u + 1, q)))
    } else {
        None
    }
}

/// A new output as a header line opens it.
pub open spec fn fresh_output(name: Seq<char>, description: Seq<char>) -> OutputModel {
    OutputModel {
        name,
        description,
        make: Seq::empty(),
        model: Seq::empty(),
        serial: Seq::empty(),
        physical_size: Seq::empty(),
        position: (0, 0),
        scale: 1_000_000,
        transform: word_normal(),
        modes: Seq::empty(),
        enabled: true,
    }
}

/// What an indented line does to the open output and to the mode-list flag,
/// the first matching shape deciding.
pub open spec fn update_output(o: OutputModel, in_modes: bool, line: Seq<char>) -> (
    OutputModel,
    bool,
) {
    if let Some(e) = enabled_field(line) {
        (OutputModel { enabled: e, ..o }, in_modes)
    } else if let Some(v) = text_field(line, key_make()) {
        (OutputModel { make: v, ..o }, in_modes)
    } else if let Some(v) = text_field(line, key_model()) {
        (OutputModel { model: v, ..o }, in_modes)
    } else if let Some(v) = text_field(line, key_serial()) {
        (OutputModel { serial: v, ..o }, in_modes)
    } else if let Some(v) = text_field(line, key_physical_size()) {
        (OutputModel { physical_size: v, ..o }, in_modes)
    } else if let Some(p) = position_field(line) {
        (OutputModel { position: p, ..o }, in_modes)
    } else if let Some(s) = scale_field(line) {
        (OutputModel { scale: s, ..o }, in_modes)
    } else if let Some(v) = text_field(line, key_transform()) {
        (OutputModel { transform: v, ..o }, in_modes)
    } else if trim(line) == modes_marker() {
        (o, true)
    } else if in_modes && mode_line(line) is Some {
        (OutputModel { modes: o.modes.push(mode_line(line)->0), ..o }, in_modes)
    } else {
        (o, in_modes)
    }
}

/// The reader's state between lines: the outputs that are complete, the
/// open one, and whether the open one is in its mode list.
pub struct ParseState {
    pub done: Seq<OutputModel>,
    pub current: Option<OutputModel>,
    pub in_modes: bool,
}

pub open spec fn initial_state() -> ParseState {
    ParseState { done: Seq::empty(), current: None, in_modes: false }
}

/// The outputs that are complete once the open one is closed.
pub open spec fn flushed(st: ParseState) -> Seq<OutputModel> {
    match st.current {
        Some(o) => st.done.push(o),
        None => st.done,
    }
}

pub open spec fn is_indented(line: Seq<char>) -> bool {
    line.len() > 0 && line[0] == ' '
}

pub open spec fn step(st: ParseState, line: Seq<char>) -> ParseState {
    if is_indented(line) {
        match st.current {
            Some(o) => {
                let (o2, m2) = update_output(o, st.in_modes, line);
                ParseState { done: st.done, current: Some(o2), in_modes: m2 }
            },
            None => st,
        }
    } else {
        match header_line(line) {
            Some((n, d)) => ParseState {
                done: flushed(st),
                current: Some(fresh_output(n, d)),
                in_modes: false,
            },
            None => st,
        }
    }
}

pub open spec fn run(ls: Seq<Seq<char>>) -> ParseState
    decreases ls.len(),
{
    if ls.len() == 0 {
        initial_state()
    } else {
        step(run(ls.drop_last()), ls.last())
    }
}

/// The outputs that a report describes, in the order it gives them.
pub open spec fn parse_report(t: Seq<char>) -> Seq<OutputModel> {
    flushed(run(lines_of(t)))
}


fn field_start_exec(line: &Vec<char>, key: &Vec<char>) -> (r: Option<usize>)
    ensures
        match r {
            Some(v) => field_start(line@, key@) == Some(v as int) && v <= line@.len(),
            None => field_start(line@, key@) is None,
        },
{
    if occurs_at_exec(line, 0, key) && key.len() < line.len() && is_ws_char(line[key.len()]) {
        Some(skip_ws_from(line, key.len()))
    } else {
        None
    }
}

fn text_field_exec(line: &Vec<char>, key: &Vec<char>) -> (r: Option<Vec<char>>)
    ensures
        match r {
            Some(v) => text_field(line@, key@) == Some(v@),
            None => text_field(line@, key@) is None,
        },
{
    match field_start_exec(line, key) {
        Some(v) => Some(slice_chars(line, v, line.len())),
        None => None,
    }
}

fn enabled_field_exec(line: &Vec<char>) -> (r: Option<bool>)
    ensures
        r == enabled_field(line@),
{
    match field_start_exec(line, &key_enabled_chars()) {
        Some(v) => if occurs_at_exec(line, v, &word_yes_chars()) {
            Some(true)
        } else if occurs_at_exec(line, v, &word_no_chars()) {
            Some(false)
        } else {
            None
        },
        None => None,
    }
}

fn signed_at_exec(line: &Vec<char>, i: usize) -> (r: Option<(i32, usize)>)
    requires
        i <= line@.len(),
    ensures
        match r {
            Some((v, e)) => signed_at(line@, i as int) == Some((v, e as int)) && e <= line@.len(),
            None => signed_at(line@, i as int) is None,
        },
{
    let neg = i < line.len() && line[i] == '-';
    let j = if neg { i + 1 } else { i };
    let e = skip_digits_from(line, j);
    if e > j {
        proof {
            lemma_skip_digits(line@, j as int);
        }
        let mag = parse_digits(line, j, e);
        let v: i32 = match mag {
            Some(m) => if neg {
                if m <= 2147483648 {
                    (0i64 - m as i64) as i32
                } else {
                    0
                }
            } else {
                if m <= 2147483647 {
                    m as i32
                } else {
                    0
                }
            },
            None => 0,
        };
        Some((v, e))
    } else {
        None
    }
}

fn position_field_exec(line: &Vec<char>) -> (r: Option<(i32, i32)>)
    ensures
        r == position_field(line@),
{
    match field_start_exec(line, &key_position_chars()) {
        Some(v) => match signed_at_exec(line, v) {
            Some((x, e)) => if e < line.len() && line[e] == ',' {
                match signed_at_exec(line, e + 1) {
                    Some((y, _)) => Some((x, y)),
                    None => None,
                }
            } else {
                None
            },
            None => None,
        },
        None => None,
    }
}

fn decimal_value_exec(s: &Vec<char>) -> (r: Option<u64>)
    requires
        forall|m: int| 0 <= m < s@.len() ==> is_digit(#[trigger] s@[m]) || s@[m] == '.',
    ensures
        r == decimal_value(s@),
{
    let k = find_char_from(s, '.', 0);
    proof {
        lemma_find_char(s@, '.', 0);
    }
    let ip = slice_chars(s, 0, k);
    let fp = if k < s.len() {
        slice_chars(s, k + 1, s.len())
    } else {
        Vec::new()
    };
    let ghost fps = if k < s@.len() { s@.subrange(k + 1, s@.len() as int) } else { Seq::empty() };
    assert(fp@ == fps);
    assert(ip@ == s@.take(k as int));
    if k < s.len() {
        let k2 = find_char_from(s, '.', k + 1);
        proof {
            lemma_find_char(s@, '.', k + 1);
        }
        if k2 != s.len() {
            return None;
        }
    }
    if ip.len() + fp.len() == 0 {
        return None;
    }
    let mut buf = ip;
    let mut j: usize = 0;
    let ghost padded6 = fps + seq!['0', '0', '0', '0', '0', '0'];
    while j < 6
        invariant
            j <= 6,
            buf@ == s@.take(k as int) + padded6.take(j as int),
            padded6 == fps + seq!['0', '0', '0', '0', '0', '0'],
            fp@ == fps,
        decreases 6 - j,
    {
        if j < fp.len() {
            buf.push(fp[j]);
        } else {
            buf.push('0');
        }
        assert(padded6.take(j + 1) == padded6.take(j as int).push(padded6[j as int]));
        j = j + 1;
    }
    let ghost digits = s@.take(k as int) + frac6(fps);
    assert(buf@ == digits);
    assert forall|m: int| 0 <= m < buf@.len() implies is_digit(#[trigger] buf@[m]) by {
        if m < k {
            assert(s@[m] != '.');
        } else if m - k < fps.len() {
            assert(buf@[m] == s@[k + 1 + m - k]);
        }
    }
    let n = buf.len();
    assert(buf@.subrange(0, n as int) == buf@);
    parse_digits(&buf, 0, n)
}

fn scale_field_exec(line: &Vec<char>) -> (r: Option<u64>)
    ensures
        r == scale_field(line@),
{
    match field_start_exec(line, &key_scale_chars()) {
        Some(v) => {
            let e = skip_number_from(line, v);
            if e > v {
                proof {
                    lemma_skip_number(line@, v as int);
                }
                let num = slice_chars(line, v, e);
                Some(
                    match decimal_value_exec(&num) {
                        Some(x) => x,
                        None => 1_000_000u64,
                    },
                )
            } else {
                None
            }
        },
        None => None,
    }
}

fn mode_flags_exec(line: &Vec<char>, h: usize) -> (r: Option<Vec<char>>)
    ensures
        match r {
            Some(f) => mode_flags(line@, h as int) == Some(f@),
            None => mode_flags(line@, h as int) is None,
        },
{
    if occurs_at_exec(line, h, &word_open_chars()) {
        match rfind_char_below(line, ')', line.len()) {
            Some(q) => if q >= h + 2 {
                return Some(slice_chars(line, h + 2, q));
            } else {
                return None;
            },
            None => return None,
        }
    }
    None
}

fn size_value_exec(line: &Vec<char>, a: usize, b: usize) -> (r: i32)
    requires
        a <= b <= line@.len(),
        forall|m: int| a <= m < b ==> is_digit(#[trigger] line@[m]),
    ensures
        r == size_value(line@.subrange(a as int, b as int)),
{
    match parse_digits(line, a, b) {
        Some(v) => if v <= 2147483647 {
            v as i32
        } else {
            0
        },
        None => 0,
    }
}

fn mode_line_exec(line: &Vec<char>) -> (r: Option<OutputMode>)
    ensures
        r == mode_line(line@),
{
    let i0 = skip_ws_from(line, 0);
    let a = skip_digits_from(line, i0);
    if !(i0 > 0 && a > i0 && a < line.len() && line[a] == 'x') {
        return None;
    }
    let b = skip_digits_from(line, a + 1);
    if !(b > a + 1 && occurs_at_exec(line, b, &word_px_chars())) {
        return None;
    }
    let c0 = b + 5;
    let c = skip_number_from(line, c0);
    if !(c > c0 && occurs_at_exec(line, c, &word_hz_chars())) {
        return None;
    }
    proof {
        lemma_skip_digits(line@, i0 as int);
        lemma_skip_digits(line@, a + 1);
        lemma_skip_number(line@, c0 as int);
    }
    let width = size_value_exec(line, i0, a);
    let height = size_value_exec(line, a + 1, b);
    let rate_text = slice_chars(line, c0, c);
    let refresh_rate = match decimal_value_exec(&rate_text) {
        Some(x) => x,
        None => 0,
    };
    let flags = mode_flags_exec(line, c + 3);
    let (current, preferred) = match flags {
        Some(f) => (contains_exec(&f, &word_current_chars()), contains_exec(&f, &word_preferred_chars())),
        None => (false, false),
    };
    Some(OutputMode { width, height, refresh_rate, current, preferred })
}

fn header_line_exec(line: &Vec<char>) -> (r: Option<(Vec<char>, Vec<char>)>)
    ensures
        match r {
            Some((n, d)) => header_line(line@) == Some((n@, d@)),
            None => header_line(line@) is None,
        },
{
    let t = skip_non_ws_from(line, 0);
    let u = skip_ws_from(line, t);
    if !(line.len() > 0 && !is_ws_char(line[0]) && u > t && u < line.len() && line[u] == '"') {
        return None;
    }
    match rfind_char_below(line, '"', line.len()) {
        Some(q) => if q > u {
            Some((slice_chars(line, 0, t), slice_chars(line, u + 1, q)))
        } else {
            None
        },
        None => None,
    }
}


fn fresh_output_exec(name: &Vec<char>, description: &Vec<char>) -> (r: Output)
    ensures
        r@ == fresh_output(name@, description@),
{
    let e: Vec<char> = Vec::new();
    Output {
        name: string_from_chars(name),
        description: string_from_chars(description),
        make: string_from_chars(&e),
        model: string_from_chars(&e),
        serial: string_from_chars(&e),
        physical_size: string_from_chars(&e),
        position: (0, 0),
        scale: 1_000_000,
        transform: string_from_chars(&word_normal_chars()),
        modes: Vec::new(),
        enabled: true,
    }
}

/// Applies one indented line to the open output; returns whether the
/// output is in its mode list afterwards.
fn update_output_exec(o: &mut Output, in_modes: bool, line: &Vec<char>) -> (m: bool)
    ensures
        (final(o)@, m) == update_output(old(o)@, in_modes, line@),
{
    if let Some(e) = enabled_field_exec(line) {
        o.enabled = e;
    } else if let Some(v) = text_field_exec(line, &key_make_chars()) {
        o.make = string_from_chars(&v);
    } else if let Some(v) = text_field_exec(line, &key_model_chars()) {
        o.model = string_from_chars(&v);
    } else if let Some(v) = text_field_exec(line, &key_serial_chars()) {
        o.serial = string_from_chars(&v);
    } else if let Some(v) = text_field_exec(line, &key_physical_size_chars()) {
        o.physical_size = string_from_chars(&v);
    } else if let Some(p) = position_field_exec(line) {
        o.position = p;
    } else if let Some(s) = scale_field_exec(line) {
        o.scale = s;
    } else if let Some(v) = text_field_exec(line, &key_transform_chars()) {
        o.transform = string_from_chars(&v);
    } else if chars_eq(&trim_exec(line), &modes_marker_chars()) {
        return true;
    } else if in_modes {
        if let Some(md) = mode_line_exec(line) {
            o.modes.push(md);
        }
    }
    in_modes
}

/// The views of a sequence of outputs.
pub open spec fn outputs_view(v: Seq<Output>) -> Seq<OutputModel> {
    v.map_values(|o: Output| o@)
}

/// Reads the output manager's report into outputs, in the order it lists
/// them. Lines of unknown shape are passed over, so reading never fails.
pub fn parse_wlr_randr_output(output_str: &str) -> (r: Result<Vec<Output>, String>)
    ensures
        r matches Ok(v) && outputs_view(v@) == parse_report(output_str@),
{
    let text = to_chars(output_str);
    let lines = split_lines(&text);
    let ghost ls = lines_of(output_str@);
    let mut done: Vec<Output> = Vec::new();
    let mut current: Option<Output> = None;
    let mut in_modes = false;
    let mut i: usize = 0;
    while i < lines.len()
        invariant
            i <= lines@.len(),
            lines@.len() == ls.len(),
            forall|k: int| 0 <= k < lines@.len() ==> #[trigger] lines@[k]@ == ls[k],
            outputs_view(done@) == run(ls.take(i as int)).done,
            match current {
                Some(o) => run(ls.take(i as int)).current == Some(o@),
                None => run(ls.take(i as int)).current is None,
            },
            in_modes == run(ls.take(i as int)).in_modes,
        decreases lines@.len() - i,
    {
        let line = &lines[i];
        assert(ls.take(i + 1).drop_last() == ls.take(i as int));
        assert(line@ == ls[i as int]);
        if line.len() > 0 && line[0] == ' ' {
            match current {
                Some(mut o) => {
                    in_modes = update_output_exec(&mut o, in_modes, line);
                    current = Some(o);
                },
                None => {
                    current = None;
                },
            }
        } else {
            if let Some((n, d)) = header_line_exec(line) {
                let prev = current;
                if let Some(p) = prev {
                    done.push(p);
                    assert(outputs_view(done@) == run(ls.take(i as int)).done.push(p@));
                }
                current = Some(fresh_output_exec(&n, &d));
                in_modes = false;
            }
        }
        i = i + 1;
    }
    assert(ls.take(ls.len() as int) == ls);
    if let Some(p) = current {
        done.push(p);
        assert(outputs_view(done@) == run(ls).done.push(p@));
    }
    Ok(done)
}


/// The name that a line opening an output gives.
pub open spec fn header_name(line: Seq<char>) -> Seq<char> {
    match header_line(line) {
        Some((n, _)) => n,
        None => Seq::empty(),
    }
}

/// The description that a line opening an output gives.
pub open spec fn header_description(line: Seq<char>) -> Seq<char> {
    match header_line(line) {
        Some((_, d)) => d,
        None => Seq::empty(),
    }
}

/// The name and description of each line that opens an output, in order.
pub open spec fn header_names(ls: Seq<Seq<char>>) -> Seq<(Seq<char>, Seq<char>)>
    decreases ls.len(),
{
    if ls.len() == 0 {
        Seq::empty()
    } else {
        let rest = header_names(ls.drop_last());
        if !is_indented(ls.last()) && header_line(ls.last()) is Some {
            rest.push((header_name(ls.last()), header_description(ls.last())))
        } else {
            rest
        }
    }
}

/// The name and description of each output.
pub open spec fn names_of(os: Seq<OutputModel>) -> Seq<(Seq<char>, Seq<char>)> {
    os.map_values(|o: OutputModel| (o.name, o.description))
}

proof fn lemma_run_names(ls: Seq<Seq<char>>)
    ensures
        names_of(flushed(run(ls))) == header_names(ls),
        run(ls).current is None <==> header_names(ls).len() == 0,
    decreases ls.len(),
{
    if ls.len() > 0 {
        let prev = ls.drop_last();
        lemma_run_names(prev);
        let st = run(prev);
        let line = ls.last();
        if !is_indented(line) && header_line(line) is Some {
            let o = fresh_output(header_name(line), header_description(line));
            assert(names_of(flushed(st).push(o)) =~= names_of(flushed(st)).push((o.name, o.description)));
        } else if is_indented(line) && st.current is Some {
            let o = st.current->0;
            let o2 = update_output(o, st.in_modes, line).0;
            assert(o2.name == o.name && o2.description == o.description);
            assert(names_of(st.done.push(o2)) =~= names_of(st.done).push((o2.name, o2.description)));
            assert(names_of(st.done.push(o)) =~= names_of(st.done).push((o.name, o.description)));
        }
    }
}

/// A report yields exactly one output for each line that opens one, in the
/// order of those lines, with that line's name and description; with no
/// such line it yields none.
pub proof fn parse_yields_one_output_per_block(t: Seq<char>)
    ensures
        parse_report(t).len() == header_names(lines_of(t)).len(),
        forall|i: int|
            0 <= i < parse_report(t).len() ==> (#[trigger] parse_report(t)[i]).name == header_names(
                lines_of(t),
            )[i].0 && parse_report(t)[i].description == header_names(lines_of(t))[i].1,
        header_names(lines_of(t)).len() == 0 ==> parse_report(t).len() == 0,
{
    lemma_run_names(lines_of(t));
    assert(names_of(parse_report(t)).len() == parse_report(t).len());
    assert forall|i: int| 0 <= i < parse_report(t).len() implies (#[trigger] parse_report(t)[i]).name
        == header_names(lines_of(t))[i].0 && parse_report(t)[i].description == header_names(
        lines_of(t),
    )[i].1 by {
        assert(names_of(parse_report(t))[i] == (parse_report(t)[i].name, parse_report(t)[i].description));
    }
}

/// A line at the left margin that does not open an output changes nothing:
/// the outputs read so far, the open one and its mode-list flag stay as
/// they were.
pub proof fn malformed_header_is_passed_over(ls: Seq<Seq<char>>, line: Seq<char>)
    requires
        !is_indented(line),
        header_line(line) is None,
    ensures
        run(ls.push(line)) == run(ls),
{
    assert(ls.push(line).drop_last() == ls);
}

/// The reader's state after the lines `ls`, starting from `st`.
pub open spec fn run_from(st: ParseState, ls: Seq<Seq<char>>) -> ParseState
    decreases ls.len(),
{
    if ls.len() == 0 {
        st
    } else {
        step(run_from(st, ls.drop_last()), ls.last())
    }
}

proof fn lemma_run_concat(a: Seq<Seq<char>>, b: Seq<Seq<char>>)
    ensures
        run(a + b) == run_from(run(a), b),
    decreases b.len(),
{
    if b.len() == 0 {
        assert(a + b =~= a);
    } else {
        lemma_run_concat(a, b.drop_last());
        assert((a + b).drop_last() =~= a + b.drop_last());
        assert((a + b).last() == b.last());
    }
}

/// A line at the left margin that does not open an output, wherever it
/// stands in a report, changes nothing: the outputs are those of the report
/// without it, those before and after it included.
pub proof fn malformed_header_anywhere_is_passed_over(
    before: Seq<Seq<char>>,
    line: Seq<char>,
    after: Seq<Seq<char>>,
)
    requires
        !is_indented(line),
        header_line(line) is None,
    ensures
        flushed(run(before.push(line) + after)) == flushed(run(before + after)),
{
    lemma_run_concat(before.push(line), after);
    lemma_run_concat(before, after);
    malformed_header_is_passed_over(before, line);
}

/// An indented line, whatever it holds, leaves the outputs that are already
/// complete as they were: it can only change the open one.
pub proof fn indented_line_keeps_completed_outputs(ls: Seq<Seq<char>>, line: Seq<char>)
    requires
        is_indented(line),
    ensures
        run(ls.push(line)).done == run(ls).done,
{
    assert(ls.push(line).drop_last() == ls);
}

/// An indented line whose field cannot be read (a position that is not two
/// integers, say) leaves the open output as it was.
pub proof fn unreadable_field_is_passed_over(ls: Seq<Seq<char>>, line: Seq<char>)
    requires
        is_indented(line),
        enabled_field(line) is None,
        text_field(line, key_make()) is None,
        text_field(line, key_model()) is None,
        text_field(line, key_serial()) is None,
        text_field(line, key_physical_size()) is None,
        position_field(line) is None,
        scale_field(line) is None,
        text_field(line, key_transform()) is None,
        trim(line) != modes_marker(),
        mode_line(line) is None,
    ensures
        run(ls.push(line)) == run(ls),
{
    assert(ls.push(line).drop_last() == ls);
}

} // verus!
