//! The generated configuration fragment: one monitor rule per enabled
//! output whose current mode is known.

use vstd::prelude::*;
use crate::model::{current_mode, find_current_mode, Output, OutputModel};
use crate::report::outputs_view;
use crate::text::{
    append_chars, chars_eq, dec, dec_int, fixed6, push_dec, push_fixed6, push_int,
    string_from_chars, to_chars,
};
use crate::words::{
    fragment_header, fragment_header_chars, rule_height, rule_height_chars, rule_refresh,
    rule_refresh_chars, rule_rr, rule_rr_chars, rule_scale, rule_scale_chars, rule_start,
    rule_start_chars, rule_width, rule_width_chars, rule_x, rule_x_chars, rule_y, rule_y_chars,
    t_180, t_180_chars, t_270, t_270_chars, t_90, t_90_chars, t_flipped, t_flipped_180,
    t_flipped_180_chars, t_flipped_270, t_flipped_270_chars, t_flipped_90, t_flipped_90_chars,
    t_flipped_chars, word_normal, word_normal_chars,
};

verus! {

/// The compositor's code for a transform; an unknown one counts as normal.
pub open spec fn transform_code(t: Seq<char>) -> u8 {
    if t == word_normal() {
        0
    } else if t == t_90() {
        1
    } else if t == t_180() {
        2
    } else if t == t_270() {
        3
    } else if t == t_flipped() {
        4
    } else if t == t_flipped_90() {
        5
    } else if t == t_flipped_180() {
        6
    } else if t == t_flipped_270() {
        7
    } else {
        0
    }
}

pub fn transform_code_of(t: &Vec<char>) -> (r: u8)
    ensures
        r == transform_code(t@),
        r <= 7,
{
    if chars_eq(t, &word_normal_chars()) {
        0
    } else if chars_eq(t, &t_90_chars()) {
        1
    } else if chars_eq(t, &t_180_chars()) {
        2
    } else if chars_eq(t, &t_270_chars()) {
        3
    } else if chars_eq(t, &t_flipped_chars()) {
        4
    } else if chars_eq(t, &t_flipped_90_chars()) {
        5
    } else if chars_eq(t, &t_flipped_180_chars()) {
        6
    } else if chars_eq(t, &t_flipped_270_chars()) {
        7
    } else {
        0
    }
}

/// The rule for an output in its current mode `m`, without its newline.
pub open spec fn rule_line(o: OutputModel, m: crate::model::OutputMode) -> Seq<char> {
    rule_start() + o.name + rule_width() + dec_int(m.width as int) + rule_height() + dec_int(
        m.height as int,
    ) + rule_refresh() + fixed6(m.refresh_rate as nat) + rule_x() + dec_int(o.position.0 as int)
        + rule_y() + dec_int(o.position.1 as int) + rule_scale() + fixed6(o.scale as nat)
        + rule_rr() + dec(transform_code(o.transform) as nat)
}

/// What an output contributes to the fragment: its rule and a newline if it
/// is enabled and a mode is flagged current, else nothing.
pub open spec fn output_rule(o: OutputModel) -> Seq<char> {
    if o.enabled && current_mode(o.modes) is Some {
        rule_line(o, current_mode(o.modes)->0).push('\n')
    } else {
        Seq::empty()
    }
}

pub open spec fn rules_text(os: Seq<OutputModel>) -> Seq<char>
    decreases os.len(),
{
    if os.len() == 0 {
        Seq::empty()
    } else {
        rules_text(os.drop_last()) + output_rule(os.last())
    }
}

/// The whole fragment: a header comment, an empty line, then the rules.
pub open spec fn fragment_text(os: Seq<OutputModel>) -> Seq<char> {
    fragment_header() + seq!['\n', '\n'] + rules_text(os)
}

fn push_output_rule(out: &mut Vec<char>, o: &Output)
    ensures
        final(out)@ == old(out)@ + output_rule(o@),
{
    if !o.enabled {
        assert(old(out)@ + output_rule(o@) == old(out)@);
        return;
    }
    match find_current_mode(&o.modes) {
        None => {
            assert(old(out)@ + output_rule(o@) == old(out)@);
        },
        Some(m) => {
            let name = to_chars(o.name.as_str());
            let transform = to_chars(o.transform.as_str());
            let mut line: Vec<char> = Vec::new();
            append_chars(&mut line, &rule_start_chars());
            append_chars(&mut line, &name);
            append_chars(&mut line, &rule_width_chars());
            push_int(&mut line, m.width as i64);
            append_chars(&mut line, &rule_height_chars());
            push_int(&mut line, m.height as i64);
            append_chars(&mut line, &rule_refresh_chars());
            push_fixed6(&mut line, m.refresh_rate);
            append_chars(&mut line, &rule_x_chars());
            push_int(&mut line, o.position.0 as i64);
            append_chars(&mut line, &rule_y_chars());
            push_int(&mut line, o.position.1 as i64);
            append_chars(&mut line, &rule_scale_chars());
            push_fixed6(&mut line, o.scale);
            append_chars(&mut line, &rule_rr_chars());
            push_dec(&mut line, transform_code_of(&transform) as u64);
            assert(line@ =~= rule_line(o@, m));
            line.push('\n');
            append_chars(out, &line);
        },
    }
}

/// The fragment for `outputs`: the header comment, then for each enabled
/// output with a mode flagged current, in order, the line
/// `monitorrule=name:<n>,width:<w>,height:<h>,refresh:<r>,x:<x>,y:<y>,scale:<s>,rr:<code>`.
pub fn render_fragment(outputs: &Vec<Output>) -> (r: String)
    ensures
        r@ == fragment_text(outputs_view(outputs@)),
{
    let mut text: Vec<char> = fragment_header_chars();
    text.push('\n');
    text.push('\n');
    let mut i: usize = 0;
    while i < outputs.len()
        invariant
            i <= outputs@.len(),
            text@ == fragment_header() + seq!['\n', '\n'] + rules_text(
                outputs_view(outputs@.take(i as int)),
            ),
        decreases outputs@.len() - i,
    {
        push_output_rule(&mut text, &outputs[i]);
        assert(outputs_view(outputs@.take(i + 1)).drop_last() == outputs_view(
            outputs@.take(i as int),
        ));
        assert(text@ =~= fragment_header() + seq!['\n', '\n'] + rules_text(
            outputs_view(outputs@.take(i + 1)),
        ));
        i = i + 1;
    }
    assert(outputs@.take(outputs@.len() as int) == outputs@);
    string_from_chars(&text)
}

} // verus!
