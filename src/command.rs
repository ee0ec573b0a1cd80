//! The argument list that applies a set of outputs through the output
//! manager.

use vstd::prelude::*;
use crate::model::{current_mode, find_current_mode, Output, OutputModel};
use crate::report::outputs_view;
use crate::text::{dec_int, fixed3, fixed6, push_fixed3, push_fixed6, push_int, string_from_chars};
use crate::words::{
    flag_mode, flag_mode_chars, flag_off, flag_off_chars, flag_on, flag_on_chars, flag_output,
    flag_output_chars, flag_pos, flag_pos_chars, flag_scale, flag_scale_chars, flag_transform,
    flag_transform_chars,
};

verus! {

/// The position of an output as the apply command takes it: `<x>,<y>`.
pub open spec fn position_arg(p: (i32, i32)) -> Seq<char> {
    dec_int(p.0 as int) + seq![','] + dec_int(p.1 as int)
}

/// A mode as the apply command takes it: `<w>x<h>@<rate>`, the rate with
/// three decimals.
pub open spec fn mode_arg(w: i32, h: i32, rate: u64) -> Seq<char> {
    dec_int(w as int) + seq!['x'] + dec_int(h as int) + seq!['@'] + fixed3(rate as nat)
}

/// The arguments for one output: an enabled one is switched on, placed,
/// scaled, turned and, where a mode is flagged current, set to that mode;
/// a disabled one is switched off.
pub open spec fn output_args(o: OutputModel) -> Seq<Seq<char>> {
    seq![flag_output(), o.name] + if o.enabled {
        seq![
            flag_on(),
            flag_pos(),
            position_arg(o.position),
            flag_scale(),
            fixed6(o.scale as nat),
            flag_transform(),
            o.transform,
        ] + match current_mode(o.modes) {
            Some(m) => seq![flag_mode(), mode_arg(m.width, m.height, m.refresh_rate)],
            None => Seq::empty(),
        }
    } else {
        seq![flag_off()]
    }
}

/// The arguments for all outputs, one block after another in their order.
pub open spec fn apply_args(os: Seq<OutputModel>) -> Seq<Seq<char>>
    decreases os.len(),
{
    if os.len() == 0 {
        Seq::empty()
    } else {
        apply_args(os.drop_last()) + output_args(os.last())
    }
}

pub open spec fn strings_view(v: Seq<String>) -> Seq<Seq<char>> {
    v.map_values(|s: String| s@)
}

fn push_arg(args: &mut Vec<String>, a: &Vec<char>)
    ensures
        strings_view(final(args)@) == strings_view(old(args)@).push(a@),
{
    args.push(string_from_chars(a));
    assert(strings_view(args@) == strings_view(old(args)@).push(a@));
}

fn push_output_args(args: &mut Vec<String>, out: &Output)
    ensures
        strings_view(final(args)@) == strings_view(old(args)@) + output_args(out@),
{
    let ghost start = strings_view(args@);
    let name: Vec<char> = crate::text::to_chars(out.name.as_str());
    push_arg(args, &flag_output_chars());
    push_arg(args, &name);
    if out.enabled {
        push_arg(args, &flag_on_chars());
        push_arg(args, &flag_pos_chars());
        let mut pos: Vec<char> = Vec::new();
        push_int(&mut pos, out.position.0 as i64);
        pos.push(',');
        push_int(&mut pos, out.position.1 as i64);
        assert(pos@ =~= position_arg(out.position));
        push_arg(args, &pos);
        push_arg(args, &flag_scale_chars());
        let mut scale: Vec<char> = Vec::new();
        push_fixed6(&mut scale, out.scale);
        assert(scale@ =~= fixed6(out.scale as nat));
        push_arg(args, &scale);
        push_arg(args, &flag_transform_chars());
        let transform: Vec<char> = crate::text::to_chars(out.transform.as_str());
        push_arg(args, &transform);
        match find_current_mode(&out.modes) {
            Some(m) => {
                push_arg(args, &flag_mode_chars());
                let mut mode: Vec<char> = Vec::new();
                push_int(&mut mode, m.width as i64);
                mode.push('x');
                push_int(&mut mode, m.height as i64);
                mode.push('@');
                push_fixed3(&mut mode, m.refresh_rate);
                assert(mode@ =~= mode_arg(m.width, m.height, m.refresh_rate));
                push_arg(args, &mode);
            },
            None => {},
        }
    } else {
        push_arg(args, &flag_off_chars());
    }
    assert(strings_view(args@) =~= start + output_args(out@));
}

/// The argument list that applies `outputs`, for each output in order:
/// `--output <name>`, then `--on --pos <x>,<y> --scale <scale>
/// --transform <transform>` and `--mode <w>x<h>@<rate>` where a mode is
/// flagged current, or `--off` for a disabled output.
pub fn build_apply_args(outputs: &Vec<Output>) -> (r: Vec<String>)
    ensures
        strings_view(r@) == apply_args(outputs_view(outputs@)),
{
    let mut args: Vec<String> = Vec::new();
    let mut i: usize = 0;
    while i < outputs.len()
        invariant
            i <= outputs@.len(),
            strings_view(args@) == apply_args(outputs_view(outputs@.take(i as int))),
        decreases outputs@.len() - i,
    {
        push_output_args(&mut args, &outputs[i]);
        assert(outputs_view(outputs@.take(i + 1)).drop_last() == outputs_view(
            outputs@.take(i as int),
        ));
        i = i + 1;
    }
    assert(outputs@.take(outputs@.len() as int) == outputs@);
    args
}

/// An enabled output with a mode flagged current gets, after its name,
/// `--on`, `--pos`, `--scale`, `--transform` and `--mode`, each followed by
/// its value and nothing else; a disabled one gets `--off` and nothing else.
pub proof fn apply_flags_follow_enabled(o: OutputModel)
    ensures
        o.enabled && current_mode(o.modes) is Some ==> {
            let a = output_args(o);
            &&& a.len() == 11
            &&& a[0] == flag_output() && a[1] == o.name
            &&& a[2] == flag_on() && a[3] == flag_pos() && a[5] == flag_scale()
            &&& a[7] == flag_transform() && a[9] == flag_mode()
        },
        !o.enabled ==> output_args(o) == seq![flag_output(), o.name, flag_off()],
{
}

/// The arguments for a list of outputs are those of each output, one block
/// after another: appending an output appends its block.
pub proof fn apply_args_append(os: Seq<OutputModel>, o: OutputModel)
    ensures
        apply_args(os.push(o)) == apply_args(os) + output_args(o),
{
    assert(os.push(o).drop_last() == os);
}

proof fn lemma_apply_args_concat(a: Seq<OutputModel>, b: Seq<OutputModel>)
    ensures
        apply_args(a + b) == apply_args(a) + apply_args(b),
    decreases b.len(),
{
    if b.len() == 0 {
        assert(a + b =~= a);
        assert(apply_args(a) + apply_args(b) =~= apply_args(a));
    } else {
        lemma_apply_args_concat(a, b.drop_last());
        assert((a + b).drop_last() =~= a + b.drop_last());
        assert((a + b).last() == b.last());
        assert(apply_args(a) + (apply_args(b.drop_last()) + output_args(b.last())) =~= apply_args(a)
            + apply_args(b.drop_last()) + output_args(b.last()));
    }
}

/// Within the whole argument list, the block of output `i` stands between
/// the blocks of the outputs before it and those after it: for an enabled
/// output with a mode flagged current it is `--output <name> --on --pos ..
/// --scale .. --transform .. --mode ..`, for a disabled one
/// `--output <name> --off`.
pub proof fn apply_args_place_each_block(os: Seq<OutputModel>, i: int)
    requires
        0 <= i < os.len(),
    ensures
        apply_args(os) == apply_args(os.take(i)) + output_args(os[i]) + apply_args(os.skip(i + 1)),
        ({
            let off = apply_args(os.take(i)).len() as int;
            let a = apply_args(os);
            let b = output_args(os[i]);
            &&& a.subrange(off, off + b.len()) == b
            &&& (os[i].enabled && current_mode(os[i].modes) is Some) ==> b.len() == 11 && b[0]
                == flag_output() && b[1] == os[i].name && b[2] == flag_on() && b[3] == flag_pos()
                && b[5] == flag_scale() && b[7] == flag_transform() && b[9] == flag_mode()
            &&& !os[i].enabled ==> b == seq![flag_output(), os[i].name, flag_off()]
        }),
{
    assert(os =~= os.take(i) + seq![os[i]] + os.skip(i + 1));
    lemma_apply_args_concat(os.take(i) + seq![os[i]], os.skip(i + 1));
    lemma_apply_args_concat(os.take(i), seq![os[i]]);
    let one = seq![os[i]];
    assert(one.drop_last() =~= Seq::<OutputModel>::empty());
    assert(one.last() == os[i]);
    assert(apply_args(one) == apply_args(one.drop_last()) + output_args(one.last()));
    assert(apply_args(Seq::<OutputModel>::empty()) + output_args(os[i]) =~= output_args(os[i]));
    apply_flags_follow_enabled(os[i]);
    let off = apply_args(os.take(i)).len() as int;
    let b = output_args(os[i]);
    assert(apply_args(os).subrange(off, off + b.len()) =~= b);
}

} // verus!
