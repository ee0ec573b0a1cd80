//! The fixed words of the report, of the apply command and of the
//! configuration files.

use vstd::prelude::*;

verus! {

/// The enabled field, with its indentation.
pub open spec fn key_enabled() -> Seq<char> {
    seq![' ', ' ', 'E', 'n', 'a', 'b', 'l', 'e', 'd', ':']
}

pub fn key_enabled_chars() -> (r: Vec<char>)
    ensures
        r@ == key_enabled(),
{
    let r = vec![' ', ' ', 'E', 'n', 'a', 'b', 'l', 'e', 'd', ':'];
    assert(r@ == key_enabled());
    r
}

/// The make field, with its indentation.
pub open spec fn key_make() -> Seq<char> {
    seq![' ', ' ', 'M', 'a', 'k', 'e', ':']
}

pub fn key_make_chars() -> (r: Vec<char>)
    ensures
        r@ == key_make(),
{
    let r = vec![' ', ' ', 'M', 'a', 'k', 'e', ':'];
    assert(r@ == key_make());
    r
}

/// The model field, with its indentation.
pub open spec fn key_model() -> Seq<char> {
    seq![' ', ' ', 'M', 'o', 'd', 'e', 'l', ':']
}

pub fn key_model_chars() -> (r: Vec<char>)
    ensures
        r@ == key_model(),
{
    let r = vec![' ', ' ', 'M', 'o', 'd', 'e', 'l', ':'];
    assert(r@ == key_model());
    r
}

/// The serial field, with its indentation.
pub open spec fn key_serial() -> Seq<char> {
    seq![' ', ' ', 'S', 'e', 'r', 'i', 'a', 'l', ':']
}

pub fn key_serial_chars() -> (r: Vec<char>)
    ensures
        r@ == key_serial(),
{
    let r = vec![' ', ' ', 'S', 'e', 'r', 'i', 'a', 'l', ':'];
    assert(r@ == key_serial());
    r
}

/// The physical size field, with its indentation.
pub open spec fn key_physical_size() -> Seq<char> {
    seq![' ', ' ', 'P', 'h', 'y', 's', 'i', 'c', 'a', 'l', ' ', 's', 'i', 'z', 'e', ':']
}

pub fn key_physical_size_chars() -> (r: Vec<char>)
    ensures
        r@ == key_physical_size(),
{
    let r = vec![' ', ' ', 'P', 'h', 'y', 's', 'i', 'c', 'a', 'l', ' ', 's', 'i', 'z', 'e', ':'];
    assert(r@ == key_physical_size());
    r
}

/// The position field, with its indentation.
pub open spec fn key_position() -> Seq<char> {
    seq![' ', ' ', 'P', 'o', 's', 'i', 't', 'i', 'o', 'n', ':']
}

pub fn key_position_chars() -> (r: Vec<char>)
    ensures
        r@ == key_position(),
{
    let r = vec![' ', ' ', 'P', 'o', 's', 'i', 't', 'i', 'o', 'n', ':'];
    assert(r@ == key_position());
    r
}

/// The scale field, with its indentation.
pub open spec fn key_scale() -> Seq<char> {
    seq![' ', ' ', 'S', 'c', 'a', 'l', 'e', ':']
}

pub fn key_scale_chars() -> (r: Vec<char>)
    ensures
        r@ == key_scale(),
{
    let r = vec![' ', ' ', 'S', 'c', 'a', 'l', 'e', ':'];
    assert(r@ == key_scale());
    r
}

/// The transform field, with its indentation.
pub open spec fn key_transform() -> Seq<char> {
    seq![' ', ' ', 'T', 'r', 'a', 'n', 's', 'f', 'o', 'r', 'm', ':']
}

pub fn key_transform_chars() -> (r: Vec<char>)
    ensures
        r@ == key_transform(),
{
    let r = vec![' ', ' ', 'T', 'r', 'a', 'n', 's', 'f', 'o', 'r', 'm', ':'];
    assert(r@ == key_transform());
    r
}

/// The line that opens the mode list.
pub open spec fn modes_marker() -> Seq<char> {
    seq!['M', 'o', 'd', 'e', 's', ':']
}

pub fn modes_marker_chars() -> (r: Vec<char>)
    ensures
        r@ == modes_marker(),
{
    let r = vec!['M', 'o', 'd', 'e', 's', ':'];
    assert(r@ == modes_marker());
    r
}

/// An enabled value.
pub open spec fn word_yes() -> Seq<char> {
    seq!['y', 'e', 's']
}

pub fn word_yes_chars() -> (r: Vec<char>)
    ensures
        r@ == word_yes(),
{
    let r = vec!['y', 'e', 's'];
    assert(r@ == word_yes());
    r
}

/// A disabled value.
pub open spec fn word_no() -> Seq<char> {
    seq!['n', 'o']
}

pub fn word_no_chars() -> (r: Vec<char>)
    ensures
        r@ == word_no(),
{
    let r = vec!['n', 'o'];
    assert(r@ == word_no());
    r
}

/// What follows a mode's size.
pub open spec fn word_px() -> Seq<char> {
    seq![' ', 'p', 'x', ',', ' ']
}

pub fn word_px_chars() -> (r: Vec<char>)
    ensures
        r@ == word_px(),
{
    let r = vec![' ', 'p', 'x', ',', ' '];
    assert(r@ == word_px());
    r
}

/// What follows a mode's refresh rate.
pub open spec fn word_hz() -> Seq<char> {
    seq![' ', 'H', 'z']
}

pub fn word_hz_chars() -> (r: Vec<char>)
    ensures
        r@ == word_hz(),
{
    let r = vec![' ', 'H', 'z'];
    assert(r@ == word_hz());
    r
}

/// What opens a mode's flag list.
pub open spec fn word_open() -> Seq<char> {
    seq![' ', '(']
}

pub fn word_open_chars() -> (r: Vec<char>)
    ensures
        r@ == word_open(),
{
    let r = vec![' ', '('];
    assert(r@ == word_open());
    r
}

/// The flag of the active mode.
pub open spec fn word_current() -> Seq<char> {
    seq!['c', 'u', 'r', 'r', 'e', 'n', 't']
}

pub fn word_current_chars() -> (r: Vec<char>)
    ensures
        r@ == word_current(),
{
    let r = vec!['c', 'u', 'r', 'r', 'e', 'n', 't'];
    assert(r@ == word_current());
    r
}

/// The flag of the preferred mode.
pub open spec fn word_preferred() -> Seq<char> {
    seq!['p', 'r', 'e', 'f', 'e', 'r', 'r', 'e', 'd']
}

pub fn word_preferred_chars() -> (r: Vec<char>)
    ensures
        r@ == word_preferred(),
{
    let r = vec!['p', 'r', 'e', 'f', 'e', 'r', 'r', 'e', 'd'];
    assert(r@ == word_preferred());
    r
}

/// The transform of an output that is not rotated.
pub open spec fn word_normal() -> Seq<char> {
    seq!['n', 'o', 'r', 'm', 'a', 'l']
}

pub fn word_normal_chars() -> (r: Vec<char>)
    ensures
        r@ == word_normal(),
{
    let r = vec!['n', 'o', 'r', 'm', 'a', 'l'];
    assert(r@ == word_normal());
    r
}

/// Names the output that the following flags apply to.
pub open spec fn flag_output() -> Seq<char> {
    seq!['-', '-', 'o', 'u', 't', 'p', 'u', 't']
}

pub fn flag_output_chars() -> (r: Vec<char>)
    ensures
        r@ == flag_output(),
{
    let r = vec!['-', '-', 'o', 'u', 't', 'p', 'u', 't'];
    assert(r@ == flag_output());
    r
}

/// Turns an output on.
pub open spec fn flag_on() -> Seq<char> {
    seq!['-', '-', 'o', 'n']
}

pub fn flag_on_chars() -> (r: Vec<char>)
    ensures
        r@ == flag_on(),
{
    let r = vec!['-', '-', 'o', 'n'];
    assert(r@ == flag_on());
    r
}

/// Turns an output off.
pub open spec fn flag_off() -> Seq<char> {
    seq!['-', '-', 'o', 'f', 'f']
}

pub fn flag_off_chars() -> (r: Vec<char>)
    ensures
        r@ == flag_off(),
{
    let r = vec!['-', '-', 'o', 'f', 'f'];
    assert(r@ == flag_off());
    r
}

/// Sets an output's position.
pub open spec fn flag_pos() -> Seq<char> {
    seq!['-', '-', 'p', 'o', 's']
}

pub fn flag_pos_chars() -> (r: Vec<char>)
    ensures
        r@ == flag_pos(),
{
    let r = vec!['-', '-', 'p', 'o', 's'];
    assert(r@ == flag_pos());
    r
}

/// Sets an output's scale.
pub open spec fn flag_scale() -> Seq<char> {
    seq!['-', '-', 's', 'c', 'a', 'l', 'e']
}

pub fn flag_scale_chars() -> (r: Vec<char>)
    ensures
        r@ == flag_scale(),
{
    let r = vec!['-', '-', 's', 'c', 'a', 'l', 'e'];
    assert(r@ == flag_scale());
    r
}

/// Sets an output's transform.
pub open spec fn flag_transform() -> Seq<char> {
    seq!['-', '-', 't', 'r', 'a', 'n', 's', 'f', 'o', 'r', 'm']
}

pub fn flag_transform_chars() -> (r: Vec<char>)
    ensures
        r@ == flag_transform(),
{
    let r = vec!['-', '-', 't', 'r', 'a', 'n', 's', 'f', 'o', 'r', 'm'];
    assert(r@ == flag_transform());
    r
}

/// Sets an output's mode.
pub open spec fn flag_mode() -> Seq<char> {
    seq!['-', '-', 'm', 'o', 'd', 'e']
}

pub fn flag_mode_chars() -> (r: Vec<char>)
    ensures
        r@ == flag_mode(),
{
    let r = vec!['-', '-', 'm', 'o', 'd', 'e'];
    assert(r@ == flag_mode());
    r
}

/// The first line of the generated fragment.
pub open spec fn fragment_header() -> Seq<char> {
    seq!['#', ' ', 'G', 'e', 'n', 'e', 'r', 'a', 't', 'e', 'd', ' ', 'b', 'y', ' ', 'm', 'a', 'n', 'g', 'o', '-', 'd', 'i', 's', 'p', 'l', 'a', 'y']
}

pub fn fragment_header_chars() -> (r: Vec<char>)
    ensures
        r@ == fragment_header(),
{
    let r = vec!['#', ' ', 'G', 'e', 'n', 'e', 'r', 'a', 't', 'e', 'd', ' ', 'b', 'y', ' ', 'm', 'a', 'n', 'g', 'o', '-', 'd', 'i', 's', 'p', 'l', 'a', 'y'];
    assert(r@ == fragment_header());
    r
}

/// The start of a generated rule line.
pub open spec fn rule_start() -> Seq<char> {
    seq!['m', 'o', 'n', 'i', 't', 'o', 'r', 'r', 'u', 'l', 'e', '=', 'n', 'a', 'm', 'e', ':']
}

pub fn rule_start_chars() -> (r: Vec<char>)
    ensures
        r@ == rule_start(),
{
    let r = vec!['m', 'o', 'n', 'i', 't', 'o', 'r', 'r', 'u', 'l', 'e', '=', 'n', 'a', 'm', 'e', ':'];
    assert(r@ == rule_start());
    r
}

/// A rule's width field.
pub open spec fn rule_width() -> Seq<char> {
    seq![',', 'w', 'i', 'd', 't', 'h', ':']
}

pub fn rule_width_chars() -> (r: Vec<char>)
    ensures
        r@ == rule_width(),
{
    let r = vec![',', 'w', 'i', 'd', 't', 'h', ':'];
    assert(r@ == rule_width());
    r
}

/// A rule's height field.
pub open spec fn rule_height() -> Seq<char> {
    seq![',', 'h', 'e', 'i', 'g', 'h', 't', ':']
}

pub fn rule_height_chars() -> (r: Vec<char>)
    ensures
        r@ == rule_height(),
{
    let r = vec![',', 'h', 'e', 'i', 'g', 'h', 't', ':'];
    assert(r@ == rule_height());
    r
}

/// A rule's refresh field.
pub open spec fn rule_refresh() -> Seq<char> {
    seq![',', 'r', 'e', 'f', 'r', 'e', 's', 'h', ':']
}

pub fn rule_refresh_chars() -> (r: Vec<char>)
    ensures
        r@ == rule_refresh(),
{
    let r = vec![',', 'r', 'e', 'f', 'r', 'e', 's', 'h', ':'];
    assert(r@ == rule_refresh());
    r
}

/// A rule's horizontal position field.
pub open spec fn rule_x() -> Seq<char> {
    seq![',', 'x', ':']
}

pub fn rule_x_chars() -> (r: Vec<char>)
    ensures
        r@ == rule_x(),
{
    let r = vec![',', 'x', ':'];
    assert(r@ == rule_x());
    r
}

/// A rule's vertical position field.
pub open spec fn rule_y() -> Seq<char> {
    seq![',', 'y', ':']
}

pub fn rule_y_chars() -> (r: Vec<char>)
    ensures
        r@ == rule_y(),
{
    let r = vec![',', 'y', ':'];
    assert(r@ == rule_y());
    r
}

/// A rule's scale field.
pub open spec fn rule_scale() -> Seq<char> {
    seq![',', 's', 'c', 'a', 'l', 'e', ':']
}

pub fn rule_scale_chars() -> (r: Vec<char>)
    ensures
        r@ == rule_scale(),
{
    let r = vec![',', 's', 'c', 'a', 'l', 'e', ':'];
    assert(r@ == rule_scale());
    r
}

/// A rule's transform code field.
pub open spec fn rule_rr() -> Seq<char> {
    seq![',', 'r', 'r', ':']
}

pub fn rule_rr_chars() -> (r: Vec<char>)
    ensures
        r@ == rule_rr(),
{
    let r = vec![',', 'r', 'r', ':'];
    assert(r@ == rule_rr());
    r
}

/// How a rule line starts.
pub open spec fn rule_prefix() -> Seq<char> {
    seq!['m', 'o', 'n', 'i', 't', 'o', 'r', 'r', 'u', 'l', 'e', '=']
}

pub fn rule_prefix_chars() -> (r: Vec<char>)
    ensures
        r@ == rule_prefix(),
{
    let r = vec!['m', 'o', 'n', 'i', 't', 'o', 'r', 'r', 'u', 'l', 'e', '='];
    assert(r@ == rule_prefix());
    r
}

/// How a rule line starts, with a space before the sign.
pub open spec fn rule_prefix_spaced() -> Seq<char> {
    seq!['m', 'o', 'n', 'i', 't', 'o', 'r', 'r', 'u', 'l', 'e', ' ', '=']
}

pub fn rule_prefix_spaced_chars() -> (r: Vec<char>)
    ensures
        r@ == rule_prefix_spaced(),
{
    let r = vec!['m', 'o', 'n', 'i', 't', 'o', 'r', 'r', 'u', 'l', 'e', ' ', '='];
    assert(r@ == rule_prefix_spaced());
    r
}

/// How an include line starts.
pub open spec fn source_prefix() -> Seq<char> {
    seq!['s', 'o', 'u', 'r', 'c', 'e', '=']
}

pub fn source_prefix_chars() -> (r: Vec<char>)
    ensures
        r@ == source_prefix(),
{
    let r = vec!['s', 'o', 'u', 'r', 'c', 'e', '='];
    assert(r@ == source_prefix());
    r
}

/// How an include line starts, with spaces round the sign.
pub open spec fn source_prefix_spaced() -> Seq<char> {
    seq!['s', 'o', 'u', 'r', 'c', 'e', ' ', '=']
}

pub fn source_prefix_spaced_chars() -> (r: Vec<char>)
    ensures
        r@ == source_prefix_spaced(),
{
    let r = vec!['s', 'o', 'u', 'r', 'c', 'e', ' ', '='];
    assert(r@ == source_prefix_spaced());
    r
}

/// The start of a path under the home directory.
pub open spec fn home_prefix() -> Seq<char> {
    seq!['~', '/']
}

pub fn home_prefix_chars() -> (r: Vec<char>)
    ensures
        r@ == home_prefix(),
{
    let r = vec!['~', '/'];
    assert(r@ == home_prefix());
    r
}

/// A quarter turn.
pub open spec fn t_90() -> Seq<char> {
    seq!['9', '0']
}

pub fn t_90_chars() -> (r: Vec<char>)
    ensures
        r@ == t_90(),
{
    let r = vec!['9', '0'];
    assert(r@ == t_90());
    r
}

/// A half turn.
pub open spec fn t_180() -> Seq<char> {
    seq!['1', '8', '0']
}

pub fn t_180_chars() -> (r: Vec<char>)
    ensures
        r@ == t_180(),
{
    let r = vec!['1', '8', '0'];
    assert(r@ == t_180());
    r
}

/// Three quarter turns.
pub open spec fn t_270() -> Seq<char> {
    seq!['2', '7', '0']
}

pub fn t_270_chars() -> (r: Vec<char>)
    ensures
        r@ == t_270(),
{
    let r = vec!['2', '7', '0'];
    assert(r@ == t_270());
    r
}

/// Mirrored.
pub open spec fn t_flipped() -> Seq<char> {
    seq!['f', 'l', 'i', 'p', 'p', 'e', 'd']
}

pub fn t_flipped_chars() -> (r: Vec<char>)
    ensures
        r@ == t_flipped(),
{
    let r = vec!['f', 'l', 'i', 'p', 'p', 'e', 'd'];
    assert(r@ == t_flipped());
    r
}

/// Mirrored, then a quarter turn.
pub open spec fn t_flipped_90() -> Seq<char> {
    seq!['f', 'l', 'i', 'p', 'p', 'e', 'd', '-', '9', '0']
}

pub fn t_flipped_90_chars() -> (r: Vec<char>)
    ensures
        r@ == t_flipped_90(),
{
    let r = vec!['f', 'l', 'i', 'p', 'p', 'e', 'd', '-', '9', '0'];
    assert(r@ == t_flipped_90());
    r
}

/// Mirrored, then a half turn.
pub open spec fn t_flipped_180() -> Seq<char> {
    seq!['f', 'l', 'i', 'p', 'p', 'e', 'd', '-', '1', '8', '0']
}

pub fn t_flipped_180_chars() -> (r: Vec<char>)
    ensures
        r@ == t_flipped_180(),
{
    let r = vec!['f', 'l', 'i', 'p', 'p', 'e', 'd', '-', '1', '8', '0'];
    assert(r@ == t_flipped_180());
    r
}

/// Mirrored, then three quarter turns.
pub open spec fn t_flipped_270() -> Seq<char> {
    seq!['f', 'l', 'i', 'p', 'p', 'e', 'd', '-', '2', '7', '0']
}

pub fn t_flipped_270_chars() -> (r: Vec<char>)
    ensures
        r@ == t_flipped_270(),
{
    let r = vec!['f', 'l', 'i', 'p', 'p', 'e', 'd', '-', '2', '7', '0'];
    assert(r@ == t_flipped_270());
    r
}

} // verus!
