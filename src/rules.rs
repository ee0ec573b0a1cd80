//! Rule lines and include lines in the compositor's configuration files,
//! and the paths they name.

use vstd::prelude::*;
use crate::command::strings_view;
use crate::text::{
    append_chars, has_prefix, lines_of, occurs_at_exec, rfind_char, rfind_char_below,
    skip_ws, skip_ws_from, slice_chars, split_lines, string_from_chars, to_chars, trim,
    trim_exec,
};
use crate::words::{
    home_prefix, home_prefix_chars, rule_prefix, rule_prefix_chars, rule_prefix_spaced,
    rule_prefix_spaced_chars, source_prefix, source_prefix_chars, source_prefix_spaced,
    source_prefix_spaced_chars,
};

verus! {

/// `s` without its leading whitespace.
pub open spec fn trim_start(s: Seq<char>) -> Seq<char> {
    s.subrange(skip_ws(s, 0), s.len() as int)
}

/// A monitor rule: `monitorrule=` or `monitorrule =` after any indentation.
pub open spec fn is_rule_line(l: Seq<char>) -> bool {
    has_prefix(trim_start(l), rule_prefix()) || has_prefix(trim_start(l), rule_prefix_spaced())
}

/// The rule lines among `ls`, verbatim and in order.
pub open spec fn keep_rules(ls: Seq<Seq<char>>) -> Seq<Seq<char>>
    decreases ls.len(),
{
    if ls.len() == 0 {
        Seq::empty()
    } else {
        keep_rules(ls.drop_last()) + if is_rule_line(ls.last()) {
            seq![ls.last()]
        } else {
            Seq::empty()
        }
    }
}

pub fn is_rule_line_exec(l: &Vec<char>) -> (r: bool)
    ensures
        r == is_rule_line(l@),
{
    let a = skip_ws_from(l, 0);
    let t = slice_chars(l, a, l.len());
    occurs_at_exec(&t, 0, &rule_prefix_chars()) || occurs_at_exec(&t, 0, &rule_prefix_spaced_chars())
}

/// The monitor rules of a file's text, each line verbatim, in order.
pub fn collect_monitorrules(content: &str) -> (r: Vec<String>)
    ensures
        strings_view(r@) == keep_rules(lines_of(content@)),
{
    let text = to_chars(content);
    let lines = split_lines(&text);
    let ghost ls = lines_of(content@);
    let mut r: Vec<String> = Vec::new();
    let mut i: usize = 0;
    while i < lines.len()
        invariant
            i <= lines@.len(),
            lines@.len() == ls.len(),
            forall|k: int| 0 <= k < lines@.len() ==> #[trigger] lines@[k]@ == ls[k],
            strings_view(r@) == keep_rules(ls.take(i as int)),
        decreases lines@.len() - i,
    {
        assert(ls.take(i + 1).drop_last() == ls.take(i as int));
        assert(lines@[i as int]@ == ls[i as int]);
        if is_rule_line_exec(&lines[i]) {
            r.push(string_from_chars(&lines[i]));
        }
        assert(strings_view(r@) =~= keep_rules(ls.take(i + 1)));
        i = i + 1;
    }
    assert(ls.take(ls.len() as int) == ls);
    r
}

/// The path that an include line names: `source=<path>` or
/// `source = <path>`, surrounding whitespace taken off.
pub open spec fn source_target(l: Seq<char>) -> Option<Seq<char>> {
    let t = trim(l);
    if has_prefix(t, source_prefix()) {
        Some(trim(t.subrange(source_prefix().len() as int, t.len() as int)))
    } else if has_prefix(t, source_prefix_spaced()) {
        Some(trim(t.subrange(source_prefix_spaced().len() as int, t.len() as int)))
    } else {
        None
    }
}

/// The paths that the include lines among `ls` name, in order.
pub open spec fn source_targets(ls: Seq<Seq<char>>) -> Seq<Seq<char>>
    decreases ls.len(),
{
    if ls.len() == 0 {
        Seq::empty()
    } else {
        source_targets(ls.drop_last()) + match source_target(ls.last()) {
            Some(p) => seq![p],
            None => Seq::empty(),
        }
    }
}

pub fn source_target_exec(l: &Vec<char>) -> (r: Option<Vec<char>>)
    ensures
        match r {
            Some(p) => source_target(l@) == Some(p@),
            None => source_target(l@) is None,
        },
{
    let t = trim_exec(l);
    let plain = source_prefix_chars();
    let spaced = source_prefix_spaced_chars();
    if occurs_at_exec(&t, 0, &plain) {
        Some(trim_exec(&slice_chars(&t, plain.len(), t.len())))
    } else if occurs_at_exec(&t, 0, &spaced) {
        Some(trim_exec(&slice_chars(&t, spaced.len(), t.len())))
    } else {
        None
    }
}

/// The paths that a file's include lines name, as written, in order.
pub fn source_directives(content: &str) -> (r: Vec<String>)
    ensures
        strings_view(r@) == source_targets(lines_of(content@)),
{
    let text = to_chars(content);
    let lines = split_lines(&text);
    let ghost ls = lines_of(content@);
    let mut r: Vec<String> = Vec::new();
    let mut i: usize = 0;
    while i < lines.len()
        invariant
            i <= lines@.len(),
            lines@.len() == ls.len(),
            forall|k: int| 0 <= k < lines@.len() ==> #[trigger] lines@[k]@ == ls[k],
            strings_view(r@) == source_targets(ls.take(i as int)),
        decreases lines@.len() - i,
    {
        assert(ls.take(i + 1).drop_last() == ls.take(i as int));
        assert(lines@[i as int]@ == ls[i as int]);
        if let Some(p) = source_target_exec(&lines[i]) {
            r.push(string_from_chars(&p));
        }
        assert(strings_view(r@) =~= source_targets(ls.take(i + 1)));
        i = i + 1;
    }
    assert(ls.take(ls.len() as int) == ls);
    r
}

pub open spec fn starts_with_slash(s: Seq<char>) -> bool {
    s.len() > 0 && s[0] == '/'
}

/// `rest` placed under the directory `base`; an absolute `rest` stands
/// alone.
pub open spec fn join_path(base: Seq<char>, rest: Seq<char>) -> Seq<char> {
    if starts_with_slash(rest) || base.len() == 0 {
        rest
    } else if base.last() == '/' {
        base + rest
    } else {
        base + seq!['/'] + rest
    }
}

pub fn join_path_exec(base: &Vec<char>, rest: &Vec<char>) -> (r: Vec<char>)
    ensures
        r@ == join_path(base@, rest@),
{
    if (rest.len() > 0 && rest[0] == '/') || base.len() == 0 {
        let mut r: Vec<char> = Vec::new();
        append_chars(&mut r, rest);
        assert(r@ =~= rest@);
        return r;
    }
    let mut r: Vec<char> = Vec::new();
    append_chars(&mut r, base);
    if base[base.len() - 1] != '/' {
        r.push('/');
    }
    append_chars(&mut r, rest);
    r
}

/// A path with each run of slashes written as one slash.
pub open spec fn collapse_slashes(p: Seq<char>) -> Seq<char>
    decreases p.len(),
{
    if p.len() == 0 {
        Seq::empty()
    } else {
        let n = collapse_slashes(p.drop_last());
        if p.last() == '/' && n.len() > 0 && n.last() == '/' {
            n
        } else {
            n.push(p.last())
        }
    }
}

/// The form in which two paths naming the same file by the same components
/// compare equal: runs of slashes collapsed, a trailing slash dropped.
pub open spec fn path_key(p: Seq<char>) -> Seq<char> {
    let n = collapse_slashes(p);
    if n.len() > 1 && n.last() == '/' {
        n.drop_last()
    } else {
        n
    }
}

pub fn path_key_of(p: &Vec<char>) -> (r: Vec<char>)
    ensures
        r@ == path_key(p@),
{
    let mut n: Vec<char> = Vec::new();
    let mut i: usize = 0;
    while i < p.len()
        invariant
            i <= p@.len(),
            n@ == collapse_slashes(p@.take(i as int)),
        decreases p@.len() - i,
    {
        assert(p@.take(i + 1).drop_last() == p@.take(i as int));
        let c = p[i];
        if !(c == '/' && n.len() > 0 && n[n.len() - 1] == '/') {
            n.push(c);
        }
        i = i + 1;
    }
    assert(p@.take(p@.len() as int) == p@);
    if n.len() > 1 && n[n.len() - 1] == '/' {
        n.pop();
    }
    n
}

/// The home directory, or the root where it is unknown.
pub open spec fn home_or_root(home: Option<Seq<char>>) -> Seq<char> {
    match home {
        Some(h) => h,
        None => seq!['/'],
    }
}

/// A path with a leading `~/` put under the home directory.
pub open spec fn expand_with(p: Seq<char>, home: Option<Seq<char>>) -> Seq<char> {
    if has_prefix(p, home_prefix()) {
        join_path(home_or_root(home), p.subrange(2, p.len() as int))
    } else {
        p
    }
}

/// A path with a leading `~/` put under `home` (the root where `home` is
/// `None`); any other path is returned as it is.
pub fn expand_path_with(p: &str, home: &Option<String>) -> (r: String)
    ensures
        r@ == expand_with(p@, match home {
            Some(h) => Some(h@),
            None => None,
        }),
{
    let pc = to_chars(p);
    if occurs_at_exec(&pc, 0, &home_prefix_chars()) {
        let base: Vec<char> = match home {
            Some(h) => to_chars(h.as_str()),
            None => vec!['/'],
        };
        let rest = slice_chars(&pc, 2, pc.len());
        string_from_chars(&join_path_exec(&base, &rest))
    } else {
        string_from_chars(&pc)
    }
}

/// The directory of a path: what stands before its last `/` (the root for
/// a path directly under it, nothing for a bare name).
pub open spec fn parent_dir(p: Seq<char>) -> Seq<char> {
    let k = rfind_char(p, '/', p.len() as int);
    if k < 0 {
        Seq::empty()
    } else if k == 0 {
        seq!['/']
    } else {
        p.take(k)
    }
}

/// Where an include line's path points: a path starting with `~/` or `/`
/// stands for itself, any other is taken from the main file's directory.
pub open spec fn resolve_with(raw: Seq<char>, config: Seq<char>, home: Option<Seq<char>>) -> Seq<
    char,
> {
    if has_prefix(raw, home_prefix()) || starts_with_slash(raw) {
        expand_with(raw, home)
    } else {
        join_path(parent_dir(config), raw)
    }
}

pub open spec fn opt_view(h: &Option<String>) -> Option<Seq<char>> {
    match h {
        Some(s) => Some(s@),
        None => None,
    }
}

/// The file that an include line's path points to, for a main file at the
/// expanded path `config`.
pub fn resolve_source(raw: &str, config: &str, home: &Option<String>) -> (r: String)
    ensures
        r@ == resolve_with(raw@, config@, opt_view(home)),
{
    let rc = to_chars(raw);
    let starts_slash = rc.len() > 0 && rc[0] == '/';
    if occurs_at_exec(&rc, 0, &home_prefix_chars()) || starts_slash {
        return expand_path_with(raw, home);
    }
    let cc = to_chars(config);
    let parent: Vec<char> = match rfind_char_below(&cc, '/', cc.len()) {
        None => Vec::new(),
        Some(k) => if k == 0 {
            vec!['/']
        } else {
            slice_chars(&cc, 0, k)
        },
    };
    assert(parent@ =~= parent_dir(cc@));
    string_from_chars(&join_path_exec(&parent, &rc))
}

/// A path in portable form: under the home directory it is written with a
/// leading `~/`.
pub open spec fn portable_with(p: Seq<char>, home: Option<Seq<char>>) -> Seq<char> {
    match home {
        Some(h) => {
            let hp = if h.len() > 0 && h.last() == '/' { h } else { h.push('/') };
            if p == h {
                home_prefix()
            } else if has_prefix(p, hp) {
                home_prefix() + p.subrange(hp.len() as int, p.len() as int)
            } else {
                p
            }
        },
        None => p,
    }
}

/// `p` with the home directory written as `~/`.
pub fn to_portable(p: &str, home: &Option<String>) -> (r: String)
    ensures
        r@ == portable_with(p@, opt_view(home)),
{
    let pc = to_chars(p);
    match home {
        None => string_from_chars(&pc),
        Some(h) => {
            let hc = to_chars(h.as_str());
            let mut hp: Vec<char> = Vec::new();
            append_chars(&mut hp, &hc);
            if !(hc.len() > 0 && hc[hc.len() - 1] == '/') {
                hp.push('/');
            }
            if crate::text::chars_eq(&pc, &hc) {
                string_from_chars(&home_prefix_chars())
            } else if occurs_at_exec(&pc, 0, &hp) {
                let mut r = home_prefix_chars();
                append_chars(&mut r, &slice_chars(&pc, hp.len(), pc.len()));
                string_from_chars(&r)
            } else {
                string_from_chars(&pc)
            }
        },
    }
}

/// A path that does not start with `~/`, written in portable form and then
/// expanded again, is the path it was, where the part below the home
/// directory is not empty and does not start with `/`.
pub proof fn portable_path_expands_back(p: Seq<char>, h: Seq<char>)
    requires
        h.len() > 0,
        !has_prefix(p, home_prefix()),
        p != h,
        ({
            let hp = if h.last() == '/' { h } else { h.push('/') };
            has_prefix(p, hp) ==> p.len() > hp.len() && p[hp.len() as int] != '/'
        }),
    ensures
        expand_with(portable_with(p, Some(h)), Some(h)) == p,
{
    let hp = if h.last() == '/' { h } else { h.push('/') };
    if has_prefix(p, hp) {
        let rest = p.subrange(hp.len() as int, p.len() as int);
        let q = home_prefix() + rest;
        assert(has_prefix(q, home_prefix())) by {
            assert(q.subrange(0, 2) =~= home_prefix());
        }
        assert(q.subrange(2, q.len() as int) =~= rest);
        assert(rest[0] == p[hp.len() as int]);
        assert(p =~= p.subrange(0, hp.len() as int) + rest);
        if h.last() == '/' {
            assert(h + rest =~= p);
        } else {
            assert(hp =~= h + seq!['/']);
            assert(h + seq!['/'] + rest =~= p);
        }
    }
}

} // verus!
