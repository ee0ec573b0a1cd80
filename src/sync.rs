//! Keeping the compositor's configuration in step with the generated
//! fragment: the include line, the one-time backup of the rules that stood
//! before, and their restoration.

use vstd::prelude::*;
use crate::command::strings_view;
use crate::rules::{expand_path_with, expand_with, is_rule_line, is_rule_line_exec, opt_view};
use crate::settings::AppSettings;
use crate::text::{
    append_chars, append_str, chars_eq, contains, contains_exec, lines_of, rskip_ws,
    rskip_ws_from, split_lines, string_from_chars, to_chars, trim, trim_exec,
};
use crate::words::{source_prefix, source_prefix_chars, source_prefix_spaced, source_prefix_spaced_chars};

verus! {

/// The include line that saving adds: `source=` and the fragment path as
/// the settings write it.
pub open spec fn include_tilde(monitors: Seq<char>) -> Seq<char> {
    source_prefix() + monitors
}

/// The include line with the fragment path expanded.
pub open spec fn include_abs(monitors: Seq<char>, home: Option<Seq<char>>) -> Seq<char> {
    source_prefix() + expand_with(monitors, home)
}

/// The include line with the fragment path expanded, spaced round the sign.
pub open spec fn include_abs_spaced(monitors: Seq<char>, home: Option<Seq<char>>) -> Seq<char> {
    source_prefix_spaced() + seq![' '] + expand_with(monitors, home)
}

/// The main file already includes the fragment, in one of the three forms.
pub open spec fn has_include(c: Seq<char>, monitors: Seq<char>, home: Option<Seq<char>>) -> bool {
    contains(c, include_tilde(monitors)) || contains(c, include_abs(monitors, home)) || contains(
        c,
        include_abs_spaced(monitors, home),
    )
}

/// The main file after saving: where it does not include the fragment yet,
/// a newline and the include line are appended (to an empty file where
/// there is none); `None` where it stays as it is.
pub open spec fn with_include(
    existing: Option<Seq<char>>,
    monitors: Seq<char>,
    home: Option<Seq<char>>,
) -> Option<Seq<char>> {
    match existing {
        Some(c) => if has_include(c, monitors, home) {
            None
        } else {
            Some(c + seq!['\n'] + include_tilde(monitors) + seq!['\n'])
        },
        None => Some(seq!['\n'] + include_tilde(monitors) + seq!['\n']),
    }
}

struct IncludeLines {
    tilde: Vec<char>,
    abs: Vec<char>,
    abs_spaced: Vec<char>,
}

fn include_lines(monitors: &str, home: &Option<String>) -> (r: IncludeLines)
    ensures
        r.tilde@ == include_tilde(monitors@),
        r.abs@ == include_abs(monitors@, opt_view(home)),
        r.abs_spaced@ == include_abs_spaced(monitors@, opt_view(home)),
{
    let expanded = expand_path_with(monitors, home);
    let mut tilde = source_prefix_chars();
    append_str(&mut tilde, monitors);
    let mut abs = source_prefix_chars();
    append_str(&mut abs, expanded.as_str());
    let mut abs_spaced = source_prefix_spaced_chars();
    abs_spaced.push(' ');
    append_str(&mut abs_spaced, expanded.as_str());
    assert(abs_spaced@ =~= include_abs_spaced(monitors@, opt_view(home)));
    IncludeLines { tilde, abs, abs_spaced }
}

/// The new text of the main file when saving with `settings`, given its
/// current text (`None` where it does not exist): `None` where nothing is
/// to be written, because adding the include line is switched off or the
/// file already includes the fragment.
pub fn config_with_include(
    existing: &Option<String>,
    settings: &AppSettings,
    home: &Option<String>,
) -> (r: Option<String>)
    ensures
        !settings.auto_append_source ==> r is None,
        settings.auto_append_source ==> opt_view(&r) == with_include(
            opt_view(existing),
            settings.monitors_conf_path@,
            opt_view(home),
        ),
{
    if !settings.auto_append_source {
        return None;
    }
    let inc = include_lines(settings.monitors_conf_path.as_str(), home);
    let mut text: Vec<char> = Vec::new();
    match existing {
        Some(c) => {
            let cc = to_chars(c.as_str());
            if contains_exec(&cc, &inc.tilde) || contains_exec(&cc, &inc.abs) || contains_exec(
                &cc,
                &inc.abs_spaced,
            ) {
                return None;
            }
            append_chars(&mut text, &cc);
        },
        None => {},
    }
    text.push('\n');
    append_chars(&mut text, &inc.tilde);
    text.push('\n');
    proof {
        match existing {
            Some(c) => assert(text@ =~= c@ + seq!['\n'] + include_tilde(settings.monitors_conf_path@)
                + seq!['\n']),
            None => assert(text@ =~= seq!['\n'] + include_tilde(settings.monitors_conf_path@)
                + seq!['\n']),
        }
    }
    Some(string_from_chars(&text))
}

/// A line that is one of the three include lines, whitespace round it aside.
pub open spec fn is_include_of(l: Seq<char>, monitors: Seq<char>, home: Option<Seq<char>>) -> bool {
    trim(l) == include_tilde(monitors) || trim(l) == include_abs(monitors, home) || trim(l)
        == include_abs_spaced(monitors, home)
}

/// The main file's lines without rule lines and include lines of the
/// fragment, each ended by a newline.
pub open spec fn cleaned(ls: Seq<Seq<char>>, monitors: Seq<char>, home: Option<Seq<char>>) -> Seq<
    char,
>
    decreases ls.len(),
{
    if ls.len() == 0 {
        Seq::empty()
    } else {
        cleaned(ls.drop_last(), monitors, home) + if !is_rule_line(ls.last()) && !is_include_of(
            ls.last(),
            monitors,
            home,
        ) {
            ls.last().push('\n')
        } else {
            Seq::empty()
        }
    }
}

/// The main file's text on restore: every rule line and every include line
/// of the fragment taken out, the other lines kept in order.
pub fn clean_main_config(content: &str, settings: &AppSettings, home: &Option<String>) -> (r:
    String)
    ensures
        r@ == cleaned(lines_of(content@), settings.monitors_conf_path@, opt_view(home)),
{
    let inc = include_lines(settings.monitors_conf_path.as_str(), home);
    let ghost monitors = settings.monitors_conf_path@;
    let ghost hv = opt_view(home);
    let text = to_chars(content);
    let lines = split_lines(&text);
    let ghost ls = lines_of(content@);
    let mut out: Vec<char> = Vec::new();
    let mut i: usize = 0;
    while i < lines.len()
        invariant
            i <= lines@.len(),
            lines@.len() == ls.len(),
            forall|k: int| 0 <= k < lines@.len() ==> #[trigger] lines@[k]@ == ls[k],
            out@ == cleaned(ls.take(i as int), monitors, hv),
            inc.tilde@ == include_tilde(monitors),
            inc.abs@ == include_abs(monitors, hv),
            inc.abs_spaced@ == include_abs_spaced(monitors, hv),
        decreases lines@.len() - i,
    {
        assert(ls.take(i + 1).drop_last() == ls.take(i as int));
        assert(lines@[i as int]@ == ls[i as int]);
        let line = &lines[i];
        let t = trim_exec(line);
        if !is_rule_line_exec(line) && !chars_eq(&t, &inc.tilde) && !chars_eq(&t, &inc.abs)
            && !chars_eq(&t, &inc.abs_spaced) {
            append_chars(&mut out, line);
            out.push('\n');
        }
        assert(out@ =~= cleaned(ls.take(i + 1), monitors, hv));
        i = i + 1;
    }
    assert(ls.take(ls.len() as int) == ls);
    string_from_chars(&out)
}

/// The lines of `ls` that are not rule lines, each ended by a newline.
pub open spec fn stripped(ls: Seq<Seq<char>>) -> Seq<char>
    decreases ls.len(),
{
    if ls.len() == 0 {
        Seq::empty()
    } else {
        stripped(ls.drop_last()) + if !is_rule_line(ls.last()) {
            ls.last().push('\n')
        } else {
            Seq::empty()
        }
    }
}

/// Each rule followed by a newline.
pub open spec fn rules_block(rules: Seq<Seq<char>>) -> Seq<char>
    decreases rules.len(),
{
    if rules.len() == 0 {
        Seq::empty()
    } else {
        rules_block(rules.drop_last()) + rules.last().push('\n')
    }
}

/// `s` without its trailing whitespace.
pub open spec fn trim_end(s: Seq<char>) -> Seq<char> {
    s.take(rskip_ws(s, s.len() as int))
}

/// A file's new text when its backed-up rules are put back: its present
/// rule lines are taken out, its trailing whitespace too, and the rules are
/// appended after a newline; a file that does not exist gets just the
/// rules. `None` where there are no rules to put back.
pub open spec fn restored_text(existing: Option<Seq<char>>, rules: Seq<Seq<char>>) -> Option<
    Seq<char>,
> {
    if rules.len() == 0 {
        None
    } else {
        match existing {
            Some(c) => Some(trim_end(stripped(lines_of(c))) + seq!['\n'] + rules_block(rules)),
            None => Some(rules_block(rules)),
        }
    }
}

fn stripped_exec(content: &str) -> (r: Vec<char>)
    ensures
        r@ == stripped(lines_of(content@)),
{
    let text = to_chars(content);
    let lines = split_lines(&text);
    let ghost ls = lines_of(content@);
    let mut out: Vec<char> = Vec::new();
    let mut i: usize = 0;
    while i < lines.len()
        invariant
            i <= lines@.len(),
            lines@.len() == ls.len(),
            forall|k: int| 0 <= k < lines@.len() ==> #[trigger] lines@[k]@ == ls[k],
            out@ == stripped(ls.take(i as int)),
        decreases lines@.len() - i,
    {
        assert(ls.take(i + 1).drop_last() == ls.take(i as int));
        assert(lines@[i as int]@ == ls[i as int]);
        if !is_rule_line_exec(&lines[i]) {
            append_chars(&mut out, &lines[i]);
            out.push('\n');
        }
        assert(out@ =~= stripped(ls.take(i + 1)));
        i = i + 1;
    }
    assert(ls.take(ls.len() as int) == ls);
    out
}

/// The new text of a file whose backed-up `rules` are put back, given its
/// current text (`None` where it does not exist); `None` where there is
/// nothing to write.
pub fn restore_rules(existing: &Option<String>, rules: &Vec<String>) -> (r: Option<String>)
    ensures
        opt_view(&r) == restored_text(opt_view(existing), strings_view(rules@)),
{
    if rules.len() == 0 {
        return None;
    }
    let mut out: Vec<char> = Vec::new();
    match existing {
        Some(c) => {
            let s = stripped_exec(c.as_str());
            let e = rskip_ws_from(&s, s.len());
            let mut k: usize = 0;
            while k < e
                invariant
                    e <= s@.len(),
                    k <= e,
                    out@ == s@.take(k as int),
                decreases e - k,
            {
                out.push(s[k]);
                k = k + 1;
                assert(out@ =~= s@.take(k as int));
            }
            out.push('\n');
        },
        None => {},
    }
    let ghost start = out@;
    let ghost rv = strings_view(rules@);
    let mut i: usize = 0;
    while i < rules.len()
        invariant
            i <= rules@.len(),
            rv == strings_view(rules@),
            out@ == start + rules_block(rv.take(i as int)),
        decreases rules@.len() - i,
    {
        assert(rv.take(i + 1).drop_last() == rv.take(i as int));
        assert(rv[i as int] == rules@[i as int]@);
        append_str(&mut out, rules[i].as_str());
        out.push('\n');
        assert(out@ =~= start + rules_block(rv.take(i + 1)));
        i = i + 1;
    }
    assert(rv.take(rv.len() as int) == rv);
    proof {
        match existing {
            Some(c) => {},
            None => assert(out@ =~= rules_block(rv)),
        }
    }
    Some(string_from_chars(&out))
}


/// Relies on `dirs::home_dir`: the user's home directory as the
/// environment gives it, if any; nothing is promised of its value.
#[verifier::external_body]
fn home_dir() -> (r: Option<String>) {
    match dirs::home_dir() {
        Some(p) => Some(p.display().to_string()),
        None => None,
    }
}

/// The three paths of the settings with `~/` expanded, under the home
/// directory that was found (if any), which is kept beside them.
pub struct ResolvedPaths {
    pub home: Option<String>,
    pub monitors: String,
    pub config: String,
    pub backup: String,
}

/// Looks up the home directory and expands the settings' paths under it.
pub fn resolve_paths(settings: &AppSettings) -> (r: ResolvedPaths)
    ensures
        r.monitors@ == expand_with(settings.monitors_conf_path@, opt_view(&r.home)),
        r.config@ == expand_with(settings.config_conf_path@, opt_view(&r.home)),
        r.backup@ == expand_with(settings.monitors_bak_path@, opt_view(&r.home)),
{
    let home = home_dir();
    let monitors = expand_path_with(settings.monitors_conf_path.as_str(), &home);
    let config = expand_path_with(settings.config_conf_path.as_str(), &home);
    let backup = expand_path_with(settings.monitors_bak_path.as_str(), &home);
    ResolvedPaths { home, monitors, config, backup }
}

} // verus!
