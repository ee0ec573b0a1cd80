//! What saving and restoring do to the files, stated over a map from
//! expanded paths to texts, as the library's functions decide it.

use vstd::prelude::*;
use crate::backup::{backup_plan, files_view, fragment_backed_up, sourced_paths, EntryModel, SourcedFile};
use crate::document::{backup_document, backup_json_of, entry_pairs};
use crate::fragment::{fragment_text, render_fragment};
use crate::model::{Output, OutputModel};
use crate::report::outputs_view;
use crate::rules::{opt_view, expand_with, is_rule_line, keep_rules, trim_start};
use crate::settings::AppSettings;
use crate::sync::{config_with_include, ResolvedPaths,
    cleaned, has_include, include_tilde, is_include_of, restored_text, rules_block, stripped,
    trim_end, with_include,
};
use crate::text::{
    contains, has_prefix, is_ws, lines_of, occurs_at, rskip_ws, skip_ws, split_acc, strip_cr,
};

verus! {

/// The text of the file at `p`, if there is one.
pub open spec fn file_of(fs: Map<Seq<char>, Seq<char>>, p: Seq<char>) -> Option<Seq<char>> {
    if fs.dom().contains(p) {
        Some(fs[p])
    } else {
        None
    }
}

/// The files at `paths` with their texts, empty for one that is missing.
pub open spec fn read_all(fs: Map<Seq<char>, Seq<char>>, paths: Seq<Seq<char>>) -> Seq<
    (Seq<char>, Seq<char>),
>
    decreases paths.len(),
{
    if paths.len() == 0 {
        Seq::empty()
    } else {
        read_all(fs, paths.drop_last()).push(
            (paths.last(), if fs.dom().contains(paths.last()) { fs[paths.last()] } else { Seq::empty() }),
        )
    }
}

/// The backup document that a first save writes.
pub open spec fn backup_written(fs: Map<Seq<char>, Seq<char>>, s: AppSettings, home: Option<Seq<char>>) -> Seq<
    char,
> {
    let cp = expand_with(s.config_conf_path@, home);
    let files = match file_of(fs, cp) {
        Some(c) => read_all(fs, sourced_paths(c, cp, home)),
        None => Seq::empty(),
    };
    backup_json_of(entry_pairs(backup_plan(cp, file_of(fs, cp), files, home)))
}

/// The files after saving `os` with settings `s`: the backup where there is
/// none yet, the fragment rewritten whole, then the include line where it
/// is wanted and missing.
pub open spec fn persist_fs(
    fs: Map<Seq<char>, Seq<char>>,
    os: Seq<OutputModel>,
    s: AppSettings,
    home: Option<Seq<char>>,
) -> Map<Seq<char>, Seq<char>> {
    let bp = expand_with(s.monitors_bak_path@, home);
    let mp = expand_with(s.monitors_conf_path@, home);
    let cp = expand_with(s.config_conf_path@, home);
    let fs1 = if fs.dom().contains(bp) {
        fs
    } else {
        fs.insert(bp, backup_written(fs, s, home))
    };
    let fs2 = fs1.insert(mp, fragment_text(os));
    if s.auto_append_source {
        match with_include(file_of(fs2, cp), s.monitors_conf_path@, home) {
            Some(t) => fs2.insert(cp, t),
            None => fs2,
        }
    } else {
        fs2
    }
}

proof fn lemma_appended_include_is_found(c: Seq<char>, t: Seq<char>)
    ensures
        contains(c + seq!['\n'] + t + seq!['\n'], t),
{
    let x = c + seq!['\n'] + t + seq!['\n'];
    let i: int = c.len() as int + 1;
    assert(x.subrange(i, i + t.len()) =~= t);
    assert(occurs_at(x, i, t));
}

/// Saving twice with the same outputs and settings leaves the files as
/// saving once does: the backup is written once and kept, the fragment is
/// one fresh rendering, and the include line is not added again. The three
/// paths are taken to be different files.
pub proof fn persist_is_idempotent(
    fs: Map<Seq<char>, Seq<char>>,
    os: Seq<OutputModel>,
    s: AppSettings,
    home: Option<Seq<char>>,
)
    requires
        expand_with(s.monitors_conf_path@, home) != expand_with(s.config_conf_path@, home),
        expand_with(s.monitors_conf_path@, home) != expand_with(s.monitors_bak_path@, home),
        expand_with(s.config_conf_path@, home) != expand_with(s.monitors_bak_path@, home),
    ensures
        persist_fs(persist_fs(fs, os, s, home), os, s, home) == persist_fs(fs, os, s, home),
        persist_fs(fs, os, s, home)[expand_with(s.monitors_conf_path@, home)] == fragment_text(os),
        persist_fs(fs, os, s, home)[expand_with(s.monitors_bak_path@, home)] == if fs.dom().contains(
            expand_with(s.monitors_bak_path@, home),
        ) {
            fs[expand_with(s.monitors_bak_path@, home)]
        } else {
            backup_written(fs, s, home)
        },
{
    let bp = expand_with(s.monitors_bak_path@, home);
    let mp = expand_with(s.monitors_conf_path@, home);
    let cp = expand_with(s.config_conf_path@, home);
    let monitors = s.monitors_conf_path@;
    let once = persist_fs(fs, os, s, home);
    let fs1 = if fs.dom().contains(bp) {
        fs
    } else {
        fs.insert(bp, backup_written(fs, s, home))
    };
    let fs2 = fs1.insert(mp, fragment_text(os));
    assert(once.dom().contains(bp));
    assert(once.dom().contains(mp) && once[mp] == fragment_text(os));
    let again2 = once.insert(mp, fragment_text(os));
    assert(again2 =~= once);
    if s.auto_append_source {
        match with_include(file_of(fs2, cp), monitors, home) {
            Some(t) => {
                match file_of(fs2, cp) {
                    Some(c) => lemma_appended_include_is_found(c, include_tilde(monitors)),
                    None => lemma_appended_include_is_found(Seq::empty(), include_tilde(monitors)),
                }
                assert(seq!['\n'] + include_tilde(monitors) + seq!['\n'] =~= Seq::<char>::empty() + seq!['\n']
                    + include_tilde(monitors) + seq!['\n']);
                assert(once[cp] == t);
                assert(has_include(t, monitors, home));
            },
            None => {
                assert(file_of(fs2, cp) is Some);
            },
        }
    }
}


/// `s` does not hold the character `c`.
pub open spec fn free_of(s: Seq<char>, c: char) -> bool {
    forall|i: int| 0 <= i < s.len() ==> #[trigger] s[i] != c
}

proof fn lemma_split_concat(a: Seq<char>, b: Seq<char>)
    requires
        split_acc(a).1.len() == 0,
    ensures
        split_acc(a + b) == (split_acc(a).0 + split_acc(b).0, split_acc(b).1),
    decreases b.len(),
{
    if b.len() == 0 {
        assert(a + b =~= a);
        assert(split_acc(a).0 + Seq::<Seq<char>>::empty() =~= split_acc(a).0);
        assert(split_acc(a).1 =~= Seq::<char>::empty());
    } else {
        lemma_split_concat(a, b.drop_last());
        assert((a + b).drop_last() =~= a + b.drop_last());
        assert((a + b).last() == b.last());
        let (ls, cur) = split_acc(b.drop_last());
        if b.last() == '\n' {
            assert(split_acc(a).0 + ls.push(strip_cr(cur)) =~= (split_acc(a).0 + ls).push(
                strip_cr(cur),
            ));
        }
    }
}

proof fn lemma_split_line(l: Seq<char>)
    requires
        free_of(l, '\n'),
    ensures
        split_acc(l) == (Seq::<Seq<char>>::empty(), l),
    decreases l.len(),
{
    if l.len() == 0 {
        assert(split_acc(l).1 =~= l);
    } else {
        assert(free_of(l.drop_last(), '\n'));
        lemma_split_line(l.drop_last());
        assert(l.drop_last().push(l.last()) =~= l);
    }
}

proof fn lemma_split_line_end(l: Seq<char>)
    requires
        free_of(l, '\n'),
        free_of(l, '\r'),
    ensures
        split_acc(l.push('\n')) == (seq![l], Seq::<char>::empty()),
{
    lemma_split_line(l);
    assert(l.push('\n').drop_last() =~= l);
    if l.len() > 0 {
        assert(l[l.len() - 1] != '\r');
    }
    assert(Seq::<Seq<char>>::empty().push(l) =~= seq![l]);
}

proof fn lemma_lines_free_of(t: Seq<char>, c: char)
    requires
        c == '\n' || free_of(t, c),
    ensures
        forall|k: int| 0 <= k < split_acc(t).0.len() ==> free_of(#[trigger] split_acc(t).0[k], c),
        free_of(split_acc(t).1, c),
    decreases t.len(),
{
    if t.len() > 0 {
        let p = t.drop_last();
        assert(c == '\n' || free_of(p, c));
        lemma_lines_free_of(p, c);
        let (ls, cur) = split_acc(p);
        if t.last() == '\n' {
            assert(free_of(strip_cr(cur), c));
            assert forall|k: int| 0 <= k < ls.push(strip_cr(cur)).len() implies free_of(
                #[trigger] ls.push(strip_cr(cur))[k],
                c,
            ) by {
                if k < ls.len() {
                    assert(ls.push(strip_cr(cur))[k] == ls[k]);
                }
            }
        } else {
            assert(t.last() != c);
            assert(free_of(cur.push(t.last()), c)) by {
                assert forall|i: int| 0 <= i < cur.push(t.last()).len() implies #[trigger] cur.push(
                    t.last(),
                )[i] != c by {
                    if i < cur.len() {
                        assert(cur.push(t.last())[i] == cur[i]);
                    }
                }
            }
        }
    }
}

/// Every line of `t` is free of newlines, and of carriage returns where `t`
/// holds none.
pub proof fn lemma_lines_of_free_of(t: Seq<char>)
    ensures
        forall|k: int| 0 <= k < lines_of(t).len() ==> free_of(#[trigger] lines_of(t)[k], '\n'),
        free_of(t, '\r') ==> forall|k: int|
            0 <= k < lines_of(t).len() ==> free_of(#[trigger] lines_of(t)[k], '\r'),
{
    lemma_lines_free_of(t, '\n');
    let (ls, cur) = split_acc(t);
    assert forall|k: int| 0 <= k < lines_of(t).len() implies free_of(#[trigger] lines_of(t)[k], '\n') by {
        if k < ls.len() {
            assert(lines_of(t)[k] == ls[k]);
        }
    }
    if free_of(t, '\r') {
        lemma_lines_free_of(t, '\r');
        assert forall|k: int| 0 <= k < lines_of(t).len() implies free_of(#[trigger] lines_of(t)[k], '\r') by {
            if k < ls.len() {
                assert(lines_of(t)[k] == ls[k]);
            }
        }
    }
}

proof fn lemma_cleaned_lines(ls: Seq<Seq<char>>, m: Seq<char>, h: Option<Seq<char>>)
    requires
        forall|k: int| 0 <= k < ls.len() ==> free_of(#[trigger] ls[k], '\n') && free_of(ls[k], '\r'),
    ensures
        split_acc(cleaned(ls, m, h)).1.len() == 0,
        forall|k: int|
            0 <= k < split_acc(cleaned(ls, m, h)).0.len() ==> !is_rule_line(
                #[trigger] split_acc(cleaned(ls, m, h)).0[k],
            ) && !is_include_of(split_acc(cleaned(ls, m, h)).0[k], m, h),
    decreases ls.len(),
{
    if ls.len() > 0 {
        let p = ls.drop_last();
        let l = ls.last();
        assert(forall|k: int| 0 <= k < p.len() ==> #[trigger] p[k] == ls[k]);
        lemma_cleaned_lines(p, m, h);
        let prev = cleaned(p, m, h);
        if !is_rule_line(l) && !is_include_of(l, m, h) {
            assert(free_of(l, '\n') && free_of(l, '\r')) by {
                assert(l == ls[ls.len() - 1]);
            }
            lemma_split_line_end(l);
            lemma_split_concat(prev, l.push('\n'));
            let all = split_acc(prev).0 + seq![l];
            assert forall|k: int| 0 <= k < all.len() implies !is_rule_line(#[trigger] all[k])
                && !is_include_of(all[k], m, h) by {
                if k < split_acc(prev).0.len() {
                    assert(all[k] == split_acc(prev).0[k]);
                }
            }
        } else {
            assert(cleaned(ls, m, h) =~= prev);
        }
    }
}

/// After restoring, the main file holds no rule line and no include line
/// of the fragment: every line of its cleaned text is neither. Stated for
/// texts without carriage returns.
pub proof fn restore_cleans_main_file(c: Seq<char>, m: Seq<char>, h: Option<Seq<char>>)
    requires
        free_of(c, '\r'),
    ensures
        forall|k: int|
            0 <= k < lines_of(cleaned(lines_of(c), m, h)).len() ==> !is_rule_line(
                #[trigger] lines_of(cleaned(lines_of(c), m, h))[k],
            ) && !is_include_of(lines_of(cleaned(lines_of(c), m, h))[k], m, h),
{
    lemma_lines_of_free_of(c);
    lemma_cleaned_lines(lines_of(c), m, h);
}

proof fn lemma_block_lines(rules: Seq<Seq<char>>)
    requires
        forall|k: int| 0 <= k < rules.len() ==> free_of(#[trigger] rules[k], '\n') && free_of(rules[k], '\r'),
    ensures
        split_acc(rules_block(rules)) == (rules, Seq::<char>::empty()),
    decreases rules.len(),
{
    if rules.len() == 0 {
        assert(split_acc(rules_block(rules)).0 =~= rules);
    } else {
        let p = rules.drop_last();
        assert(forall|k: int| 0 <= k < p.len() ==> #[trigger] p[k] == rules[k]);
        lemma_block_lines(p);
        let l = rules.last();
        assert(free_of(l, '\n') && free_of(l, '\r')) by {
            assert(l == rules[rules.len() - 1]);
        }
        lemma_split_line_end(l);
        lemma_split_concat(rules_block(p), l.push('\n'));
        assert(p + seq![l] =~= rules);
    }
}

proof fn lemma_keep_all_rules(rules: Seq<Seq<char>>)
    requires
        forall|k: int| 0 <= k < rules.len() ==> is_rule_line(#[trigger] rules[k]),
    ensures
        keep_rules(rules) == rules,
    decreases rules.len(),
{
    if rules.len() > 0 {
        let p = rules.drop_last();
        assert(forall|k: int| 0 <= k < p.len() ==> #[trigger] p[k] == rules[k]);
        lemma_keep_all_rules(p);
        assert(is_rule_line(rules[rules.len() - 1]));
        assert(p + seq![rules.last()] =~= rules);
    }
}

proof fn lemma_keep_rules_concat(a: Seq<Seq<char>>, b: Seq<Seq<char>>)
    ensures
        keep_rules(a + b) == keep_rules(a) + keep_rules(b),
    decreases b.len(),
{
    if b.len() == 0 {
        assert(a + b =~= a);
        assert(keep_rules(a) + keep_rules(b) =~= keep_rules(a));
    } else {
        lemma_keep_rules_concat(a, b.drop_last());
        assert((a + b).drop_last() =~= a + b.drop_last());
        assert((a + b).last() == b.last());
        if is_rule_line(b.last()) {
            assert(keep_rules(a) + (keep_rules(b.drop_last()) + seq![b.last()]) =~= keep_rules(a)
                + keep_rules(b.drop_last()) + seq![b.last()]);
        } else {
            assert(keep_rules(b.drop_last()) + Seq::<Seq<char>>::empty() =~= keep_rules(b.drop_last()));
            assert(keep_rules(a + b.drop_last()) + Seq::<Seq<char>>::empty() =~= keep_rules(a + b.drop_last()));
        }
    }
}

/// Restoring puts back exactly the backed-up rules, in order: a file that
/// was missing holds just them as its rule lines, and so does an existing
/// file whose text has no carriage return; for any existing file they are
/// its last lines. Rules are single rule lines without carriage returns.
pub proof fn restore_reinstates_backed_up_rules(existing: Option<Seq<char>>, rules: Seq<Seq<char>>)
    requires
        rules.len() > 0,
        forall|k: int|
            0 <= k < rules.len() ==> is_rule_line(#[trigger] rules[k]) && free_of(rules[k], '\n')
                && free_of(rules[k], '\r'),
    ensures
        existing is None ==> keep_rules(lines_of(restored_text(existing, rules)->0)) == rules,
        existing matches Some(c) ==> keep_rules(lines_of(restored_text(existing, rules)->0)) == keep_rules(
            lines_of(trim_end(stripped(lines_of(c))).push('\n')),
        ) + rules,
        existing matches Some(c) && free_of(c, '\r') ==> keep_rules(
            lines_of(restored_text(existing, rules)->0),
        ) == rules,
{
    lemma_block_lines(rules);
    lemma_keep_all_rules(rules);
    match existing {
        None => {},
        Some(c) => {
            let x = trim_end(stripped(lines_of(c))).push('\n');
            assert(split_acc(x).1.len() == 0) by {
                assert(x.drop_last() =~= trim_end(stripped(lines_of(c))));
            }
            lemma_split_concat(x, rules_block(rules));
            assert(trim_end(stripped(lines_of(c))) + seq!['\n'] + rules_block(rules) =~= x
                + rules_block(rules));
            lemma_keep_rules_concat(split_acc(x).0, rules);
            if free_of(c, '\r') {
                restore_keeps_no_stale_rules(c);
                assert(keep_rules(lines_of(x)) + rules =~= rules);
            }
        },
    }
}


proof fn lemma_skip_ws_prefix(q: Seq<char>, l: Seq<char>, i: int)
    requires
        0 <= i <= q.len(),
        q.len() <= l.len(),
        l.take(q.len() as int) == q,
        skip_ws(q, i) < q.len(),
    ensures
        skip_ws(l, i) == skip_ws(q, i),
    decreases q.len() - i,
{
    assert(q[i] == l[i]) by {
        assert(l.take(q.len() as int)[i] == l[i]);
    }
    if is_ws(q[i]) {
        lemma_skip_ws_prefix(q, l, i + 1);
    }
}

proof fn lemma_skip_ws_bound(s: Seq<char>, i: int)
    requires
        0 <= i <= s.len(),
    ensures
        i <= skip_ws(s, i) <= s.len(),
    decreases s.len() - i,
{
    if i < s.len() && is_ws(s[i]) {
        lemma_skip_ws_bound(s, i + 1);
    }
}

/// A line that starts with a rule line is a rule line.
proof fn lemma_rule_prefix(q: Seq<char>, l: Seq<char>)
    requires
        is_rule_line(q),
        q.len() <= l.len(),
        l.take(q.len() as int) == q,
    ensures
        is_rule_line(l),
{
    lemma_skip_ws_bound(q, 0);
    let a = skip_ws(q, 0);
    if a >= q.len() {
        assert(trim_start(q).len() == 0);
        assert(false);
    }
    lemma_skip_ws_prefix(q, l, 0);
    let tq = trim_start(q);
    let tl = trim_start(l);
    assert forall|p: Seq<char>| #[trigger] has_prefix(tq, p) implies has_prefix(tl, p) by {
        assert forall|k: int| 0 <= k < p.len() implies tl[k] == p[k] by {
            assert(tq.subrange(0, p.len() as int)[k] == tq[k]);
            assert(tq[k] == q[a + k]);
            assert(l.take(q.len() as int)[a + k] == l[a + k]);
        }
        assert(tl.subrange(0, p.len() as int) =~= p);
    }
}

/// All lines of `t`, the open one last.
pub open spec fn all_lines(t: Seq<char>) -> Seq<Seq<char>> {
    split_acc(t).0.push(split_acc(t).1)
}

proof fn lemma_prefix_lines(t: Seq<char>, j: int)
    requires
        0 <= j <= t.len(),
        free_of(t, '\r'),
    ensures
        split_acc(t.take(j)).0.len() < all_lines(t).len(),
        forall|i: int|
            0 <= i < split_acc(t.take(j)).0.len() ==> #[trigger] split_acc(t.take(j)).0[i]
                == all_lines(t)[i],
        ({
            let b = split_acc(t.take(j)).1;
            let w = all_lines(t)[split_acc(t.take(j)).0.len() as int];
            b.len() <= w.len() && w.take(b.len() as int) == b
        }),
    decreases t.len() - j,
{
    let (a, b) = split_acc(t.take(j));
    if j == t.len() {
        assert(t.take(j) =~= t);
        assert(all_lines(t)[a.len() as int] == b);
        assert(b.take(b.len() as int) =~= b);
    } else {
        let p = t.drop_last();
        assert(free_of(p, '\r'));
        assert(t.take(j) =~= p.take(j));
        lemma_prefix_lines(p, j);
        let (ls, cur) = split_acc(p);
        lemma_lines_free_of(p, '\r');
        if t.last() == '\n' {
            if cur.len() > 0 {
                assert(cur[cur.len() - 1] != '\r');
            }
            assert(strip_cr(cur) == cur);
            assert(all_lines(t) =~= ls.push(cur).push(Seq::empty()));
            assert forall|i: int| 0 <= i < a.len() implies #[trigger] a[i] == all_lines(t)[i] by {
                assert(a[i] == all_lines(p)[i]);
            }
            assert(all_lines(t)[a.len() as int] == all_lines(p)[a.len() as int]);
        } else {
            assert(all_lines(t) =~= ls.push(cur.push(t.last())));
            assert forall|i: int| 0 <= i < a.len() implies #[trigger] a[i] == all_lines(t)[i] by {
                assert(a[i] == all_lines(p)[i]);
            }
            if a.len() < ls.len() {
                assert(all_lines(t)[a.len() as int] == all_lines(p)[a.len() as int]);
            } else {
                let w = cur.push(t.last());
                assert(all_lines(p)[a.len() as int] == cur);
                assert(w.take(b.len() as int) =~= cur.take(b.len() as int));
            }
        }
    }
}

proof fn lemma_stripped_lines(ls: Seq<Seq<char>>)
    requires
        forall|k: int| 0 <= k < ls.len() ==> free_of(#[trigger] ls[k], '\n') && free_of(ls[k], '\r'),
    ensures
        split_acc(stripped(ls)).1.len() == 0,
        forall|k: int|
            0 <= k < split_acc(stripped(ls)).0.len() ==> !is_rule_line(
                #[trigger] split_acc(stripped(ls)).0[k],
            ),
        free_of(stripped(ls), '\r'),
    decreases ls.len(),
{
    if ls.len() > 0 {
        let p = ls.drop_last();
        let l = ls.last();
        assert(forall|k: int| 0 <= k < p.len() ==> #[trigger] p[k] == ls[k]);
        lemma_stripped_lines(p);
        let prev = stripped(p);
        if !is_rule_line(l) {
            assert(free_of(l, '\n') && free_of(l, '\r')) by {
                assert(l == ls[ls.len() - 1]);
            }
            lemma_split_line_end(l);
            lemma_split_concat(prev, l.push('\n'));
            let all = split_acc(prev).0 + seq![l];
            assert forall|k: int| 0 <= k < all.len() implies !is_rule_line(#[trigger] all[k]) by {
                if k < split_acc(prev).0.len() {
                    assert(all[k] == split_acc(prev).0[k]);
                }
            }
            let s = prev + l.push('\n');
            assert forall|i: int| 0 <= i < s.len() implies #[trigger] s[i] != '\r' by {
                if i < prev.len() {
                    assert(s[i] == prev[i]);
                } else if i < prev.len() + l.len() {
                    assert(s[i] == l[i - prev.len()]);
                }
            }
        } else {
            assert(stripped(ls) =~= prev);
        }
    }
}

/// The kept part of an existing file, once its rule lines are stripped and
/// its trailing whitespace trimmed, holds no rule line. Stated for texts
/// without carriage returns.
pub proof fn restore_keeps_no_stale_rules(c: Seq<char>)
    requires
        free_of(c, '\r'),
    ensures
        keep_rules(lines_of(trim_end(stripped(lines_of(c))).push('\n'))).len() == 0,
{
    lemma_lines_of_free_of(c);
    let s = stripped(lines_of(c));
    lemma_stripped_lines(lines_of(c));
    let j = rskip_ws(s, s.len() as int);
    lemma_rskip_bound(s, s.len() as int);
    let x = s.take(j);
    lemma_prefix_lines(s, j);
    let (a, b) = split_acc(x);
    assert(free_of(b, '\r')) by {
        assert(free_of(x, '\r'));
        lemma_lines_free_of(x, '\r');
    }
    assert(free_of(b, '\n')) by {
        lemma_lines_free_of(x, '\n');
    }
    lemma_split_line(b);
    assert(x.push('\n').drop_last() =~= x);
    if b.len() > 0 {
        assert(b[b.len() - 1] != '\r');
    }
    assert(strip_cr(b) == b);
    let lines = a.push(b);
    assert(lines_of(x.push('\n')) == lines);
    let big = all_lines(s);
    assert forall|k: int| 0 <= k < big.len() implies !is_rule_line(#[trigger] big[k]) by {
        if k < split_acc(s).0.len() {
            assert(big[k] == split_acc(s).0[k]);
        } else {
            assert(big[k] == split_acc(s).1);
            assert(trim_start(big[k]).len() == 0);
        }
    }
    assert forall|k: int| 0 <= k < lines.len() implies !is_rule_line(#[trigger] lines[k]) by {
        if k < a.len() {
            assert(lines[k] == a[k]);
            assert(a[k] == big[k]);
        } else {
            assert(lines[k] == b);
            let w = big[a.len() as int];
            if is_rule_line(b) {
                lemma_rule_prefix(b, w);
            }
        }
    }
    lemma_keep_none(lines);
}

proof fn lemma_rskip_bound(s: Seq<char>, j: int)
    requires
        0 <= j <= s.len(),
    ensures
        0 <= rskip_ws(s, j) <= j,
    decreases j,
{
    if 0 < j && is_ws(s[j - 1]) {
        lemma_rskip_bound(s, j - 1);
    }
}

proof fn lemma_keep_none(ls: Seq<Seq<char>>)
    requires
        forall|k: int| 0 <= k < ls.len() ==> !is_rule_line(#[trigger] ls[k]),
    ensures
        keep_rules(ls).len() == 0,
    decreases ls.len(),
{
    if ls.len() > 0 {
        let p = ls.drop_last();
        assert(forall|k: int| 0 <= k < p.len() ==> #[trigger] p[k] == ls[k]);
        lemma_keep_none(p);
        assert(!is_rule_line(ls[ls.len() - 1]));
    }
}


/// The files after putting back the rules of each entry, in order.
pub open spec fn apply_entries(
    fs: Map<Seq<char>, Seq<char>>,
    es: Seq<EntryModel>,
    home: Option<Seq<char>>,
) -> Map<Seq<char>, Seq<char>>
    decreases es.len(),
{
    if es.len() == 0 {
        fs
    } else {
        let f = apply_entries(fs, es.drop_last(), home);
        let t = expand_with(es.last().source_file, home);
        match restored_text(file_of(f, t), es.last().rules) {
            Some(x) => f.insert(t, x),
            None => f,
        }
    }
}

/// The files after restoring from the backup entries `es`: the main file
/// cleaned, each entry's rules put back into its file, and the fragment
/// removed unless an entry names it.
pub open spec fn restore_fs(
    fs: Map<Seq<char>, Seq<char>>,
    es: Seq<EntryModel>,
    s: AppSettings,
    home: Option<Seq<char>>,
) -> Map<Seq<char>, Seq<char>> {
    let cp = expand_with(s.config_conf_path@, home);
    let mp = expand_with(s.monitors_conf_path@, home);
    let fs1 = match file_of(fs, cp) {
        Some(c) => fs.insert(cp, cleaned(lines_of(c), s.monitors_conf_path@, home)),
        None => fs,
    };
    let fs2 = apply_entries(fs1, es, home);
    if fs2.dom().contains(mp) && !fragment_backed_up(es, s.monitors_conf_path@, home) {
        fs2.remove(mp)
    } else {
        fs2
    }
}

pub open spec fn all_free_of_cr(fs: Map<Seq<char>, Seq<char>>) -> bool {
    forall|p: Seq<char>| #[trigger] fs.dom().contains(p) ==> free_of(fs[p], '\r')
}

/// The rules of an entry are single rule lines without carriage returns.
pub open spec fn valid_rules(rules: Seq<Seq<char>>) -> bool {
    forall|k: int|
        0 <= k < rules.len() ==> is_rule_line(#[trigger] rules[k]) && free_of(rules[k], '\n')
            && free_of(rules[k], '\r')
}

proof fn lemma_free_concat(a: Seq<char>, b: Seq<char>, c: char)
    requires
        free_of(a, c),
        free_of(b, c),
    ensures
        free_of(a + b, c),
{
    assert forall|i: int| 0 <= i < (a + b).len() implies #[trigger] (a + b)[i] != c by {
        if i < a.len() {
            assert((a + b)[i] == a[i]);
        } else {
            assert((a + b)[i] == b[i - a.len()]);
        }
    }
}

proof fn lemma_cleaned_free(ls: Seq<Seq<char>>, m: Seq<char>, h: Option<Seq<char>>)
    requires
        forall|k: int| 0 <= k < ls.len() ==> free_of(#[trigger] ls[k], '\r'),
    ensures
        free_of(cleaned(ls, m, h), '\r'),
    decreases ls.len(),
{
    if ls.len() > 0 {
        let p = ls.drop_last();
        assert(forall|k: int| 0 <= k < p.len() ==> #[trigger] p[k] == ls[k]);
        lemma_cleaned_free(p, m, h);
        let l = ls.last();
        assert(free_of(l, '\r')) by {
            assert(l == ls[ls.len() - 1]);
        }
        assert(free_of(l.push('\n'), '\r')) by {
            assert(l.push('\n') =~= l + seq!['\n']);
            lemma_free_concat(l, seq!['\n'], '\r');
        }
        lemma_free_concat(cleaned(p, m, h), l.push('\n'), '\r');
        lemma_free_concat(cleaned(p, m, h), Seq::empty(), '\r');
    }
}

proof fn lemma_block_free(rules: Seq<Seq<char>>)
    requires
        valid_rules(rules),
    ensures
        free_of(rules_block(rules), '\r'),
    decreases rules.len(),
{
    if rules.len() > 0 {
        let p = rules.drop_last();
        assert(forall|k: int| 0 <= k < p.len() ==> #[trigger] p[k] == rules[k]);
        lemma_block_free(p);
        let l = rules.last();
        assert(free_of(l, '\r')) by {
            assert(l == rules[rules.len() - 1]);
        }
        assert(l.push('\n') =~= l + seq!['\n']);
        lemma_free_concat(l, seq!['\n'], '\r');
        lemma_free_concat(rules_block(p), l.push('\n'), '\r');
    }
}

proof fn lemma_restored_free(existing: Option<Seq<char>>, rules: Seq<Seq<char>>)
    requires
        rules.len() > 0,
        valid_rules(rules),
        existing matches Some(c) ==> free_of(c, '\r'),
    ensures
        free_of(restored_text(existing, rules)->0, '\r'),
{
    lemma_block_free(rules);
    if let Some(c) = existing {
        lemma_lines_of_free_of(c);
        lemma_stripped_lines(lines_of(c));
        let s = stripped(lines_of(c));
        lemma_rskip_bound(s, s.len() as int);
        let x = trim_end(s);
        assert(free_of(x, '\r')) by {
            assert forall|i: int| 0 <= i < x.len() implies #[trigger] x[i] != '\r' by {
                assert(x[i] == s[i]);
            }
        }
        lemma_free_concat(x, seq!['\n'], '\r');
        lemma_free_concat(x + seq!['\n'], rules_block(rules), '\r');
    }
}

/// No entry of `es` names the file `q`.
pub open spec fn untouched(es: Seq<EntryModel>, q: Seq<char>, home: Option<Seq<char>>) -> bool {
    forall|k: int| 0 <= k < es.len() ==> expand_with(#[trigger] es[k].source_file, home) != q
}

proof fn lemma_apply_entries(fs: Map<Seq<char>, Seq<char>>, es: Seq<EntryModel>, home: Option<Seq<char>>)
    requires
        all_free_of_cr(fs),
        forall|k: int| 0 <= k < es.len() ==> valid_rules(#[trigger] es[k].rules),
    ensures
        all_free_of_cr(apply_entries(fs, es, home)),
        forall|p: Seq<char>| #[trigger] fs.dom().contains(p) ==> apply_entries(fs, es, home).dom().contains(p),
        forall|p: Seq<char>|
            #![trigger apply_entries(fs, es, home).dom().contains(p)]
            untouched(es, p, home) ==> apply_entries(fs, es, home).dom().contains(p)
                == fs.dom().contains(p) && (fs.dom().contains(p) ==> apply_entries(fs, es, home)[p]
                == fs[p]),
        forall|k: int|
            0 <= k < es.len() && es[k].rules.len() > 0 && (forall|j: int|
                k < j < es.len() ==> expand_with(#[trigger] es[j].source_file, home) != expand_with(
                    es[k].source_file,
                    home,
                )) ==> apply_entries(fs, es, home).dom().contains(
                expand_with(#[trigger] es[k].source_file, home),
            ) && keep_rules(
                lines_of(apply_entries(fs, es, home)[expand_with(es[k].source_file, home)]),
            ) == es[k].rules,
    decreases es.len(),
{
    if es.len() > 0 {
        let p = es.drop_last();
        assert(forall|k: int| 0 <= k < p.len() ==> #[trigger] p[k] == es[k]);
        lemma_apply_entries(fs, p, home);
        let f = apply_entries(fs, p, home);
        let e = es.last();
        let t = expand_with(e.source_file, home);
        assert(valid_rules(e.rules)) by {
            assert(e == es[es.len() - 1]);
        }
        let r = apply_entries(fs, es, home);
        if e.rules.len() > 0 {
            lemma_restored_free(file_of(f, t), e.rules);
            restore_reinstates_backed_up_rules(file_of(f, t), e.rules);
            assert(r == f.insert(t, restored_text(file_of(f, t), e.rules)->0));
        } else {
            assert(r == f);
        }
        assert forall|q: Seq<char>| untouched(es, q, home) implies #[trigger] r.dom().contains(q)
            == fs.dom().contains(q) && (fs.dom().contains(q) ==> r[q] == fs[q]) by {
            assert(expand_with(es[es.len() - 1].source_file, home) != q);
            assert forall|k: int| 0 <= k < p.len() implies expand_with(#[trigger] p[k].source_file, home) != q by {
                assert(p[k] == es[k]);
                assert(expand_with(es[k].source_file, home) != q);
            }
            assert(untouched(p, q, home));
            assert(f.dom().contains(q) == fs.dom().contains(q));
            assert(fs.dom().contains(q) ==> f[q] == fs[q]);
            assert(t != q);
        }
        assert forall|k: int|
            0 <= k < es.len() && es[k].rules.len() > 0 && (forall|j: int|
                k < j < es.len() ==> expand_with(#[trigger] es[j].source_file, home) != expand_with(
                    es[k].source_file,
                    home,
                )) implies r.dom().contains(expand_with(#[trigger] es[k].source_file, home)) && keep_rules(
            lines_of(r[expand_with(es[k].source_file, home)]),
        ) == es[k].rules by {
            if k < p.len() {
                assert(p[k] == es[k]);
                assert(expand_with(es[es.len() - 1].source_file, home) != expand_with(es[k].source_file, home));
                assert forall|j: int| k < j < p.len() implies expand_with(#[trigger] p[j].source_file, home)
                    != expand_with(p[k].source_file, home) by {
                    assert(p[j] == es[j]);
                    assert(expand_with(es[j].source_file, home) != expand_with(es[k].source_file, home));
                }
            } else {
                assert(es[k] == e);
            }
        }
    }
}

/// Restoring from backup entries: every file that an entry names holds,
/// as its rule lines, exactly that entry's rules, and a main file that no
/// entry names holds no rule line and no include line of the fragment.
/// Stated for files without carriage returns, entries whose rules are
/// single rule lines, and entries that name different files (the backup
/// names each file once, see `backup_names_each_file_once`); the main file
/// and the fragment are taken to be different files.
pub proof fn restore_reinstates_backup(
    fs: Map<Seq<char>, Seq<char>>,
    es: Seq<EntryModel>,
    s: AppSettings,
    home: Option<Seq<char>>,
)
    requires
        all_free_of_cr(fs),
        forall|k: int| 0 <= k < es.len() ==> valid_rules(#[trigger] es[k].rules) && es[k].rules.len() > 0,
        forall|i: int, j: int|
            0 <= i < j < es.len() ==> expand_with(#[trigger] es[i].source_file, home) != expand_with(
                #[trigger] es[j].source_file,
                home,
            ),
        expand_with(s.config_conf_path@, home) != expand_with(s.monitors_conf_path@, home),
    ensures
        forall|k: int|
            0 <= k < es.len() ==> restore_fs(fs, es, s, home).dom().contains(
                expand_with(#[trigger] es[k].source_file, home),
            ) && keep_rules(lines_of(restore_fs(fs, es, s, home)[expand_with(es[k].source_file, home)]))
                == es[k].rules,
        ({
            let cp = expand_with(s.config_conf_path@, home);
            let out = restore_fs(fs, es, s, home);
            (fs.dom().contains(cp) && forall|k: int|
                0 <= k < es.len() ==> expand_with(#[trigger] es[k].source_file, home) != cp) ==> out.dom().contains(cp)
                && forall|i: int|
                0 <= i < lines_of(out[cp]).len() ==> !is_rule_line(#[trigger] lines_of(out[cp])[i])
                    && !is_include_of(lines_of(out[cp])[i], s.monitors_conf_path@, home)
        }),
{
    let cp = expand_with(s.config_conf_path@, home);
    let mp = expand_with(s.monitors_conf_path@, home);
    let fs1 = match file_of(fs, cp) {
        Some(c) => fs.insert(cp, cleaned(lines_of(c), s.monitors_conf_path@, home)),
        None => fs,
    };
    if let Some(c) = file_of(fs, cp) {
        lemma_lines_of_free_of(c);
        lemma_cleaned_free(lines_of(c), s.monitors_conf_path@, home);
        restore_cleans_main_file(c, s.monitors_conf_path@, home);
    }
    assert(all_free_of_cr(fs1));
    lemma_apply_entries(fs1, es, home);
    let fs2 = apply_entries(fs1, es, home);
    let out = restore_fs(fs, es, s, home);
    assert forall|k: int| 0 <= k < es.len() implies out.dom().contains(
        expand_with(#[trigger] es[k].source_file, home),
    ) && keep_rules(lines_of(out[expand_with(es[k].source_file, home)])) == es[k].rules by {
        assert forall|j: int| k < j < es.len() implies expand_with(#[trigger] es[j].source_file, home)
            != expand_with(es[k].source_file, home) by {
            assert(expand_with(es[k].source_file, home) != expand_with(es[j].source_file, home));
        }
        if fs2.dom().contains(mp) && !fragment_backed_up(es, s.monitors_conf_path@, home) {
            assert(expand_with(es[k].source_file, home) != mp);
        }
    }
}


proof fn lemma_keep_rules_valid(ls: Seq<Seq<char>>)
    requires
        forall|k: int| 0 <= k < ls.len() ==> free_of(#[trigger] ls[k], '\n') && free_of(ls[k], '\r'),
    ensures
        valid_rules(keep_rules(ls)),
    decreases ls.len(),
{
    if ls.len() > 0 {
        let p = ls.drop_last();
        assert(forall|k: int| 0 <= k < p.len() ==> #[trigger] p[k] == ls[k]);
        lemma_keep_rules_valid(p);
        let l = ls.last();
        assert(l == ls[ls.len() - 1]);
        let r = keep_rules(ls);
        let q = keep_rules(p);
        assert forall|k: int| 0 <= k < r.len() implies is_rule_line(#[trigger] r[k]) && free_of(r[k], '\n')
            && free_of(r[k], '\r') by {
            if k < q.len() {
                assert(r[k] == q[k]);
            } else {
                assert(r[k] == l);
            }
        }
    }
}

/// What a save backs up from a file without carriage returns is a list of
/// single rule lines without carriage returns: rules as the restore laws
/// take them.
pub proof fn backed_up_rules_are_valid(c: Seq<char>)
    requires
        free_of(c, '\r'),
    ensures
        valid_rules(keep_rules(lines_of(c))),
{
    lemma_lines_of_free_of(c);
    lemma_keep_rules_valid(lines_of(c));
}

/// One file to be written whole.
pub struct FileWrite {
    pub path: String,
    pub text: String,
}

pub open spec fn writes_view(ws: Seq<FileWrite>) -> Seq<(Seq<char>, Seq<char>)> {
    ws.map_values(|w: FileWrite| (w.path@, w.text@))
}

/// The files after writing `ws` in order.
pub open spec fn apply_writes(fs: Map<Seq<char>, Seq<char>>, ws: Seq<(Seq<char>, Seq<char>)>) -> Map<
    Seq<char>,
    Seq<char>,
>
    decreases ws.len(),
{
    if ws.len() == 0 {
        fs
    } else {
        apply_writes(fs, ws.drop_last()).insert(ws.last().0, ws.last().1)
    }
}

/// The writes of a save, from what was read: whether the backup exists,
/// the main file's text (`None` where it does not exist) and the included
/// files with theirs. The backup where it is missing, then the fragment,
/// then the main file where the include line is to be added.
pub open spec fn persist_plan(
    os: Seq<OutputModel>,
    s: AppSettings,
    home: Option<Seq<char>>,
    backup_exists: bool,
    config: Option<Seq<char>>,
    files: Seq<(Seq<char>, Seq<char>)>,
) -> Seq<(Seq<char>, Seq<char>)> {
    let bp = expand_with(s.monitors_bak_path@, home);
    let mp = expand_with(s.monitors_conf_path@, home);
    let cp = expand_with(s.config_conf_path@, home);
    (if backup_exists {
        Seq::empty()
    } else {
        seq![(bp, backup_json_of(entry_pairs(backup_plan(cp, config, files, home))))]
    }) + seq![(mp, fragment_text(os))] + if s.auto_append_source {
        match with_include(config, s.monitors_conf_path@, home) {
            Some(t) => seq![(cp, t)],
            None => Seq::empty(),
        }
    } else {
        Seq::empty()
    }
}

/// The files that a save writes, in order, given what was read before it:
/// whether the backup exists, the main file's text and the included files
/// (as `sourced_files` names them) with their texts.
pub fn persist_writes(
    outputs: &Vec<Output>,
    settings: &AppSettings,
    paths: &ResolvedPaths,
    backup_exists: bool,
    config: &Option<String>,
    sourced: &Vec<SourcedFile>,
) -> (r: Vec<FileWrite>)
    requires
        paths.monitors@ == expand_with(settings.monitors_conf_path@, opt_view(&paths.home)),
        paths.config@ == expand_with(settings.config_conf_path@, opt_view(&paths.home)),
        paths.backup@ == expand_with(settings.monitors_bak_path@, opt_view(&paths.home)),
    ensures
        writes_view(r@) == persist_plan(
            outputs_view(outputs@),
            *settings,
            opt_view(&paths.home),
            backup_exists,
            opt_view(config),
            files_view(sourced@),
        ),
{
    let mut ws: Vec<FileWrite> = Vec::new();
    if !backup_exists {
        let text = backup_document(paths.config.as_str(), config, sourced, &paths.home);
        ws.push(FileWrite { path: paths.backup.clone(), text });
    }
    ws.push(FileWrite { path: paths.monitors.clone(), text: render_fragment(outputs) });
    if let Some(text) = config_with_include(config, settings, &paths.home) {
        ws.push(FileWrite { path: paths.config.clone(), text });
    }
    assert(writes_view(ws@) =~= persist_plan(
        outputs_view(outputs@),
        *settings,
        opt_view(&paths.home),
        backup_exists,
        opt_view(config),
        files_view(sourced@),
    ));
    ws
}

/// Writing what `persist_writes` plans, from what was read out of the files,
/// does to the files exactly what `persist_fs` states (and so saving twice
/// is saving once, by `persist_is_idempotent`). The three paths are taken
/// to be different files.
pub proof fn persist_writes_realise_persist(
    fs: Map<Seq<char>, Seq<char>>,
    os: Seq<OutputModel>,
    s: AppSettings,
    home: Option<Seq<char>>,
)
    requires
        expand_with(s.monitors_conf_path@, home) != expand_with(s.config_conf_path@, home),
        expand_with(s.monitors_conf_path@, home) != expand_with(s.monitors_bak_path@, home),
        expand_with(s.config_conf_path@, home) != expand_with(s.monitors_bak_path@, home),
    ensures
        ({
            let cp = expand_with(s.config_conf_path@, home);
            let config = file_of(fs, cp);
            let files = match config {
                Some(c) => read_all(fs, sourced_paths(c, cp, home)),
                None => Seq::empty(),
            };
            let bp = expand_with(s.monitors_bak_path@, home);
            apply_writes(fs, persist_plan(os, s, home, fs.dom().contains(bp), config, files))
                == persist_fs(fs, os, s, home)
        }),
{
    let bp = expand_with(s.monitors_bak_path@, home);
    let mp = expand_with(s.monitors_conf_path@, home);
    let cp = expand_with(s.config_conf_path@, home);
    let config = file_of(fs, cp);
    let files = match config {
        Some(c) => read_all(fs, sourced_paths(c, cp, home)),
        None => Seq::empty(),
    };
    let plan = persist_plan(os, s, home, fs.dom().contains(bp), config, files);
    let fs1 = if fs.dom().contains(bp) {
        fs
    } else {
        fs.insert(bp, backup_written(fs, s, home))
    };
    let fs2 = fs1.insert(mp, fragment_text(os));
    assert(file_of(fs2, cp) == config);
    let first = if fs.dom().contains(bp) {
        Seq::<(Seq<char>, Seq<char>)>::empty()
    } else {
        seq![(bp, backup_written(fs, s, home))]
    };
    let head = first + seq![(mp, fragment_text(os))];
    assert(apply_writes(fs, first) == fs1) by {
        let e = Seq::<(Seq<char>, Seq<char>)>::empty();
        assert(apply_writes(fs, e) == fs);
        if !fs.dom().contains(bp) {
            assert(first.drop_last() =~= e);
            assert(first.last() == (bp, backup_written(fs, s, home)));
        } else {
            assert(first =~= e);
        }
    }
    assert(head.drop_last() =~= first);
    assert(apply_writes(fs, head) == fs2);
    let tail = plan.subrange(head.len() as int, plan.len() as int);
    assert(plan =~= head + tail);
    if tail.len() == 0 {
        assert(plan =~= head);
    } else {
        assert(plan.drop_last() =~= head);
    }
}

} // verus!
