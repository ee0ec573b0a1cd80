//! The backup document: the rules that stood in the main file and in the
//! files it includes before the first save, grouped by file.

use vstd::prelude::*;
use crate::command::strings_view;
use crate::rules::{
    path_key, path_key_of,
    collect_monitorrules, expand_path_with, expand_with, keep_rules, opt_view, portable_with,
    resolve_source, resolve_with, source_directives, source_targets, to_portable,
};
use crate::settings::AppSettings;
use crate::text::{chars_eq, lines_of, to_chars};

verus! {

/// One group of backed-up rules: the file they came from, in portable form,
/// and the rule lines verbatim, in order.
#[derive(Clone, Debug, PartialEq)]
pub struct BackupEntry {
    pub source_file: String,
    pub rules: Vec<String>,
}

pub struct EntryModel {
    pub source_file: Seq<char>,
    pub rules: Seq<Seq<char>>,
}

impl View for BackupEntry {
    type V = EntryModel;

    open spec fn view(&self) -> EntryModel {
        EntryModel { source_file: self.source_file@, rules: strings_view(self.rules@) }
    }
}

pub open spec fn entries_view(v: Seq<BackupEntry>) -> Seq<EntryModel> {
    v.map_values(|e: BackupEntry| e@)
}

/// A file named by an include line, at its expanded path, with its text
/// (empty where it cannot be read).
pub struct SourcedFile {
    pub path: String,
    pub content: String,
}

pub open spec fn resolve_all(raws: Seq<Seq<char>>, config: Seq<char>, home: Option<Seq<char>>) -> Seq<
    Seq<char>,
>
    decreases raws.len(),
{
    if raws.len() == 0 {
        Seq::empty()
    } else {
        resolve_all(raws.drop_last(), config, home).push(resolve_with(raws.last(), config, home))
    }
}

/// The files that the main file at `config` includes, one for each include
/// line, in order.
pub open spec fn sourced_paths(content: Seq<char>, config: Seq<char>, home: Option<Seq<char>>) -> Seq<
    Seq<char>,
> {
    resolve_all(source_targets(lines_of(content)), config, home)
}

/// The expanded paths of the files that the main file includes, in the
/// order of its include lines; `config` is the main file's expanded path.
pub fn sourced_files(content: &str, config: &str, home: &Option<String>) -> (r: Vec<String>)
    ensures
        strings_view(r@) == sourced_paths(content@, config@, opt_view(home)),
{
    let raws = source_directives(content);
    let ghost targets = source_targets(lines_of(content@));
    let mut r: Vec<String> = Vec::new();
    let mut i: usize = 0;
    while i < raws.len()
        invariant
            i <= raws@.len(),
            strings_view(raws@) == targets,
            strings_view(r@) == resolve_all(targets.take(i as int), config@, opt_view(home)),
        decreases raws@.len() - i,
    {
        assert(targets[i as int] == raws@[i as int]@);
        r.push(resolve_source(raws[i].as_str(), config, home));
        assert(targets.take(i + 1).drop_last() == targets.take(i as int));
        assert(strings_view(r@) =~= resolve_all(targets.take(i + 1), config@, opt_view(home)));
        i = i + 1;
    }
    assert(targets.take(targets.len() as int) == targets);
    r
}

/// The entry for one file: none where it holds no rule lines.
pub open spec fn entry_for(path: Seq<char>, content: Seq<char>, home: Option<Seq<char>>) -> Seq<
    EntryModel,
> {
    let rules = keep_rules(lines_of(content));
    if rules.len() > 0 {
        seq![EntryModel { source_file: portable_with(path, home), rules }]
    } else {
        Seq::empty()
    }
}

/// The portable names of the files, in order.
pub open spec fn file_names(files: Seq<(Seq<char>, Seq<char>)>, home: Option<Seq<char>>) -> Seq<
    Seq<char>,
>
    decreases files.len(),
{
    if files.len() == 0 {
        Seq::empty()
    } else {
        file_names(files.drop_last(), home).push(portable_with(files.last().0, home))
    }
}

/// The entries of the included files: one for each file that is neither
/// the main file (named `main`) nor a file included before it, so that a
/// file included twice is backed up once.
pub open spec fn sourced_entries(
    files: Seq<(Seq<char>, Seq<char>)>,
    main: Seq<char>,
    home: Option<Seq<char>>,
) -> Seq<EntryModel>
    decreases files.len(),
{
    if files.len() == 0 {
        Seq::empty()
    } else {
        let prev = files.drop_last();
        let name = portable_with(files.last().0, home);
        sourced_entries(prev, main, home) + if name == main || file_names(prev, home).contains(
            name,
        ) {
            Seq::empty()
        } else {
            entry_for(files.last().0, files.last().1, home)
        }
    }
}

/// The backup: nothing where the main file does not exist; else one entry
/// per file, first the main file's own rules, then those of each included
/// file in the order it is first included, each group under its file's
/// portable path and only where it is not empty. A file reached a second
/// time, the main file included, adds nothing.
pub open spec fn backup_plan(
    config: Seq<char>,
    content: Option<Seq<char>>,
    files: Seq<(Seq<char>, Seq<char>)>,
    home: Option<Seq<char>>,
) -> Seq<EntryModel> {
    match content {
        Some(c) => entry_for(config, c, home) + sourced_entries(
            files,
            portable_with(config, home),
            home,
        ),
        None => Seq::empty(),
    }
}

pub open spec fn files_view(v: Seq<SourcedFile>) -> Seq<(Seq<char>, Seq<char>)> {
    v.map_values(|f: SourcedFile| (f.path@, f.content@))
}

fn contains_name(names: &Vec<Vec<char>>, n: &Vec<char>, Ghost(model): Ghost<Seq<Seq<char>>>) -> (r: bool)
    requires
        names@.len() == model.len(),
        forall|k: int| 0 <= k < names@.len() ==> #[trigger] names@[k]@ == model[k],
    ensures
        r == model.contains(n@),
{
    let mut k: usize = 0;
    while k < names.len()
        invariant
            k <= names@.len(),
            names@.len() == model.len(),
            forall|j: int| 0 <= j < names@.len() ==> #[trigger] names@[j]@ == model[j],
            forall|j: int| 0 <= j < k ==> model[j] != n@,
        decreases names@.len() - k,
    {
        if chars_eq(&names[k], n) {
            assert(model[k as int] == n@);
            return true;
        }
        k = k + 1;
    }
    false
}

fn push_entry(entries: &mut Vec<BackupEntry>, path: &str, content: &str, home: &Option<String>)
    ensures
        entries_view(final(entries)@) == entries_view(old(entries)@) + entry_for(
            path@,
            content@,
            opt_view(home),
        ),
{
    let rules = collect_monitorrules(content);
    if rules.len() > 0 {
        entries.push(BackupEntry { source_file: to_portable(path, home), rules });
        assert(entries_view(final(entries)@) =~= entries_view(old(entries)@) + entry_for(
            path@,
            content@,
            opt_view(home),
        ));
    } else {
        assert(entries_view(final(entries)@) =~= entries_view(old(entries)@) + entry_for(
            path@,
            content@,
            opt_view(home),
        ));
    }
}

/// The entries of the backup document, from the main file at the expanded
/// path `config` with its text (`None` where it does not exist) and the
/// files it includes with theirs.
pub fn backup_entries(
    config: &str,
    content: &Option<String>,
    sourced: &Vec<SourcedFile>,
    home: &Option<String>,
) -> (r: Vec<BackupEntry>)
    ensures
        entries_view(r@) == backup_plan(config@, opt_view(content), files_view(sourced@), opt_view(home)),
{
    let mut entries: Vec<BackupEntry> = Vec::new();
    match content {
        None => {
            assert(entries_view(entries@) =~= Seq::<EntryModel>::empty());
            return entries;
        },
        Some(c) => {
            push_entry(&mut entries, config, c.as_str(), home);
        },
    }
    let ghost first = entries_view(entries@);
    let ghost fv = files_view(sourced@);
    let ghost hv = opt_view(home);
    let main = to_chars(to_portable(config, home).as_str());
    let mut names: Vec<Vec<char>> = Vec::new();
    let mut i: usize = 0;
    while i < sourced.len()
        invariant
            i <= sourced@.len(),
            fv == files_view(sourced@),
            hv == opt_view(home),
            main@ == portable_with(config@, hv),
            names@.len() == file_names(fv.take(i as int), hv).len(),
            forall|k: int| 0 <= k < names@.len() ==> #[trigger] names@[k]@ == file_names(fv.take(i as int), hv)[k],
            entries_view(entries@) == first + sourced_entries(fv.take(i as int), main@, hv),
        decreases sourced@.len() - i,
    {
        let ghost prev = fv.take(i as int);
        assert(fv.take(i + 1).drop_last() == prev);
        let f = &sourced[i];
        assert(fv[i as int] == (f.path@, f.content@));
        let name = to_chars(to_portable(f.path.as_str(), home).as_str());
        let seen = chars_eq(&name, &main) || contains_name(&names, &name, Ghost(file_names(prev, hv)));
        if !seen {
            push_entry(&mut entries, f.path.as_str(), f.content.as_str(), home);
        }
        assert(entries_view(entries@) =~= first + sourced_entries(fv.take(i + 1), main@, hv));
        let ghost before = names@;
        names.push(name);
        assert forall|k: int| 0 <= k < names@.len() implies #[trigger] names@[k]@ == file_names(
            fv.take(i + 1),
            hv,
        )[k] by {
            if k < names@.len() - 1 {
                assert(names@[k] == before[k]);
            }
        }
        i = i + 1;
    }
    assert(fv.take(fv.len() as int) == fv);
    entries
}

proof fn lemma_sourced_entries(files: Seq<(Seq<char>, Seq<char>)>, main: Seq<char>, home: Option<Seq<char>>)
    ensures
        forall|k: int|
            0 <= k < sourced_entries(files, main, home).len() ==> {
                let e = #[trigger] sourced_entries(files, main, home)[k];
                &&& e.rules.len() > 0
                &&& e.source_file != main
                &&& file_names(files, home).contains(e.source_file)
            },
        forall|i: int, j: int|
            0 <= i < j < sourced_entries(files, main, home).len() ==> (#[trigger] sourced_entries(
                files,
                main,
                home,
            )[i]).source_file != (#[trigger] sourced_entries(files, main, home)[j]).source_file,
    decreases files.len(),
{
    if files.len() > 0 {
        let prev = files.drop_last();
        lemma_sourced_entries(prev, main, home);
        let a = sourced_entries(prev, main, home);
        let r = sourced_entries(files, main, home);
        let names = file_names(files, home);
        assert forall|k: int| 0 <= k < r.len() implies {
            let e = #[trigger] r[k];
            &&& e.rules.len() > 0
            &&& e.source_file != main
            &&& names.contains(e.source_file)
        } by {
            if k < a.len() {
                assert(r[k] == a[k]);
                let x = a[k].source_file;
                let w = choose|w: int| 0 <= w < file_names(prev, home).len() && file_names(prev, home)[w] == x;
                assert(names[w] == x);
            } else {
                assert(names[names.len() - 1] == r[k].source_file);
            }
        }
        assert forall|i: int, j: int| 0 <= i < j < r.len() implies (#[trigger] r[i]).source_file
            != (#[trigger] r[j]).source_file by {
            if j < a.len() {
                assert(r[i] == a[i] && r[j] == a[j]);
            } else {
                assert(r[i] == a[i]);
                let x = a[i].source_file;
                assert(file_names(prev, home).contains(x));
            }
        }
    }
}

/// The backup holds one entry per file: no two entries name the same file,
/// and every entry holds at least one rule.
pub proof fn backup_names_each_file_once(
    config: Seq<char>,
    content: Option<Seq<char>>,
    files: Seq<(Seq<char>, Seq<char>)>,
    home: Option<Seq<char>>,
)
    ensures
        forall|k: int|
            0 <= k < backup_plan(config, content, files, home).len() ==> (#[trigger] backup_plan(
                config,
                content,
                files,
                home,
            )[k]).rules.len() > 0,
        forall|i: int, j: int|
            0 <= i < j < backup_plan(config, content, files, home).len() ==> (#[trigger] backup_plan(
                config,
                content,
                files,
                home,
            )[i]).source_file != (#[trigger] backup_plan(config, content, files, home)[j]).source_file,
{
    let main = portable_with(config, home);
    lemma_sourced_entries(files, main, home);
    if let Some(c) = content {
        let first = entry_for(config, c, home);
        let rest = sourced_entries(files, main, home);
        let all = first + rest;
        assert forall|k: int| 0 <= k < all.len() implies (#[trigger] all[k]).rules.len() > 0 by {
            if k >= first.len() {
                assert(all[k] == rest[k - first.len()]);
            }
        }
        assert forall|i: int, j: int| 0 <= i < j < all.len() implies (#[trigger] all[i]).source_file
            != (#[trigger] all[j]).source_file by {
            if i >= first.len() {
                assert(all[i] == rest[i - first.len()] && all[j] == rest[j - first.len()]);
            } else if j >= first.len() {
                assert(all[j] == rest[j - first.len()]);
                assert(all[i].source_file == main);
            }
        }
    }
}

/// Whether some entry's file is the fragment itself, once both paths are
/// expanded and compared by `path_key`.
pub open spec fn fragment_backed_up(
    entries: Seq<EntryModel>,
    monitors: Seq<char>,
    home: Option<Seq<char>>,
) -> bool {
    exists|k: int|
        0 <= k < entries.len() && path_key(#[trigger] expand_with(entries[k].source_file, home))
            == path_key(expand_with(monitors, home))
}

/// Whether restoring removes the fragment file: only where no backup entry
/// names it, so that a file that stood there before is kept.
pub fn fragment_is_removed(entries: &Vec<BackupEntry>, settings: &AppSettings, home: &Option<String>) -> (r: bool)
    ensures
        r == !fragment_backed_up(entries_view(entries@), settings.monitors_conf_path@, opt_view(home)),
{
    let target = expand_path_with(settings.monitors_conf_path.as_str(), home);
    let tc = path_key_of(&to_chars(target.as_str()));
    let ghost ev = entries_view(entries@);
    let mut i: usize = 0;
    while i < entries.len()
        invariant
            i <= entries@.len(),
            ev == entries_view(entries@),
            tc@ == path_key(expand_with(settings.monitors_conf_path@, opt_view(home))),
            forall|k: int| 0 <= k < i ==> path_key(#[trigger] expand_with(ev[k].source_file, opt_view(home)))
                != tc@,
        decreases entries@.len() - i,
    {
        let p = expand_path_with(entries[i].source_file.as_str(), home);
        assert(ev[i as int].source_file == entries@[i as int].source_file@);
        if crate::text::chars_eq(&path_key_of(&to_chars(p.as_str())), &tc) {
            return false;
        }
        i = i + 1;
    }
    true
}

} // verus!
