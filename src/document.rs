//! The backup document as stored: pretty-printed JSON.

use vstd::prelude::*;
use crate::backup::{backup_entries, backup_plan, entries_view, files_view, BackupEntry, EntryModel, SourcedFile};
use crate::rules::opt_view;

verus! {

/// The entries as pairs of a file and its rules.
pub open spec fn entry_pairs(es: Seq<EntryModel>) -> Seq<(Seq<char>, Seq<Seq<char>>)>
    decreases es.len(),
{
    if es.len() == 0 {
        Seq::empty()
    } else {
        entry_pairs(es.drop_last()).push((es.last().source_file, es.last().rules))
    }
}

/// The pretty-printed JSON text of a backup document with these entries.
pub uninterp spec fn backup_json_of(entries: Seq<(Seq<char>, Seq<Seq<char>>)>) -> Seq<char>;

/// Relies on `serde_json::to_string_pretty` on a `serde_json::Value`: the
/// object `{"entries": [{"rules": [...], "source_file": ...}, ...]}`,
/// which depends on the entries alone. Writing a `Value` cannot fail.
#[verifier::external_body]
fn backup_json(entries: &Vec<BackupEntry>) -> (r: String)
    ensures
        r@ == backup_json_of(entry_pairs(entries_view(entries@))),
{
    let list: Vec<serde_json::Value> = entries.iter().map(|e| {
        let mut m = serde_json::Map::new();
        m.insert("source_file".to_string(), serde_json::Value::from(e.source_file.clone()));
        m.insert("rules".to_string(), serde_json::Value::from(e.rules.clone()));
        serde_json::Value::Object(m)
    }).collect();
    let mut doc = serde_json::Map::new();
    doc.insert("entries".to_string(), serde_json::Value::Array(list));
    match serde_json::to_string_pretty(&serde_json::Value::Object(doc)) {
        Ok(v) => v,
        Err(_) => String::new(),
    }
}

/// The backup document that a first save writes, for the main file at the
/// expanded path `config` with its text (`None` where it does not exist)
/// and the files it includes with theirs: one entry per file that holds
/// rules, as `backup_entries` gives them.
pub fn backup_document(
    config: &str,
    content: &Option<String>,
    sourced: &Vec<SourcedFile>,
    home: &Option<String>,
) -> (r: String)
    ensures
        r@ == backup_json_of(
            entry_pairs(backup_plan(config@, opt_view(content), files_view(sourced@), opt_view(home))),
        ),
{
    let entries = backup_entries(config, content, sourced, home);
    backup_json(&entries)
}

} // verus!
