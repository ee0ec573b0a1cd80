use mango_display::backup::{fragment_is_removed, sourced_files, SourcedFile};
use mango_display::document::backup_document;
use mango_display::fragment::render_fragment;
use mango_display::model::Output;
use mango_display::report::parse_wlr_randr_output;
use mango_display::rules::{collect_monitorrules, expand_path_with};
use mango_display::settings::AppSettings;
use mango_display::files::persist_writes;
use mango_display::sync::{clean_main_config, restore_rules, ResolvedPaths};
use std::collections::BTreeMap;

const HOME: &str = "/home/u";
const CONFIG: &str = "/home/u/.config/mango/config.conf";
const EXTRA: &str = "/home/u/.config/mango/extra.conf";
const FRAGMENT: &str = "/home/u/.config/mango/monitors.conf";
const BACKUP: &str = "/home/u/.config/mango/monitors.bak";

type Files = BTreeMap<String, String>;

fn home() -> Option<String> {
    Some(HOME.to_string())
}

fn persist(files: &mut Files, outputs: &Vec<Output>, settings: &AppSettings) {
    let paths = ResolvedPaths {
        home: home(),
        monitors: FRAGMENT.to_string(),
        config: CONFIG.to_string(),
        backup: BACKUP.to_string(),
    };
    let backup_exists = files.contains_key(BACKUP);
    let config = files.get(CONFIG).cloned();
    let mut sourced = Vec::new();
    if let Some(content) = &config {
        for path in sourced_files(content, CONFIG, &home()) {
            let content = files.get(&path).cloned().unwrap_or_default();
            sourced.push(SourcedFile { path, content });
        }
    }
    for write in persist_writes(outputs, settings, &paths, backup_exists, &config, &sourced) {
        files.insert(write.path, write.text);
    }
}

fn restore(files: &mut Files, settings: &AppSettings) {
    let raw = files.get(BACKUP).cloned().unwrap_or_default();
    let value: serde_json::Value = serde_json::from_str(&raw).unwrap();
    let mut entries = Vec::new();
    for item in value["entries"].as_array().unwrap() {
        entries.push(mango_display::backup::BackupEntry {
            source_file: item["source_file"].as_str().unwrap().to_string(),
            rules: item["rules"].as_array().unwrap().iter().map(|r| r.as_str().unwrap().to_string()).collect(),
        });
    }
    if let Some(content) = files.get(CONFIG).cloned() {
        files.insert(CONFIG.to_string(), clean_main_config(&content, settings, &home()));
    }
    for entry in &entries {
        let target = expand_path_with(&entry.source_file, &home());
        if let Some(text) = restore_rules(&files.get(&target).cloned(), &entry.rules) {
            files.insert(target, text);
        }
    }
    if fragment_is_removed(&entries, settings, &home()) {
        files.remove(FRAGMENT);
    }
}

fn start() -> Files {
    let mut files = Files::new();
    files.insert(
        CONFIG.to_string(),
        "gaps=4\nmonitorrule=name:OLD,width:800\nsource=extra.conf\n".to_string(),
    );
    files.insert(EXTRA.to_string(), "a=1\nmonitorrule=name:X\nb=2\nmonitorrule = name:Y\n".to_string());
    files
}

fn outputs() -> Vec<Output> {
    parse_wlr_randr_output(
        "eDP-1 \"Unknown\"\n  Enabled: yes\n  Position: 0,0\n  Scale: 1.000000\n  Transform: normal\n  Modes:\n    1920x1080 px, 60.000000 Hz (preferred, current)\n",
    )
    .unwrap()
}

#[test]
fn persisting_twice_equals_persisting_once() {
    let settings = AppSettings::default();
    let mut once = start();
    persist(&mut once, &outputs(), &settings);
    let mut twice = once.clone();
    persist(&mut twice, &outputs(), &settings);
    assert_eq!(once, twice);
    assert_eq!(once[FRAGMENT], render_fragment(&outputs()));
    assert!(once[CONFIG].ends_with("\nsource=~/.config/mango/monitors.conf\n"));
    assert!(once[BACKUP].contains("\"~/.config/mango/extra.conf\""));
}

#[test]
fn restore_after_persist_reinstates_rules() {
    let settings = AppSettings::default();
    let before = start();
    let mut files = before.clone();
    persist(&mut files, &outputs(), &settings);
    files.insert(EXTRA.to_string(), "a=1\nb=2\nmonitorrule=name:EDITED\n".to_string());
    restore(&mut files, &settings);
    assert!(!files.contains_key(FRAGMENT));
    assert!(!files[CONFIG].contains("source=~/.config/mango/monitors.conf"));
    assert_eq!(collect_monitorrules(&files[CONFIG]), collect_monitorrules(&before[CONFIG]));
    assert_eq!(collect_monitorrules(&files[EXTRA]), collect_monitorrules(&before[EXTRA]));
    assert_eq!(files[EXTRA], "a=1\nb=2\nmonitorrule=name:X\nmonitorrule = name:Y\n");
    assert!(files[CONFIG].contains("source=extra.conf\n"));
}

#[test]
fn restore_on_fresh_install_is_harmless() {
    let settings = AppSettings::default();
    let mut files = Files::new();
    files.insert(BACKUP.to_string(), backup_document(CONFIG, &None, &vec![], &home()));
    restore(&mut files, &settings);
    assert_eq!(files.len(), 1);
}
