use mango_display::backup::{backup_entries, fragment_is_removed, sourced_files, BackupEntry, SourcedFile};
use mango_display::command::build_apply_args;
use mango_display::document::backup_document;
use mango_display::fragment::{render_fragment, transform_code_of};
use mango_display::model::{Output, OutputMode};
use mango_display::report::parse_wlr_randr_output;
use mango_display::rules::{collect_monitorrules, expand_path_with, resolve_source, source_directives, to_portable};
use mango_display::settings::AppSettings;
use mango_display::sync::{clean_main_config, config_with_include, restore_rules};

const SINGLE: &str = "eDP-1 \"Unknown Unknown Unknown\"\n  Enabled: yes\n  Position: 0,0\n  Scale: 1.000000\n  Transform: normal\n  Modes:\n    1920x1080 px, 60.000000 Hz (preferred, current)\n";

fn settings() -> AppSettings {
    AppSettings {
        monitors_conf_path: "~/.config/mango/monitors.conf".to_string(),
        config_conf_path: "~/.config/mango/config.conf".to_string(),
        monitors_bak_path: "~/.config/mango/monitors.bak".to_string(),
        auto_append_source: true,
    }
}

fn home() -> Option<String> {
    Some("/home/u".to_string())
}

#[test]
fn test_parse_wlr_randr() {
    let sample = r#"eDP-1 "Unknown Unknown Unknown"
  Make: Unknown
  Model: Unknown
  Serial: Unknown
  Physical size: 340x190 mm
  Enabled: yes
  Position: 0,0
  Scale: 1.000000
  Transform: normal
  Modes:
    1920x1080 px, 60.000000 Hz (preferred, current)
DP-1 "Acer Acer KG271 C 28243AAB48T0"
  Make: Acer
  Model: Acer KG271 C
  Serial: 28243AAB48T0
  Physical size: 600x340 mm
  Enabled: no
  Position: 1920,0
  Scale: 1.500000
  Transform: 90
  Modes:
    1920x1080 px, 144.000000 Hz (preferred)
    1920x1080 px, 60.000000 Hz
"#;
    let outputs = parse_wlr_randr_output(sample).expect("Failed to parse");
    assert_eq!(outputs.len(), 2);

    let out1 = &outputs[0];
    assert_eq!(out1.name, "eDP-1");
    assert_eq!(out1.enabled, true);
    assert_eq!(out1.position, (0, 0));
    assert_eq!(out1.scale, 1_000_000);
    assert_eq!(out1.transform, "normal");
    assert_eq!(out1.modes.len(), 1);
    assert_eq!(out1.modes[0].width, 1920);
    assert_eq!(out1.modes[0].refresh_rate, 60_000_000);
    assert!(out1.modes[0].current);
    assert!(out1.modes[0].preferred);

    let out2 = &outputs[1];
    assert_eq!(out2.name, "DP-1");
    assert_eq!(out2.make, "Acer");
    assert_eq!(out2.enabled, false);
    assert_eq!(out2.position, (1920, 0));
    assert_eq!(out2.scale, 1_500_000);
    assert_eq!(out2.transform, "90");
    assert_eq!(out2.modes.len(), 2);
    assert_eq!(out2.modes[0].width, 1920);
    assert_eq!(out2.modes[0].refresh_rate, 144_000_000);
    assert!(out2.modes[0].preferred);
    assert!(!out2.modes[0].current);
    assert!(!out2.modes[1].current);
}

#[test]
fn single_output_scenario_parses() {
    let outputs = parse_wlr_randr_output(SINGLE).unwrap();
    assert_eq!(outputs.len(), 1);
    let o = &outputs[0];
    assert_eq!(o.name, "eDP-1");
    assert_eq!(o.description, "Unknown Unknown Unknown");
    assert!(o.enabled);
    assert_eq!(o.scale, 1_000_000);
    assert_eq!(o.transform, "normal");
    assert_eq!(
        o.modes,
        vec![OutputMode { width: 1920, height: 1080, refresh_rate: 60_000_000, current: true, preferred: true }]
    );
}

#[test]
fn single_output_scenario_apply_args() {
    let outputs = parse_wlr_randr_output(SINGLE).unwrap();
    let args = build_apply_args(&outputs);
    let expected: Vec<String> = [
        "--output", "eDP-1", "--on", "--pos", "0,0", "--scale", "1.000000", "--transform", "normal", "--mode",
        "1920x1080@60.000",
    ]
    .iter()
    .map(|s| s.to_string())
    .collect();
    assert_eq!(args, expected);
}

#[test]
fn single_output_scenario_fragment() {
    let outputs = parse_wlr_randr_output(SINGLE).unwrap();
    let text = render_fragment(&outputs);
    assert!(text.contains(
        "monitorrule=name:eDP-1,width:1920,height:1080,refresh:60.000000,x:0,y:0,scale:1.000000,rr:0"
    ));
    assert_eq!(
        text,
        "# Generated by mango-display\n\nmonitorrule=name:eDP-1,width:1920,height:1080,refresh:60.000000,x:0,y:0,scale:1.000000,rr:0\n"
    );
}

#[test]
fn empty_report_has_no_outputs() {
    assert_eq!(parse_wlr_randr_output("").unwrap().len(), 0);
    assert_eq!(parse_wlr_randr_output("garbage without quotes\n  Enabled: yes\n").unwrap().len(), 0);
}

#[test]
fn blocks_come_out_in_order() {
    let text = "A \"a\"\nB \"b\"\n  Enabled: no\nC \"c\"";
    let outputs = parse_wlr_randr_output(text).unwrap();
    let names: Vec<&str> = outputs.iter().map(|o| o.name.as_str()).collect();
    assert_eq!(names, vec!["A", "B", "C"]);
    assert!(outputs[0].enabled);
    assert!(!outputs[1].enabled);
    assert!(outputs[2].modes.is_empty());
}

#[test]
fn malformed_lines_are_passed_over() {
    let text = "A \"a\"\n  Position: 10,20\nnot a header\n  Position: x,y\n  Scale: 2.000000\nB \"b\"\n  Position: 5,-7\n";
    let outputs = parse_wlr_randr_output(text).unwrap();
    assert_eq!(outputs.len(), 2);
    assert_eq!(outputs[0].position, (10, 20));
    assert_eq!(outputs[0].scale, 2_000_000);
    assert_eq!(outputs[1].position, (5, -7));
    assert_eq!(outputs[1].scale, 1_000_000);
}

#[test]
fn unreadable_numbers_take_defaults() {
    let text = "A \"a\"\n  Position: 99999999999,3\n  Scale: 1.2.3\n  Modes:\n    99999999999x1080 px, 1.2.3 Hz (current)\n";
    let outputs = parse_wlr_randr_output(text).unwrap();
    assert_eq!(outputs[0].position, (0, 3));
    assert_eq!(outputs[0].scale, 1_000_000);
    assert_eq!(outputs[0].modes[0].width, 0);
    assert_eq!(outputs[0].modes[0].height, 1080);
    assert_eq!(outputs[0].modes[0].refresh_rate, 0);
    assert!(outputs[0].modes[0].current);
    assert!(!outputs[0].modes[0].preferred);
}

#[test]
fn mode_lines_only_after_marker() {
    let text = "A \"a\"\n    800x600 px, 60.000000 Hz\n  Modes:\n    640x480 px, 59.940000 Hz\r\n";
    let outputs = parse_wlr_randr_output(text).unwrap();
    assert_eq!(outputs[0].modes.len(), 1);
    assert_eq!(outputs[0].modes[0].width, 640);
    assert_eq!(outputs[0].modes[0].refresh_rate, 59_940_000);
}

fn output(name: &str, enabled: bool, modes: Vec<OutputMode>) -> Output {
    Output {
        name: name.to_string(),
        description: String::new(),
        make: String::new(),
        model: String::new(),
        serial: String::new(),
        physical_size: String::new(),
        position: (1920, -5),
        scale: 1_250_000,
        transform: "flipped-90".to_string(),
        modes,
        enabled,
    }
}

#[test]
fn disabled_output_gets_only_off() {
    let outs = vec![output("HDMI-A-1", false, vec![])];
    assert_eq!(build_apply_args(&outs), vec!["--output", "HDMI-A-1", "--off"]);
}

#[test]
fn enabled_output_without_current_mode_has_no_mode_flag() {
    let m = OutputMode { width: 1, height: 2, refresh_rate: 59_999_500, current: false, preferred: true };
    let outs = vec![output("X", true, vec![m])];
    assert_eq!(
        build_apply_args(&outs),
        vec!["--output", "X", "--on", "--pos", "1920,-5", "--scale", "1.250000", "--transform", "flipped-90"]
    );
    assert_eq!(render_fragment(&outs), "# Generated by mango-display\n\n");
}

#[test]
fn mode_rate_rounds_to_three_decimals() {
    let m = OutputMode { width: 2560, height: 1440, refresh_rate: 59_999_500, current: true, preferred: false };
    let args = build_apply_args(&vec![output("X", true, vec![m])]);
    assert_eq!(args.last().unwrap(), "2560x1440@60.000");
    let text = render_fragment(&vec![output("X", true, vec![m])]);
    assert!(text.contains("monitorrule=name:X,width:2560,height:1440,refresh:59.999500,x:1920,y:-5,scale:1.250000,rr:5\n"));
}

#[test]
fn transform_codes() {
    let code = |s: &str| transform_code_of(&s.chars().collect());
    assert_eq!(code("normal"), 0);
    assert_eq!(code("90"), 1);
    assert_eq!(code("180"), 2);
    assert_eq!(code("270"), 3);
    assert_eq!(code("flipped"), 4);
    assert_eq!(code("flipped-90"), 5);
    assert_eq!(code("flipped-180"), 6);
    assert_eq!(code("flipped-270"), 7);
    assert_eq!(code("sideways"), 0);
}

#[test]
fn rule_lines_are_collected_verbatim() {
    let text = "a=1\n  monitorrule=name:A\nmonitorrule =name:B\r\nmonitorrules=no\nsource=x\n";
    assert_eq!(collect_monitorrules(text), vec!["  monitorrule=name:A", "monitorrule =name:B"]);
    assert_eq!(source_directives(text), vec!["x"]);
    assert_eq!(source_directives("  source = ~/a.conf  \nsource=/b\n"), vec!["~/a.conf", "/b"]);
}

#[test]
fn paths_expand_and_collapse() {
    assert_eq!(expand_path_with("~/x/y", &home()), "/home/u/x/y");
    assert_eq!(expand_path_with("~/x", &None), "/x");
    assert_eq!(expand_path_with("/etc/x", &home()), "/etc/x");
    assert_eq!(to_portable("/home/u/x/y", &home()), "~/x/y");
    assert_eq!(to_portable("/home/ux", &home()), "/home/ux");
    assert_eq!(to_portable("/etc/x", &home()), "/etc/x");
    assert_eq!(resolve_source("extra.conf", "/home/u/.config/mango/config.conf", &home()), "/home/u/.config/mango/extra.conf");
    assert_eq!(resolve_source("~/m.conf", "/c/config.conf", &home()), "/home/u/m.conf");
    assert_eq!(resolve_source("/abs.conf", "/c/config.conf", &home()), "/abs.conf");
}

#[test]
fn include_line_is_added_once() {
    let s = settings();
    let first = config_with_include(&Some("a=1".to_string()), &s, &home()).unwrap();
    assert_eq!(first, "a=1\nsource=~/.config/mango/monitors.conf\n");
    assert_eq!(config_with_include(&Some(first), &s, &home()), None);
    assert_eq!(
        config_with_include(&Some("source = /home/u/.config/mango/monitors.conf\n".to_string()), &s, &home()),
        None
    );
    assert_eq!(config_with_include(&None, &s, &home()).unwrap(), "\nsource=~/.config/mango/monitors.conf\n");
    let mut off = settings();
    off.auto_append_source = false;
    assert_eq!(config_with_include(&None, &off, &home()), None);
}

#[test]
fn restore_cleans_main_config() {
    let s = settings();
    let content = "a=1\nmonitorrule=name:X\n  source=~/.config/mango/monitors.conf\nsource=/home/u/.config/mango/monitors.conf\nsource=other.conf\nb=2";
    assert_eq!(clean_main_config(content, &s, &home()), "a=1\nsource=other.conf\nb=2\n");
}

#[test]
fn restore_puts_rules_back() {
    let rules = vec!["monitorrule=name:A".to_string(), "  monitorrule=name:B".to_string()];
    let restored = restore_rules(&Some("x=1\nmonitorrule=name:Z\n\n\n".to_string()), &rules).unwrap();
    assert_eq!(restored, "x=1\nmonitorrule=name:A\n  monitorrule=name:B\n");
    assert_eq!(collect_monitorrules(&restored), rules);
    assert_eq!(restore_rules(&None, &rules).unwrap(), "monitorrule=name:A\n  monitorrule=name:B\n");
    assert_eq!(restore_rules(&Some("x".to_string()), &vec![]), None);
}

#[test]
fn backup_groups_rules_by_file() {
    let config = "/home/u/.config/mango/config.conf";
    let content = "monitorrule=name:A\nsource=extra.conf\nsource=~/empty.conf\n";
    let paths = sourced_files(content, config, &home());
    assert_eq!(paths, vec!["/home/u/.config/mango/extra.conf", "/home/u/empty.conf"]);
    let sourced = vec![
        SourcedFile { path: paths[0].clone(), content: "x=1\nmonitorrule=name:B\nmonitorrule=name:C\n".to_string() },
        SourcedFile { path: paths[1].clone(), content: "y=2\n".to_string() },
    ];
    let entries = backup_entries(config, &Some(content.to_string()), &sourced, &home());
    assert_eq!(
        entries,
        vec![
            BackupEntry { source_file: "~/.config/mango/config.conf".to_string(), rules: vec!["monitorrule=name:A".to_string()] },
            BackupEntry {
                source_file: "~/.config/mango/extra.conf".to_string(),
                rules: vec!["monitorrule=name:B".to_string(), "monitorrule=name:C".to_string()],
            },
        ]
    );
    assert!(backup_entries(config, &None, &sourced, &home()).is_empty());
    assert!(fragment_is_removed(&entries, &settings(), &home()));
    let own = vec![BackupEntry { source_file: "~/.config/mango/monitors.conf".to_string(), rules: vec![] }];
    assert!(!fragment_is_removed(&own, &settings(), &home()));
}

#[test]
fn backup_document_layout() {
    let config = "/home/u/c.conf";
    assert_eq!(backup_document(config, &None, &vec![], &home()), "{\n  \"entries\": []\n}");
    let content = "monitorrule=name:\"A\"\nmonitorrule=name:B\n".to_string();
    let text = backup_document(config, &Some(content), &vec![], &home());
    assert_eq!(
        text,
        "{\n  \"entries\": [\n    {\n      \"rules\": [\n        \"monitorrule=name:\\\"A\\\"\",\n        \"monitorrule=name:B\"\n      ],\n      \"source_file\": \"~/c.conf\"\n    }\n  ]\n}"
    );
    let value: serde_json::Value = serde_json::from_str(&text).unwrap();
    assert_eq!(value["entries"][0]["rules"][0], "monitorrule=name:\"A\"");
}

#[test]
fn backup_has_one_entry_per_file() {
    let config = "/home/u/.config/mango/config.conf";
    let content = "source=extra.conf\nsource=~/.config/mango/extra.conf\nsource=config.conf\nmonitorrule=name:M\n";
    let paths = sourced_files(content, config, &home());
    assert_eq!(paths.len(), 3);
    let sourced: Vec<SourcedFile> = paths
        .iter()
        .map(|p| SourcedFile {
            path: p.clone(),
            content: if p.ends_with("config.conf") { content.to_string() } else { "monitorrule=name:X\n".to_string() },
        })
        .collect();
    let entries = backup_entries(config, &Some(content.to_string()), &sourced, &home());
    let names: Vec<&str> = entries.iter().map(|e| e.source_file.as_str()).collect();
    assert_eq!(
        names,
        vec!["~/.config/mango/config.conf", "~/.config/mango/extra.conf"]
    );
    assert_eq!(entries[0].rules, vec!["monitorrule=name:M"]);
    assert_eq!(entries[1].rules, vec!["monitorrule=name:X"]);
}

#[test]
fn default_settings() {
    let s = AppSettings::default();
    assert_eq!(s.monitors_conf_path, "~/.config/mango/monitors.conf");
    assert_eq!(s.config_conf_path, "~/.config/mango/config.conf");
    assert!(s.auto_append_source);
}

#[test]
fn unicode_whitespace_counts_as_indentation() {
    let text = "\u{a0}monitorrule=name:A\n\u{3000}source=x.conf\u{2003}\n";
    assert_eq!(collect_monitorrules(text), vec!["\u{a0}monitorrule=name:A"]);
    assert_eq!(source_directives(text), vec!["x.conf"]);
}

#[test]
fn fragment_named_with_extra_slashes_is_kept() {
    let own = vec![BackupEntry { source_file: "/home/u/.config//mango/monitors.conf/".to_string(), rules: vec![] }];
    assert!(!fragment_is_removed(&own, &settings(), &home()));
}
