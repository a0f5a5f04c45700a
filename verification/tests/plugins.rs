use fig::plugin::{
    parse_trigger, truncate_string, FileTrigger, FromMapError, Instruction, PluginInfo,
    PluginTriggerLookup, Trigger,
};
use fig::text::format_count;

fn plugin(cmd: &str, triggers: Vec<Trigger>) -> PluginInfo {
    PluginInfo { cmd: cmd.to_string(), triggers }
}

fn file_trigger(ext: &str) -> Trigger {
    Trigger::File(FileTrigger { ext: ext.to_string() })
}

#[test]
fn lookup_collects_triggers_in_registration_order() {
    let registry = vec![
        plugin("unlock-vault", vec![Trigger::Repository]),
        plugin("gpg-decrypt", vec![file_trigger("gpg"), Trigger::Repository]),
        plugin("untemplate", vec![file_trigger("tmpl")]),
    ];
    let lookup = PluginTriggerLookup::from_map(&registry).expect("no conflicting extensions");
    assert_eq!(lookup.repository, vec!["unlock-vault".to_string(), "gpg-decrypt".to_string()]);
    assert_eq!(
        lookup.file,
        vec![
            ("gpg".to_string(), "gpg-decrypt".to_string()),
            ("tmpl".to_string(), "untemplate".to_string()),
        ]
    );
}

#[test]
fn conflicting_extensions_fail_lookup_construction() {
    let registry = vec![
        plugin("first-decrypt", vec![file_trigger("enc")]),
        plugin("second-decrypt", vec![file_trigger("enc")]),
    ];
    let err = PluginTriggerLookup::from_map(&registry).unwrap_err();
    let FromMapError::ConflictingPluginTriggers { ext, plugin1, plugin2 } = err;
    assert_eq!(ext, "enc");
    assert_eq!(plugin1, "first-decrypt");
    assert_eq!(plugin2, "second-decrypt");
}

#[test]
fn one_plugin_claiming_an_extension_twice_is_a_conflict_too() {
    let registry = vec![plugin("dup", vec![file_trigger("enc"), file_trigger("enc")])];
    assert!(PluginTriggerLookup::from_map(&registry).is_err());
}

#[test]
fn file_plugin_lookup() {
    let registry = vec![plugin("gpg-decrypt", vec![file_trigger("gpg")])];
    let lookup = PluginTriggerLookup::from_map(&registry).expect("no conflicts");
    assert_eq!(lookup.file_plugin(&"gpg".to_string()), Some(&"gpg-decrypt".to_string()));
    assert_eq!(lookup.file_plugin(&"enc".to_string()), None);
}

#[test]
fn trigger_values_parse() {
    assert!(matches!(parse_trigger("repo"), Some(Trigger::Repository)));
    match parse_trigger(".enc") {
        Some(Trigger::File(ft)) => assert_eq!(ft.ext, "enc"),
        other => panic!("expected a file trigger, got {:?}", other.is_some()),
    }
    assert!(parse_trigger("enc").is_none());
    assert!(parse_trigger("").is_none());
}

#[test]
fn instruction_codes_roundtrip() {
    assert_eq!(Instruction::Exit.code(), 0);
    assert_eq!(Instruction::RunOnRepository.code(), 1);
    assert_eq!(Instruction::RunOnFile.code(), 2);
    assert_eq!(Instruction::decode(0), Some(Instruction::Exit));
    assert_eq!(Instruction::decode(1), Some(Instruction::RunOnRepository));
    assert_eq!(Instruction::decode(2), Some(Instruction::RunOnFile));
    assert_eq!(Instruction::decode(3), None);
    assert_eq!(Instruction::decode(255), None);
}

#[test]
fn truncation_keeps_short_output_unchanged() {
    assert_eq!(truncate_string("one\ntwo", 5), "one\ntwo");
    assert_eq!(truncate_string("", 0), "");
}

#[test]
fn truncation_counts_elided_lines() {
    let out = truncate_string("l1\nl2\nl3\nl4\nl5\nl6\nl7", 5);
    assert_eq!(out, "l1\nl2\nl3\nl4\nl5\n... (2 more lines)");
}

#[test]
fn truncation_with_carriage_returns() {
    let out = truncate_string("a\r\nb\r\nc\r\n", 1);
    assert_eq!(out, "a\n... (2 more lines)");
}

#[test]
fn truncation_to_zero_lines() {
    assert_eq!(truncate_string("x\ny", 0), "\n... (2 more lines)");
}

#[test]
fn truncation_boundary_is_inclusive() {
    assert_eq!(truncate_string("a\nb\nc", 3), "a\nb\nc");
    assert_eq!(truncate_string("a\nb\nc", 2), "a\nb\n... (1 more lines)");
}

#[test]
fn counts_render_in_decimal() {
    assert_eq!(format_count(0), "0");
    assert_eq!(format_count(7), "7");
    assert_eq!(format_count(10), "10");
    assert_eq!(format_count(12345), "12345");
}
