use espanso_settings::matches::{looks_like_internal_id, non_empty, resolve_identity};
use espanso_settings::{
    check_external_triggers, plan_save, ExternalTriggers, matches_from_stored, meta_document_for_save, stored_from_matches,
    validate_matches, Category, MatchError, MatchMeta, MatchMetaMap, StoredMatch, UiMatch,
    UiMatchRepository, UiMetaDocument, MANAGED_HEADER,
};

fn ui_match(id: &str, trigger: &str, replace: &str) -> UiMatch {
    UiMatch {
        id: id.to_string(),
        trigger: trigger.to_string(),
        replace: replace.to_string(),
        short_name: String::new(),
        description: String::new(),
        category_id: String::new(),
    }
}

fn stored(ui_id: Option<&str>, label: Option<&str>, trigger: &str, replace: &str) -> StoredMatch {
    StoredMatch {
        ui_id: ui_id.map(|s| s.to_string()),
        label: label.map(|s| s.to_string()),
        trigger: trigger.to_string(),
        replace: replace.to_string(),
    }
}

#[test]
fn the_repository_lives_under_the_match_folder() {
    let repository = UiMatchRepository::new("/cfg");
    assert_eq!(repository.config_root(), "/cfg");
    assert_eq!(repository.path(), "/cfg/match/ui.yml");
    assert_eq!(repository.meta_path(), "/cfg/match/ui-meta.json");
    let trailing = UiMatchRepository::new("/cfg/");
    assert_eq!(trailing.path(), "/cfg/match/ui.yml");
    assert!(MANAGED_HEADER.starts_with("# Managed by Espanso Settings"));
}

#[test]
fn valid_matches_pass_validation() {
    let matches = vec![ui_match("a", ":a", "A"), ui_match("b", ":b", "第一行\n第二行")];
    assert_eq!(validate_matches(&matches), Ok(()));
    assert_eq!(validate_matches(&[]), Ok(()));
}

#[test]
fn each_match_rule_has_its_own_error() {
    assert_eq!(
        validate_matches(&[ui_match("a", "  ", "x")]),
        Err(MatchError::BlankTrigger)
    );
    assert_eq!(
        validate_matches(&[ui_match("a", ":bad\ntrigger", "x")]),
        Err(MatchError::MultilineTrigger)
    );
    assert_eq!(
        validate_matches(&[ui_match("a", ":same", "one"), ui_match("b", " :same ", "two")]),
        Err(MatchError::DuplicateTrigger(":same".to_string()))
    );
    let mut named = ui_match("a", ":a", "x");
    named.short_name = "two\nlines".to_string();
    assert_eq!(validate_matches(&[named]), Err(MatchError::MultilineShortName));
    let mut noted = ui_match("a", ":a", "x");
    noted.description = "nul\0here".to_string();
    assert_eq!(validate_matches(&[noted]), Err(MatchError::NulInDescription));
    let long = ui_match("a", ":a", &"x".repeat(1_000_001));
    assert_eq!(validate_matches(&[long]), Err(MatchError::ReplacementTooLong));
    let limit = ui_match("a", ":a", &"x".repeat(1_000_000));
    assert_eq!(validate_matches(&[limit]), Ok(()));
}

#[test]
fn the_first_broken_match_is_reported() {
    let matches = vec![
        ui_match("a", ":ok", "fine"),
        ui_match("b", "multi\nline", "x"),
        ui_match("c", "  ", "y"),
    ];
    assert_eq!(validate_matches(&matches), Err(MatchError::MultilineTrigger));
}

#[test]
fn match_error_messages() {
    assert_eq!(MatchError::BlankTrigger.message(), "trigger must not be blank");
    assert_eq!(
        MatchError::DuplicateTrigger(":x".to_string()).message(),
        "duplicate trigger: :x"
    );
    assert_eq!(
        MatchError::TriggerInUse(":x".to_string(), "match/base.yml".to_string()).message(),
        "trigger \":x\" already exists in match/base.yml"
    );
    assert_eq!(
        MatchError::ReplacementTooLong.message(),
        "replacement exceeds the supported character limit"
    );
}

#[test]
fn identity_prefers_ui_id_then_a_legacy_label_then_the_position() {
    assert_eq!(
        resolve_identity(0, Some("ui-1".to_string()), Some("工单签名".to_string())),
        ("ui-1".to_string(), "工单签名".to_string())
    );
    assert_eq!(
        resolve_identity(0, None, Some("ui-legacy".to_string())),
        ("ui-legacy".to_string(), String::new())
    );
    assert_eq!(
        resolve_identity(2, None, Some("  Hello  ".to_string())),
        ("ui-match-2".to_string(), "Hello".to_string())
    );
    assert_eq!(
        resolve_identity(17, Some("   ".to_string()), None),
        ("ui-match-17".to_string(), String::new())
    );
    assert!(looks_like_internal_id("ui-7"));
    assert!(!looks_like_internal_id("my label"));
    assert_eq!(non_empty(""), None);
    assert_eq!(non_empty("x"), Some("x".to_string()));
}

#[test]
fn legacy_label_as_id_loads_without_short_name_from_stored_entries() {
    let (matches, categories) = matches_from_stored(
        vec![stored(None, Some("ui-legacy"), ":old", "classic")],
        &UiMetaDocument::default(),
    )
    .unwrap();
    assert_eq!(matches[0].id, "ui-legacy");
    assert_eq!(matches[0].short_name, "");
    assert_eq!(matches[0].trigger, ":old");
    assert!(categories.is_empty());
}

#[test]
fn loading_joins_metadata_and_drops_unknown_categories() {
    let mut entries = MatchMetaMap::new();
    entries.insert(
        "ui-1".to_string(),
        MatchMeta { description: "客服落款".to_string(), category_id: "cat-work".to_string() },
    );
    entries.insert(
        "ui-2".to_string(),
        MatchMeta { description: String::new(), category_id: "cat-gone".to_string() },
    );
    let document = UiMetaDocument {
        version: 1,
        categories: vec![Category { id: "cat-work".to_string(), name: "Work".to_string(), order: 0 }],
        matches: entries,
    };
    let (matches, categories) = matches_from_stored(
        vec![
            stored(Some("ui-1"), Some("工单签名"), ":sig", "Best regards"),
            stored(Some("ui-2"), None, ":two", "2"),
        ],
        &document,
    )
    .unwrap();
    assert_eq!(matches[0].short_name, "工单签名");
    assert_eq!(matches[0].description, "客服落款");
    assert_eq!(matches[0].category_id, "cat-work");
    assert_eq!(matches[1].category_id, "");
    assert_eq!(categories.len(), 1);
}

#[test]
fn loading_refuses_an_invalid_stored_file() {
    let result = matches_from_stored(
        vec![stored(Some("a"), None, ":same", "1"), stored(Some("b"), None, ":same", "2")],
        &UiMetaDocument::default(),
    );
    assert_eq!(result, Err(MatchError::DuplicateTrigger(":same".to_string())));
}

#[test]
fn stored_entries_carry_id_and_trimmed_label() {
    let mut named = ui_match("ui-1", ":sig", "Best regards");
    named.short_name = "  工单签名  ".to_string();
    let plain = ui_match("ui-2", ":x", "X");
    let entries = stored_from_matches(&[named, plain]);
    assert_eq!(entries[0], stored(Some("ui-1"), Some("工单签名"), ":sig", "Best regards"));
    assert_eq!(entries[1], stored(Some("ui-2"), None, ":x", "X"));
}

#[test]
fn triggers_of_other_files_block_a_save() {
    let matches = vec![ui_match("a", ":external", "mine")];
    let triggers = vec![":other".to_string(), " :external ".to_string()];
    assert_eq!(
        check_external_triggers(&matches, &triggers, "match/external.yml"),
        Err(MatchError::TriggerInUse(" :external ".to_string(), "match/external.yml".to_string()))
    );
    assert_eq!(
        check_external_triggers(&matches, &[":free".to_string()], "match/external.yml"),
        Ok(())
    );
}

#[test]
fn saved_metadata_drops_empty_entries_and_unknown_categories() {
    let categories = vec![Category { id: "cat-1".to_string(), name: "A".to_string(), order: 0 }];
    let mut kept = ui_match("kept", ":k", "k");
    kept.category_id = "cat-1".to_string();
    let mut orphan = ui_match("orphan", ":o", "o");
    orphan.category_id = "cat-missing".to_string();
    let mut described = ui_match("described", ":d", "d");
    described.description = "note".to_string();
    described.category_id = "cat-missing".to_string();
    let document = meta_document_for_save(&categories, &[kept, orphan, described]);
    assert_eq!(document.version, 1);
    assert_eq!(document.categories.len(), 1);
    assert_eq!(document.matches.get("kept").unwrap().category_id, "cat-1");
    assert!(!document.matches.contains_key("orphan"));
    let described = document.matches.get("described").unwrap();
    assert_eq!(described.description, "note");
    assert_eq!(described.category_id, "");
}

#[test]
fn round_trip_preserves_multiline_unicode_and_long_text() {
    let long = "x".repeat(100000);
    let mut first = ui_match("ui-1", ":你好", "第一行 🦀\n{}\n最后一行");
    first.short_name = "hello".to_string();
    first.description = "多行说明".to_string();
    let second = ui_match("ui-2", ":long", &long);
    let saved = vec![first, second];
    let categories: Vec<Category> = Vec::new();
    let entries = stored_from_matches(&saved);
    let document = meta_document_for_save(&categories, &saved);
    let (loaded, loaded_categories) = matches_from_stored(entries, &document).unwrap();
    assert_eq!(loaded, saved);
    assert!(loaded_categories.is_empty());
    assert_eq!(loaded[1].replace.chars().count(), 100000);
}

#[test]
fn invalid_matches_never_produce_a_save_plan() {
    let valid = vec![ui_match("a", ":ok", "works")];
    let plan = plan_save(&valid, &[], &[]).unwrap();
    assert_eq!(plan.entries, vec![stored(Some("a"), None, ":ok", "works")]);
    assert_eq!(plan.meta.version, 1);
    assert_eq!(plan.meta.matches.len(), 0);

    let duplicate = vec![ui_match("one", ":same", "1"), ui_match("two", ":same", "2")];
    assert_eq!(
        plan_save(&duplicate, &[], &[]),
        Err(MatchError::DuplicateTrigger(":same".to_string()))
    );
    let multiline = vec![ui_match("bad", ":bad\ntrigger", "x")];
    assert_eq!(plan_save(&multiline, &[], &[]), Err(MatchError::MultilineTrigger));
}

#[test]
fn candidate_triggers_are_checked_against_every_other_file() {
    let matches = vec![ui_match("a", ":external", "mine")];
    let files = vec![
        ExternalTriggers { file: "/cfg/match/a.yml".to_string(), triggers: vec![":a".to_string()] },
        ExternalTriggers {
            file: "/cfg/match/external.yml".to_string(),
            triggers: vec![":x".to_string(), ":external".to_string()],
        },
    ];
    assert_eq!(
        plan_save(&matches, &[], &files),
        Err(MatchError::TriggerInUse(":external".to_string(), "/cfg/match/external.yml".to_string()))
    );
    assert!(plan_save(&matches, &[], &files[..1]).is_ok());
}
