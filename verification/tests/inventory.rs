use espanso_settings::inventory::{is_match_extension, source_badge};
use espanso_settings::{describe, external_matches, ScanMatch, ScannedFile};

fn entry(trigger: Option<&str>, replace: Option<&str>) -> ScanMatch {
    ScanMatch {
        label: None,
        trigger: trigger.map(|s| s.to_string()),
        triggers: Vec::new(),
        regex: None,
        replace: replace.map(|s| s.to_string()),
        has_form: false,
        has_vars: false,
        image_path: None,
    }
}

#[test]
fn a_plain_entry_shows_its_trigger_and_first_line() {
    let described = describe(
        &entry(Some(":hi"), Some("Hello\nthere")),
        "/cfg/match/base.yml",
        "match/base.yml",
    );
    assert_eq!(described.trigger, ":hi");
    assert_eq!(described.preview, "Hello");
    assert_eq!(described.source, "/cfg/match/base.yml");
    assert_eq!(described.source_label, "match/base.yml");
    assert_eq!(described.note, "defined outside Settings — edit in the file");
}

#[test]
fn a_carriage_return_before_the_line_feed_is_dropped() {
    let described = describe(&entry(Some(":w"), Some("Windows\r\nline")), "s", "l");
    assert_eq!(described.preview, "Windows");
}

#[test]
fn advanced_entries_say_specifically_why_they_are_read_only() {
    let mut regex = entry(None, Some("x"));
    regex.regex = Some("^a$".to_string());
    regex.has_form = true;
    let regex = describe(&regex, "s", "match/advanced.yml");
    assert_eq!(regex.trigger, "^a$");
    assert!(regex.note.contains("regex"));

    let mut form = entry(Some(":form"), None);
    form.has_form = true;
    let form = describe(&form, "s", "l");
    assert!(form.note.contains("form"));
    assert_eq!(form.preview, form.note);

    let mut vars = entry(Some(":date"), Some("{{today}}"));
    vars.has_vars = true;
    assert!(describe(&vars, "s", "l").note.contains("variables"));

    let mut image = entry(Some(":img"), None);
    image.image_path = Some("cat.png".to_string());
    assert_eq!(describe(&image, "s", "l").note, "image match — edit in the file");
}

#[test]
fn the_shown_trigger_falls_back_in_order() {
    let mut several = entry(None, Some("x"));
    several.triggers = vec![":first".to_string(), ":second".to_string()];
    several.label = Some("label".to_string());
    assert_eq!(describe(&several, "s", "l").trigger, ":first");

    let mut labelled = entry(None, Some("x"));
    labelled.label = Some("label".to_string());
    assert_eq!(describe(&labelled, "s", "l").trigger, "label");

    assert_eq!(describe(&entry(None, Some("x")), "s", "l").trigger, "(no trigger)");
}

#[test]
fn an_empty_replacement_previews_the_note() {
    let described = describe(&entry(Some(":e"), Some("")), "s", "l");
    assert_eq!(described.preview, "defined outside Settings — edit in the file");
}

#[test]
fn scanned_files_are_listed_by_badge_then_trigger() {
    let files = vec![
        ScannedFile {
            source: "/cfg/match/z.yml".to_string(),
            source_label: "match/z.yml".to_string(),
            matches: vec![entry(Some(":a"), Some("1"))],
        },
        ScannedFile {
            source: "/cfg/match/base.yml".to_string(),
            source_label: "match/base.yml".to_string(),
            matches: vec![entry(Some(":hi"), Some("Hello")), entry(Some(":bye"), Some("Bye"))],
        },
    ];
    let listed = external_matches(&files);
    let order: Vec<(&str, &str)> = listed
        .iter()
        .map(|e| (e.source_label.as_str(), e.trigger.as_str()))
        .collect();
    assert_eq!(
        order,
        vec![("match/base.yml", ":bye"), ("match/base.yml", ":hi"), ("match/z.yml", ":a")]
    );
    assert_eq!(listed[1].source, "/cfg/match/base.yml");
}

#[test]
fn nothing_scanned_lists_nothing() {
    assert!(external_matches(&[]).is_empty());
}

#[test]
fn match_files_are_yml_or_yaml_in_any_case() {
    assert!(is_match_extension("yml"));
    assert!(is_match_extension("YAML"));
    assert!(is_match_extension("Yml"));
    assert!(!is_match_extension("txt"));
    assert!(!is_match_extension(""));
    assert!(!is_match_extension("ymll"));
}

#[test]
fn badges_use_forward_slashes() {
    assert_eq!(source_badge("match\\sub\\base.yml"), "match/sub/base.yml");
    assert_eq!(source_badge("match/base.yml"), "match/base.yml");
}
