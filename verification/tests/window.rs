use espanso_settings::meta::category_id_for;
use espanso_settings::window::match_id_for;
use std::cell::Cell;

use espanso_settings::window::{
    adopted_message, exported_message, import_summary, match_rows, migration_summary,
    next_match_id, restored_message, tab_at, tab_index, upsert_match,
};
use espanso_settings::{
    AdoptPlan, Category, ExportSummary, ExternalMatch, ImportPlan, MigrationPlan, ModelMessage,
    SettingsExecutor, SettingsHandler, SettingsModel, SettingsTab, UiMatch,
};

fn ui_match(id: &str, trigger: &str) -> UiMatch {
    UiMatch {
        id: id.to_string(),
        trigger: trigger.to_string(),
        replace: "r".to_string(),
        short_name: String::new(),
        description: String::new(),
        category_id: String::new(),
    }
}

fn adopt_plan(warnings: usize) -> AdoptPlan {
    AdoptPlan {
        destination: "/data/espanso".to_string(),
        config_count: 1,
        match_count: 2,
        warning_files: (0..warnings).map(|i| format!("/data/espanso/match/{i}.yml")).collect(),
    }
}

#[test]
fn tab_indices_round_trip() {
    assert_eq!(tab_index(SettingsTab::Settings), 0);
    assert_eq!(tab_index(SettingsTab::Configuration), 1);
    assert_eq!(tab_at(0), SettingsTab::Settings);
    assert_eq!(tab_at(1), SettingsTab::Configuration);
    assert_eq!(tab_at(7), SettingsTab::Configuration);
    for tab in [SettingsTab::Settings, SettingsTab::Configuration] {
        assert_eq!(tab_at(tab_index(tab)), tab);
    }
}

#[test]
fn new_match_ids_are_ui_and_milliseconds() {
    let id = next_match_id();
    assert!(id.starts_with("ui-"));
    assert!(id.len() > 3 && id[3..].chars().all(|c| c.is_ascii_digit()));
}

#[test]
fn saving_replaces_the_match_with_the_same_id_or_appends() {
    let list = vec![ui_match("a", ":a"), ui_match("b", ":b")];
    let replaced = upsert_match(list, ui_match("a", ":changed"));
    assert_eq!(replaced.len(), 2);
    assert_eq!(replaced[0].trigger, ":changed");
    assert_eq!(replaced[1].trigger, ":b");
    let appended = upsert_match(replaced, ui_match("c", ":c"));
    assert_eq!(appended.len(), 3);
    assert_eq!(appended[2].id, "c");
}

#[test]
fn status_lines_name_the_counts() {
    assert_eq!(
        adopted_message(&adopt_plan(0)),
        "Imported the existing configuration: 1 config file(s), 2 match(es). Nothing in that folder was changed. Restart Espanso."
    );
    assert_eq!(
        adopted_message(&adopt_plan(3)),
        "Imported the existing configuration: 1 config file(s), 2 match(es). Nothing in that folder was changed. Restart Espanso. 3 file(s) reported warnings; Espanso still loaded the configuration."
    );
    assert_eq!(
        restored_message(&adopt_plan(0), "/restored"),
        "Restored 1 config file(s), 2 match(es) to /restored. Restart Espanso."
    );
    assert_eq!(
        exported_message(&ExportSummary {
            archive: "/tmp/pack.zip".to_string(),
            file_count: 2,
            byte_count: 41,
        }),
        "Backup exported: 2 file(s) (41 bytes) → /tmp/pack.zip."
    );
    assert_eq!(
        migration_summary(&MigrationPlan {
            source: "/a".to_string(),
            destination: "/b".to_string(),
            file_count: 2,
            byte_count: 8,
            conflicts: Vec::new(),
        }),
        "Will copy 2 file(s) (8 bytes). The old directory will be kept."
    );
    let plan = ImportPlan {
        archive: "/tmp/pack.zip".to_string(),
        destination: "/restored".to_string(),
        staging_root: "/restored.import-1-2".to_string(),
        config_root_in_staging: "/restored.import-1-2".to_string(),
        adopt: adopt_plan(0),
        had_manifest: true,
    };
    assert_eq!(
        import_summary(&plan),
        "Ready to restore 1 config file(s) and 2 match(es) into /restored. Nothing has been written yet."
    );
}

struct CountingHandler {
    calls: Cell<u32>,
    fails: bool,
}

impl SettingsHandler for CountingHandler {
    fn showed(&self, _answer: Result<(), String>) -> bool {
        true
    }

    fn show_settings(&self) -> Result<(), String> {
        self.calls.set(self.calls.get() + 1);
        if self.fails {
            Err("no window".to_string())
        } else {
            Ok(())
        }
    }
}

#[test]
fn the_executor_opens_settings_only_for_its_event() {
    let handler = CountingHandler { calls: Cell::new(0), fails: false };
    let executor = SettingsExecutor::new(&handler);
    assert!(executor.execute(true));
    assert!(!executor.execute(false));
    assert_eq!(handler.calls.get(), 1);

    let failing = CountingHandler { calls: Cell::new(0), fails: true };
    assert!(SettingsExecutor::new(&failing).execute(true));
    assert_eq!(failing.calls.get(), 1);
}

#[test]
fn rows_list_owned_matches_first_then_read_only_ones() {
    let mut model = SettingsModel::default();
    model.set_categories(vec![Category { id: "cat-w".to_string(), name: "Work".to_string(), order: 0 }]);
    let mut named = ui_match("a", ":sig");
    named.short_name = "Signature".to_string();
    named.replace = "Best regards\nMe".to_string();
    named.category_id = "cat-w".to_string();
    model.set_matches(vec![named, ui_match("b", ":b")]);
    model.set_external(vec![ExternalMatch {
        trigger: ":ext".to_string(),
        preview: "outside".to_string(),
        source: "/cfg/match/base.yml".to_string(),
        source_label: "match/base.yml".to_string(),
        note: "defined outside Settings — edit in the file".to_string(),
    }]);
    let rows = match_rows(&model);
    assert_eq!(rows.len(), 3);
    assert_eq!(rows[0].title, "Signature");
    assert_eq!(rows[0].preview, "Best regards");
    assert_eq!(rows[0].category_name, "Work");
    assert!(rows[0].editable);
    assert_eq!(rows[1].title, ":b");
    assert_eq!(rows[1].category_name, "");
    assert!(!rows[2].editable);
    assert_eq!(rows[2].id, "");
    assert_eq!(rows[2].source_label, "match/base.yml");

    model.reduce(ModelMessage::FilterChanged("ext".to_string()));
    let filtered = match_rows(&model);
    assert_eq!(filtered.len(), 1);
    assert_eq!(filtered[0].trigger, ":ext");
}

#[test]
fn ids_name_the_clock_reading() {
    assert_eq!(match_id_for(1_723_708_800_123), "ui-1723708800123");
    assert_eq!(category_id_for(0), "cat-0");
    assert_eq!(category_id_for(42), "cat-42");
}
