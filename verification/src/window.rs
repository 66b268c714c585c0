//! What the Settings window shows and sends, apart from drawing: tab
//! indices, ids for new matches, how a saved match enters the list, and the
//! status lines after each folder action.
use vstd::prelude::*;
use crate::adopt::AdoptPlan;
use crate::backup::{ExportSummary, ImportPlan};
use crate::clock::unix_millis;
use crate::inventory::{first_line, first_line_exec, ExternalMatch};
use crate::matches::UiMatch;
use crate::meta::Category;
use crate::migration::MigrationPlan;
use crate::model::{visible_external, visible_matches, SettingsModel, SettingsTab};
use crate::text::{decimal, push_decimal, push_str, same_text};

verus! {

/// The index of a tab in the window's tab bar.
pub fn tab_index(tab: SettingsTab) -> (i: i32)
    ensures
        i == (if tab == SettingsTab::Settings { 0i32 } else { 1i32 }),
{
    match tab {
        SettingsTab::Settings => 0,
        SettingsTab::Configuration => 1,
    }
}

/// The tab at an index of the tab bar; every index but 0 is the
/// configuration tab.
pub fn tab_at(index: i32) -> (tab: SettingsTab)
    ensures
        tab == (if index == 0 { SettingsTab::Settings } else { SettingsTab::Configuration }),
{
    if index == 0 {
        SettingsTab::Settings
    } else {
        SettingsTab::Configuration
    }
}

/// The two are inverse on the tab bar.
pub proof fn lemma_tab_index_round_trip(tab: SettingsTab)
    ensures
        (if (if tab == SettingsTab::Settings { 0i32 } else { 1i32 }) == 0 {
            SettingsTab::Settings
        } else {
            SettingsTab::Configuration
        }) == tab,
{
}

/// The id of a match created at a clock reading of `millis` milliseconds
/// since the Unix epoch.
pub open spec fn match_id_text(millis: nat) -> Seq<char> {
    "ui-"@ + decimal(millis)
}

/// Ids of matches created in the window have the form `ui-<milliseconds>`.
pub open spec fn is_new_match_id(id: Seq<char>) -> bool {
    exists|n: nat| id == #[trigger] match_id_text(n)
}

/// The id of a match created at a clock reading of `millis` milliseconds.
pub fn match_id_for(millis: u128) -> (id: String)
    ensures
        id@ == match_id_text(millis as nat),
{
    let mut id = String::new();
    push_str(&mut id, "ui-");
    push_decimal(&mut id, millis);
    proof {
        assert(id@ =~= "ui-"@ + decimal(millis as nat));
    }
    id
}

/// A fresh id for a match created in the window, from the clock's current
/// reading.
pub fn next_match_id() -> (id: String)
    ensures
        is_new_match_id(id@),
{
    let millis = unix_millis();
    let id = match_id_for(millis);
    proof {
        assert(id@ == match_id_text(millis as nat));
    }
    id
}

/// The first index of a match with this id.
pub open spec fn first_with_id(matches: Seq<UiMatch>, id: Seq<char>) -> int {
    choose|i: int|
        0 <= i < matches.len() && (#[trigger] matches[i]).id@ == id && forall|j: int|
            0 <= j < i ==> (#[trigger] matches[j]).id@ != id
}

/// The list after saving `candidate`: it replaces the first match with the
/// same id, or is added at the end.
pub open spec fn upserted(matches: Seq<UiMatch>, candidate: UiMatch) -> Seq<UiMatch> {
    if exists|i: int| 0 <= i < matches.len() && (#[trigger] matches[i]).id@ == candidate.id@ {
        matches.update(first_with_id(matches, candidate.id@), candidate)
    } else {
        matches.push(candidate)
    }
}

#[verifier::loop_isolation(false)]
pub fn upsert_match(matches: Vec<UiMatch>, candidate: UiMatch) -> (r: Vec<UiMatch>)
    ensures
        r@ == upserted(matches@, candidate),
{
    let ghost original = matches@;
    let mut out = matches;
    let mut i: usize = 0;
    while i < out.len()
        invariant
            out@ == original,
            i <= out@.len(),
            forall|j: int| 0 <= j < i ==> (#[trigger] out@[j]).id@ != candidate.id@,
        decreases out.len() - i,
    {
        if out[i].id == candidate.id {
            proof {
                assert(0 <= i < original.len() && (original[i as int]).id@ == candidate.id@ && forall|j: int|
                    0 <= j < i ==> (#[trigger] original[j]).id@ != candidate.id@);
                let k = first_with_id(original, candidate.id@);
                if k < i {
                } else if k > i {
                    assert(original[i as int].id@ != candidate.id@);
                }
                assert(k == i);
                assert(upserted(original, candidate) == original.update(i as int, candidate));
            }
            out.set(i, candidate);
            return out;
        }
        i = i + 1;
    }
    out.push(candidate);
    out
}

/// The status line after opening an existing configuration.
pub open spec fn adopted_text(plan: AdoptPlan) -> Seq<char> {
    let base = "Imported the existing configuration: "@ + decimal(plan.config_count as nat)
        + " config file(s), "@ + decimal(plan.match_count as nat)
        + " match(es). Nothing in that folder was changed. Restart Espanso."@;
    if plan.warning_files@.len() == 0 {
        base
    } else {
        base + " "@ + decimal(plan.warning_files@.len()) + " file(s) reported warnings; Espanso still loaded the configuration."@
    }
}

pub fn adopted_message(plan: &AdoptPlan) -> (m: String)
    ensures
        m@ == adopted_text(*plan),
{
    let mut m = String::new();
    push_str(&mut m, "Imported the existing configuration: ");
    push_decimal(&mut m, plan.config_count as u128);
    push_str(&mut m, " config file(s), ");
    push_decimal(&mut m, plan.match_count as u128);
    push_str(&mut m, " match(es). Nothing in that folder was changed. Restart Espanso.");
    if plan.warning_files.len() > 0 {
        push_str(&mut m, " ");
        push_decimal(&mut m, plan.warning_files.len() as u128);
        push_str(&mut m, " file(s) reported warnings; Espanso still loaded the configuration.");
    }
    proof {
        assert(m@ =~= adopted_text(*plan));
    }
    m
}

/// The preview shown before a backup is restored.
pub open spec fn import_summary_text(plan: ImportPlan) -> Seq<char> {
    "Ready to restore "@ + decimal(plan.adopt.config_count as nat) + " config file(s) and "@
        + decimal(plan.adopt.match_count as nat) + " match(es) into "@ + plan.destination@
        + ". Nothing has been written yet."@
}

pub fn import_summary(plan: &ImportPlan) -> (m: String)
    ensures
        m@ == import_summary_text(*plan),
{
    let mut m = String::new();
    push_str(&mut m, "Ready to restore ");
    push_decimal(&mut m, plan.adopt.config_count as u128);
    push_str(&mut m, " config file(s) and ");
    push_decimal(&mut m, plan.adopt.match_count as u128);
    push_str(&mut m, " match(es) into ");
    push_str(&mut m, plan.destination.as_str());
    push_str(&mut m, ". Nothing has been written yet.");
    proof {
        assert(m@ =~= import_summary_text(*plan));
    }
    m
}

/// The status line after a backup was restored.
pub open spec fn restored_text(plan: AdoptPlan, destination: Seq<char>) -> Seq<char> {
    "Restored "@ + decimal(plan.config_count as nat) + " config file(s), "@ + decimal(
        plan.match_count as nat,
    ) + " match(es) to "@ + destination + ". Restart Espanso."@
}

pub fn restored_message(plan: &AdoptPlan, destination: &str) -> (m: String)
    ensures
        m@ == restored_text(*plan, destination@),
{
    let mut m = String::new();
    push_str(&mut m, "Restored ");
    push_decimal(&mut m, plan.config_count as u128);
    push_str(&mut m, " config file(s), ");
    push_decimal(&mut m, plan.match_count as u128);
    push_str(&mut m, " match(es) to ");
    push_str(&mut m, destination);
    push_str(&mut m, ". Restart Espanso.");
    proof {
        assert(m@ =~= restored_text(*plan, destination@));
    }
    m
}

/// The status line after an export.
pub open spec fn exported_text(summary: ExportSummary) -> Seq<char> {
    "Backup exported: "@ + decimal(summary.file_count as nat) + " file(s) ("@ + decimal(
        summary.byte_count as nat,
    ) + " bytes) → "@ + summary.archive@ + "."@
}

pub fn exported_message(summary: &ExportSummary) -> (m: String)
    ensures
        m@ == exported_text(*summary),
{
    let mut m = String::new();
    push_str(&mut m, "Backup exported: ");
    push_decimal(&mut m, summary.file_count as u128);
    push_str(&mut m, " file(s) (");
    push_decimal(&mut m, summary.byte_count as u128);
    push_str(&mut m, " bytes) → ");
    push_str(&mut m, summary.archive.as_str());
    push_str(&mut m, ".");
    proof {
        assert(m@ =~= exported_text(*summary));
    }
    m
}

/// The summary shown before a copy to another folder.
pub open spec fn migration_summary_text(plan: MigrationPlan) -> Seq<char> {
    "Will copy "@ + decimal(plan.file_count as nat) + " file(s) ("@ + decimal(plan.byte_count as nat)
        + " bytes). The old directory will be kept."@
}

pub fn migration_summary(plan: &MigrationPlan) -> (m: String)
    ensures
        m@ == migration_summary_text(*plan),
{
    let mut m = String::new();
    push_str(&mut m, "Will copy ");
    push_decimal(&mut m, plan.file_count as u128);
    push_str(&mut m, " file(s) (");
    push_decimal(&mut m, plan.byte_count as u128);
    push_str(&mut m, " bytes). The old directory will be kept.");
    proof {
        assert(m@ =~= migration_summary_text(*plan));
    }
    m
}


// ---------------------------------------------------------------------------
// The rows of the match list
// ---------------------------------------------------------------------------

/// One row of the match list.
#[derive(Debug, PartialEq, Eq)]
pub struct MatchRow {
    /// The match's id; empty for a read-only row.
    pub id: String,
    /// The short name when the match has one, else its trigger.
    pub title: String,
    pub trigger: String,
    pub preview: String,
    /// The name of the match's category; empty when it has none.
    pub category_name: String,
    pub source_path: String,
    pub source_label: String,
    pub note: String,
    pub editable: bool,
}

/// The name of the first category with this id.
pub open spec fn category_lookup(categories: Seq<Category>, id: Seq<char>) -> Seq<char>
    decreases categories.len(),
{
    if categories.len() == 0 {
        Seq::empty()
    } else if categories[0].id@ == id {
        categories[0].name@
    } else {
        category_lookup(categories.drop_first(), id)
    }
}

/// The category name shown for a category id: none for an uncategorized
/// match, else the name of the category it names.
pub open spec fn category_name_of(categories: Seq<Category>, id: Seq<char>) -> Seq<char> {
    if id.len() == 0 {
        Seq::empty()
    } else {
        category_lookup(categories, id)
    }
}

/// The row of an owned match: its short name or trigger as the title, the
/// first line of its replacement as the preview, and its category's name.
pub open spec fn editable_row(r: MatchRow, m: UiMatch, categories: Seq<Category>) -> bool {
    &&& r.id@ == m.id@
    &&& r.title@ == (if m.short_name@.len() > 0 { m.short_name@ } else { m.trigger@ })
    &&& r.trigger@ == m.trigger@
    &&& r.preview@ == (match first_line(m.replace@) {
        Some(l) => l,
        None => Seq::empty(),
    })
    &&& r.category_name@ == category_name_of(categories, m.category_id@)
    &&& r.source_path@.len() == 0
    &&& r.source_label@.len() == 0
    &&& r.note@.len() == 0
    &&& r.editable
}

/// The row of a read-only match, which names the file it comes from.
pub open spec fn read_only_row(r: MatchRow, e: ExternalMatch) -> bool {
    &&& r.id@.len() == 0
    &&& r.title@ == e.trigger@
    &&& r.trigger@ == e.trigger@
    &&& r.preview@ == e.preview@
    &&& r.category_name@.len() == 0
    &&& r.source_path@ == e.source@
    &&& r.source_label@ == e.source_label@
    &&& r.note@ == e.note@
    &&& !r.editable
}

fn category_name(categories: &[Category], id: &str) -> (r: String)
    ensures
        r@ == category_name_of(categories@, id@),
{
    if id.is_empty() {
        return String::new();
    }
    assert(categories@.skip(0) =~= categories@);
    let mut i: usize = 0;
    while i < categories.len()
        invariant
            i <= categories@.len(),
            id@.len() > 0,
            category_lookup(categories@, id@) == category_lookup(categories@.skip(i as int), id@),
        decreases categories.len() - i,
    {
        proof {
            assert(categories@.skip(i as int).drop_first() =~= categories@.skip(i + 1));
            assert(categories@.skip(i as int)[0] == categories@[i as int]);
        }
        if same_text(categories[i].id.as_str(), id) {
            return categories[i].name.clone();
        }
        i = i + 1;
    }
    assert(categories@.skip(i as int) =~= Seq::<Category>::empty());
    String::new()
}

/// The rows of the match list: the listed owned matches first, as the ones
/// the user can act on, then the listed read-only matches.
pub fn match_rows(model: &SettingsModel) -> (rows: Vec<MatchRow>)
    ensures
        rows@.len() == visible_matches(model@).len() + visible_external(model@).len(),
        forall|i: int|
            0 <= i < visible_matches(model@).len() ==> editable_row(
                #[trigger] rows@[i],
                visible_matches(model@)[i],
                model@.categories,
            ),
        forall|i: int|
            0 <= i < visible_external(model@).len() ==> read_only_row(
                #[trigger] rows@[visible_matches(model@).len() + i],
                visible_external(model@)[i],
            ),
{
    let owned_rows = model.filtered_matches();
    let external_rows = model.filtered_external();
    let categories = model.categories();
    let ghost vm = visible_matches(model@);
    let ghost ve = visible_external(model@);
    assert(owned_rows@.len() == vm.len());
    let mut rows: Vec<MatchRow> = Vec::new();
    let mut i: usize = 0;
    while i < owned_rows.len()
        invariant
            i <= owned_rows@.len(),
            owned_rows@.len() == vm.len(),
            forall|k: int| 0 <= k < vm.len() ==> *owned_rows@[k] == vm[k],
            categories@ == model@.categories,
            rows@.len() == i,
            forall|k: int| 0 <= k < i ==> editable_row(#[trigger] rows@[k], vm[k], model@.categories),
        decreases owned_rows.len() - i,
    {
        let m: &UiMatch = owned_rows[i];
        let preview = match first_line_exec(m.replace.as_str()) {
            Some(line) => line,
            None => String::new(),
        };
        let title = if m.short_name.as_str().is_empty() {
            m.trigger.clone()
        } else {
            m.short_name.clone()
        };
        rows.push(
            MatchRow {
                id: m.id.clone(),
                title,
                trigger: m.trigger.clone(),
                preview,
                category_name: category_name(categories, m.category_id.as_str()),
                source_path: String::new(),
                source_label: String::new(),
                note: String::new(),
                editable: true,
            },
        );
        i = i + 1;
    }
    let n = rows.len();
    let mut j: usize = 0;
    while j < external_rows.len()
        invariant
            j <= external_rows@.len(),
            external_rows@.len() == ve.len(),
            forall|k: int| 0 <= k < ve.len() ==> *external_rows@[k] == ve[k],
            n == vm.len(),
            rows@.len() == n + j,
            forall|k: int| 0 <= k < n ==> editable_row(#[trigger] rows@[k], vm[k], model@.categories),
            forall|k: int| 0 <= k < j ==> read_only_row(#[trigger] rows@[n + k], ve[k]),
        decreases external_rows.len() - j,
    {
        let e: &ExternalMatch = external_rows[j];
        rows.push(
            MatchRow {
                id: String::new(),
                title: e.trigger.clone(),
                trigger: e.trigger.clone(),
                preview: e.preview.clone(),
                category_name: String::new(),
                source_path: e.source.clone(),
                source_label: e.source_label.clone(),
                note: e.note.clone(),
                editable: false,
            },
        );
        j = j + 1;
    }
    rows
}


/// A read-only row shows the match's own trigger as its title and trigger,
/// the match's preview as its preview, and its note only as its note; it
/// names the match's file and cannot be edited.
pub proof fn lemma_read_only_row_shows_the_match(r: MatchRow, e: ExternalMatch)
    requires
        read_only_row(r, e),
    ensures
        r.preview@ == e.preview@,
        r.note@ == e.note@,
        r.trigger@ == e.trigger@,
        r.title@ == e.trigger@,
        r.source_path@ == e.source@,
        r.source_label@ == e.source_label@,
        !r.editable,
{
}

} // verus!
