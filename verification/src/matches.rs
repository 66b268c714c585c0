//! The matches that Settings owns: their identity, their validation, and how
//! they are laid out in `match/ui.yml` and `match/ui-meta.json`.
use vstd::prelude::*;
use vstd::string::StrSliceExecFns;
use crate::meta::{
    copy_categories, document_from_matches, entries_map, keys_ascending, known_category,
    lemma_entries_map_at, meta_of_matches, Category, MatchMeta, MatchMetaMap, UiMetaDocument,
    UiMetaStore, meta_path_of, debug_quoted,
};
use crate::text::{
    contains_break_or_nul, contains_nul, decimal, has_break_or_nul, has_nul, join_component,
    join_path, push_decimal, push_str, same_text, starts_with, trim, trim_str,
};

verus! {

/// A match that Settings can edit.
#[derive(Debug, PartialEq, Eq)]
pub struct UiMatch {
    pub id: String,
    pub trigger: String,
    pub replace: String,
    /// Human-readable short name; stored as espanso `label` when non-empty.
    pub short_name: String,
    /// Free-form note; stored in `match/ui-meta.json`.
    pub description: String,
    /// Category id reference; empty means uncategorized.
    pub category_id: String,
}

impl Clone for UiMatch {
    fn clone(&self) -> (r: Self)
        ensures
            r == *self,
    {
        UiMatch {
            id: self.id.clone(),
            trigger: self.trigger.clone(),
            replace: self.replace.clone(),
            short_name: self.short_name.clone(),
            description: self.description.clone(),
            category_id: self.category_id.clone(),
        }
    }
}


/// The text view of a match.
pub struct UiMatchView {
    pub id: Seq<char>,
    pub trigger: Seq<char>,
    pub replace: Seq<char>,
    pub short_name: Seq<char>,
    pub description: Seq<char>,
    pub category_id: Seq<char>,
}

impl View for UiMatch {
    type V = UiMatchView;

    open spec fn view(&self) -> UiMatchView {
        UiMatchView {
            id: self.id@,
            trigger: self.trigger@,
            replace: self.replace@,
            short_name: self.short_name@,
            description: self.description@,
            category_id: self.category_id@,
        }
    }
}

/// The first line of `match/ui.yml`.
pub const MANAGED_HEADER: &'static str =
    "# Managed by Espanso Settings. Advanced rules may be edited in other files.\n";

/// The largest replacement, in characters, that Settings accepts.
pub const MAX_REPLACEMENT_CHARS: usize = 1_000_000;

/// One entry of `match/ui.yml` as it is stored.
#[derive(Debug, PartialEq, Eq)]
pub struct StoredMatch {
    /// Stable Settings identity. Unknown to the espanso engine (ignored).
    pub ui_id: Option<String>,
    /// Espanso search-bar label; used as the UI short name when present.
    pub label: Option<String>,
    pub trigger: String,
    pub replace: String,
}

/// Why a match list, or one of its matches, was refused.
#[derive(Debug, PartialEq, Eq)]
pub enum MatchError {
    BlankTrigger,
    MultilineTrigger,
    /// The trimmed trigger that occurs twice.
    DuplicateTrigger(String),
    ReplacementTooLong,
    MultilineShortName,
    NulInDescription,
    /// A trigger of another match file, as written there, and that file.
    TriggerInUse(String, String),
}

impl MatchError {
    /// The message the user is shown.
    pub fn message(&self) -> (m: String)
        ensures
            m@ == match self {
                MatchError::BlankTrigger => "trigger must not be blank"@,
                MatchError::MultilineTrigger => "trigger must be a single line without NUL characters"@,
                MatchError::DuplicateTrigger(t) => "duplicate trigger: "@ + t@,
                MatchError::ReplacementTooLong => "replacement exceeds the supported character limit"@,
                MatchError::MultilineShortName => "short name must be a single line without NUL characters"@,
                MatchError::NulInDescription => "description must not contain NUL characters"@,
                MatchError::TriggerInUse(t, file) => "trigger "@ + debug_quoted(t@)
                    + " already exists in "@ + file@,
            },
    {
        let mut m = String::new();
        match self {
            MatchError::BlankTrigger => push_str(&mut m, "trigger must not be blank"),
            MatchError::MultilineTrigger => push_str(
                &mut m,
                "trigger must be a single line without NUL characters",
            ),
            MatchError::DuplicateTrigger(t) => {
                push_str(&mut m, "duplicate trigger: ");
                push_str(&mut m, t.as_str());
            },
            MatchError::ReplacementTooLong => push_str(
                &mut m,
                "replacement exceeds the supported character limit",
            ),
            MatchError::MultilineShortName => push_str(
                &mut m,
                "short name must be a single line without NUL characters",
            ),
            MatchError::NulInDescription => push_str(
                &mut m,
                "description must not contain NUL characters",
            ),
            MatchError::TriggerInUse(t, file) => {
                push_str(&mut m, "trigger ");
                let quoted = crate::meta::debug_text(t.as_str());
                push_str(&mut m, quoted.as_str());
                push_str(&mut m, " already exists in ");
                push_str(&mut m, file.as_str());
            },
        }
        proof {
            assert(Seq::<char>::empty() + "trigger must not be blank"@ =~= "trigger must not be blank"@);
            assert(Seq::<char>::empty() + "trigger must be a single line without NUL characters"@ =~= "trigger must be a single line without NUL characters"@);
            assert(Seq::<char>::empty() + "replacement exceeds the supported character limit"@ =~= "replacement exceeds the supported character limit"@);
            assert(Seq::<char>::empty() + "short name must be a single line without NUL characters"@ =~= "short name must be a single line without NUL characters"@);
            assert(Seq::<char>::empty() + "description must not contain NUL characters"@ =~= "description must not contain NUL characters"@);
        }
        m
    }
}

/// Where Settings keeps the matches it owns.
#[derive(Debug)]
pub struct UiMatchRepository {
    config_root: String,
    path: String,
    meta: UiMetaStore,
}

/// `<config_root>/match/ui.yml`, joined with the separator `sep`.
pub open spec fn managed_path_of(config_root: Seq<char>, sep: char) -> Seq<char> {
    join_component(join_component(config_root, "match"@, sep), "ui.yml"@, sep)
}

impl UiMatchRepository {
    pub closed spec fn root_text(&self) -> Seq<char> {
        self.config_root@
    }

    pub closed spec fn path_text(&self) -> Seq<char> {
        self.path@
    }

    pub closed spec fn meta_path_text(&self) -> Seq<char> {
        self.meta.path_text()
    }

    /// The platform's primary path separator, with which the paths were
    /// joined.
    pub closed spec fn separator(&self) -> char {
        self.meta.separator()
    }

    pub fn new(config_root: &str) -> (r: Self)
        ensures
            r.root_text() == config_root@,
            r.path_text() == managed_path_of(config_root@, r.separator()),
            r.meta_path_text() == meta_path_of(config_root@, r.separator()),
    {
        let meta = UiMetaStore::new(config_root);
        let separator = meta.separator_char();
        let dir = join_path(config_root, "match", separator);
        UiMatchRepository {
            config_root: crate::text::owned(config_root),
            path: join_path(dir.as_str(), "ui.yml", separator),
            meta,
        }
    }

    pub fn config_root(&self) -> (p: &str)
        ensures
            p@ == self.root_text(),
    {
        self.config_root.as_str()
    }

    pub fn path(&self) -> (p: &str)
        ensures
            p@ == self.path_text(),
    {
        self.path.as_str()
    }

    pub fn meta_path(&self) -> (p: &str)
        ensures
            p@ == self.meta_path_text(),
    {
        self.meta.path()
    }
}

// ---------------------------------------------------------------------------
// Identity
// ---------------------------------------------------------------------------

/// The trimmed text, when it is not blank.
pub open spec fn present(value: Option<String>) -> Option<Seq<char>> {
    match value {
        Some(v) => if trim(v@).len() > 0 {
            Some(trim(v@))
        } else {
            None
        },
        None => None,
    }
}

/// Ids Settings itself hands out start with `ui-`.
pub open spec fn internal_id(value: Seq<char>) -> bool {
    "ui-"@.is_prefix_of(value) || "ui-match-"@.is_prefix_of(value)
}

/// The id given to the match at `index` that carries none.
pub open spec fn fallback_id(index: nat) -> Seq<char> {
    "ui-match-"@ + decimal(index)
}

/// The `(id, short_name)` of the stored match at `index`: its `ui_id` and
/// label when it has an id; a label that looks like an internal id is the
/// id of a legacy entry; any other label is the short name of an entry that
/// gets the fallback id.
pub open spec fn identity(index: nat, ui_id: Option<String>, label: Option<String>) -> (
    Seq<char>,
    Seq<char>,
) {
    match present(ui_id) {
        Some(id) => (
            id,
            match present(label) {
                Some(l) => l,
                None => Seq::empty(),
            },
        ),
        None => match present(label) {
            Some(l) => if internal_id(l) {
                (l, Seq::empty())
            } else {
                (fallback_id(index), l)
            },
            None => (fallback_id(index), Seq::empty()),
        },
    }
}

fn present_exec(value: &Option<String>) -> (r: Option<String>)
    ensures
        r matches Some(v) ==> present(*value) == Some(v@),
        r is None ==> present(*value) is None,
{
    match value {
        Some(v) => {
            let t = trim_str(v.as_str());
            if t.as_str().is_empty() {
                None
            } else {
                Some(t)
            }
        },
        None => None,
    }
}

pub fn looks_like_internal_id(value: &str) -> (r: bool)
    ensures
        r == internal_id(value@),
{
    starts_with(value, "ui-") || starts_with(value, "ui-match-")
}

fn fallback_id_exec(index: usize) -> (r: String)
    ensures
        r@ == fallback_id(index as nat),
{
    let mut r = String::new();
    push_str(&mut r, "ui-match-");
    push_decimal(&mut r, index as u128);
    proof {
        assert(r@ =~= "ui-match-"@ + decimal(index as nat));
    }
    r
}

pub fn resolve_identity(index: usize, ui_id: Option<String>, label: Option<String>) -> (r: (
    String,
    String,
))
    ensures
        (r.0@, r.1@) == identity(index as nat, ui_id, label),
{
    let id = present_exec(&ui_id);
    let short = present_exec(&label);
    match id {
        Some(id) => {
            let short_name = match short {
                Some(l) => l,
                None => String::new(),
            };
            (id, short_name)
        },
        None => match short {
            Some(l) => {
                if looks_like_internal_id(l.as_str()) {
                    (l, String::new())
                } else {
                    (fallback_id_exec(index), l)
                }
            },
            None => (fallback_id_exec(index), String::new()),
        },
    }
}

/// `Some` of the text unless it is empty.
pub fn non_empty(value: &str) -> (r: Option<String>)
    ensures
        value@.len() == 0 ==> r is None,
        value@.len() > 0 ==> (r matches Some(v) && v@ == value@),
{
    if value.is_empty() {
        None
    } else {
        Some(crate::text::owned(value))
    }
}

// ---------------------------------------------------------------------------
// Validation
// ---------------------------------------------------------------------------

/// Why one match of a list is refused.
pub enum MatchFault {
    BlankTrigger,
    MultilineTrigger,
    DuplicateTrigger,
    ReplacementTooLong,
    MultilineShortName,
    NulInDescription,
}

/// The first rule that match `i` breaks, given the ones before it.
pub open spec fn match_fault(matches: Seq<UiMatch>, i: int) -> Option<MatchFault> {
    let m = matches[i];
    let normalized = trim(m.trigger@);
    if normalized.len() == 0 {
        Some(MatchFault::BlankTrigger)
    } else if has_break_or_nul(m.trigger@) {
        Some(MatchFault::MultilineTrigger)
    } else if exists|j: int| 0 <= j < i && trim((#[trigger] matches[j]).trigger@) == normalized {
        Some(MatchFault::DuplicateTrigger)
    } else if m.replace@.len() > MAX_REPLACEMENT_CHARS {
        Some(MatchFault::ReplacementTooLong)
    } else if has_break_or_nul(m.short_name@) {
        Some(MatchFault::MultilineShortName)
    } else if has_nul(m.description@) {
        Some(MatchFault::NulInDescription)
    } else {
        None
    }
}

/// `e` is the error reported for match `m` breaking `fault`.
pub open spec fn reports_match(e: MatchError, fault: MatchFault, m: UiMatch) -> bool {
    match fault {
        MatchFault::BlankTrigger => e == MatchError::BlankTrigger,
        MatchFault::MultilineTrigger => e == MatchError::MultilineTrigger,
        MatchFault::DuplicateTrigger => e matches MatchError::DuplicateTrigger(t) && t@ == trim(m.trigger@),
        MatchFault::ReplacementTooLong => e == MatchError::ReplacementTooLong,
        MatchFault::MultilineShortName => e == MatchError::MultilineShortName,
        MatchFault::NulInDescription => e == MatchError::NulInDescription,
    }
}

/// Every match of the list keeps every rule.
pub open spec fn matches_valid(matches: Seq<UiMatch>) -> bool {
    forall|i: int| 0 <= i < matches.len() ==> match_fault(matches, i) is None
}

/// `e` is the error reported for the first match of the list that breaks a rule.
pub open spec fn reports_first_fault(matches: Seq<UiMatch>, e: MatchError) -> bool {
    exists|i: int|
        0 <= i < matches.len() && (forall|j: int| 0 <= j < i ==> match_fault(matches, j) is None)
            && #[trigger] match_fault(matches, i) is Some && reports_match(
            e,
            match_fault(matches, i).unwrap(),
            matches[i],
        )
}

/// Checks, in list order, that each trigger is set, single-line and unique
/// after trimming, that each replacement fits the character limit, that each
/// short name is single-line, and that no description holds a NUL.
#[verifier::loop_isolation(false)]
pub fn validate_matches(matches: &[UiMatch]) -> (r: Result<(), MatchError>)
    ensures
        r is Ok <==> matches_valid(matches@),
        r matches Err(e) ==> reports_first_fault(matches@, e),
{
    let mut normalized: Vec<String> = Vec::new();
    let mut i: usize = 0;
    while i < matches.len()
        invariant
            i <= matches@.len(),
            normalized@.len() == i,
            forall|j: int| 0 <= j < i ==> (#[trigger] normalized@[j])@ == trim(matches@[j].trigger@),
            forall|j: int| 0 <= j < i ==> match_fault(matches@, j) is None,
        decreases matches.len() - i,
    {
        let item = &matches[i];
        let t = trim_str(item.trigger.as_str());
        if t.as_str().is_empty() {
            proof {
                assert(match_fault(matches@, i as int) == Some(MatchFault::BlankTrigger));
            }
            return Err(MatchError::BlankTrigger);
        }
        if contains_break_or_nul(item.trigger.as_str()) {
            proof {
                assert(match_fault(matches@, i as int) == Some(MatchFault::MultilineTrigger));
            }
            return Err(MatchError::MultilineTrigger);
        }
        let mut j: usize = 0;
        while j < i
            invariant
                i < matches@.len(),
                normalized@.len() == i,
                forall|k: int| 0 <= k < i ==> (#[trigger] normalized@[k])@ == trim(matches@[k].trigger@),
                j <= i,
                t@ == trim(matches@[i as int].trigger@),
                forall|k: int| 0 <= k < j ==> trim((#[trigger] matches@[k]).trigger@) != t@,
            decreases i - j,
        {
            if same_text(normalized[j].as_str(), t.as_str()) {
                proof {
                    assert(trim(matches@[j as int].trigger@) == t@);
                    assert(match_fault(matches@, i as int) == Some(MatchFault::DuplicateTrigger));
                }
                return Err(MatchError::DuplicateTrigger(t));
            }
            j = j + 1;
        }
        if item.replace.as_str().unicode_len() > MAX_REPLACEMENT_CHARS {
            proof {
                assert(match_fault(matches@, i as int) == Some(MatchFault::ReplacementTooLong));
            }
            return Err(MatchError::ReplacementTooLong);
        }
        if contains_break_or_nul(item.short_name.as_str()) {
            proof {
                assert(match_fault(matches@, i as int) == Some(MatchFault::MultilineShortName));
            }
            return Err(MatchError::MultilineShortName);
        }
        if contains_nul(item.description.as_str()) {
            proof {
                assert(match_fault(matches@, i as int) == Some(MatchFault::NulInDescription));
            }
            return Err(MatchError::NulInDescription);
        }
        proof {
            assert(match_fault(matches@, i as int) is None);
        }
        normalized.push(t);
        i = i + 1;
    }
    Ok(())
}

// ---------------------------------------------------------------------------
// Loading and saving
// ---------------------------------------------------------------------------

/// The category a loaded match keeps: the one its metadata names, when that
/// category exists, else none.
pub open spec fn kept_category(categories: Seq<Category>, category_id: Seq<char>) -> Seq<char> {
    if category_id.len() > 0 && known_category(categories, category_id) {
        category_id
    } else {
        Seq::empty()
    }
}

/// The match that the stored entry at `index` loads as, given the metadata.
pub open spec fn loaded_match(
    index: nat,
    stored: StoredMatch,
    meta: Map<Seq<char>, (Seq<char>, Seq<char>)>,
    categories: Seq<Category>,
) -> UiMatchView {
    let (id, short_name) = identity(index, stored.ui_id, stored.label);
    let (description, category_id) = if meta.contains_key(id) {
        meta[id]
    } else {
        (Seq::empty(), Seq::empty())
    };
    UiMatchView {
        id,
        trigger: stored.trigger@,
        replace: stored.replace@,
        short_name,
        description,
        category_id: kept_category(categories, category_id),
    }
}

/// The views of a match list.
pub open spec fn match_views(matches: Seq<UiMatch>) -> Seq<UiMatchView> {
    matches.map_values(|m: UiMatch| m@)
}

/// What the stored entries load as, given the metadata and the categories.
pub open spec fn loaded_views(
    stored: Seq<StoredMatch>,
    meta: Map<Seq<char>, (Seq<char>, Seq<char>)>,
    categories: Seq<Category>,
) -> Seq<UiMatchView> {
    Seq::new(stored.len(), |i: int| loaded_match(i as nat, stored[i], meta, categories))
}

fn copy_option(value: &Option<String>) -> (r: Option<String>)
    ensures
        r == *value,
{
    match value {
        Some(v) => Some(v.clone()),
        None => None,
    }
}

fn find_known_category(categories: &[Category], id: &str) -> (r: bool)
    ensures
        r == known_category(categories@, id@),
{
    let mut j: usize = 0;
    while j < categories.len()
        invariant
            j <= categories@.len(),
            forall|k: int| 0 <= k < j ==> (#[trigger] categories@[k]).id@ != id@,
        decreases categories.len() - j,
    {
        if same_text(categories[j].id.as_str(), id) {
            return true;
        }
        j = j + 1;
    }
    false
}

/// Turns the stored entries of `match/ui.yml` and the metadata document into
/// the match list and category directory that Settings edits, then checks the
/// list as a save would.
pub fn matches_from_stored(stored: Vec<StoredMatch>, meta: &UiMetaDocument) -> (r: Result<
    (Vec<UiMatch>, Vec<Category>),
    MatchError,
>)
    ensures
        ({
            let expected = loaded_views(stored@, meta.matches@, meta.categories@);
            &&& r matches Ok((matches, categories)) ==> match_views(matches@) == expected
                && categories@ == meta.categories@ && matches_valid(matches@)
            &&& r matches Err(e) ==> exists|loaded: Seq<UiMatch>|
                match_views(loaded) == expected && !matches_valid(loaded) && reports_first_fault(
                    loaded,
                    e,
                )
            &&& r is Err ==> exists|loaded: Seq<UiMatch>|
                match_views(loaded) == expected && !matches_valid(loaded)
        }),
{
    let ghost expected = Seq::new(
        stored@.len(),
        |i: int| loaded_match(i as nat, stored@[i], meta.matches@, meta.categories@),
    );
    let mut matches: Vec<UiMatch> = Vec::new();
    let mut index: usize = 0;
    let n = stored.len();
    while index < n
        invariant
            n == stored@.len(),
            index <= n,
            matches@.len() == index,
            forall|k: int| 0 <= k < index ==> (#[trigger] matches@[k])@ == expected[k],
            expected == Seq::new(
                stored@.len(),
                |i: int| loaded_match(i as nat, stored@[i], meta.matches@, meta.categories@),
            ),
        decreases n - index,
    {
        let item = &stored[index];
        let ghost item_view = *item;
        let ui_id = copy_option(&item.ui_id);
        let label = copy_option(&item.label);
        let trigger = item.trigger.clone();
        let replace = item.replace.clone();
        let (id, short_name) = resolve_identity(index, ui_id, label);
        let (description, category_id) = match meta.matches.get(id.as_str()) {
            Some(entry) => (entry.description.clone(), entry.category_id.clone()),
            None => (String::new(), String::new()),
        };
        let category_id = if !category_id.as_str().is_empty() && find_known_category(
            meta.categories.as_slice(),
            category_id.as_str(),
        ) {
            category_id
        } else {
            String::new()
        };
        let m = UiMatch { id, trigger, replace, short_name, description, category_id };
        proof {
            assert(m@ == loaded_match(index as nat, item_view, meta.matches@, meta.categories@));
        }
        matches.push(m);
        index = index + 1;
    }
    proof {
        assert(match_views(matches@) =~= expected);
    }
    match validate_matches(matches.as_slice()) {
        Ok(()) => Ok((matches, copy_categories(meta.categories.as_slice()))),
        Err(e) => Err(e),
    }
}

/// The entries that `match/ui.yml` holds for a match list: each match with
/// its id, its trimmed short name as label when there is one, its trigger and
/// its replacement.
pub open spec fn stored_for(m: UiMatch, s: StoredMatch) -> bool {
    &&& s.ui_id matches Some(id) && id@ == m.id@
    &&& if trim(m.short_name@).len() == 0 {
        s.label is None
    } else {
        s.label matches Some(l) && l@ == trim(m.short_name@)
    }
    &&& s.trigger@ == m.trigger@
    &&& s.replace@ == m.replace@
}

pub fn stored_from_matches(matches: &[UiMatch]) -> (r: Vec<StoredMatch>)
    ensures
        r@.len() == matches@.len(),
        forall|i: int| 0 <= i < matches@.len() ==> stored_for(matches@[i], #[trigger] r@[i]),
{
    let mut r: Vec<StoredMatch> = Vec::new();
    let mut i: usize = 0;
    while i < matches.len()
        invariant
            i <= matches@.len(),
            r@.len() == i,
            forall|k: int| 0 <= k < i ==> stored_for(matches@[k], #[trigger] r@[k]),
        decreases matches.len() - i,
    {
        let item = &matches[i];
        let short = trim_str(item.short_name.as_str());
        r.push(
            StoredMatch {
                ui_id: Some(item.id.clone()),
                label: non_empty(short.as_str()),
                trigger: item.trigger.clone(),
                replace: item.replace.clone(),
            },
        );
        i = i + 1;
    }
    r
}

/// `triggers[i]`, trimmed, is the trimmed trigger of one of `matches`.
pub open spec fn trigger_taken(matches: Seq<UiMatch>, trigger: Seq<char>) -> bool {
    exists|j: int| 0 <= j < matches.len() && trim((#[trigger] matches[j]).trigger@) == trim(trigger)
}

/// `e` reports that `trigger` of `file` is already in use.
pub open spec fn reports_trigger(e: MatchError, trigger: Seq<char>, file: Seq<char>) -> bool {
    e matches MatchError::TriggerInUse(t, f) && t@ == trigger && f@ == file
}

/// Refuses a save whose triggers another match file already uses: `triggers`
/// are that file's triggers in order, and the first one that, trimmed, equals
/// a trimmed trigger of `matches` is reported with the file.
#[verifier::loop_isolation(false)]
pub fn check_external_triggers(matches: &[UiMatch], triggers: &[String], file: &str) -> (r: Result<
    (),
    MatchError,
>)
    ensures
        r is Ok <==> forall|i: int| 0 <= i < triggers@.len() ==> !trigger_taken(matches@, #[trigger] triggers@[i]@),
        r matches Err(e) ==> exists|i: int|
            0 <= i < triggers@.len() && (forall|j: int| 0 <= j < i ==> !trigger_taken(matches@, #[trigger] triggers@[j]@))
                && trigger_taken(matches@, #[trigger] triggers@[i]@) && reports_trigger(
                e,
                triggers@[i]@,
                file@,
            ),
{
    let mut i: usize = 0;
    while i < triggers.len()
        invariant
            i <= triggers@.len(),
            forall|j: int| 0 <= j < i ==> !trigger_taken(matches@, #[trigger] triggers@[j]@),
        decreases triggers.len() - i,
    {
        let t = trim_str(triggers[i].as_str());
        let mut j: usize = 0;
        while j < matches.len()
            invariant
                i < triggers@.len(),
                j <= matches@.len(),
                t@ == trim(triggers@[i as int]@),
                forall|k: int| 0 <= k < j ==> trim((#[trigger] matches@[k]).trigger@) != t@,
            decreases matches.len() - j,
        {
            let candidate = trim_str(matches[j].trigger.as_str());
            if same_text(candidate.as_str(), t.as_str()) {
                proof {
                    assert(trim(matches@[j as int].trigger@) == trim(triggers@[i as int]@));
                    assert(trigger_taken(matches@, triggers@[i as int]@));
                }
                return Err(MatchError::TriggerInUse(triggers[i].clone(), crate::text::owned(file)));
            }
            j = j + 1;
        }
        i = i + 1;
    }
    Ok(())
}

/// The category a saved entry keeps: cleared when it names no category.
pub open spec fn cleaned(categories: Seq<Category>, value: (Seq<char>, Seq<char>)) -> (Seq<char>, Seq<char>) {
    (value.0, if value.1.len() > 0 && !known_category(categories, value.1) {
        Seq::empty()
    } else {
        value.1
    })
}

/// The metadata a save writes: the metadata of the matches, with references
/// to unknown categories cleared and then entries left with neither a
/// description nor a category dropped.
pub open spec fn meta_for_save(categories: Seq<Category>, matches: Seq<UiMatch>) -> Map<
    Seq<char>,
    (Seq<char>, Seq<char>),
> {
    let m = meta_of_matches(matches);
    Map::new(
        |k: Seq<char>|
            m.contains_key(k) && (trim(cleaned(categories, m[k]).0).len() > 0 || trim(
                cleaned(categories, m[k]).1,
            ).len() > 0),
        |k: Seq<char>| cleaned(categories, m[k]),
    )
}

pub fn meta_document_for_save(categories: &[Category], matches: &[UiMatch]) -> (d: UiMetaDocument)
    ensures
        d.version == 1,
        d.categories@ == categories@,
        d.matches@ == meta_for_save(categories@, matches@),
{
    let built = document_from_matches(categories, matches);
    let entries = built.matches.entries();
    let ghost m = built.matches@;
    let mut out = MatchMetaMap::new();
    let mut i: usize = 0;
    while i < entries.len()
        invariant
            keys_ascending(entries@),
            m == entries_map(entries@),
            m == meta_of_matches(matches@),
            built.categories@ == categories@,
            i <= entries@.len(),
            out@ == Map::new(
                |k: Seq<char>|
                    (exists|j: int| 0 <= j < i && #[trigger] entries@[j].0@ == k) && m.contains_key(k)
                        && (trim(cleaned(categories@, m[k]).0).len() > 0 || trim(
                        cleaned(categories@, m[k]).1,
                    ).len() > 0),
                |k: Seq<char>| cleaned(categories@, m[k]),
            ),
        decreases entries.len() - i,
    {
        let key = &entries[i].0;
        let value = &entries[i].1;
        let category_id = if !value.category_id.as_str().is_empty() && !find_known_category(
            built.categories.as_slice(),
            value.category_id.as_str(),
        ) {
            String::new()
        } else {
            value.category_id.clone()
        };
        let description = value.description.clone();
        let keep_description = trim_str(description.as_str());
        let keep_category = trim_str(category_id.as_str());
        let ghost before = out@;
        proof {
            lemma_entries_map_at(entries@, i as int);
        }
        if !keep_description.as_str().is_empty() || !keep_category.as_str().is_empty() {
            out.insert(key.clone(), MatchMeta { description, category_id });
        }
        proof {
            let k0 = entries@[i as int].0@;
            assert forall|k: Seq<char>|
                #![trigger out@.contains_key(k)]
                out@.contains_key(k) <==> ((exists|j: int| 0 <= j < i + 1 && #[trigger] entries@[j].0@ == k)
                    && m.contains_key(k) && (trim(cleaned(categories@, m[k]).0).len() > 0 || trim(
                    cleaned(categories@, m[k]).1,
                ).len() > 0)) by {
                if k == k0 {
                } else {
                    if exists|j: int| 0 <= j < i + 1 && #[trigger] entries@[j].0@ == k {
                        let j = choose|j: int| 0 <= j < i + 1 && #[trigger] entries@[j].0@ == k;
                        assert(j != i);
                    }
                }
            }
            assert(out@ =~= Map::new(
                |k: Seq<char>|
                    (exists|j: int| 0 <= j < i + 1 && #[trigger] entries@[j].0@ == k) && m.contains_key(k)
                        && (trim(cleaned(categories@, m[k]).0).len() > 0 || trim(
                        cleaned(categories@, m[k]).1,
                    ).len() > 0),
                |k: Seq<char>| cleaned(categories@, m[k]),
            ));
        }
        i = i + 1;
    }
    proof {
        assert forall|k: Seq<char>| m.contains_key(k) implies (exists|j: int|
            0 <= j < entries@.len() && #[trigger] entries@[j].0@ == k) by {
        }
        assert(out@ =~= meta_for_save(categories@, matches@));
    }
    UiMetaDocument { version: 1, categories: built.categories, matches: out }
}


// ---------------------------------------------------------------------------
// Planning a save
// ---------------------------------------------------------------------------

/// The triggers of one match file that Settings does not own.
#[derive(Debug, PartialEq, Eq)]
pub struct ExternalTriggers {
    pub file: String,
    pub triggers: Vec<String>,
}

/// What a save writes: the entries of `match/ui.yml` and the metadata
/// document of `match/ui-meta.json`.
#[derive(Debug, PartialEq, Eq)]
pub struct SavePlan {
    pub entries: Vec<StoredMatch>,
    pub meta: UiMetaDocument,
}

/// No trigger of the file is taken by one of `matches`.
pub open spec fn file_clear(matches: Seq<UiMatch>, file: ExternalTriggers) -> bool {
    forall|i: int| 0 <= i < file.triggers@.len() ==> !trigger_taken(matches, #[trigger] file.triggers@[i]@)
}

/// `e` reports the first trigger of `file` that one of `matches` takes.
pub open spec fn reports_first_taken(matches: Seq<UiMatch>, file: ExternalTriggers, e: MatchError) -> bool {
    exists|i: int|
        0 <= i < file.triggers@.len() && (forall|j: int|
            0 <= j < i ==> !trigger_taken(matches, #[trigger] file.triggers@[j]@)) && trigger_taken(
            matches,
            #[trigger] file.triggers@[i]@,
        ) && reports_trigger(e, file.triggers@[i]@, file.file@)
}

/// Plans the save of a match list: the list must pass validation, then no
/// trigger of another match file (in the order given, each file's triggers
/// in order) may be one of its triggers; the plan holds the entries for
/// `ui.yml` and the metadata for `ui-meta.json`. Nothing is planned for a
/// list that is refused.
#[verifier::loop_isolation(false)]
pub fn plan_save(matches: &[UiMatch], categories: &[Category], external: &[ExternalTriggers]) -> (r:
    Result<SavePlan, MatchError>)
    ensures
        r is Ok <==> matches_valid(matches@) && forall|f: int|
            0 <= f < external@.len() ==> file_clear(matches@, #[trigger] external@[f]),
        !matches_valid(matches@) ==> (r matches Err(e) && reports_first_fault(matches@, e)),
        matches_valid(matches@) && r is Err ==> (r matches Err(e) && exists|f: int|
            0 <= f < external@.len() && (forall|g: int| 0 <= g < f ==> file_clear(matches@, #[trigger] external@[g]))
                && reports_first_taken(matches@, #[trigger] external@[f], e)),
        r matches Ok(plan) ==> ({
            &&& plan.entries@.len() == matches@.len()
            &&& forall|i: int| 0 <= i < matches@.len() ==> stored_for(matches@[i], #[trigger] plan.entries@[i])
            &&& plan.meta.version == 1
            &&& plan.meta.categories@ == categories@
            &&& plan.meta.matches@ == meta_for_save(categories@, matches@)
        }),
{
    match validate_matches(matches) {
        Err(e) => return Err(e),
        Ok(()) => {},
    }
    let mut f: usize = 0;
    while f < external.len()
        invariant
            f <= external@.len(),
            matches_valid(matches@),
            forall|g: int| 0 <= g < f ==> file_clear(matches@, #[trigger] external@[g]),
        decreases external.len() - f,
    {
        let file = &external[f];
        match check_external_triggers(matches, file.triggers.as_slice(), file.file.as_str()) {
            Err(e) => {
                proof {
                    assert(reports_first_taken(matches@, external@[f as int], e));
                }
                return Err(e);
            },
            Ok(()) => {
                proof {
                    assert(file_clear(matches@, external@[f as int]));
                }
            },
        }
        f = f + 1;
    }
    let entries = stored_from_matches(matches);
    let meta = meta_document_for_save(categories, matches);
    Ok(SavePlan { entries, meta })
}

// ---------------------------------------------------------------------------
// What a load gives back of a save
// ---------------------------------------------------------------------------

/// A match keeps its shape through `ui.yml` and `ui-meta.json`: its id is
/// non-empty and trimmed, its short name, description and category id are
/// trimmed, and its category id is empty or names one of `categories`.
pub open spec fn survives_save(categories: Seq<Category>, m: UiMatch) -> bool {
    &&& m.id@.len() > 0
    &&& trim(m.id@) == m.id@
    &&& trim(m.short_name@) == m.short_name@
    &&& trim(m.description@) == m.description@
    &&& trim(m.category_id@) == m.category_id@
    &&& (m.category_id@.len() == 0 || known_category(categories, m.category_id@))
}

/// Every match survives a save, and matches that share an id share their
/// description and category (the metadata file holds one entry per id).
pub open spec fn list_survives_save(categories: Seq<Category>, matches: Seq<UiMatch>) -> bool {
    &&& forall|i: int| 0 <= i < matches.len() ==> survives_save(categories, #[trigger] matches[i])
    &&& forall|i: int, j: int|
        0 <= i < matches.len() && 0 <= j < matches.len() && (#[trigger] matches[i]).id@
            == (#[trigger] matches[j]).id@ ==> matches[i].description@ == matches[j].description@
            && matches[i].category_id@ == matches[j].category_id@
}

/// The metadata of a match, trimmed, is not empty.
pub open spec fn has_meta(m: UiMatch) -> bool {
    trim(m.description@).len() > 0 || trim(m.category_id@).len() > 0
}

proof fn lemma_meta_keys(matches: Seq<UiMatch>, k: Seq<char>)
    requires
        meta_of_matches(matches).contains_key(k),
    ensures
        exists|j: int| 0 <= j < matches.len() && (#[trigger] matches[j]).id@ == k && has_meta(matches[j]),
    decreases matches.len(),
{
    let rest = matches.drop_last();
    let last = matches.last();
    if has_meta(last) && last.id@ == k {
        assert(matches[matches.len() - 1] == last);
    } else {
        lemma_meta_keys(rest, k);
        let j = choose|j: int| 0 <= j < rest.len() && (#[trigger] rest[j]).id@ == k && has_meta(rest[j]);
        assert(matches[j] == rest[j]);
    }
}

proof fn lemma_meta_of_survivor(categories: Seq<Category>, matches: Seq<UiMatch>, i: int)
    requires
        list_survives_save(categories, matches),
        0 <= i < matches.len(),
    ensures
        meta_of_matches(matches).contains_key(matches[i].id@) <==> has_meta(matches[i]),
        has_meta(matches[i]) ==> meta_of_matches(matches)[matches[i].id@] == (
            matches[i].description@,
            matches[i].category_id@,
        ),
    decreases matches.len(),
{
    let n = matches.len();
    let rest = matches.drop_last();
    let last = matches.last();
    let id = matches[i].id@;
    assert(matches[n - 1] == last);
    assert(survives_save(categories, matches[i]));
    assert(survives_save(categories, matches[n - 1]));
    assert(list_survives_save(categories, rest)) by {
        assert forall|a: int| 0 <= a < rest.len() implies survives_save(categories, #[trigger] rest[a]) by {
            assert(rest[a] == matches[a]);
        }
        assert forall|a: int, b: int|
            0 <= a < rest.len() && 0 <= b < rest.len() && (#[trigger] rest[a]).id@ == (#[trigger] rest[b]).id@
            implies rest[a].description@ == rest[b].description@ && rest[a].category_id@
            == rest[b].category_id@ by {
            assert(rest[a] == matches[a] && rest[b] == matches[b]);
        }
    }
    if last.id@ == id {
        assert(matches[i].id@ == matches[n - 1].id@);
        assert(last.description@ == matches[i].description@ && last.category_id@ == matches[i].category_id@);
        if !has_meta(last) {
            if meta_of_matches(rest).contains_key(id) {
                lemma_meta_keys(rest, id);
                let j = choose|j: int| 0 <= j < rest.len() && (#[trigger] rest[j]).id@ == id && has_meta(rest[j]);
                assert(rest[j] == matches[j]);
                assert(matches[j].id@ == matches[i].id@);
            }
        }
    } else {
        assert(i < n - 1);
        assert(rest[i] == matches[i]);
        lemma_meta_of_survivor(categories, rest, i);
    }
}

proof fn lemma_loads_back(categories: Seq<Category>, matches: Seq<UiMatch>, stored: Seq<StoredMatch>, i: int)
    requires
        list_survives_save(categories, matches),
        stored.len() == matches.len(),
        forall|k: int| 0 <= k < matches.len() ==> stored_for(matches[k], #[trigger] stored[k]),
        0 <= i < matches.len(),
    ensures
        loaded_match(i as nat, stored[i], meta_for_save(categories, matches), categories) == matches[i]@,
{
    let m = matches[i];
    let s = stored[i];
    assert(stored_for(m, s));
    assert(survives_save(categories, m));
    lemma_meta_of_survivor(categories, matches, i);
    let meta = meta_for_save(categories, matches);
    let all = meta_of_matches(matches);
    if has_meta(m) {
        assert(cleaned(categories, all[m.id@]) == (m.description@, m.category_id@));
        assert(meta.contains_key(m.id@));
    } else {
        assert(!meta.contains_key(m.id@));
        assert(m.description@.len() == 0);
        assert(m.category_id@.len() == 0);
    }
    if trim(m.short_name@).len() == 0 {
        assert(m.short_name@ =~= Seq::<char>::empty());
    }
    let loaded = loaded_match(i as nat, s, meta, categories);
    assert(loaded.id == m.id@);
    assert(loaded.short_name == m.short_name@);
    assert(loaded.description == m.description@);
    assert(loaded.category_id == m.category_id@);
}

/// Whether a list passes validation depends on the views of its matches only.
pub proof fn lemma_validity_by_views(a: Seq<UiMatch>, b: Seq<UiMatch>)
    requires
        match_views(a) == match_views(b),
    ensures
        matches_valid(a) <==> matches_valid(b),
{
    assert(a.len() == match_views(a).len());
    assert forall|k: int| 0 <= k < a.len() implies (#[trigger] a[k])@ == b[k]@ by {
        assert(match_views(a)[k] == a[k]@);
        assert(match_views(b)[k] == b[k]@);
    }
    assert forall|i: int| 0 <= i < a.len() implies match_fault(a, i) == match_fault(b, i) by {
        assert(a[i]@ == b[i]@);
        assert((exists|j: int| 0 <= j < i && trim((#[trigger] a[j]).trigger@) == trim(a[i].trigger@)) <==> (
        exists|j: int| 0 <= j < i && trim((#[trigger] b[j]).trigger@) == trim(b[i].trigger@))) by {
            if exists|j: int| 0 <= j < i && trim((#[trigger] a[j]).trigger@) == trim(a[i].trigger@) {
                let j = choose|j: int| 0 <= j < i && trim((#[trigger] a[j]).trigger@) == trim(a[i].trigger@);
                assert(a[j]@ == b[j]@);
            }
            if exists|j: int| 0 <= j < i && trim((#[trigger] b[j]).trigger@) == trim(b[i].trigger@) {
                let j = choose|j: int| 0 <= j < i && trim((#[trigger] b[j]).trigger@) == trim(b[i].trigger@);
                assert(a[j]@ == b[j]@);
            }
        }
    }
}

/// Saving a match list and loading what was saved gives the list back.
///
/// The entries written to `ui.yml` (`stored_from_matches`) and the metadata
/// written to `ui-meta.json` (`meta_document_for_save`) load
/// (`matches_from_stored`) as exactly the saved matches, for every list
/// whose matches survive a save; the loaded list then passes validation
/// exactly when the saved one did, and the categories come back unchanged.
pub proof fn lemma_save_then_load(categories: Seq<Category>, matches: Seq<UiMatch>, stored: Seq<StoredMatch>)
    requires
        list_survives_save(categories, matches),
        stored.len() == matches.len(),
        forall|i: int| 0 <= i < matches.len() ==> stored_for(matches[i], #[trigger] stored[i]),
    ensures
        loaded_views(stored, meta_for_save(categories, matches), categories) == match_views(matches),
        forall|loaded: Seq<UiMatch>|
            #[trigger] match_views(loaded) == match_views(matches) ==> (matches_valid(loaded)
                <==> matches_valid(matches)),
{
    let meta = meta_for_save(categories, matches);
    assert forall|i: int| 0 <= i < matches.len() implies #[trigger] loaded_views(stored, meta, categories)[i]
        == match_views(matches)[i] by {
        lemma_loads_back(categories, matches, stored, i);
    }
    assert(loaded_views(stored, meta, categories) =~= match_views(matches));
    assert forall|loaded: Seq<UiMatch>|
        #[trigger] match_views(loaded) == match_views(matches) implies (matches_valid(loaded)
            <==> matches_valid(matches)) by {
        lemma_validity_by_views(loaded, matches);
    }
}


/// The metadata a save writes keeps only matches that are saved, never
/// names a category that does not exist, and holds no empty entry.
pub proof fn lemma_saved_meta_is_clean(categories: Seq<Category>, matches: Seq<UiMatch>)
    ensures
        forall|k: Seq<char>|
            #[trigger] meta_for_save(categories, matches).contains_key(k) ==> ({
                let v = meta_for_save(categories, matches)[k];
                &&& exists|i: int| 0 <= i < matches.len() && (#[trigger] matches[i]).id@ == k
                &&& v.1.len() == 0 || known_category(categories, v.1)
                &&& trim(v.0).len() > 0 || trim(v.1).len() > 0
            }),
{
    assert forall|k: Seq<char>| #[trigger] meta_for_save(categories, matches).contains_key(k) implies exists|i: int|
        0 <= i < matches.len() && (#[trigger] matches[i]).id@ == k by {
        lemma_meta_keys(matches, k);
    }
}

} // verus!
