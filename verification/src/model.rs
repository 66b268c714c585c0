//! The state of the Settings window and how each user action changes it.
//!
//! The window only draws this state and reports actions; every decision about
//! tabs, unsaved drafts, pending deletions and filtering is made here.
use vstd::prelude::*;
use crate::inventory::ExternalMatch;
use crate::matches::UiMatch;
use crate::meta::{create_category, is_category_id, name_taken, next_order, Category, MetaError};
use crate::text::{contains_str, has_break_or_nul, has_substring, lowercase, to_lowercase, trim};

verus! {

#[derive(Debug, Clone, Copy, PartialEq, Eq, Structural)]
pub enum SettingsTab {
    Settings,
    Configuration,
}

impl Default for SettingsTab {
    fn default() -> (t: Self)
        ensures
            t == SettingsTab::Settings,
    {
        SettingsTab::Settings
    }
}

/// Which owned matches the list shows by category.
#[derive(Debug, PartialEq, Eq)]
pub enum CategoryFilter {
    All,
    Uncategorized,
    Id(String),
}

impl Clone for CategoryFilter {
    fn clone(&self) -> (r: Self)
        ensures
            r == *self,
    {
        match self {
            CategoryFilter::All => CategoryFilter::All,
            CategoryFilter::Uncategorized => CategoryFilter::Uncategorized,
            CategoryFilter::Id(id) => CategoryFilter::Id(id.clone()),
        }
    }
}

#[derive(Debug, PartialEq, Eq)]
pub enum ModelMessage {
    SwitchTab(SettingsTab),
    ConfirmDiscard,
    CancelDiscard,
    DraftChanged,
    Saved,
    FilterChanged(String),
    CategoryFilterChanged(CategoryFilter),
    Delete(String),
    UndoDelete,
}

#[derive(Debug, Clone, Copy, PartialEq, Eq, Structural)]
pub enum ModelEffect {
    NoChange,
    ConfirmDiscard,
    TabChanged(SettingsTab),
    MatchesChanged,
}

#[derive(Debug)]
pub struct SettingsModel {
    active_tab: SettingsTab,
    pending_tab: Option<SettingsTab>,
    dirty: bool,
    filter: String,
    category_filter: CategoryFilter,
    categories: Vec<Category>,
    matches: Vec<UiMatch>,
    /// Matches from files Settings does not own. Kept in a separate list rather
    /// than mixed into `matches` so that no save path can reach them: saving
    /// only ever walks `matches`, so copying a foreign file into `ui.yml` is not
    /// something the code can do by accident.
    external: Vec<ExternalMatch>,
    deleted: Option<(usize, UiMatch)>,
}

/// The abstract state of the window.
pub struct ModelState {
    pub active_tab: SettingsTab,
    /// The tab asked for while a draft was unsaved, awaiting confirmation.
    pub pending_tab: Option<SettingsTab>,
    /// Whether there are unsaved changes.
    pub dirty: bool,
    pub filter: Seq<char>,
    pub category_filter: CategoryFilter,
    pub categories: Seq<Category>,
    pub matches: Seq<UiMatch>,
    pub external: Seq<ExternalMatch>,
    /// The last deleted match and where it stood, until it is saved or undone.
    pub deleted: Option<(nat, UiMatch)>,
}

impl View for SettingsModel {
    type V = ModelState;

    closed spec fn view(&self) -> ModelState {
        ModelState {
            active_tab: self.active_tab,
            pending_tab: self.pending_tab,
            dirty: self.dirty,
            filter: self.filter@,
            category_filter: self.category_filter,
            categories: self.categories@,
            matches: self.matches@,
            external: self.external@,
            deleted: match self.deleted {
                Some((i, item)) => Some((i as nat, item)),
                None => None,
            },
        }
    }
}

/// The state of a freshly opened window.
pub open spec fn initial_state() -> ModelState {
    ModelState {
        active_tab: SettingsTab::Settings,
        pending_tab: None,
        dirty: false,
        filter: Seq::empty(),
        category_filter: CategoryFilter::All,
        categories: Seq::empty(),
        matches: Seq::empty(),
        external: Seq::empty(),
        deleted: None,
    }
}

/// The index of the first match with this id.
pub open spec fn find_id(matches: Seq<UiMatch>, id: Seq<char>) -> Option<nat>
    decreases matches.len(),
{
    if matches.len() == 0 {
        None
    } else if matches[0].id@ == id {
        Some(0)
    } else {
        match find_id(matches.drop_first(), id) {
            Some(k) => Some(k + 1),
            None => None,
        }
    }
}

/// Puts a deleted match back where it stood, or at the end when the list
/// has since become shorter.
pub open spec fn restore(matches: Seq<UiMatch>, deleted: Option<(nat, UiMatch)>) -> Seq<UiMatch> {
    match deleted {
        Some((i, item)) => matches.insert(if i < matches.len() { i as int } else { matches.len() as int }, item),
        None => matches,
    }
}

/// What one message does to the state, and what the window must do.
pub open spec fn step(s: ModelState, message: ModelMessage) -> (ModelState, ModelEffect) {
    match message {
        ModelMessage::SwitchTab(tab) => if tab == s.active_tab {
            (s, ModelEffect::NoChange)
        } else if s.dirty {
            (ModelState { pending_tab: Some(tab), ..s }, ModelEffect::ConfirmDiscard)
        } else {
            (ModelState { active_tab: tab, ..s }, ModelEffect::TabChanged(tab))
        },
        ModelMessage::ConfirmDiscard => {
            let discarded = ModelState {
                dirty: false,
                matches: restore(s.matches, s.deleted),
                deleted: None,
                pending_tab: None,
                ..s
            };
            match s.pending_tab {
                Some(tab) => (ModelState { active_tab: tab, ..discarded }, ModelEffect::TabChanged(tab)),
                None => (discarded, ModelEffect::NoChange),
            }
        },
        ModelMessage::CancelDiscard => (ModelState { pending_tab: None, ..s }, ModelEffect::NoChange),
        ModelMessage::DraftChanged => (ModelState { dirty: true, ..s }, ModelEffect::NoChange),
        ModelMessage::Saved => (ModelState { dirty: false, deleted: None, ..s }, ModelEffect::NoChange),
        ModelMessage::FilterChanged(filter) => (ModelState { filter: filter@, ..s }, ModelEffect::NoChange),
        ModelMessage::CategoryFilterChanged(filter) => (
            ModelState { category_filter: filter, ..s },
            ModelEffect::NoChange,
        ),
        ModelMessage::Delete(id) => match find_id(s.matches, id@) {
            Some(i) => (
                ModelState {
                    matches: s.matches.remove(i as int),
                    deleted: Some((i, s.matches[i as int])),
                    dirty: true,
                    ..s
                },
                ModelEffect::MatchesChanged,
            ),
            None => (s, ModelEffect::NoChange),
        },
        ModelMessage::UndoDelete => match s.deleted {
            Some(_) => (
                ModelState { matches: restore(s.matches, s.deleted), deleted: None, ..s },
                ModelEffect::MatchesChanged,
            ),
            None => (s, ModelEffect::NoChange),
        },
    }
}

/// The items of `s` that satisfy `keep`, in order.
pub open spec fn keep_if<T>(s: Seq<T>, keep: spec_fn(T) -> bool) -> Seq<T>
    decreases s.len(),
{
    if s.len() == 0 {
        Seq::empty()
    } else if keep(s.last()) {
        keep_if(s.drop_last(), keep).push(s.last())
    } else {
        keep_if(s.drop_last(), keep)
    }
}

/// The text filter is empty, or, lower-cased, occurs in one of the texts,
/// lower-cased. (A non-empty text never lower-cases to an empty one, so
/// this is the same as testing the lower-cased filter for emptiness.)
pub open spec fn text_hit(filter: Seq<char>, texts: Seq<Seq<char>>) -> bool {
    filter.len() == 0 || exists|i: int|
        0 <= i < texts.len() && has_substring(lowercase(#[trigger] texts[i]), lowercase(filter))
}

/// Whether the category filter lets a match with this category through.
pub open spec fn category_hit(filter: CategoryFilter, category_id: Seq<char>) -> bool {
    match filter {
        CategoryFilter::All => true,
        CategoryFilter::Uncategorized => category_id.len() == 0,
        CategoryFilter::Id(id) => category_id == id@,
    }
}

/// An owned match is listed when the text filter hits its trigger,
/// replacement, short name or description and the category filter lets it
/// through.
pub open spec fn shows_match(s: ModelState, m: UiMatch) -> bool {
    text_hit(s.filter, seq![m.trigger@, m.replace@, m.short_name@, m.description@]) && category_hit(
        s.category_filter,
        m.category_id@,
    )
}

/// A read-only match is listed when the text filter hits its trigger,
/// preview or badge.
pub open spec fn shows_external(s: ModelState, m: ExternalMatch) -> bool {
    text_hit(s.filter, seq![m.trigger@, m.preview@, m.source_label@])
}

pub open spec fn visible_matches(s: ModelState) -> Seq<UiMatch> {
    keep_if(s.matches, |m: UiMatch| shows_match(s, m))
}

pub open spec fn visible_external(s: ModelState) -> Seq<ExternalMatch> {
    keep_if(s.external, |m: ExternalMatch| shows_external(s, m))
}

/// The references of a list, read as values.
pub open spec fn targets<T>(s: Seq<&T>) -> Seq<T> {
    s.map_values(|r: &T| *r)
}

fn hit(filter: &str, text: &str) -> (r: bool)
    ensures
        r == has_substring(lowercase(text@), filter@),
{
    let lowered = to_lowercase(text);
    contains_str(lowered.as_str(), filter)
}

fn find_position(matches: &Vec<UiMatch>, id: &String) -> (r: Option<usize>)
    ensures
        r matches Some(k) ==> find_id(matches@, id@) == Some(k as nat) && k < matches@.len(),
        r is None ==> find_id(matches@, id@) is None,
{
    let mut i: usize = 0;
    while i < matches.len()
        invariant
            i <= matches@.len(),
            forall|j: int| 0 <= j < i ==> (#[trigger] matches@[j]).id@ != id@,
        decreases matches.len() - i,
    {
        if matches[i].id == *id {
            proof {
                lemma_find_id(matches@, id@, i as int);
            }
            return Some(i);
        }
        i = i + 1;
    }
    proof {
        lemma_find_id(matches@, id@, i as int);
    }
    None
}

proof fn lemma_find_id(s: Seq<UiMatch>, id: Seq<char>, i: int)
    requires
        0 <= i <= s.len(),
        forall|j: int| 0 <= j < i ==> (#[trigger] s[j]).id@ != id,
        i == s.len() || s[i].id@ == id,
    ensures
        i == s.len() ==> find_id(s, id) is None,
        i < s.len() ==> find_id(s, id) == Some(i as nat),
    decreases i,
{
    if i > 0 {
        assert forall|j: int| 0 <= j < i - 1 implies (#[trigger] s.drop_first()[j]).id@ != id by {
            assert(s.drop_first()[j] == s[j + 1]);
        }
        lemma_find_id(s.drop_first(), id, i - 1);
    }
}

proof fn lemma_find_id_bound(s: Seq<UiMatch>, id: Seq<char>)
    ensures
        find_id(s, id) matches Some(i) ==> i < s.len() && s[i as int].id@ == id,
    decreases s.len(),
{
    if s.len() > 0 && s[0].id@ != id {
        lemma_find_id_bound(s.drop_first(), id);
    }
}

impl Default for SettingsModel {
    fn default() -> (m: Self)
        ensures
            m@ == initial_state(),
    {
        SettingsModel {
            active_tab: SettingsTab::Settings,
            pending_tab: None,
            dirty: false,
            filter: String::new(),
            category_filter: CategoryFilter::All,
            categories: Vec::new(),
            matches: Vec::new(),
            external: Vec::new(),
            deleted: None,
        }
    }
}

impl SettingsModel {
    pub fn active_tab(&self) -> (t: SettingsTab)
        ensures
            t == self@.active_tab,
    {
        self.active_tab
    }

    pub fn is_dirty(&self) -> (d: bool)
        ensures
            d == self@.dirty,
    {
        self.dirty
    }

    pub fn matches(&self) -> (m: &[UiMatch])
        ensures
            m@ == self@.matches,
    {
        self.matches.as_slice()
    }

    /// Replaces the owned matches with freshly loaded ones: nothing is
    /// unsaved and no deletion can be undone any more.
    pub fn set_matches(&mut self, matches: Vec<UiMatch>)
        ensures
            final(self)@ == (ModelState { matches: matches@, deleted: None, dirty: false, ..old(self)@ }),
    {
        self.matches = matches;
        self.deleted = None;
        self.dirty = false;
    }

    pub fn external(&self) -> (m: &[ExternalMatch])
        ensures
            m@ == self@.external,
    {
        self.external.as_slice()
    }

    pub fn set_external(&mut self, external: Vec<ExternalMatch>)
        ensures
            final(self)@ == (ModelState { external: external@, ..old(self)@ }),
    {
        self.external = external;
    }

    pub fn categories(&self) -> (c: &[Category])
        ensures
            c@ == self@.categories,
    {
        self.categories.as_slice()
    }

    pub fn set_categories(&mut self, categories: Vec<Category>)
        ensures
            final(self)@ == (ModelState { categories: categories@, ..old(self)@ }),
    {
        self.categories = categories;
    }

    /// Creates a category (see `create_category`), adds it to the directory
    /// and marks the draft unsaved.
    pub fn add_category(&mut self, name: &str) -> (r: Result<Category, MetaError>)
        ensures
            ({
                let t = trim(name@);
                if t.len() == 0 {
                    r == Err::<Category, MetaError>(MetaError::BlankCategoryName)
                } else if has_break_or_nul(t) {
                    r == Err::<Category, MetaError>(MetaError::MultilineCategoryName)
                } else if name_taken(old(self)@.categories, lowercase(t)) {
                    r matches Err(MetaError::CategoryExists(n)) && n@ == t
                } else {
                    r matches Ok(c) && c.name@ == t && c.order == next_order(old(self)@.categories)
                        && is_category_id(c.id@)
                }
            }),
            r is Err ==> final(self)@ == old(self)@,
            r matches Ok(c) ==> final(self)@ == (ModelState {
                categories: old(self)@.categories.push(c),
                dirty: true,
                ..old(self)@
            }),
    {
        match create_category(self.categories.as_slice(), name) {
            Ok(created) => {
                self.categories.push(created.clone());
                self.dirty = true;
                Ok(created)
            },
            Err(e) => Err(e),
        }
    }

    /// The owned matches the list shows, in list order.
    pub fn filtered_matches(&self) -> (r: Vec<&UiMatch>)
        ensures
            targets(r@) == visible_matches(self@),
    {
        let filter = to_lowercase(self.filter.as_str());
        let mut r: Vec<&UiMatch> = Vec::new();
        let mut i: usize = 0;
        while i < self.matches.len()
            invariant
                i <= self.matches@.len(),
                filter@ == lowercase(self.filter@),
                targets(r@) == keep_if(self.matches@.take(i as int), |m: UiMatch| shows_match(self@, m)),
            decreases self.matches.len() - i,
        {
            let item = &self.matches[i];
            let text = self.filter.as_str().is_empty() || hit(filter.as_str(), item.trigger.as_str()) || hit(
                filter.as_str(),
                item.replace.as_str(),
            ) || hit(filter.as_str(), item.short_name.as_str()) || hit(
                filter.as_str(),
                item.description.as_str(),
            );
            let category = match &self.category_filter {
                CategoryFilter::All => true,
                CategoryFilter::Uncategorized => item.category_id.as_str().is_empty(),
                CategoryFilter::Id(id) => item.category_id == *id,
            };
            proof {
                let texts = seq![item.trigger@, item.replace@, item.short_name@, item.description@];
                assert(texts[0] == item.trigger@);
                assert(texts[1] == item.replace@);
                assert(texts[2] == item.short_name@);
                assert(texts[3] == item.description@);
                assert(text == text_hit(self.filter@, texts));
                assert(self.matches@.take(i + 1).drop_last() == self.matches@.take(i as int));
                assert(self.matches@.take(i + 1).last() == *item);
            }
            if text && category {
                r.push(item);
                proof {
                    assert(targets(r@) =~= targets(r@.drop_last()).push(*item));
                }
            }
            i = i + 1;
        }
        proof {
            assert(self.matches@.take(self.matches@.len() as int) == self.matches@);
        }
        r
    }

    /// The read-only matches the list shows, in list order.
    pub fn filtered_external(&self) -> (r: Vec<&ExternalMatch>)
        ensures
            targets(r@) == visible_external(self@),
    {
        let filter = to_lowercase(self.filter.as_str());
        let mut r: Vec<&ExternalMatch> = Vec::new();
        let mut i: usize = 0;
        while i < self.external.len()
            invariant
                i <= self.external@.len(),
                filter@ == lowercase(self.filter@),
                targets(r@) == keep_if(
                    self.external@.take(i as int),
                    |m: ExternalMatch| shows_external(self@, m),
                ),
            decreases self.external.len() - i,
        {
            let item = &self.external[i];
            let text = self.filter.as_str().is_empty() || hit(filter.as_str(), item.trigger.as_str()) || hit(
                filter.as_str(),
                item.preview.as_str(),
            ) || hit(filter.as_str(), item.source_label.as_str());
            proof {
                let texts = seq![item.trigger@, item.preview@, item.source_label@];
                assert(texts[0] == item.trigger@);
                assert(texts[1] == item.preview@);
                assert(texts[2] == item.source_label@);
                assert(text == text_hit(self.filter@, texts));
                assert(self.external@.take(i + 1).drop_last() == self.external@.take(i as int));
                assert(self.external@.take(i + 1).last() == *item);
            }
            if text {
                r.push(item);
                proof {
                    assert(targets(r@) =~= targets(r@.drop_last()).push(*item));
                }
            }
            i = i + 1;
        }
        proof {
            assert(self.external@.take(self.external@.len() as int) == self.external@);
        }
        r
    }

    fn restore_deleted(&mut self)
        ensures
            final(self)@ == (ModelState {
                matches: restore(old(self)@.matches, old(self)@.deleted),
                deleted: None,
                ..old(self)@
            }),
    {
        let deleted = self.deleted.take();
        if let Some((index, item)) = deleted {
            let at = if index < self.matches.len() {
                index
            } else {
                self.matches.len()
            };
            self.matches.insert(at, item);
        }
    }

    /// Applies one user action and says what the window must do.
    pub fn reduce(&mut self, message: ModelMessage) -> (effect: ModelEffect)
        ensures
            (final(self)@, effect) == step(old(self)@, message),
    {
        let effect = match message {
            ModelMessage::SwitchTab(tab) => {
                if tab == self.active_tab {
                    ModelEffect::NoChange
                } else if self.dirty {
                    self.pending_tab = Some(tab);
                    ModelEffect::ConfirmDiscard
                } else {
                    self.active_tab = tab;
                    ModelEffect::TabChanged(tab)
                }
            },
            ModelMessage::ConfirmDiscard => {
                self.dirty = false;
                self.restore_deleted();
                let pending = self.pending_tab.take();
                if let Some(tab) = pending {
                    self.active_tab = tab;
                    ModelEffect::TabChanged(tab)
                } else {
                    ModelEffect::NoChange
                }
            },
            ModelMessage::CancelDiscard => {
                self.pending_tab = None;
                ModelEffect::NoChange
            },
            ModelMessage::DraftChanged => {
                self.dirty = true;
                ModelEffect::NoChange
            },
            ModelMessage::Saved => {
                self.dirty = false;
                self.deleted = None;
                ModelEffect::NoChange
            },
            ModelMessage::FilterChanged(filter) => {
                self.filter = filter;
                ModelEffect::NoChange
            },
            ModelMessage::CategoryFilterChanged(filter) => {
                self.category_filter = filter;
                ModelEffect::NoChange
            },
            ModelMessage::Delete(id) => {
                proof {
                    lemma_find_id_bound(self.matches@, id@);
                }
                match find_position(&self.matches, &id) {
                    Some(index) => {
                        let item = self.matches.remove(index);
                        self.deleted = Some((index, item));
                        self.dirty = true;
                        ModelEffect::MatchesChanged
                    },
                    None => ModelEffect::NoChange,
                }
            },
            ModelMessage::UndoDelete => {
                if self.deleted.is_some() {
                    self.restore_deleted();
                    ModelEffect::MatchesChanged
                } else {
                    ModelEffect::NoChange
                }
            },
        };
        effect
    }
}


impl Clone for ModelMessage {
    fn clone(&self) -> (r: Self)
        ensures
            r == *self,
    {
        match self {
            ModelMessage::SwitchTab(tab) => ModelMessage::SwitchTab(*tab),
            ModelMessage::ConfirmDiscard => ModelMessage::ConfirmDiscard,
            ModelMessage::CancelDiscard => ModelMessage::CancelDiscard,
            ModelMessage::DraftChanged => ModelMessage::DraftChanged,
            ModelMessage::Saved => ModelMessage::Saved,
            ModelMessage::FilterChanged(f) => ModelMessage::FilterChanged(f.clone()),
            ModelMessage::CategoryFilterChanged(f) => ModelMessage::CategoryFilterChanged(f.clone()),
            ModelMessage::Delete(id) => ModelMessage::Delete(id.clone()),
            ModelMessage::UndoDelete => ModelMessage::UndoDelete,
        }
    }
}

// ---------------------------------------------------------------------------
// Laws
// ---------------------------------------------------------------------------

proof fn lemma_remove_then_restore(matches: Seq<UiMatch>, i: nat)
    requires
        i < matches.len(),
    ensures
        restore(matches.remove(i as int), Some((i, matches[i as int]))) == matches,
{
    assert(matches.remove(i as int).insert(i as int, matches[i as int]) =~= matches);
}

/// Deleting a match and undoing the deletion gives back the same list, in
/// the same order; both steps report that the list changed, and the draft
/// stays unsaved.
pub proof fn lemma_delete_then_undo(s: ModelState, id: String)
    requires
        find_id(s.matches, id@) is Some,
    ensures
        ({
            let (s1, e1) = step(s, ModelMessage::Delete(id));
            let (s2, e2) = step(s1, ModelMessage::UndoDelete);
            &&& e1 == ModelEffect::MatchesChanged
            &&& e2 == ModelEffect::MatchesChanged
            &&& s2.matches == s.matches
            &&& s2.deleted is None
            &&& s2.dirty
        }),
{
    lemma_find_id_bound(s.matches, id@);
    let i = find_id(s.matches, id@).unwrap();
    lemma_remove_then_restore(s.matches, i);
}

/// Deleting a match removes exactly the first match with that id.
pub proof fn lemma_delete_removes_first_with_id(s: ModelState, id: String)
    ensures
        ({
            let (s1, e1) = step(s, ModelMessage::Delete(id));
            match find_id(s.matches, id@) {
                Some(i) => i < s.matches.len() && s.matches[i as int].id@ == id@
                    && (forall|j: int| 0 <= j < i ==> (#[trigger] s.matches[j]).id@ != id@)
                    && s1.matches == s.matches.remove(i as int) && s1.dirty,
                None => (forall|j: int| 0 <= j < s.matches.len() ==> (#[trigger] s.matches[j]).id@ != id@)
                    && s1 == s && e1 == ModelEffect::NoChange,
            }
        }),
    decreases s.matches.len(),
{
    lemma_find_id_bound(s.matches, id@);
    lemma_find_id_first(s.matches, id@);
}

proof fn lemma_find_id_first(matches: Seq<UiMatch>, id: Seq<char>)
    ensures
        match find_id(matches, id) {
            Some(i) => forall|j: int| 0 <= j < i ==> (#[trigger] matches[j]).id@ != id,
            None => forall|j: int| 0 <= j < matches.len() ==> (#[trigger] matches[j]).id@ != id,
        },
    decreases matches.len(),
{
    if matches.len() > 0 && matches[0].id@ != id {
        let t = matches.drop_first();
        lemma_find_id_first(t, id);
        lemma_find_id_bound(t, id);
        match find_id(t, id) {
            Some(k) => {
                assert forall|j: int| 0 <= j < k + 1 implies (#[trigger] matches[j]).id@ != id by {
                    if j > 0 {
                        assert(matches[j] == t[j - 1]);
                    }
                }
            },
            None => {
                assert forall|j: int| 0 <= j < matches.len() implies (#[trigger] matches[j]).id@ != id by {
                    if j > 0 {
                        assert(matches[j] == t[j - 1]);
                    }
                }
            },
        }
    }
}

/// Leaving with an unsaved deletion and discarding it puts the deleted match
/// back, switches to the requested tab and leaves nothing unsaved.
pub proof fn lemma_discard_restores_deletion(s: ModelState, id: String, tab: SettingsTab)
    requires
        find_id(s.matches, id@) is Some,
        tab != s.active_tab,
    ensures
        ({
            let (s1, e1) = step(s, ModelMessage::Delete(id));
            let (s2, e2) = step(s1, ModelMessage::SwitchTab(tab));
            let (s3, e3) = step(s2, ModelMessage::ConfirmDiscard);
            &&& e1 == ModelEffect::MatchesChanged
            &&& e2 == ModelEffect::ConfirmDiscard
            &&& s2.active_tab == s.active_tab
            &&& e3 == ModelEffect::TabChanged(tab)
            &&& s3.matches == s.matches
            &&& s3.active_tab == tab
            &&& !s3.dirty
            &&& s3.pending_tab is None
            &&& s3.deleted is None
        }),
{
    lemma_find_id_bound(s.matches, id@);
    let i = find_id(s.matches, id@).unwrap();
    lemma_remove_then_restore(s.matches, i);
}

/// With unsaved changes, switching tabs waits for confirmation: the tab
/// stays; cancelling keeps the tab and the unsaved changes; confirming
/// switches and drops them.
pub proof fn lemma_unsaved_switch_waits(s: ModelState, tab: SettingsTab)
    requires
        s.dirty,
        tab != s.active_tab,
    ensures
        ({
            let (s1, e1) = step(s, ModelMessage::SwitchTab(tab));
            let (cancelled, e2) = step(s1, ModelMessage::CancelDiscard);
            let (confirmed, e3) = step(s1, ModelMessage::ConfirmDiscard);
            &&& e1 == ModelEffect::ConfirmDiscard
            &&& s1.active_tab == s.active_tab
            &&& s1.dirty
            &&& e2 == ModelEffect::NoChange
            &&& cancelled.active_tab == s.active_tab
            &&& cancelled.dirty
            &&& cancelled.pending_tab is None
            &&& e3 == ModelEffect::TabChanged(tab)
            &&& confirmed.active_tab == tab
            &&& !confirmed.dirty
        }),
{
}

/// Without unsaved changes a tab switch happens at once and changes nothing
/// else.
pub proof fn lemma_clean_switch(s: ModelState, tab: SettingsTab)
    requires
        !s.dirty,
        tab != s.active_tab,
    ensures
        step(s, ModelMessage::SwitchTab(tab)) == (ModelState { active_tab: tab, ..s }, ModelEffect::TabChanged(tab)),
{
}

/// Asking for the tab already shown changes nothing.
pub proof fn lemma_same_tab(s: ModelState)
    ensures
        step(s, ModelMessage::SwitchTab(s.active_tab)) == (s, ModelEffect::NoChange),
{
}

/// After a save there is nothing to undo: `UndoDelete` changes nothing.
pub proof fn lemma_saved_forgets_deletion(s: ModelState)
    ensures
        ({
            let (s1, _e1) = step(s, ModelMessage::Saved);
            &&& !s1.dirty
            &&& step(s1, ModelMessage::UndoDelete) == (s1, ModelEffect::NoChange)
        }),
{
}

/// No action touches the read-only matches or the category directory.
pub proof fn lemma_actions_keep_external(s: ModelState, message: ModelMessage)
    ensures
        step(s, message).0.external == s.external,
        step(s, message).0.categories == s.categories,
{
}

proof fn lemma_keep_all<T>(s: Seq<T>, keep: spec_fn(T) -> bool)
    requires
        forall|i: int| 0 <= i < s.len() ==> keep(#[trigger] s[i]),
    ensures
        keep_if(s, keep) == s,
    decreases s.len(),
{
    if s.len() > 0 {
        assert forall|i: int| 0 <= i < s.drop_last().len() implies keep(#[trigger] s.drop_last()[i]) by {
            assert(s.drop_last()[i] == s[i]);
        }
        lemma_keep_all(s.drop_last(), keep);
        assert(keep(s[s.len() - 1]));
        assert(s.drop_last().push(s.last()) =~= s);
    }
}

/// With no text filter and every category shown, the list shows every owned
/// and every read-only match, in order.
pub proof fn lemma_no_filter_lists_everything(s: ModelState)
    requires
        s.filter.len() == 0,
        s.category_filter == CategoryFilter::All,
    ensures
        visible_matches(s) == s.matches,
        visible_external(s) == s.external,
{
    lemma_keep_all(s.matches, |m: UiMatch| shows_match(s, m));
    lemma_keep_all(s.external, |m: ExternalMatch| shows_external(s, m));
}

proof fn lemma_keep_if_members<T>(s: Seq<T>, keep: spec_fn(T) -> bool)
    ensures
        forall|i: int| 0 <= i < keep_if(s, keep).len() ==> keep(#[trigger] keep_if(s, keep)[i]) && s.contains(keep_if(s, keep)[i]),
        keep_if(s, keep).len() <= s.len(),
    decreases s.len(),
{
    if s.len() > 0 {
        lemma_keep_if_members(s.drop_last(), keep);
        let r = keep_if(s.drop_last(), keep);
        assert forall|i: int| 0 <= i < keep_if(s, keep).len() implies keep(#[trigger] keep_if(s, keep)[i]) && s.contains(keep_if(s, keep)[i]) by {
            if i < r.len() {
                assert(keep_if(s, keep)[i] == r[i]);
                let j = choose|j: int| 0 <= j < s.drop_last().len() && s.drop_last()[j] == r[i];
                assert(s[j] == r[i]);
            } else {
                assert(keep_if(s, keep)[i] == s.last());
                assert(s[s.len() - 1] == s.last());
            }
        }
    }
}

/// Every listed owned match is one of the owned matches and passes the
/// filters.
pub proof fn lemma_listed_matches_pass_filters(s: ModelState)
    ensures
        forall|i: int|
            0 <= i < visible_matches(s).len() ==> shows_match(s, #[trigger] visible_matches(s)[i])
                && s.matches.contains(visible_matches(s)[i]),
{
    lemma_keep_if_members(s.matches, |m: UiMatch| shows_match(s, m));
}


proof fn lemma_keep_if_keeps<T>(s: Seq<T>, keep: spec_fn(T) -> bool, i: int)
    requires
        0 <= i < s.len(),
        keep(s[i]),
    ensures
        keep_if(s, keep).contains(s[i]),
    decreases s.len(),
{
    if i == s.len() - 1 {
        assert(keep_if(s, keep).last() == s[i]);
        assert(keep_if(s, keep)[keep_if(s, keep).len() - 1] == s[i]);
    } else {
        let t = s.drop_last();
        assert(t[i] == s[i]);
        lemma_keep_if_keeps(t, keep, i);
        let j = choose|j: int| 0 <= j < keep_if(t, keep).len() && keep_if(t, keep)[j] == s[i];
        if keep(s.last()) {
            assert(keep_if(s, keep)[j] == s[i]);
        }
    }
}

/// The search box searches a read-only match's trigger, its preview and its
/// file badge: with a non-empty filter, an entry any of whose three texts
/// contains the filter, both lower-cased, is listed.
pub proof fn lemma_search_finds_external(s: ModelState, i: int)
    requires
        0 <= i < s.external.len(),
        s.filter.len() > 0,
        has_substring(lowercase(s.external[i].trigger@), lowercase(s.filter))
            || has_substring(lowercase(s.external[i].preview@), lowercase(s.filter))
            || has_substring(lowercase(s.external[i].source_label@), lowercase(s.filter)),
    ensures
        visible_external(s).contains(s.external[i]),
{
    let m = s.external[i];
    let texts = seq![m.trigger@, m.preview@, m.source_label@];
    assert(texts[0] == m.trigger@ && texts[1] == m.preview@ && texts[2] == m.source_label@);
    assert(shows_external(s, m));
    lemma_keep_if_keeps(s.external, |e: ExternalMatch| shows_external(s, e), i);
}

} // verus!
