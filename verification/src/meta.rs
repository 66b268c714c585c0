//! Settings UI metadata kept beside the managed match file in
//! `match/ui-meta.json`: the category directory and, per match, a free-form
//! description and a category reference.
use vstd::prelude::*;
use crate::matches::UiMatch;
use crate::text::{
    decimal, has_break_or_nul, join_component, join_path, lowercase, main_separator, push_decimal, push_str,
    same_text, text_less, text_lt, to_lowercase, trim, trim_str, lemma_text_lt_irreflexive,
    lemma_text_lt_transitive, lemma_text_lt_trichotomy, contains_break_or_nul,
};

verus! {

/// One user-defined category stored in `match/ui-meta.json`.
#[derive(Debug, PartialEq, Eq)]
pub struct Category {
    pub id: String,
    pub name: String,
    pub order: u32,
}

impl Clone for Category {
    fn clone(&self) -> (r: Self)
        ensures
            r == *self,
    {
        Category { id: self.id.clone(), name: self.name.clone(), order: self.order }
    }
}

/// Per-match UI metadata that does not belong in the espanso match engine schema.
#[derive(Debug, PartialEq, Eq, Default)]
pub struct MatchMeta {
    pub description: String,
    pub category_id: String,
}

impl Clone for MatchMeta {
    fn clone(&self) -> (r: Self)
        ensures
            r == *self,
    {
        MatchMeta { description: self.description.clone(), category_id: self.category_id.clone() }
    }
}

impl View for MatchMeta {
    /// `(description, category_id)`.
    type V = (Seq<char>, Seq<char>);

    open spec fn view(&self) -> (Seq<char>, Seq<char>) {
        (self.description@, self.category_id@)
    }
}

/// Match metadata keyed by match id, kept in ascending key order (the order
/// in which the document lists them).
#[derive(Debug, PartialEq, Eq)]
pub struct MatchMetaMap {
    entries: Vec<(String, MatchMeta)>,
}

/// The keys of `entries` ascend strictly.
pub open spec fn keys_ascending(entries: Seq<(String, MatchMeta)>) -> bool {
    forall|i: int, j: int|
        0 <= i < j < entries.len() ==> text_lt(#[trigger] entries[i].0@, #[trigger] entries[j].0@)
}

/// An index of `entries` whose key is `k`.
pub open spec fn index_of_key(entries: Seq<(String, MatchMeta)>, k: Seq<char>) -> int {
    choose|i: int| 0 <= i < entries.len() && #[trigger] entries[i].0@ == k
}

/// The map that an entry list stands for.
pub open spec fn entries_map(entries: Seq<(String, MatchMeta)>) -> Map<
    Seq<char>,
    (Seq<char>, Seq<char>),
> {
    Map::new(
        |k: Seq<char>| exists|i: int| 0 <= i < entries.len() && #[trigger] entries[i].0@ == k,
        |k: Seq<char>| entries[index_of_key(entries, k)].1@,
    )
}

pub proof fn lemma_entries_map_at(entries: Seq<(String, MatchMeta)>, i: int)
    requires
        keys_ascending(entries),
        0 <= i < entries.len(),
    ensures
        entries_map(entries).contains_key(entries[i].0@),
        entries_map(entries)[entries[i].0@] == entries[i].1@,
{
    let k = entries[i].0@;
    assert(entries_map(entries).dom().contains(k));
    let j = index_of_key(entries, k);
    if j != i {
        if j < i {
            assert(text_lt(entries[j].0@, entries[i].0@));
        } else {
            assert(text_lt(entries[i].0@, entries[j].0@));
        }
        lemma_text_lt_irreflexive(k);
    }
}

impl View for MatchMetaMap {
    type V = Map<Seq<char>, (Seq<char>, Seq<char>)>;

    closed spec fn view(&self) -> Map<Seq<char>, (Seq<char>, Seq<char>)> {
        entries_map(self.entries@)
    }
}

impl MatchMetaMap {
    #[verifier::type_invariant]
    closed spec fn ascending(self) -> bool {
        keys_ascending(self.entries@)
    }

    /// The keys in ascending order, each with its metadata.
    pub closed spec fn ordered(self) -> Seq<(String, MatchMeta)> {
        self.entries@
    }

    pub fn new() -> (m: Self)
        ensures
            m@ == Map::<Seq<char>, (Seq<char>, Seq<char>)>::empty(),
            m.ordered().len() == 0,
    {
        let m = MatchMetaMap { entries: Vec::new() };
        assert(m@ =~= Map::<Seq<char>, (Seq<char>, Seq<char>)>::empty());
        m
    }

    pub fn len(&self) -> (n: usize)
        ensures
            n == self.ordered().len(),
            n == self@.len(),
    {
        proof {
            use_type_invariant(self);
            self.lemma_len();
        }
        self.entries.len()
    }

    proof fn lemma_len(self)
        requires
            keys_ascending(self.entries@),
        ensures
            self@.len() == self.entries@.len(),
            self@.dom().finite(),
        decreases self.entries@.len(),
    {
        let s = self.entries@;
        let keys = s.map_values(|e: (String, MatchMeta)| e.0@);
        assert forall|i: int, j: int| 0 <= i < j < keys.len() implies keys[i] != keys[j] by {
            assert(text_lt(s[i].0@, s[j].0@));
            lemma_text_lt_irreflexive(s[i].0@);
        }
        assert(keys.no_duplicates());
        keys.unique_seq_to_set();
        assert(self@.dom() =~= keys.to_set()) by {
            assert forall|k: Seq<char>| self@.dom().contains(k) implies keys.to_set().contains(k) by {
                let i = choose|i: int| 0 <= i < s.len() && #[trigger] s[i].0@ == k;
                assert(keys[i] == k);
            }
            assert forall|k: Seq<char>| keys.to_set().contains(k) implies self@.dom().contains(k) by {
                let i = choose|i: int| 0 <= i < keys.len() && keys[i] == k;
                assert(s[i].0@ == k);
            }
        }
    }

    /// The position where `key` is, or would be inserted.
    fn position(&self, key: &str) -> (i: usize)
        ensures
            i <= self.ordered().len(),
            forall|j: int| 0 <= j < i ==> text_lt(#[trigger] self.ordered()[j].0@, key@),
            i < self.ordered().len() ==> !text_lt(self.ordered()[i as int].0@, key@),
    {
        let mut i: usize = 0;
        while i < self.entries.len() && text_less(self.entries[i].0.as_str(), key)
            invariant
                i <= self.entries@.len(),
                forall|j: int| 0 <= j < i ==> text_lt(#[trigger] self.entries@[j].0@, key@),
            decreases self.entries.len() - i,
        {
            i = i + 1;
        }
        i
    }

    pub fn contains_key(&self, key: &str) -> (r: bool)
        ensures
            r == self@.contains_key(key@),
    {
        self.get(key).is_some()
    }

    pub fn get(&self, key: &str) -> (r: Option<&MatchMeta>)
        ensures
            r is Some == self@.contains_key(key@),
            r matches Some(v) ==> self@[key@] == v@,
    {
        proof {
            use_type_invariant(self);
        }
        let i = self.position(key);
        if i < self.entries.len() && same_text(self.entries[i].0.as_str(), key) {
            proof {
                lemma_entries_map_at(self.entries@, i as int);
            }
            Some(&self.entries[i].1)
        } else {
            proof {
                if self@.contains_key(key@) {
                    let s = self.entries@;
                    let j = choose|j: int| 0 <= j < s.len() && #[trigger] s[j].0@ == key@;
                    if j < i {
                        lemma_text_lt_irreflexive(key@);
                    } else if j > i {
                        assert(text_lt(s[i as int].0@, s[j].0@));
                        lemma_text_lt_trichotomy(s[i as int].0@, key@);
                    }
                }
            }
            None
        }
    }

    /// Sets the metadata of `key`, replacing what it had.
    pub fn insert(&mut self, key: String, value: MatchMeta)
        ensures
            final(self)@ == old(self)@.insert(key@, value@),
    {
        proof {
            use_type_invariant(&*self);
        }
        let i = self.position(key.as_str());
        let ghost old_entries = self.entries@;
        let mut entries: Vec<(String, MatchMeta)> = Vec::new();
        std::mem::swap(&mut entries, &mut self.entries);
        if i < entries.len() && same_text(entries[i].0.as_str(), key.as_str()) {
            entries.set(i, (key, value));
            proof {
                let s = entries@;
                assert forall|a: int, b: int| 0 <= a < b < s.len() implies text_lt(
                    #[trigger] s[a].0@,
                    #[trigger] s[b].0@,
                ) by {
                    assert(text_lt(old_entries[a].0@, old_entries[b].0@));
                }
                lemma_replace(entries@, old_entries, i as int);
            }
            self.entries = entries;
        } else {
            entries.insert(i, (key, value));
            proof {
                let s = entries@;
                assert forall|a: int, b: int| 0 <= a < b < s.len() implies text_lt(
                    #[trigger] s[a].0@,
                    #[trigger] s[b].0@,
                ) by {
                    if b < i {
                        assert(s[a] == old_entries[a] && s[b] == old_entries[b]);
                    } else if b == i {
                        assert(s[a] == old_entries[a]);
                    } else if a == i {
                        assert(s[b] == old_entries[b - 1]);
                        if b - 1 > i {
                            assert(text_lt(old_entries[i as int].0@, old_entries[b - 1].0@));
                        }
                        lemma_text_lt_trichotomy(old_entries[i as int].0@, s[a].0@);
                        if b - 1 > i {
                            lemma_text_lt_transitive(
                                s[a].0@,
                                old_entries[i as int].0@,
                                old_entries[b - 1].0@,
                            );
                        }
                    } else if a < i {
                        assert(s[a] == old_entries[a] && s[b] == old_entries[b - 1]);
                        assert(text_lt(old_entries[a].0@, s[i as int].0@));
                        if b - 1 == i as int {
                            lemma_text_lt_trichotomy(old_entries[i as int].0@, s[i as int].0@);
                            lemma_text_lt_transitive(
                                old_entries[a].0@,
                                s[i as int].0@,
                                old_entries[b - 1].0@,
                            );
                        } else {
                            assert(text_lt(old_entries[a].0@, old_entries[b - 1].0@));
                        }
                    } else {
                        assert(s[a] == old_entries[a - 1] && s[b] == old_entries[b - 1]);
                        assert(text_lt(old_entries[a - 1].0@, old_entries[b - 1].0@));
                    }
                }
                lemma_inserted(entries@, old_entries, i as int);
            }
            self.entries = entries;
        }
    }

    }

proof fn lemma_replace(s: Seq<(String, MatchMeta)>, old_entries: Seq<(String, MatchMeta)>, i: int)
        requires
            keys_ascending(old_entries),
            keys_ascending(s),
            0 <= i < old_entries.len(),
            s == old_entries.update(i, s[i]),
            s[i].0@ == old_entries[i].0@,
        ensures
            entries_map(s) == entries_map(old_entries).insert(s[i].0@, s[i].1@),
    {
        let key = s[i].0@;
        let m = entries_map(old_entries).insert(key, s[i].1@);
        assert forall|k: Seq<char>| #[trigger] entries_map(s).contains_key(k) <==> m.contains_key(k) by {
            if entries_map(s).contains_key(k) {
                let j = choose|j: int| 0 <= j < s.len() && #[trigger] s[j].0@ == k;
                if j != i {
                    assert(old_entries[j].0@ == k);
                }
            }
            if m.contains_key(k) && k != key {
                let j = choose|j: int| 0 <= j < old_entries.len() && #[trigger] old_entries[j].0@
                    == k;
                assert(s[j].0@ == k);
            }
        }
        assert forall|k: Seq<char>| #[trigger] entries_map(s).contains_key(k) implies entries_map(s)[k] == m[k] by {
            let j = choose|j: int| 0 <= j < s.len() && #[trigger] s[j].0@ == k;
            lemma_entries_map_at(s, j);
            lemma_entries_map_at(s, i);
            if j != i {
                lemma_entries_map_at(old_entries, j);
                assert(s[j] == old_entries[j]);
                if j < i {
                    assert(text_lt(s[j].0@, s[i].0@));
                } else {
                    assert(text_lt(s[i].0@, s[j].0@));
                }
                lemma_text_lt_irreflexive(k);
                assert(k != key);
            }
        }
        assert(entries_map(s) =~= m);
    }

proof fn lemma_inserted(s: Seq<(String, MatchMeta)>, old_entries: Seq<(String, MatchMeta)>, i: int)
        requires
            keys_ascending(old_entries),
            keys_ascending(s),
            0 <= i <= old_entries.len(),
            s == old_entries.insert(i, s[i]),
        ensures
            entries_map(s) == entries_map(old_entries).insert(s[i].0@, s[i].1@),
    {
        let key = s[i].0@;
        let m = entries_map(old_entries).insert(key, s[i].1@);
        assert forall|k: Seq<char>| #[trigger] entries_map(s).contains_key(k) <==> m.contains_key(k) by {
            if entries_map(s).contains_key(k) {
                let j = choose|j: int| 0 <= j < s.len() && #[trigger] s[j].0@ == k;
                if j < i {
                    assert(old_entries[j].0@ == k);
                } else if j > i {
                    assert(old_entries[j - 1].0@ == k);
                }
            }
            if m.contains_key(k) && k != key {
                let j = choose|j: int| 0 <= j < old_entries.len() && #[trigger] old_entries[j].0@
                    == k;
                if j < i {
                    assert(s[j].0@ == k);
                } else {
                    assert(s[j + 1].0@ == k);
                }
            }
        }
        assert forall|k: Seq<char>| #[trigger] entries_map(s).contains_key(k) implies entries_map(s)[k] == m[k] by {
            let j = choose|j: int| 0 <= j < s.len() && #[trigger] s[j].0@ == k;
            lemma_entries_map_at(s, j);
            lemma_entries_map_at(s, i);
            if j != i {
                if j < i {
                    lemma_entries_map_at(old_entries, j);
                    assert(text_lt(s[j].0@, s[i].0@));
                } else {
                    lemma_entries_map_at(old_entries, j - 1);
                    assert(text_lt(s[i].0@, s[j].0@));
                }
                lemma_text_lt_irreflexive(k);
                assert(k != key);
            }
        }
        assert(entries_map(s) =~= m);
    }

impl MatchMetaMap {
    /// The entries, in ascending key order.
    pub fn entries(&self) -> (r: &[(String, MatchMeta)])
        ensures
            r@ == self.ordered(),
            keys_ascending(r@),
            self@ == entries_map(r@),
    {
        proof {
            use_type_invariant(self);
        }
        self.entries.as_slice()
    }
}

/// The whole `match/ui-meta.json` document.
#[derive(Debug, PartialEq, Eq)]
pub struct UiMetaDocument {
    pub version: u32,
    pub categories: Vec<Category>,
    pub matches: MatchMetaMap,
}

impl Default for UiMetaDocument {
    fn default() -> (d: Self)
        ensures
            d.version == 1,
            d.categories@.len() == 0,
            d.matches@ == Map::<Seq<char>, (Seq<char>, Seq<char>)>::empty(),
    {
        UiMetaDocument { version: 1, categories: Vec::new(), matches: MatchMetaMap::new() }
    }
}


/// Why category or metadata input was refused.
#[derive(Debug, PartialEq, Eq)]
pub enum MetaError {
    BlankCategoryName,
    MultilineCategoryName,
    /// The trimmed name asked for.
    CategoryExists(String),
    BlankCategoryId,
    DuplicateCategoryId(String),
    /// The trimmed name of the second category.
    DuplicateCategoryName(String),
    BlankMatchKey,
    /// The match id and the trimmed category id it names.
    UnknownCategory(String, String),
}

/// What `format!("{s:?}")` prints for a string.
pub uninterp spec fn debug_quoted(s: Seq<char>) -> Seq<char>;

/// A string as its `Debug` form, quoted and escaped.
///
/// Wraps `format!("{s:?}")`, the `Debug` implementation of `str`; its result
/// is a function of the text alone, named `debug_quoted`.
#[verifier::external_body]
pub(crate) fn debug_text(s: &str) -> (r: String)
    ensures
        r@ == debug_quoted(s@),
{
    format!("{s:?}")
}

impl MetaError {
    /// The message the user is shown.
    pub fn message(&self) -> (m: String)
        ensures
            m@ == match self {
                MetaError::BlankCategoryName => "category name must not be blank"@,
                MetaError::MultilineCategoryName => "category name must be a single line without NUL characters"@,
                MetaError::CategoryExists(name) => "a category named "@ + debug_quoted(name@)
                    + " already exists"@,
                MetaError::BlankCategoryId => "category id must not be blank"@,
                MetaError::DuplicateCategoryId(id) => "duplicate category id: "@ + id@,
                MetaError::DuplicateCategoryName(name) => "duplicate category name: "@ + name@,
                MetaError::BlankMatchKey => "match metadata key must not be blank"@,
                MetaError::UnknownCategory(match_id, category_id) => "match "@ + match_id@
                    + " references unknown category "@ + category_id@,
            },
    {
        let mut m = String::new();
        match self {
            MetaError::BlankCategoryName => push_str(&mut m, "category name must not be blank"),
            MetaError::MultilineCategoryName => push_str(
                &mut m,
                "category name must be a single line without NUL characters",
            ),
            MetaError::CategoryExists(name) => {
                push_str(&mut m, "a category named ");
                let quoted = debug_text(name.as_str());
                push_str(&mut m, quoted.as_str());
                push_str(&mut m, " already exists");
            },
            MetaError::BlankCategoryId => push_str(&mut m, "category id must not be blank"),
            MetaError::DuplicateCategoryId(id) => {
                push_str(&mut m, "duplicate category id: ");
                push_str(&mut m, id.as_str());
            },
            MetaError::DuplicateCategoryName(name) => {
                push_str(&mut m, "duplicate category name: ");
                push_str(&mut m, name.as_str());
            },
            MetaError::BlankMatchKey => push_str(&mut m, "match metadata key must not be blank"),
            MetaError::UnknownCategory(match_id, category_id) => {
                push_str(&mut m, "match ");
                push_str(&mut m, match_id.as_str());
                push_str(&mut m, " references unknown category ");
                push_str(&mut m, category_id.as_str());
            },
        }
        proof {
            assert(Seq::<char>::empty() + "category name must not be blank"@ =~= "category name must not be blank"@);
            assert(Seq::<char>::empty() + "category name must be a single line without NUL characters"@ =~= "category name must be a single line without NUL characters"@);
            assert(Seq::<char>::empty() + "category id must not be blank"@ =~= "category id must not be blank"@);
            assert(Seq::<char>::empty() + "match metadata key must not be blank"@ =~= "match metadata key must not be blank"@);
        }
        m
    }
}

/// Loads and saves Settings UI metadata beside the managed match file.
#[derive(Debug)]
pub struct UiMetaStore {
    path: String,
    separator: char,
}

/// `<config_root>/match/ui-meta.json`, joined with the separator `sep`.
pub open spec fn meta_path_of(config_root: Seq<char>, sep: char) -> Seq<char> {
    join_component(join_component(config_root, "match"@, sep), "ui-meta.json"@, sep)
}

impl UiMetaStore {
    pub closed spec fn path_text(&self) -> Seq<char> {
        self.path@
    }

    /// The platform's primary path separator, with which the path was joined.
    pub closed spec fn separator(&self) -> char {
        self.separator
    }

    pub fn new(config_root: &str) -> (s: Self)
        ensures
            s.path_text() == meta_path_of(config_root@, s.separator()),
    {
        let separator = main_separator();
        let dir = join_path(config_root, "match", separator);
        UiMetaStore { path: join_path(dir.as_str(), "ui-meta.json", separator), separator }
    }

    pub fn path(&self) -> (p: &str)
        ensures
            p@ == self.path_text(),
    {
        self.path.as_str()
    }

    pub(crate) fn separator_char(&self) -> (c: char)
        ensures
            c == self.separator(),
    {
        self.separator
    }
}

impl Clone for UiMetaStore {
    fn clone(&self) -> (r: Self)
        ensures
            r.path_text() == self.path_text(),
            r.separator() == self.separator(),
    {
        UiMetaStore { path: self.path.clone(), separator: self.separator }
    }
}

/// The metadata that a match list carries: for each match whose trimmed
/// description or trimmed category id is not empty, both trimmed, a later
/// match with the same id replacing an earlier one.
pub open spec fn meta_of_matches(matches: Seq<UiMatch>) -> Map<Seq<char>, (Seq<char>, Seq<char>)>
    decreases matches.len(),
{
    if matches.len() == 0 {
        Map::empty()
    } else {
        let rest = meta_of_matches(matches.drop_last());
        let item = matches.last();
        let description = trim(item.description@);
        let category_id = trim(item.category_id@);
        if description.len() == 0 && category_id.len() == 0 {
            rest
        } else {
            rest.insert(item.id@, (description, category_id))
        }
    }
}

/// A copy of a category list.
pub fn copy_categories(categories: &[Category]) -> (r: Vec<Category>)
    ensures
        r@ == categories@,
{
    let mut r: Vec<Category> = Vec::new();
    let mut i: usize = 0;
    while i < categories.len()
        invariant
            i <= categories@.len(),
            r@ == categories@.take(i as int),
        decreases categories.len() - i,
    {
        r.push(categories[i].clone());
        proof {
            assert(categories@.take(i + 1) == categories@.take(i as int).push(categories@[i as int]));
        }
        i = i + 1;
    }
    proof {
        assert(categories@.take(categories@.len() as int) == categories@);
    }
    r
}

/// Builds a metadata document from the live match list and category directory.
pub fn document_from_matches(categories: &[Category], matches: &[UiMatch]) -> (d: UiMetaDocument)
    ensures
        d.version == 1,
        d.categories@ == categories@,
        d.matches@ == meta_of_matches(matches@),
{
    let mut match_meta = MatchMetaMap::new();
    let mut i: usize = 0;
    while i < matches.len()
        invariant
            i <= matches@.len(),
            match_meta@ == meta_of_matches(matches@.take(i as int)),
        decreases matches.len() - i,
    {
        let item = &matches[i];
        let description = trim_str(item.description.as_str());
        let category_id = trim_str(item.category_id.as_str());
        proof {
            assert(matches@.take(i + 1).drop_last() == matches@.take(i as int));
            assert(matches@.take(i + 1).last() == matches@[i as int]);
        }
        if !(description.as_str().is_empty() && category_id.as_str().is_empty()) {
            match_meta.insert(item.id.clone(), MatchMeta { description, category_id });
        }
        proof {
        }
        i = i + 1;
    }
    proof {
        assert(matches@.take(matches@.len() as int) == matches@);
    }
    UiMetaDocument { version: 1, categories: copy_categories(categories), matches: match_meta }
}

/// The category id for a clock reading of `millis` milliseconds since the
/// Unix epoch.
pub open spec fn category_id_text(millis: nat) -> Seq<char> {
    "cat-"@ + decimal(millis)
}

/// Category ids have the form `cat-<milliseconds>`.
pub open spec fn is_category_id(id: Seq<char>) -> bool {
    exists|n: nat| id == #[trigger] category_id_text(n)
}

/// The category id for a clock reading of `millis` milliseconds.
pub fn category_id_for(millis: u128) -> (id: String)
    ensures
        id@ == category_id_text(millis as nat),
{
    let mut id = String::new();
    push_str(&mut id, "cat-");
    push_decimal(&mut id, millis);
    proof {
        assert(id@ =~= "cat-"@ + decimal(millis as nat));
    }
    id
}

/// A fresh category id, for the clock's current reading.
pub fn next_category_id() -> (id: String)
    ensures
        is_category_id(id@),
{
    let millis = crate::clock::unix_millis();
    let id = category_id_for(millis);
    proof {
        assert(id@ == category_id_text(millis as nat));
    }
    id
}

/// Some category has a name that lower-cases to `lowered`.
pub open spec fn name_taken(categories: Seq<Category>, lowered: Seq<char>) -> bool {
    exists|i: int| 0 <= i < categories.len() && lowercase(#[trigger] categories[i].name@) == lowered
}

/// The largest `order` of a category list.
pub open spec fn max_order(categories: Seq<Category>) -> Option<u32>
    decreases categories.len(),
{
    if categories.len() == 0 {
        None
    } else {
        let last = categories.last().order;
        match max_order(categories.drop_last()) {
            None => Some(last),
            Some(m) => Some(if last > m { last } else { m }),
        }
    }
}

/// The order a new category gets: one past the largest, saturating, or 0.
pub open spec fn next_order(categories: Seq<Category>) -> u32 {
    match max_order(categories) {
        None => 0,
        Some(m) => if m == u32::MAX { m } else { (m + 1) as u32 },
    }
}

fn next_order_exec(categories: &[Category]) -> (r: u32)
    ensures
        r == next_order(categories@),
{
    let mut best: Option<u32> = None;
    let mut i: usize = 0;
    while i < categories.len()
        invariant
            i <= categories@.len(),
            best == max_order(categories@.take(i as int)),
        decreases categories.len() - i,
    {
        proof {
            assert(categories@.take(i + 1).drop_last() == categories@.take(i as int));
        }
        let order = categories[i].order;
        best = match best {
            None => Some(order),
            Some(m) => Some(if order > m { order } else { m }),
        };
        i = i + 1;
    }
    proof {
        assert(categories@.take(categories@.len() as int) == categories@);
    }
    match best {
        None => 0,
        Some(m) => m.saturating_add(1),
    }
}

/// Creates a category after validating the display name is unique (case-insensitive).
pub fn create_category(categories: &[Category], name: &str) -> (r: Result<Category, MetaError>)
    ensures
        ({
            let t = trim(name@);
            if t.len() == 0 {
                r == Err::<Category, MetaError>(MetaError::BlankCategoryName)
            } else if has_break_or_nul(t) {
                r == Err::<Category, MetaError>(MetaError::MultilineCategoryName)
            } else if name_taken(categories@, lowercase(t)) {
                r matches Err(MetaError::CategoryExists(n)) && n@ == t
            } else {
                r matches Ok(c) && c.name@ == t && c.order == next_order(categories@)
                    && is_category_id(c.id@)
            }
        }),
{
    let trimmed = trim_str(name);
    if trimmed.as_str().is_empty() {
        proof {
            assert(trimmed@.len() == 0);
        }
        return Err(MetaError::BlankCategoryName);
    }
    if contains_break_or_nul(trimmed.as_str()) {
        return Err(MetaError::MultilineCategoryName);
    }
    let lowered = to_lowercase(trimmed.as_str());
    let mut i: usize = 0;
    while i < categories.len()
        invariant
            i <= categories@.len(),
            lowered@ == lowercase(trimmed@),
            trimmed@ == trim(name@),
            trimmed@.len() > 0,
            !has_break_or_nul(trimmed@),
            forall|j: int| 0 <= j < i ==> lowercase(#[trigger] categories@[j].name@) != lowered@,
        decreases categories.len() - i,
    {
        let other = to_lowercase(categories[i].name.as_str());
        if same_text(other.as_str(), lowered.as_str()) {
            proof {
                assert(lowercase(categories@[i as int].name@) == lowercase(trimmed@));
            }
            return Err(MetaError::CategoryExists(trimmed));
        }
        i = i + 1;
    }
    let order = next_order_exec(categories);
    Ok(Category { id: next_category_id(), name: trimmed, order })
}

/// Why one category of a document is refused.
pub enum CategoryFault {
    BlankName,
    BlankId,
    DuplicateId,
    DuplicateName,
}

/// The first rule that category `i` breaks, given the ones before it.
pub open spec fn category_fault(categories: Seq<Category>, i: int) -> Option<CategoryFault> {
    let c = categories[i];
    let name = trim(c.name@);
    if name.len() == 0 {
        Some(CategoryFault::BlankName)
    } else if trim(c.id@).len() == 0 {
        Some(CategoryFault::BlankId)
    } else if exists|j: int| 0 <= j < i && (#[trigger] categories[j]).id@ == c.id@ {
        Some(CategoryFault::DuplicateId)
    } else if exists|j: int|
        0 <= j < i && lowercase(trim((#[trigger] categories[j]).name@)) == lowercase(name) {
        Some(CategoryFault::DuplicateName)
    } else {
        None
    }
}

/// `e` is the error reported for category `c` breaking `fault`.
pub open spec fn reports_category(e: MetaError, fault: CategoryFault, c: Category) -> bool {
    match fault {
        CategoryFault::BlankName => e == MetaError::BlankCategoryName,
        CategoryFault::BlankId => e == MetaError::BlankCategoryId,
        CategoryFault::DuplicateId => e matches MetaError::DuplicateCategoryId(id) && id@ == c.id@,
        CategoryFault::DuplicateName => e matches MetaError::DuplicateCategoryName(n) && n@ == trim(
            c.name@,
        ),
    }
}

/// Some category has exactly this id.
pub open spec fn known_category(categories: Seq<Category>, id: Seq<char>) -> bool {
    exists|j: int| 0 <= j < categories.len() && (#[trigger] categories[j]).id@ == id
}

/// A metadata entry is refused when its key is blank, or when its trimmed
/// category id is not empty and names no category.
pub open spec fn entry_fault(categories: Seq<Category>, key: Seq<char>, category_id: Seq<char>) -> bool {
    trim(key).len() == 0 || (trim(category_id).len() > 0 && !known_category(categories, trim(category_id)))
}

/// `e` is the error reported for the entry `key` with category `category_id`.
pub open spec fn reports_entry(e: MetaError, key: Seq<char>, category_id: Seq<char>) -> bool {
    if trim(key).len() == 0 {
        e == MetaError::BlankMatchKey
    } else {
        e matches MetaError::UnknownCategory(m, c) && m@ == key && c@ == trim(category_id)
    }
}

fn find_category_id(categories: &[Category], id: &str, upto: usize) -> (r: bool)
    requires
        upto <= categories@.len(),
    ensures
        r == exists|j: int| 0 <= j < upto && (#[trigger] categories@[j]).id@ == id@,
{
    let mut j: usize = 0;
    while j < upto
        invariant
            upto <= categories@.len(),
            j <= upto,
            forall|k: int| 0 <= k < j ==> (#[trigger] categories@[k]).id@ != id@,
        decreases upto - j,
    {
        if same_text(categories[j].id.as_str(), id) {
            return true;
        }
        j = j + 1;
    }
    false
}

/// Checks that a document can be written: category names and ids are set,
/// ids are unique, names are unique regardless of case, and every match
/// entry has a key and names a known category or none. Categories are checked
/// first, in order, then the entries in key order; the first fault is reported.
pub fn validate_document(document: &UiMetaDocument) -> (r: Result<(), MetaError>)
    ensures
        ({
            let cats = document.categories@;
            let entries = document.matches.ordered();
            &&& r is Ok <==> (forall|i: int| 0 <= i < cats.len() ==> category_fault(cats, i) is None)
                && (forall|i: int|
                0 <= i < entries.len() ==> !entry_fault(cats, #[trigger] entries[i].0@, entries[i].1.category_id@))
            &&& r matches Err(e) ==> {
                ||| exists|i: int|
                    0 <= i < cats.len() && (forall|j: int| 0 <= j < i ==> category_fault(cats, j) is None)
                        && #[trigger] category_fault(cats, i) is Some && reports_category(
                        e,
                        category_fault(cats, i).unwrap(),
                        cats[i],
                    )
                ||| (forall|i: int| 0 <= i < cats.len() ==> category_fault(cats, i) is None)
                    && exists|i: int|
                    0 <= i < entries.len() && (forall|j: int|
                        0 <= j < i ==> !entry_fault(cats, #[trigger] entries[j].0@, entries[j].1.category_id@))
                        && entry_fault(cats, #[trigger] entries[i].0@, entries[i].1.category_id@)
                        && reports_entry(e, entries[i].0@, entries[i].1.category_id@)
            }
        }),
{
    let cats = document.categories.as_slice();
    let mut i: usize = 0;
    while i < cats.len()
        invariant
            cats@ == document.categories@,
            i <= cats@.len(),
            forall|j: int| 0 <= j < i ==> category_fault(cats@, j) is None,
        decreases cats.len() - i,
    {
        let name = trim_str(cats[i].name.as_str());
        if name.as_str().is_empty() {
            proof {
                assert(name@.len() == 0);
                assert(category_fault(cats@, i as int) == Some(CategoryFault::BlankName));
            }
            return Err(MetaError::BlankCategoryName);
        }
        let id_trimmed = trim_str(cats[i].id.as_str());
        if id_trimmed.as_str().is_empty() {
            proof {
                assert(id_trimmed@.len() == 0);
                assert(category_fault(cats@, i as int) == Some(CategoryFault::BlankId));
            }
            return Err(MetaError::BlankCategoryId);
        }
        if find_category_id(cats, cats[i].id.as_str(), i) {
            proof {
                assert(category_fault(cats@, i as int) == Some(CategoryFault::DuplicateId));
            }
            return Err(MetaError::DuplicateCategoryId(cats[i].id.clone()));
        }
        let lowered = to_lowercase(name.as_str());
        let mut j: usize = 0;
        while j < i
            invariant
                cats@ == document.categories@,
                i < cats@.len(),
                trim(cats@[i as int].name@).len() > 0,
                trim(cats@[i as int].id@).len() > 0,
                forall|k: int| 0 <= k < i ==> category_fault(cats@, k) is None,
                !(exists|k: int| 0 <= k < i && (#[trigger] cats@[k]).id@ == cats@[i as int].id@),
                j <= i,
                name@ == trim(cats@[i as int].name@),
                lowered@ == lowercase(name@),
                forall|k: int| 0 <= k < j ==> lowercase(trim((#[trigger] cats@[k]).name@)) != lowered@,
            decreases i - j,
        {
            let other = trim_str(cats[j].name.as_str());
            let other_lowered = to_lowercase(other.as_str());
            if same_text(other_lowered.as_str(), lowered.as_str()) {
                proof {
                    assert(lowercase(trim(cats@[j as int].name@)) == lowercase(name@));
                    assert(category_fault(cats@, i as int) == Some(CategoryFault::DuplicateName));
                }
                return Err(MetaError::DuplicateCategoryName(name));
            }
            j = j + 1;
        }
        proof {
            assert(category_fault(cats@, i as int) is None);
        }
        i = i + 1;
    }
    let entries = document.matches.entries();
    let mut k: usize = 0;
    while k < entries.len()
        invariant
            cats@ == document.categories@,
            entries@ == document.matches.ordered(),
            forall|j: int| 0 <= j < cats@.len() ==> category_fault(cats@, j) is None,
            k <= entries@.len(),
            forall|j: int|
                0 <= j < k ==> !entry_fault(cats@, #[trigger] entries@[j].0@, entries@[j].1.category_id@),
        decreases entries.len() - k,
    {
        let key = &entries[k].0;
        let key_trimmed = trim_str(key.as_str());
        if key_trimmed.as_str().is_empty() {
            proof {
                assert(key_trimmed@.len() == 0);
            }
            return Err(MetaError::BlankMatchKey);
        }
        let category_id = trim_str(entries[k].1.category_id.as_str());
        if !category_id.as_str().is_empty() && !find_category_id(cats, category_id.as_str(), cats.len()) {
            proof {
                assert(category_id@.len() > 0);
            }
            return Err(MetaError::UnknownCategory(key.clone(), category_id));
        }
        proof {
        }
        k = k + 1;
    }
    Ok(())
}

} // verus!
