//! The read-only list of matches that live in files Settings does not own.
//!
//! These are shown so that an adopted configuration is visible in the editor,
//! but never written back: espanso matches may use regex triggers, forms,
//! variables and images that this editor cannot represent.
use vstd::prelude::*;
use crate::text::{
    forward_slashes, with_forward_slashes, chars_of, owned, push_range, same_text, text_less, text_lt, lemma_text_lt_irreflexive,
    lemma_text_lt_transitive, lemma_text_lt_trichotomy,
};

verus! {

/// A match that lives in a file Settings does not own.
#[derive(Debug, PartialEq, Eq)]
pub struct ExternalMatch {
    pub trigger: String,
    pub preview: String,
    /// Path of the file, used to open it in the system editor.
    pub source: String,
    /// Path relative to the configuration root, used as the on-screen badge.
    pub source_label: String,
    /// Why this entry is read-only, phrased so the user knows where to go next.
    pub note: String,
}

impl Clone for ExternalMatch {
    fn clone(&self) -> (r: Self)
        ensures
            r == *self,
    {
        ExternalMatch {
            trigger: self.trigger.clone(),
            preview: self.preview.clone(),
            source: self.source.clone(),
            source_label: self.source_label.clone(),
            note: self.note.clone(),
        }
    }
}

/// What the scan reads of one entry of a match file.
#[derive(Debug, PartialEq, Eq)]
pub struct ScanMatch {
    pub label: Option<String>,
    pub trigger: Option<String>,
    pub triggers: Vec<String>,
    pub regex: Option<String>,
    pub replace: Option<String>,
    /// The entry has a `form`.
    pub has_form: bool,
    /// The entry has a non-empty `vars` list.
    pub has_vars: bool,
    pub image_path: Option<String>,
}

/// The entries of one match file, with the file's path and its badge.
#[derive(Debug, PartialEq, Eq)]
pub struct ScannedFile {
    pub source: String,
    pub source_label: String,
    pub matches: Vec<ScanMatch>,
}

/// The index of the first line feed of `s`, or its length.
pub open spec fn line_end(s: Seq<char>) -> nat
    decreases s.len(),
{
    if s.len() == 0 {
        0
    } else if s[0] == '\n' {
        0
    } else {
        1 + line_end(s.drop_first())
    }
}

/// The first line of `s` (`str::lines().next()`): none for an empty text,
/// else the text up to the first line feed, without a carriage return just
/// before that line feed.
pub open spec fn first_line(s: Seq<char>) -> Option<Seq<char>> {
    if s.len() == 0 {
        None
    } else if line_end(s) == s.len() {
        Some(s)
    } else {
        let line = s.take(line_end(s) as int);
        if line.len() > 0 && line.last() == '\r' {
            Some(line.drop_last())
        } else {
            Some(line)
        }
    }
}

proof fn lemma_line_end(s: Seq<char>, i: int)
    requires
        0 <= i <= s.len(),
        forall|j: int| 0 <= j < i ==> s[j] != '\n',
        i == s.len() || s[i] == '\n',
    ensures
        line_end(s) == i,
    decreases i,
{
    if i > 0 {
        assert forall|j: int| 0 <= j < i - 1 implies s.drop_first()[j] != '\n' by {
            assert(s.drop_first()[j] == s[j + 1]);
        }
        lemma_line_end(s.drop_first(), i - 1);
    }
}

pub(crate) fn first_line_exec(s: &str) -> (r: Option<String>)
    ensures
        match first_line(s@) {
            Some(l) => r matches Some(t) && t@ == l,
            None => r is None,
        },
{
    let v = chars_of(s);
    if v.len() == 0 {
        return None;
    }
    let mut i: usize = 0;
    while i < v.len() && v[i] != '\n'
        invariant
            v@ == s@,
            i <= v@.len(),
            forall|j: int| 0 <= j < i ==> v@[j] != '\n',
        decreases v.len() - i,
    {
        i = i + 1;
    }
    proof {
        lemma_line_end(v@, i as int);
    }
    let end = if i < v.len() && i > 0 && v[i - 1] == '\r' {
        i - 1
    } else {
        i
    };
    let mut line = String::new();
    push_range(&mut line, v.as_slice(), 0, end);
    proof {
        assert(Seq::<char>::empty() + v@.subrange(0, end as int) == v@.subrange(0, end as int));
        if i == v@.len() {
            assert(v@.subrange(0, end as int) =~= v@);
        } else {
            assert(v@.take(i as int).len() > 0 && v@.take(i as int).last() == '\r' ==> v@.subrange(
                0,
                end as int,
            ) =~= v@.take(i as int).drop_last());
            assert(!(v@.take(i as int).len() > 0 && v@.take(i as int).last() == '\r') ==> v@.subrange(
                0,
                end as int,
            ) =~= v@.take(i as int));
        }
    }
    Some(line)
}

pub open spec fn or_else(a: Option<Seq<char>>, b: Option<Seq<char>>) -> Option<Seq<char>> {
    match a {
        Some(x) => Some(x),
        None => b,
    }
}

pub open spec fn text_of(value: Option<String>) -> Option<Seq<char>> {
    match value {
        Some(v) => Some(v@),
        None => None,
    }
}

/// What the list shows as the trigger: the trigger, else the first of the
/// triggers, else the regex, else the label, else `(no trigger)`.
pub open spec fn shown_trigger(item: ScanMatch) -> Seq<char> {
    let first = if item.triggers@.len() > 0 {
        Some(item.triggers@[0]@)
    } else {
        None
    };
    match or_else(text_of(item.trigger), or_else(first, or_else(text_of(item.regex), text_of(item.label)))) {
        Some(t) => t,
        None => "(no trigger)"@,
    }
}

/// The most specific reason an entry is read-only.
pub open spec fn read_only_note(item: ScanMatch) -> Seq<char> {
    if item.regex is Some {
        "regex trigger — edit in the file"@
    } else if item.has_form {
        "form — edit in the file"@
    } else if item.has_vars {
        "uses variables — edit in the file"@
    } else if item.image_path is Some {
        "image match — edit in the file"@
    } else {
        "defined outside Settings — edit in the file"@
    }
}

/// The preview: the first line of the replacement, else the note.
pub open spec fn preview_of(item: ScanMatch) -> Seq<char> {
    match item.replace {
        Some(r) => match first_line(r@) {
            Some(l) => l,
            None => read_only_note(item),
        },
        None => read_only_note(item),
    }
}

/// `e` is how `item` of the file `source`, badged `source_label`, is listed.
pub open spec fn describes(e: ExternalMatch, item: ScanMatch, source: Seq<char>, source_label: Seq<char>) -> bool {
    &&& e.trigger@ == shown_trigger(item)
    &&& e.preview@ == preview_of(item)
    &&& e.source@ == source
    &&& e.source_label@ == source_label
    &&& e.note@ == read_only_note(item)
}

fn copy_text(value: &Option<String>) -> (r: Option<String>)
    ensures
        text_of(r) == text_of(*value),
{
    match value {
        Some(v) => Some(v.clone()),
        None => None,
    }
}

fn note_exec(item: &ScanMatch) -> (r: &'static str)
    ensures
        r@ == read_only_note(*item),
{
    if item.regex.is_some() {
        "regex trigger — edit in the file"
    } else if item.has_form {
        "form — edit in the file"
    } else if item.has_vars {
        "uses variables — edit in the file"
    } else if item.image_path.is_some() {
        "image match — edit in the file"
    } else {
        "defined outside Settings — edit in the file"
    }
}

/// Lists one entry of a match file Settings does not own.
pub fn describe(item: &ScanMatch, source: &str, source_label: &str) -> (e: ExternalMatch)
    ensures
        describes(e, *item, source@, source_label@),
{
    let trigger = match copy_text(&item.trigger) {
        Some(t) => t,
        None => if item.triggers.len() > 0 {
            item.triggers[0].clone()
        } else {
            match copy_text(&item.regex) {
                Some(t) => t,
                None => match copy_text(&item.label) {
                    Some(t) => t,
                    None => owned("(no trigger)"),
                },
            }
        },
    };
    let note = note_exec(item);
    let preview = match &item.replace {
        Some(r) => match first_line_exec(r.as_str()) {
            Some(l) => l,
            None => owned(note),
        },
        None => owned(note),
    };
    ExternalMatch {
        trigger,
        preview,
        source: owned(source),
        source_label: owned(source_label),
        note: owned(note),
    }
}

// ---------------------------------------------------------------------------
// Order
// ---------------------------------------------------------------------------

/// `a` lists before `b`: by badge, then by trigger.
pub open spec fn listed_before(a: ExternalMatch, b: ExternalMatch) -> bool {
    text_lt(a.source_label@, b.source_label@) || (a.source_label@ == b.source_label@ && text_lt(
        a.trigger@,
        b.trigger@,
    ))
}

/// Where a stable insertion puts `x` into `sorted`: after every entry that
/// does not list after it.
pub open spec fn insert_position(sorted: Seq<ExternalMatch>, x: ExternalMatch) -> nat
    decreases sorted.len(),
{
    if sorted.len() == 0 {
        0
    } else if listed_before(x, sorted[0]) {
        0
    } else {
        1 + insert_position(sorted.drop_first(), x)
    }
}

/// `s` stably sorted by badge, then trigger (what `sort_by` with that
/// comparison returns).
pub open spec fn sorted_listing(s: Seq<ExternalMatch>) -> Seq<ExternalMatch>
    decreases s.len(),
{
    if s.len() == 0 {
        s
    } else {
        let rest = sorted_listing(s.drop_last());
        rest.insert(insert_position(rest, s.last()) as int, s.last())
    }
}

proof fn lemma_sorted_listing_len(s: Seq<ExternalMatch>)
    ensures
        sorted_listing(s).len() == s.len(),
    decreases s.len(),
{
    if s.len() > 0 {
        lemma_sorted_listing_len(s.drop_last());
        lemma_insert_position_bound(sorted_listing(s.drop_last()), s.last());
    }
}

proof fn lemma_insert_position_bound(s: Seq<ExternalMatch>, x: ExternalMatch)
    ensures
        insert_position(s, x) <= s.len(),
    decreases s.len(),
{
    if s.len() > 0 && !listed_before(x, s[0]) {
        lemma_insert_position_bound(s.drop_first(), x);
    }
}

proof fn lemma_insert_position(s: Seq<ExternalMatch>, x: ExternalMatch, p: int)
    requires
        0 <= p <= s.len(),
        forall|j: int| 0 <= j < p ==> !listed_before(x, #[trigger] s[j]),
        p == s.len() || listed_before(x, s[p]),
    ensures
        insert_position(s, x) == p,
    decreases p,
{
    if p > 0 {
        assert forall|j: int| 0 <= j < p - 1 implies !listed_before(x, #[trigger] s.drop_first()[j]) by {
            assert(s.drop_first()[j] == s[j + 1]);
        }
        lemma_insert_position(s.drop_first(), x, p - 1);
    }
}

fn listed_before_exec(a: &ExternalMatch, b: &ExternalMatch) -> (r: bool)
    ensures
        r == listed_before(*a, *b),
{
    text_less(a.source_label.as_str(), b.source_label.as_str()) || (same_text(
        a.source_label.as_str(),
        b.source_label.as_str(),
    ) && text_less(a.trigger.as_str(), b.trigger.as_str()))
}

/// Sorts the listing by badge, then trigger, keeping the order of ties.
pub fn sort_listing(v: &mut Vec<ExternalMatch>)
    ensures
        final(v)@ == sorted_listing(old(v)@),
{
    let ghost original = v@;
    let n = v.len();
    let mut sorted: Vec<ExternalMatch> = Vec::new();
    let mut i: usize = 0;
    while i < n
        invariant
            n == original.len(),
            v@ == original,
            i <= n,
            sorted@ == sorted_listing(original.take(i as int)),
        decreases n - i,
    {
        let x = v[i].clone();
        proof {
            lemma_sorted_listing_len(original.take(i as int));
        }
        let mut p: usize = 0;
        while p < sorted.len() && !listed_before_exec(&x, &sorted[p])
            invariant
                p <= sorted@.len(),
                forall|j: int| 0 <= j < p ==> !listed_before(x, #[trigger] sorted@[j]),
            decreases sorted.len() - p,
        {
            p = p + 1;
        }
        proof {
            lemma_insert_position(sorted@, x, p as int);
            assert(original.take(i + 1).drop_last() == original.take(i as int));
            assert(original.take(i + 1).last() == x);
        }
        sorted.insert(p, x);
        i = i + 1;
    }
    proof {
        assert(original.take(n as int) == original);
    }
    *v = sorted;
}

/// Describes every entry of the scanned files and sorts the result.
pub fn external_matches(files: &[ScannedFile]) -> (r: Vec<ExternalMatch>)
    ensures
        exists|unsorted: Seq<ExternalMatch>|
            #![trigger sorted_listing(unsorted)]
            r@ == sorted_listing(unsorted) && unsorted.len() == described_count(files@)
                && forall|f: int, k: int|
                0 <= f < files@.len() && 0 <= k < files@[f].matches@.len() ==> describes(
                    #[trigger] unsorted[described_count(files@.take(f)) + k],
                    files@[f].matches@[k],
                    files@[f].source@,
                    files@[f].source_label@,
                ),
{
    let mut out: Vec<ExternalMatch> = Vec::new();
    let mut f: usize = 0;
    while f < files.len()
        invariant
            f <= files@.len(),
            out@.len() == described_count(files@.take(f as int)),
            forall|g: int, k: int|
                0 <= g < f && 0 <= k < files@[g].matches@.len() ==> describes(
                    #[trigger] out@[described_count(files@.take(g)) + k],
                    files@[g].matches@[k],
                    files@[g].source@,
                    files@[g].source_label@,
                ),
        decreases files.len() - f,
    {
        let file = &files[f];
        let ghost start = out@.len();
        proof {
            assert(files@.take(f + 1).drop_last() == files@.take(f as int));
            lemma_described_count_prefix(files@, f as int);
        }
        let mut k: usize = 0;
        while k < file.matches.len()
            invariant
                f < files@.len(),
                *file == files@[f as int],
                start == described_count(files@.take(f as int)),
                k <= file.matches@.len(),
                out@.len() == start + k,
                forall|g: int, kk: int|
                    0 <= g < f && 0 <= kk < files@[g].matches@.len() ==> describes(
                        #[trigger] out@[described_count(files@.take(g)) + kk],
                        files@[g].matches@[kk],
                        files@[g].source@,
                        files@[g].source_label@,
                    ),
                forall|g: int| 0 <= g < f ==> described_count(#[trigger] files@.take(g)) + files@[g].matches@.len() <= start,
                forall|kk: int|
                    0 <= kk < k ==> describes(
                        #[trigger] out@[start + kk],
                        file.matches@[kk],
                        file.source@,
                        file.source_label@,
                    ),
            decreases file.matches.len() - k,
        {
            out.push(describe(&file.matches[k], file.source.as_str(), file.source_label.as_str()));
            k = k + 1;
        }
        proof {
            assert(files@.take(f + 1).drop_last() == files@.take(f as int));
            assert(files@.take(f + 1).last() == files@[f as int]);
        }
        f = f + 1;
    }
    proof {
        assert(files@.take(files@.len() as int) == files@);
    }
    let ghost unsorted = out@;
    sort_listing(&mut out);
    out
}

/// How many entries the files hold together.
pub open spec fn described_count(files: Seq<ScannedFile>) -> nat
    decreases files.len(),
{
    if files.len() == 0 {
        0
    } else {
        described_count(files.drop_last()) + files.last().matches@.len()
    }
}

proof fn lemma_described_count_prefix(files: Seq<ScannedFile>, f: int)
    requires
        0 <= f <= files.len(),
    ensures
        forall|g: int| 0 <= g < f ==> described_count(#[trigger] files.take(g)) + files[g].matches@.len() <= described_count(files.take(f)),
    decreases f,
{
    if f > 0 {
        lemma_described_count_prefix(files, f - 1);
        assert(files.take(f).drop_last() == files.take(f - 1));
        assert(files.take(f).last() == files[f - 1]);
    }
}


// ---------------------------------------------------------------------------
// The order of the read-only list
// ---------------------------------------------------------------------------

/// No entry of `s` lists before an entry ahead of it.
pub open spec fn listing_ordered(s: Seq<ExternalMatch>) -> bool {
    forall|i: int, j: int| 0 <= i < j < s.len() ==> !listed_before(#[trigger] s[j], #[trigger] s[i])
}

proof fn lemma_listed_before_transitive(a: ExternalMatch, b: ExternalMatch, c: ExternalMatch)
    requires
        listed_before(a, b),
        listed_before(b, c),
    ensures
        listed_before(a, c),
{
    if text_lt(a.source_label@, b.source_label@) && text_lt(b.source_label@, c.source_label@) {
        lemma_text_lt_transitive(a.source_label@, b.source_label@, c.source_label@);
    } else if a.source_label@ == b.source_label@ && b.source_label@ == c.source_label@ {
        lemma_text_lt_transitive(a.trigger@, b.trigger@, c.trigger@);
    }
}

proof fn lemma_listed_before_asymmetric(a: ExternalMatch, b: ExternalMatch)
    requires
        listed_before(a, b),
    ensures
        !listed_before(b, a),
{
    lemma_text_lt_trichotomy(a.source_label@, b.source_label@);
    lemma_text_lt_trichotomy(a.trigger@, b.trigger@);
    lemma_text_lt_irreflexive(a.source_label@);
}

proof fn lemma_insert_position_facts(s: Seq<ExternalMatch>, x: ExternalMatch)
    ensures
        forall|k: int| 0 <= k < insert_position(s, x) ==> !listed_before(x, #[trigger] s[k]),
        insert_position(s, x) < s.len() ==> listed_before(x, s[insert_position(s, x) as int]),
    decreases s.len(),
{
    lemma_insert_position_bound(s, x);
    if s.len() > 0 && !listed_before(x, s[0]) {
        let t = s.drop_first();
        lemma_insert_position_facts(t, x);
        assert forall|k: int| 0 <= k < insert_position(s, x) implies !listed_before(x, #[trigger] s[k]) by {
            if k > 0 {
                assert(s[k] == t[k - 1]);
            }
        }
        if insert_position(s, x) < s.len() {
            assert(s[insert_position(s, x) as int] == t[insert_position(t, x) as int]);
        }
    }
}

/// The read-only list comes ordered by badge, then trigger, and holds
/// exactly the entries it was given.
pub proof fn lemma_listing_sorted(s: Seq<ExternalMatch>)
    ensures
        listing_ordered(sorted_listing(s)),
        sorted_listing(s).to_multiset() == s.to_multiset(),
    decreases s.len(),
{
    broadcast use vstd::seq_lib::group_to_multiset_ensures;

    if s.len() > 0 {
        let rest = sorted_listing(s.drop_last());
        let x = s.last();
        lemma_listing_sorted(s.drop_last());
        lemma_sorted_listing_len(s.drop_last());
        lemma_insert_position_bound(rest, x);
        lemma_insert_position_facts(rest, x);
        let p = insert_position(rest, x) as int;
        let out = rest.insert(p, x);
        assert(sorted_listing(s) == out);
        assert forall|i: int, j: int| 0 <= i < j < out.len() implies !listed_before(
            #[trigger] out[j],
            #[trigger] out[i],
        ) by {
            if j < p {
                assert(out[i] == rest[i] && out[j] == rest[j]);
            } else if j == p {
                assert(out[i] == rest[i] && out[j] == x);
            } else if i < p {
                assert(out[i] == rest[i] && out[j] == rest[j - 1]);
            } else if i == p {
                assert(out[i] == x && out[j] == rest[j - 1]);
                if listed_before(rest[j - 1], x) {
                    if j - 1 == p {
                        lemma_listed_before_asymmetric(x, rest[p]);
                    } else {
                        lemma_listed_before_transitive(rest[j - 1], x, rest[p]);
                        assert(!listed_before(rest[j - 1], rest[p]));
                    }
                }
            } else {
                assert(out[i] == rest[i - 1] && out[j] == rest[j - 1]);
            }
        }
        assert(s =~= s.drop_last().push(x));
    }
}


// ---------------------------------------------------------------------------
// Which files are match files, and their badges
// ---------------------------------------------------------------------------

/// The code of `c` with ASCII capitals lowered (`char::to_ascii_lowercase`).
pub open spec fn ascii_lower_code(c: char) -> u32 {
    let u = c as u32;
    if 65 <= u <= 90 {
        (u + 32) as u32
    } else {
        u
    }
}

/// `a` and `b` are equal ignoring ASCII case (`str::eq_ignore_ascii_case`).
pub open spec fn same_ignoring_ascii_case(a: Seq<char>, b: Seq<char>) -> bool {
    a.len() == b.len() && forall|i: int| 0 <= i < a.len() ==> ascii_lower_code(#[trigger] a[i]) == ascii_lower_code(b[i])
}

fn eq_ignore_ascii_case(a: &str, b: &str) -> (r: bool)
    ensures
        r == same_ignoring_ascii_case(a@, b@),
{
    let v = chars_of(a);
    let w = chars_of(b);
    if v.len() != w.len() {
        return false;
    }
    let mut i: usize = 0;
    while i < v.len()
        invariant
            v@ == a@,
            w@ == b@,
            v@.len() == w@.len(),
            i <= v@.len(),
            forall|j: int| 0 <= j < i ==> ascii_lower_code(#[trigger] v@[j]) == ascii_lower_code(w@[j]),
        decreases v.len() - i,
    {
        let x = v[i] as u32;
        let y = w[i] as u32;
        let lx = if 65 <= x && x <= 90 { x + 32 } else { x };
        let ly = if 65 <= y && y <= 90 { y + 32 } else { y };
        if lx != ly {
            return false;
        }
        i = i + 1;
    }
    true
}

/// A file is a match file when its extension is `yml` or `yaml`, in any
/// ASCII case.
pub fn is_match_extension(extension: &str) -> (r: bool)
    ensures
        r == (same_ignoring_ascii_case(extension@, "yml"@) || same_ignoring_ascii_case(extension@, "yaml"@)),
{
    eq_ignore_ascii_case(extension, "yml") || eq_ignore_ascii_case(extension, "yaml")
}

/// The badge of a match file: its path relative to the configuration root,
/// with `/` separators.
pub fn source_badge(relative: &str) -> (r: String)
    ensures
        r@ == forward_slashes(relative@),
{
    with_forward_slashes(relative)
}


// ---------------------------------------------------------------------------
// What a listed entry previews
// ---------------------------------------------------------------------------

proof fn lemma_line_end_bound(s: Seq<char>)
    ensures
        line_end(s) <= s.len(),
        forall|j: int| 0 <= j < line_end(s) ==> s[j] != '\n',
    decreases s.len(),
{
    if s.len() > 0 && s[0] != '\n' {
        let t = s.drop_first();
        lemma_line_end_bound(t);
        assert forall|j: int| 0 <= j < line_end(s) implies s[j] != '\n' by {
            if j > 0 {
                assert(s[j] == t[j - 1]);
            }
        }
    }
}

/// A listed entry previews its replacement whenever the replacement has
/// text, whatever kind of match it is (regex, form, variables, image): the
/// preview is a prefix of the replacement, holds no line feed, and is its
/// first line. The read-only note stands in for the preview only when there
/// is no replacement text; the note itself always says why the entry is
/// read-only.
pub proof fn lemma_preview_is_first_line(e: ExternalMatch, item: ScanMatch, source: Seq<char>, label: Seq<char>)
    requires
        describes(e, item, source, label),
    ensures
        item.replace is Some && item.replace.unwrap()@.len() > 0 ==> ({
            let r = item.replace.unwrap()@;
            &&& first_line(r) == Some(e.preview@)
            &&& e.preview@.len() <= r.len()
            &&& e.preview@ == r.take(e.preview@.len() as int)
            &&& forall|j: int| 0 <= j < e.preview@.len() ==> e.preview@[j] != '\n'
        }),
        (item.replace is None || item.replace.unwrap()@.len() == 0) ==> e.preview@ == e.note@,
        e.note@ == read_only_note(item),
        e.trigger@ == shown_trigger(item),
        e.source@ == source && e.source_label@ == label,
{
    if let Some(r) = item.replace {
        let s = r@;
        if s.len() > 0 {
            lemma_line_end_bound(s);
            let k = line_end(s) as int;
            if k == s.len() {
                assert(s.take(s.len() as int) =~= s);
            } else {
                let line = s.take(k);
                if line.len() > 0 && line.last() == '\r' {
                    assert(line.drop_last() =~= s.take(k - 1));
                }
            }
        }
    }
}

} // verus!
