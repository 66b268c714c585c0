//! Disables the wxWidgets graphics-context subsystem in `include/wx/msw/setup.h`.
//!
//! The GDI+ wrappers that wxWidgets defines collide with the import library
//! that the settings window links, so the header is patched: the graphics
//! context is turned off, and the activity indicator, which requires it,
//! follows. Each patched marker never appears in the pristine header, so a
//! header that is already patched is recognised and left as it is.
use vstd::prelude::*;
use crate::text::{chars_of, decimal, occurs_at, occurs_at_exec, owned, push_decimal, push_range, push_str, string_of};

verus! {

/// Leftmost-first, non-overlapping occurrences of `p` in `s`
/// (`str::matches(p).count()`).
pub open spec fn count_matches(s: Seq<char>, p: Seq<char>) -> nat
    decreases s.len(),
{
    if p.len() == 0 || s.len() < p.len() {
        0
    } else if s.subrange(0, p.len() as int) == p {
        1 + count_matches(s.skip(p.len() as int), p)
    } else {
        count_matches(s.skip(1), p)
    }
}

/// `s` with its leftmost occurrence of `p` replaced by `q`
/// (`str::replacen(p, q, 1)` for a non-empty `p`).
pub open spec fn replace_first(s: Seq<char>, p: Seq<char>, q: Seq<char>) -> Seq<char>
    decreases s.len(),
{
    if p.len() == 0 || s.len() < p.len() {
        s
    } else if s.subrange(0, p.len() as int) == p {
        q + s.skip(p.len() as int)
    } else {
        seq![s[0]] + replace_first(s.skip(1), p, q)
    }
}

/// The error text for a marker that is neither present once nor patched once.
pub open spec fn marker_error(label: Seq<char>, original: nat, patched: nat) -> Seq<char> {
    "include/wx/msw/setup.h: "@ + label
        + ": expected exactly one original or patched marker, found "@ + decimal(original)
        + " original and "@ + decimal(patched) + " patched"@
}

/// One marker applied to `source`: replaced when the original occurs exactly
/// once and the patched form not at all, kept when only the patched form
/// occurs exactly once, refused otherwise.
pub open spec fn patch_marker_result(
    source: Seq<char>,
    original: Seq<char>,
    patched: Seq<char>,
    label: Seq<char>,
) -> Result<(Seq<char>, bool), Seq<char>> {
    let o = count_matches(source, original);
    let p = count_matches(source, patched);
    if o == 1 && p == 0 {
        Ok((replace_first(source, original, patched), true))
    } else if o == 0 && p == 1 {
        Ok((source, false))
    } else {
        Err(marker_error(label, o, p))
    }
}

pub open spec fn graphics_original() -> Seq<char> {
    "#define wxUSE_GRAPHICS_CONTEXT 1"@
}

pub open spec fn graphics_patched() -> Seq<char> {
    "#define wxUSE_GRAPHICS_CONTEXT 0 // espanso: avoid GDI+ symbol collision"@
}

pub open spec fn graphics_label() -> Seq<char> {
    "wxUSE_GRAPHICS_CONTEXT"@
}

pub open spec fn indicator_original() -> Seq<char> {
    "#define wxUSE_ACTIVITYINDICATOR 1"@
}

pub open spec fn indicator_patched() -> Seq<char> {
    "#define wxUSE_ACTIVITYINDICATOR 0"@
}

pub open spec fn indicator_label() -> Seq<char> {
    "wxUSE_ACTIVITYINDICATOR"@
}

/// Both markers applied in order, the first error stopping the run; the flag
/// says whether either marker changed the text.
pub open spec fn patch_setup_result(setup: Seq<char>) -> Result<(Seq<char>, bool), Seq<char>> {
    match patch_marker_result(setup, graphics_original(), graphics_patched(), graphics_label()) {
        Err(e) => Err(e),
        Ok((first, changed_first)) => match patch_marker_result(
            first,
            indicator_original(),
            indicator_patched(),
            indicator_label(),
        ) {
            Err(e) => Err(e),
            Ok((second, changed_second)) => Ok((second, changed_first || changed_second)),
        },
    }
}

proof fn lemma_skip_skip(s: Seq<char>, a: int, b: int)
    requires
        0 <= a,
        0 <= b,
        a + b <= s.len(),
    ensures
        s.skip(a).skip(b) == s.skip(a + b),
{
    assert(s.skip(a).skip(b) =~= s.skip(a + b));
}

proof fn lemma_head(s: Seq<char>, p: Seq<char>, i: int)
    requires
        0 <= i,
        i + p.len() <= s.len(),
    ensures
        (s.skip(i).subrange(0, p.len() as int) == p) == occurs_at(s, p, i),
{
    assert(s.skip(i).subrange(0, p.len() as int) =~= s.subrange(i, i + p.len()));
}

fn count_occurrences(v: &[char], p: &[char]) -> (n: usize)
    requires
        p@.len() > 0,
    ensures
        n == count_matches(v@, p@),
{
    let len = v.len();
    let mut i: usize = 0;
    let mut n: usize = 0;
    proof {
        assert(v@.skip(0) == v@);
    }
    while i < len && p.len() <= len - i
        invariant
            len == v@.len(),
            p@.len() > 0,
            i <= len,
            n <= i,
            n + count_matches(v@.skip(i as int), p@) == count_matches(v@, p@),
        decreases len - i,
    {
        let here = occurs_at_exec(v, p, i);
        proof {
            lemma_head(v@, p@, i as int);
            if here {
                lemma_skip_skip(v@, i as int, p@.len() as int);
            } else {
                lemma_skip_skip(v@, i as int, 1);
            }
        }
        if here {
            n = n + 1;
            i = i + p.len();
        } else {
            i = i + 1;
        }
    }
    n
}

/// The leftmost occurrence of `p`, when there is one, and what replacing it
/// gives.
proof fn lemma_replace_at(s: Seq<char>, p: Seq<char>, q: Seq<char>, i: int)
    requires
        p.len() > 0,
        0 <= i,
        i + p.len() <= s.len(),
        occurs_at(s, p, i),
        forall|j: int| 0 <= j < i ==> !occurs_at(s, p, j),
    ensures
        replace_first(s, p, q) == s.take(i) + q + s.skip(i + p.len()),
    decreases i,
{
    if i == 0 {
        assert(s.subrange(0, p.len() as int) == p);
        assert(s.take(0) + q + s.skip(p.len() as int) =~= q + s.skip(p.len() as int));
    } else {
        assert(!occurs_at(s, p, 0));
        assert(s.subrange(0, p.len() as int) != p);
        let t = s.skip(1);
        assert forall|j: int| 0 <= j < i - 1 implies !occurs_at(t, p, j) by {
            assert(t.subrange(j, j + p.len()) =~= s.subrange(j + 1, j + 1 + p.len()));
            assert(!occurs_at(s, p, j + 1));
        }
        assert(t.subrange(i - 1, i - 1 + p.len()) =~= s.subrange(i, i + p.len()));
        lemma_replace_at(t, p, q, i - 1);
        assert(seq![s[0]] + (t.take(i - 1) + q + t.skip(i - 1 + p.len())) =~= s.take(i) + q
            + s.skip(i + p.len()));
    }
}

proof fn lemma_replace_absent(s: Seq<char>, p: Seq<char>, q: Seq<char>)
    requires
        p.len() > 0,
        forall|j: int| 0 <= j ==> !occurs_at(s, p, j),
    ensures
        replace_first(s, p, q) == s,
    decreases s.len(),
{
    if s.len() >= p.len() {
        assert(!occurs_at(s, p, 0));
        let t = s.skip(1);
        assert forall|j: int| 0 <= j implies !occurs_at(t, p, j) by {
            if j + p.len() <= t.len() {
                assert(t.subrange(j, j + p.len()) =~= s.subrange(j + 1, j + 1 + p.len()));
                assert(!occurs_at(s, p, j + 1));
            }
        }
        lemma_replace_absent(t, p, q);
        assert(seq![s[0]] + t =~= s);
    }
}

fn replace_first_exec(v: &[char], p: &[char], q: &str) -> (r: String)
    requires
        p@.len() > 0,
    ensures
        r@ == replace_first(v@, p@, q@),
{
    let len = v.len();
    let mut i: usize = 0;
    while i < len && p.len() <= len - i
        invariant
            len == v@.len(),
            p@.len() > 0,
            i <= len,
            forall|j: int| 0 <= j < i ==> !occurs_at(v@, p@, j),
        decreases len - i,
    {
        if occurs_at_exec(v, p, i) {
            let mut r = String::new();
            push_range(&mut r, v, 0, i);
            push_str(&mut r, q);
            push_range(&mut r, v, i + p.len(), len);
            proof {
                lemma_replace_at(v@, p@, q@, i as int);
                assert(Seq::<char>::empty() + v@.subrange(0, i as int) + q@ + v@.subrange(
                    i + p@.len(),
                    len as int,
                ) =~= v@.take(i as int) + q@ + v@.skip(i + p@.len()));
            }
            return r;
        }
        i = i + 1;
    }
    proof {
        assert forall|j: int| 0 <= j implies !occurs_at(v@, p@, j) by {
            if j >= i {
                assert(!(j + p@.len() <= v@.len()));
            }
        }
        lemma_replace_absent(v@, p@, q@);
    }
    string_of(v)
}

fn marker_message(label: &str, original: usize, patched: usize) -> (m: String)
    ensures
        m@ == marker_error(label@, original as nat, patched as nat),
{
    let mut m = String::new();
    push_str(&mut m, "include/wx/msw/setup.h: ");
    push_str(&mut m, label);
    push_str(&mut m, ": expected exactly one original or patched marker, found ");
    push_decimal(&mut m, original as u128);
    push_str(&mut m, " original and ");
    push_decimal(&mut m, patched as u128);
    push_str(&mut m, " patched");
    proof {
        assert(m@ =~= marker_error(label@, original as nat, patched as nat));
    }
    m
}

fn patch_marker(source: &str, original: &str, patched: &str, label: &str) -> (r: Result<
    (String, bool),
    String,
>)
    requires
        original@.len() > 0,
        patched@.len() > 0,
    ensures
        match patch_marker_result(source@, original@, patched@, label@) {
            Ok((text, changed)) => r matches Ok((t, c)) && t@ == text && c == changed,
            Err(message) => r matches Err(m) && m@ == message,
        },
{
    let v = chars_of(source);
    let o = chars_of(original);
    let p = chars_of(patched);
    let original_count = count_occurrences(v.as_slice(), o.as_slice());
    let patched_count = count_occurrences(v.as_slice(), p.as_slice());
    if original_count == 1 && patched_count == 0 {
        Ok((replace_first_exec(v.as_slice(), o.as_slice(), patched), true))
    } else if original_count == 0 && patched_count == 1 {
        Ok((owned(source), false))
    } else {
        Err(marker_message(label, original_count, patched_count))
    }
}

/// Applies every setup marker, returning the patched header and whether it changed.
pub fn patch_setup(setup: &str) -> (r: Result<(String, bool), String>)
    ensures
        match patch_setup_result(setup@) {
            Ok((text, changed)) => r matches Ok((t, c)) && t@ == text && c == changed,
            Err(message) => r matches Err(m) && m@ == message,
        },
{
    proof {
        reveal_strlit("#define wxUSE_GRAPHICS_CONTEXT 1");
        reveal_strlit("#define wxUSE_GRAPHICS_CONTEXT 0 // espanso: avoid GDI+ symbol collision");
        reveal_strlit("#define wxUSE_ACTIVITYINDICATOR 1");
        reveal_strlit("#define wxUSE_ACTIVITYINDICATOR 0");
    }
    let (first, changed_first) = match patch_marker(
        setup,
        "#define wxUSE_GRAPHICS_CONTEXT 1",
        "#define wxUSE_GRAPHICS_CONTEXT 0 // espanso: avoid GDI+ symbol collision",
        "wxUSE_GRAPHICS_CONTEXT",
    ) {
        Ok(step) => step,
        Err(e) => return Err(e),
    };
    let (second, changed_second) = match patch_marker(
        first.as_str(),
        "#define wxUSE_ACTIVITYINDICATOR 1",
        "#define wxUSE_ACTIVITYINDICATOR 0",
        "wxUSE_ACTIVITYINDICATOR",
    ) {
        Ok(step) => step,
        Err(e) => return Err(e),
    };
    Ok((second, changed_first || changed_second))
}


// ---------------------------------------------------------------------------
// A patched header is left as it is
// ---------------------------------------------------------------------------

/// `p` is not empty and its first character occurs nowhere else in it, so
/// two of its occurrences never overlap.
pub open spec fn marker_like(p: Seq<char>) -> bool {
    p.len() > 0 && forall|k: int| 1 <= k < p.len() ==> #[trigger] p[k] != p[0]
}

/// `a` and `b` differ at a position that both have, so neither is a prefix
/// of the other.
pub open spec fn differs(a: Seq<char>, b: Seq<char>) -> bool {
    exists|k: int| 0 <= k < a.len() && k < b.len() && #[trigger] a[k] != #[trigger] b[k]
}

/// `p` occurs nowhere in `s`.
pub open spec fn nowhere(s: Seq<char>, p: Seq<char>) -> bool {
    forall|j: int| !#[trigger] occurs_at(s, p, j)
}

/// `p` occurs in `s` at `i` and nowhere else.
pub open spec fn only_at(s: Seq<char>, p: Seq<char>, i: int) -> bool {
    occurs_at(s, p, i) && forall|j: int| j != i ==> !#[trigger] occurs_at(s, p, j)
}

proof fn lemma_occurs_skip(s: Seq<char>, p: Seq<char>, m: int, j: int)
    requires
        0 <= m <= s.len(),
        0 <= j,
    ensures
        occurs_at(s.skip(m), p, j) == occurs_at(s, p, j + m),
{
    if j + p.len() <= s.len() - m {
        assert(s.skip(m).subrange(j, j + p.len()) =~= s.subrange(j + m, j + m + p.len()));
    }
}

proof fn lemma_count_zero(s: Seq<char>, p: Seq<char>)
    requires
        p.len() > 0,
    ensures
        (count_matches(s, p) == 0) == nowhere(s, p),
    decreases s.len(),
{
    if s.len() < p.len() {
        assert forall|j: int| !#[trigger] occurs_at(s, p, j) by {}
    } else if s.subrange(0, p.len() as int) == p {
        assert(occurs_at(s, p, 0));
    } else {
        let t = s.skip(1);
        lemma_count_zero(t, p);
        assert(!occurs_at(s, p, 0));
        if nowhere(t, p) {
            assert forall|j: int| !#[trigger] occurs_at(s, p, j) by {
                if j >= 1 {
                    lemma_occurs_skip(s, p, 1, j - 1);
                }
            }
        }
        if nowhere(s, p) {
            assert forall|j: int| !#[trigger] occurs_at(t, p, j) by {
                if j >= 0 {
                    lemma_occurs_skip(s, p, 1, j);
                }
            }
        }
    }
}

proof fn lemma_count_one(s: Seq<char>, p: Seq<char>)
    requires
        marker_like(p),
    ensures
        (count_matches(s, p) == 1) == exists|i: int| only_at(s, p, i),
    decreases s.len(),
{
    if s.len() < p.len() {
        if exists|i: int| only_at(s, p, i) {
            let i = choose|i: int| only_at(s, p, i);
            assert(occurs_at(s, p, i));
        }
    } else if s.subrange(0, p.len() as int) == p {
        let n = p.len() as int;
        let t = s.skip(n);
        lemma_count_zero(t, p);
        assert(occurs_at(s, p, 0));
        assert forall|k: int| 1 <= k < n implies !#[trigger] occurs_at(s, p, k) by {
            assert(s[k] == s.subrange(0, n)[k]);
            if occurs_at(s, p, k) {
                assert(s[k] == s.subrange(k, k + n)[0]);
            }
        }
        if count_matches(s, p) == 1 {
            assert forall|j: int| j != 0 implies !#[trigger] occurs_at(s, p, j) by {
                if j >= n {
                    lemma_occurs_skip(s, p, n, j - n);
                }
            }
            assert(only_at(s, p, 0));
        }
        if exists|i: int| only_at(s, p, i) {
            let i = choose|i: int| only_at(s, p, i);
            assert(i == 0);
            assert forall|j: int| !#[trigger] occurs_at(t, p, j) by {
                if j >= 0 {
                    lemma_occurs_skip(s, p, n, j);
                    assert(!occurs_at(s, p, j + n));
                }
            }
        }
    } else {
        let t = s.skip(1);
        lemma_count_one(t, p);
        assert(!occurs_at(s, p, 0));
        if exists|i: int| only_at(t, p, i) {
            let i = choose|i: int| only_at(t, p, i);
            assert(i >= 0);
            lemma_occurs_skip(s, p, 1, i);
            assert forall|j: int| j != i + 1 implies !#[trigger] occurs_at(s, p, j) by {
                if j >= 1 {
                    lemma_occurs_skip(s, p, 1, j - 1);
                }
            }
            assert(only_at(s, p, i + 1));
        }
        if exists|i: int| only_at(s, p, i) {
            let i = choose|i: int| only_at(s, p, i);
            assert(i >= 1);
            lemma_occurs_skip(s, p, 1, i - 1);
            assert forall|j: int| j != i - 1 implies !#[trigger] occurs_at(t, p, j) by {
                if j >= 0 {
                    lemma_occurs_skip(s, p, 1, j);
                }
            }
            assert(only_at(t, p, i - 1));
        }
    }
}

/// Where a pattern `x` that starts like the markers occurs once the marker
/// `o` at `i` is replaced by `p`: as before left of `i`, never inside the
/// replacement, and shifted right of it.
proof fn lemma_replaced_occurrences(
    s: Seq<char>,
    o: Seq<char>,
    p: Seq<char>,
    x: Seq<char>,
    i: int,
    t: Seq<char>,
)
    requires
        marker_like(o),
        marker_like(p),
        marker_like(x),
        p[0] == o[0],
        x[0] == o[0],
        occurs_at(s, o, i),
        t == s.take(i) + p + s.skip(i + o.len()),
    ensures
        forall|j: int| j < i ==> #[trigger] occurs_at(t, x, j) == occurs_at(s, x, j),
        forall|j: int| i < j < i + p.len() ==> !#[trigger] occurs_at(t, x, j),
        forall|j: int| i < j < i + o.len() ==> !#[trigger] occurs_at(s, x, j),
        forall|j: int|
            j >= i + p.len() ==> #[trigger] occurs_at(t, x, j) == occurs_at(s, x, j - p.len() + o.len()),
        differs(x, p) ==> !occurs_at(t, x, i),
        differs(x, o) ==> !occurs_at(s, x, i),
        occurs_at(t, p, i),
{
    let n = x.len() as int;
    assert(t.len() == s.len() - o.len() + p.len());
    assert(s[i] == s.subrange(i, i + o.len())[0]);
    assert(t[i] == p[0]);
    assert forall|j: int| j < i implies #[trigger] occurs_at(t, x, j) == occurs_at(s, x, j) by {
        if 0 <= j {
            if j + n <= i {
                assert(t.subrange(j, j + n) =~= s.subrange(j, j + n));
            } else {
                if occurs_at(t, x, j) {
                    assert(t[i] == t.subrange(j, j + n)[i - j]);
                }
                if occurs_at(s, x, j) {
                    assert(s[i] == s.subrange(j, j + n)[i - j]);
                }
            }
        }
    }
    assert forall|j: int| i < j < i + p.len() implies !#[trigger] occurs_at(t, x, j) by {
        assert(t[j] == p[j - i]);
        if occurs_at(t, x, j) {
            assert(t[j] == t.subrange(j, j + n)[0]);
        }
    }
    assert forall|j: int| i < j < i + o.len() implies !#[trigger] occurs_at(s, x, j) by {
        assert(s[j] == s.subrange(i, i + o.len())[j - i]);
        if occurs_at(s, x, j) {
            assert(s[j] == s.subrange(j, j + n)[0]);
        }
    }
    assert(t.skip(i + p.len()) =~= s.skip(i + o.len()));
    assert forall|j: int| j >= i + p.len() implies #[trigger] occurs_at(t, x, j) == occurs_at(
        s,
        x,
        j - p.len() + o.len(),
    ) by {
        lemma_occurs_skip(t, x, i + p.len(), j - i - p.len());
        lemma_occurs_skip(s, x, i + o.len(), j - i - p.len());
    }
    if differs(x, p) {
        let k = choose|k: int| 0 <= k < x.len() && k < p.len() && #[trigger] x[k] != #[trigger] p[k];
        assert(t[i + k] == p[k]);
        if occurs_at(t, x, i) {
            assert(t[i + k] == t.subrange(i, i + n)[k]);
        }
    }
    if differs(x, o) {
        let k = choose|k: int| 0 <= k < x.len() && k < o.len() && #[trigger] x[k] != #[trigger] o[k];
        assert(s[i + k] == s.subrange(i, i + o.len())[k]);
        if occurs_at(s, x, i) {
            assert(s[i + k] == s.subrange(i, i + n)[k]);
        }
    }
    assert(t.subrange(i, i + p.len()) =~= p);
}

/// The replacement made by a marker step, at the marker's only occurrence.
proof fn lemma_replaced_text(s: Seq<char>, o: Seq<char>, p: Seq<char>, i: int)
    requires
        o.len() > 0,
        only_at(s, o, i),
    ensures
        replace_first(s, o, p) == s.take(i) + p + s.skip(i + o.len()),
{
    assert forall|j: int| 0 <= j < i implies !#[trigger] occurs_at(s, o, j) by {}
    lemma_replace_at(s, o, p, i);
}

/// After a marker step succeeds, the marker is found in its patched form
/// exactly once and in its original form nowhere.
proof fn lemma_marker_done(s: Seq<char>, o: Seq<char>, p: Seq<char>, label: Seq<char>)
    requires
        marker_like(o),
        marker_like(p),
        p[0] == o[0],
        differs(o, p),
        patch_marker_result(s, o, p, label) is Ok,
    ensures
        patch_marker_result(s, o, p, label) matches Ok((t, _)) ==> count_matches(t, o) == 0
            && count_matches(t, p) == 1,
{
    lemma_count_one(s, o);
    lemma_count_zero(s, p);
    if count_matches(s, o) == 1 && count_matches(s, p) == 0 {
        let i = choose|i: int| only_at(s, o, i);
        let t = s.take(i) + p + s.skip(i + o.len());
        lemma_replaced_text(s, o, p, i);
        assert(differs(p, o)) by {
            let k = choose|k: int| 0 <= k < o.len() && k < p.len() && #[trigger] o[k] != #[trigger] p[k];
            assert(p[k] != o[k]);
        }
        lemma_replaced_occurrences(s, o, p, o, i, t);
        lemma_replaced_occurrences(s, o, p, p, i, t);
        assert forall|j: int| !#[trigger] occurs_at(t, o, j) by {
            if i + p.len() <= j {
                assert(!occurs_at(s, o, j - p.len() + o.len()));
            }
        }
        assert forall|j: int| j != i implies !#[trigger] occurs_at(t, p, j) by {
            if j < i {
                assert(!occurs_at(s, p, j));
            } else if i + p.len() <= j {
                assert(!occurs_at(s, p, j - p.len() + o.len()));
            }
        }
        assert(only_at(t, p, i));
        lemma_count_zero(t, o);
        lemma_count_one(t, p);
    } else {
        lemma_count_one(s, p);
    }
}

/// A marker step keeps another marker that was already patched exactly
/// once and nowhere original.
proof fn lemma_marker_keeps(
    s: Seq<char>,
    o: Seq<char>,
    p: Seq<char>,
    label: Seq<char>,
    x: Seq<char>,
    y: Seq<char>,
)
    requires
        marker_like(o),
        marker_like(p),
        marker_like(x),
        marker_like(y),
        p[0] == o[0],
        x[0] == o[0],
        y[0] == o[0],
        differs(x, p),
        differs(y, p),
        differs(y, o),
        count_matches(s, x) == 0,
        count_matches(s, y) == 1,
        patch_marker_result(s, o, p, label) is Ok,
    ensures
        patch_marker_result(s, o, p, label) matches Ok((t, _)) ==> count_matches(t, x) == 0
            && count_matches(t, y) == 1,
{
    lemma_count_one(s, o);
    lemma_count_zero(s, p);
    if count_matches(s, o) == 1 && count_matches(s, p) == 0 {
        let i = choose|i: int| only_at(s, o, i);
        let t = s.take(i) + p + s.skip(i + o.len());
        lemma_replaced_text(s, o, p, i);
        lemma_count_zero(s, x);
        lemma_count_one(s, y);
        let k = choose|k: int| only_at(s, y, k);
        lemma_replaced_occurrences(s, o, p, x, i, t);
        lemma_replaced_occurrences(s, o, p, y, i, t);
        assert forall|j: int| !#[trigger] occurs_at(t, x, j) by {
            if i + p.len() <= j {
                assert(!occurs_at(s, x, j - p.len() + o.len()));
            }
        }
        assert(k != i);
        assert(!(i < k < i + o.len()));
        let k2 = if k < i { k } else { k - o.len() + p.len() };
        assert(occurs_at(t, y, k2));
        assert forall|j: int| j != k2 implies !#[trigger] occurs_at(t, y, j) by {
            if j < i {
                assert(!occurs_at(s, y, j) || j == k);
            } else if i + p.len() <= j {
                assert(!occurs_at(s, y, j - p.len() + o.len()) || j - p.len() + o.len() == k);
            }
        }
        assert(only_at(t, y, k2));
        lemma_count_zero(t, x);
        lemma_count_one(t, y);
    }
}

/// Patching a header that the patch produced changes nothing: both markers
/// are found in their patched form, and the text is returned unchanged with
/// the flag saying so.
pub proof fn lemma_patch_is_idempotent(setup: Seq<char>)
    requires
        patch_setup_result(setup) is Ok,
    ensures
        patch_setup_result(setup) matches Ok((out, _)) ==> patch_setup_result(out) == Ok::<
            (Seq<char>, bool),
            Seq<char>,
        >((out, false)),
{
    reveal_strlit("#define wxUSE_GRAPHICS_CONTEXT 1");
    reveal_strlit("#define wxUSE_GRAPHICS_CONTEXT 0 // espanso: avoid GDI+ symbol collision");
    reveal_strlit("#define wxUSE_ACTIVITYINDICATOR 1");
    reveal_strlit("#define wxUSE_ACTIVITYINDICATOR 0");
    let go = graphics_original();
    let gp = graphics_patched();
    let io = indicator_original();
    let ip = indicator_patched();
    assert(marker_like(go) && marker_like(gp) && marker_like(io) && marker_like(ip));
    assert(go[31] != gp[31]);
    assert(io[32] != ip[32]);
    assert(gp[14] != ip[14] && gp[14] != io[14] && go[14] != ip[14]);
    assert(differs(go, gp) && differs(io, ip) && differs(go, ip) && differs(gp, ip) && differs(gp, io));
    let first = patch_marker_result(setup, go, gp, graphics_label());
    lemma_marker_done(setup, go, gp, graphics_label());
    let t = match first {
        Ok((t, _)) => t,
        Err(_) => setup,
    };
    lemma_marker_done(t, io, ip, indicator_label());
    lemma_marker_keeps(t, io, ip, indicator_label(), go, gp);
    let u = match patch_marker_result(t, io, ip, indicator_label()) {
        Ok((u, _)) => u,
        Err(_) => t,
    };
    assert(patch_marker_result(u, go, gp, graphics_label()) == Ok::<(Seq<char>, bool), Seq<char>>((u, false)));
    assert(patch_marker_result(u, io, ip, indicator_label()) == Ok::<(Seq<char>, bool), Seq<char>>((u, false)));
}


/// Replacing the only occurrence of `o` by `p` keeps whether another
/// pattern `x`, unlike both, occurs nowhere, and whether it occurs once.
proof fn lemma_replace_keeps_counts(
    s: Seq<char>,
    o: Seq<char>,
    p: Seq<char>,
    x: Seq<char>,
    i: int,
    t: Seq<char>,
)
    requires
        marker_like(o),
        marker_like(p),
        marker_like(x),
        p[0] == o[0],
        x[0] == o[0],
        differs(x, o),
        differs(x, p),
        only_at(s, o, i),
        t == s.take(i) + p + s.skip(i + o.len()),
    ensures
        (count_matches(t, x) == 0) == (count_matches(s, x) == 0),
        (count_matches(t, x) == 1) == (count_matches(s, x) == 1),
{
    lemma_replaced_occurrences(s, o, p, x, i, t);
    lemma_count_zero(s, x);
    lemma_count_zero(t, x);
    lemma_count_one(s, x);
    lemma_count_one(t, x);
    let ol = o.len() as int;
    let pl = p.len() as int;
    if nowhere(s, x) {
        assert forall|j: int| !#[trigger] occurs_at(t, x, j) by {
            if i + pl <= j {
                assert(!occurs_at(s, x, j - pl + ol));
            }
        }
    }
    if nowhere(t, x) {
        assert forall|j: int| !#[trigger] occurs_at(s, x, j) by {
            if j < i {
                assert(!occurs_at(t, x, j));
            } else if j == i {
            } else if j < i + ol {
            } else {
                let j2 = j - ol + pl;
                assert(j2 >= i + pl);
                assert(j2 - pl + ol == j);
                assert(occurs_at(t, x, j2) == occurs_at(s, x, j2 - pl + ol));
                assert(!occurs_at(t, x, j2));
            }
        }
    }
    if exists|k: int| only_at(s, x, k) {
        let k = choose|k: int| only_at(s, x, k);
        assert(k != i);
        assert(!(i < k < i + ol));
        let k2 = if k < i { k } else { k - ol + pl };
        assert(occurs_at(t, x, k2));
        assert forall|j: int| j != k2 implies !#[trigger] occurs_at(t, x, j) by {
            if j < i {
                assert(!occurs_at(s, x, j) || j == k);
            } else if i + pl <= j {
                assert(!occurs_at(s, x, j - pl + ol) || j - pl + ol == k);
            }
        }
        assert(only_at(t, x, k2));
    }
    if exists|k: int| only_at(t, x, k) {
        let k2 = choose|k: int| only_at(t, x, k);
        assert(k2 != i);
        assert(!(i < k2 < i + pl));
        let k = if k2 < i { k2 } else { k2 - pl + ol };
        assert(occurs_at(s, x, k));
        assert forall|j: int| j != k implies !#[trigger] occurs_at(s, x, j) by {
            if j < i {
                assert(!occurs_at(t, x, j) || j == k2);
            } else if i + ol <= j {
                assert(occurs_at(t, x, j - ol + pl) == occurs_at(s, x, j));
                assert(!occurs_at(t, x, j - ol + pl) || j - ol + pl == k2);
            }
        }
        assert(only_at(s, x, k));
    }
}

/// A marker is found exactly once, in its original or its patched form.
pub open spec fn marker_ok(s: Seq<char>, o: Seq<char>, p: Seq<char>) -> bool {
    (count_matches(s, o) == 1 && count_matches(s, p) == 0) || (count_matches(s, o) == 0
        && count_matches(s, p) == 1)
}

/// The text once a marker is applied: its original replaced when present.
pub open spec fn apply_marker(s: Seq<char>, o: Seq<char>, p: Seq<char>) -> Seq<char> {
    if count_matches(s, o) == 1 {
        replace_first(s, o, p)
    } else {
        s
    }
}

/// The patch succeeds exactly when the header holds each marker once, in
/// its original or its patched form; it then replaces every original that
/// is present, and the flag says whether the text changed. Every refusal
/// names the header and the marker.
pub proof fn lemma_patch_setup_law(setup: Seq<char>)
    ensures
        patch_setup_result(setup) is Ok <==> marker_ok(setup, graphics_original(), graphics_patched())
            && marker_ok(setup, indicator_original(), indicator_patched()),
        patch_setup_result(setup) matches Ok((out, changed)) ==> out == apply_marker(
            apply_marker(setup, graphics_original(), graphics_patched()),
            indicator_original(),
            indicator_patched(),
        ) && changed == (out != setup),
        patch_setup_result(setup) matches Err(e) ==> exists|label: Seq<char>, o: nat, p: nat|
            (label == graphics_label() || label == indicator_label()) && e == #[trigger] marker_error(
                label,
                o,
                p,
            ),
{
    reveal_strlit("#define wxUSE_GRAPHICS_CONTEXT 1");
    reveal_strlit("#define wxUSE_GRAPHICS_CONTEXT 0 // espanso: avoid GDI+ symbol collision");
    reveal_strlit("#define wxUSE_ACTIVITYINDICATOR 1");
    reveal_strlit("#define wxUSE_ACTIVITYINDICATOR 0");
    let go = graphics_original();
    let gp = graphics_patched();
    let io = indicator_original();
    let ip = indicator_patched();
    assert(marker_like(go) && marker_like(gp) && marker_like(io) && marker_like(ip));
    assert(go[31] != gp[31]);
    assert(io[32] != ip[32]);
    assert(go[14] != io[14] && go[14] != ip[14] && gp[14] != io[14] && gp[14] != ip[14]);
    assert(differs(go, gp) && differs(io, ip));
    assert(differs(io, go) && differs(io, gp) && differs(ip, go) && differs(ip, gp));
    assert(differs(go, io) && differs(go, ip) && differs(gp, io) && differs(gp, ip));
    let t = apply_marker(setup, go, gp);
    if marker_ok(setup, go, gp) {
        assert(patch_marker_result(setup, go, gp, graphics_label()) == Ok::<(Seq<char>, bool), Seq<char>>(
            (t, count_matches(setup, go) == 1),
        ));
        if count_matches(setup, go) == 1 {
            lemma_count_one(setup, go);
            let i = choose|i: int| only_at(setup, go, i);
            lemma_replaced_text(setup, go, gp, i);
            lemma_replace_keeps_counts(setup, go, gp, io, i, t);
            lemma_replace_keeps_counts(setup, go, gp, ip, i, t);
        }
        assert(marker_ok(t, io, ip) == marker_ok(setup, io, ip));
        if marker_ok(t, io, ip) {
            let u = apply_marker(t, io, ip);
            assert(patch_marker_result(t, io, ip, indicator_label()) == Ok::<(Seq<char>, bool), Seq<char>>(
                (u, count_matches(t, io) == 1),
            ));
            lemma_marker_done(setup, go, gp, graphics_label());
            lemma_marker_done(t, io, ip, indicator_label());
            if count_matches(setup, go) == 1 {
                if count_matches(t, io) == 1 {
                    lemma_count_one(t, io);
                    let k = choose|k: int| only_at(t, io, k);
                    lemma_replaced_text(t, io, ip, k);
                    lemma_replace_keeps_counts(t, io, ip, go, k, u);
                }
                assert(count_matches(u, go) == 0);
                assert(u != setup);
            } else if count_matches(t, io) == 1 {
                assert(count_matches(u, io) == 0);
                assert(u != setup);
            }
        }
    }
}

} // verus!
