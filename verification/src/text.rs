//! Text primitives shared by the rest of the library, each specified over
//! `Seq<char>`, the view of `str` and `String`.
use vstd::prelude::*;

verus! {

/// Appends one character to a string.
///
/// Wraps `String::push`, which std documents as appending the given `char`
/// to the end of the string.
#[verifier::external_body]
pub(crate) fn push_char(s: &mut String, c: char)
    ensures
        final(s)@ == old(s)@.push(c),
{
    s.push(c);
}

/// What `str::to_lowercase` returns for a string with the given characters.
pub uninterp spec fn lowercase(s: Seq<char>) -> Seq<char>;

/// Lower-cases a string with Unicode rules.
///
/// Wraps `str::to_lowercase`. Its result is a function of the input text
/// alone (the Unicode tables of the std in use), so it is named
/// `lowercase` and nothing more is claimed of it.
#[verifier::external_body]
pub(crate) fn to_lowercase(s: &str) -> (r: String)
    ensures
        r@ == lowercase(s@),
{
    s.to_lowercase()
}

/// The characters of a string slice, in order.
pub fn chars_of(s: &str) -> (v: Vec<char>)
    ensures
        v@ == s@,
{
    let mut v: Vec<char> = Vec::new();
    for c in it: s.chars()
        invariant
            v@ == it.seq().take(it.index() as int),
    {
        v.push(c);
    }
    v
}

/// Builds a string from a sequence of characters.
pub fn string_of(v: &[char]) -> (s: String)
    ensures
        s@ == v@,
{
    let mut s = String::new();
    let mut i: usize = 0;
    while i < v.len()
        invariant
            i <= v.len(),
            s@ == v@.take(i as int),
        decreases v.len() - i,
    {
        push_char(&mut s, v[i]);
        proof {
            assert(v@.take(i + 1) == v@.take(i as int).push(v@[i as int]));
        }
        i = i + 1;
    }
    proof {
        assert(v@.take(v@.len() as int) == v@);
    }
    s
}

/// Appends the characters of `v[from..to]` to `s`.
pub fn push_range(s: &mut String, v: &[char], from: usize, to: usize)
    requires
        from <= to <= v@.len(),
    ensures
        final(s)@ == old(s)@ + v@.subrange(from as int, to as int),
{
    let mut i: usize = from;
    while i < to
        invariant
            from <= i <= to <= v@.len(),
            s@ == old(s)@ + v@.subrange(from as int, i as int),
        decreases to - i,
    {
        push_char(s, v[i]);
        proof {
            assert(v@.subrange(from as int, i + 1) == v@.subrange(from as int, i as int).push(
                v@[i as int],
            ));
        }
        i = i + 1;
    }
}

/// Appends a string slice to `s`.
pub fn push_str(s: &mut String, t: &str)
    ensures
        final(s)@ == old(s)@ + t@,
{
    let v = chars_of(t);
    push_range(s, v.as_slice(), 0, v.len());
    proof {
        assert(v@.subrange(0, v@.len() as int) == v@);
    }
}

/// A copy of a string slice.
pub fn owned(s: &str) -> (r: String)
    ensures
        r@ == s@,
{
    let mut r = String::new();
    push_str(&mut r, s);
    proof {
        assert(Seq::<char>::empty() + s@ == s@);
    }
    r
}

// ---------------------------------------------------------------------------
// White space and trimming
// ---------------------------------------------------------------------------

/// The Unicode `White_Space` property, which is what `char::is_whitespace`
/// tests.
pub open spec fn is_white_space(c: char) -> bool {
    let u = c as u32;
    ||| 0x9 <= u <= 0xd
    ||| u == 0x20
    ||| u == 0x85
    ||| u == 0xa0
    ||| u == 0x1680
    ||| 0x2000 <= u <= 0x200a
    ||| u == 0x2028
    ||| u == 0x2029
    ||| u == 0x202f
    ||| u == 0x205f
    ||| u == 0x3000
}

pub fn white_space(c: char) -> (r: bool)
    ensures
        r == is_white_space(c),
{
    let u = c as u32;
    (0x9 <= u && u <= 0xd) || u == 0x20 || u == 0x85 || u == 0xa0 || u == 0x1680 || (0x2000 <= u
        && u <= 0x200a) || u == 0x2028 || u == 0x2029 || u == 0x202f || u == 0x205f || u == 0x3000
}

/// `s` without its leading white space.
pub open spec fn trim_start(s: Seq<char>) -> Seq<char>
    decreases s.len(),
{
    if s.len() > 0 && is_white_space(s[0]) {
        trim_start(s.drop_first())
    } else {
        s
    }
}

/// `s` without its trailing white space.
pub open spec fn trim_end(s: Seq<char>) -> Seq<char>
    decreases s.len(),
{
    if s.len() > 0 && is_white_space(s.last()) {
        trim_end(s.drop_last())
    } else {
        s
    }
}

/// `s` without leading and trailing white space, as `str::trim` returns it.
pub open spec fn trim(s: Seq<char>) -> Seq<char> {
    trim_end(trim_start(s))
}

/// `str::trim`, returning an owned string.
pub fn trim_str(s: &str) -> (r: String)
    ensures
        r@ == trim(s@),
{
    let v = chars_of(s);
    let n = v.len();
    let mut start: usize = 0;
    proof {
        assert(v@.subrange(0, n as int) == v@);
    }
    while start < n && white_space(v[start])
        invariant
            n == v@.len(),
            start <= n,
            trim_start(v@) == trim_start(v@.subrange(start as int, n as int)),
        decreases n - start,
    {
        proof {
            let sub = v@.subrange(start as int, n as int);
            assert(sub.drop_first() == v@.subrange(start + 1, n as int));
        }
        start = start + 1;
    }
    let mut end: usize = n;
    proof {
        let sub = v@.subrange(start as int, n as int);
        assert(trim_start(v@) == sub);
    }
    while end > start && white_space(v[end - 1])
        invariant
            n == v@.len(),
            start <= end <= n,
            trim(v@) == trim_end(v@.subrange(start as int, end as int)),
        decreases end - start,
    {
        proof {
            let sub = v@.subrange(start as int, end as int);
            assert(sub.drop_last() == v@.subrange(start as int, end - 1));
        }
        end = end - 1;
    }
    let mut r = String::new();
    push_range(&mut r, v.as_slice(), start, end);
    proof {
        assert(Seq::<char>::empty() + v@.subrange(start as int, end as int) == v@.subrange(
            start as int,
            end as int,
        ));
    }
    r
}

// ---------------------------------------------------------------------------
// Searching
// ---------------------------------------------------------------------------

/// `p` occurs in `s` starting at index `i`.
pub open spec fn occurs_at(s: Seq<char>, p: Seq<char>, i: int) -> bool {
    0 <= i && i + p.len() <= s.len() && s.subrange(i, i + p.len()) == p
}

/// `p` is a substring of `s` (`str::contains` with a string pattern).
pub open spec fn has_substring(s: Seq<char>, p: Seq<char>) -> bool {
    exists|i: int| occurs_at(s, p, i)
}

/// `v[i..i + p.len()] == p`, checked character by character.
pub fn occurs_at_exec(v: &[char], p: &[char], i: usize) -> (r: bool)
    requires
        i <= v@.len(),
    ensures
        r == occurs_at(v@, p@, i as int),
{
    let n = v.len();
    if p.len() > n - i {
        return false;
    }
    let mut k: usize = 0;
    while k < p.len()
        invariant
            n == v@.len(),
            i + p@.len() <= v@.len(),
            k <= p@.len(),
            forall|j: int| 0 <= j < k ==> v@[i + j] == p@[j],
        decreases p.len() - k,
    {
        assert(i + k < v@.len());
        if v[i + k] != p[k] {
            proof {
                assert(v@.subrange(i as int, i + p@.len())[k as int] != p@[k as int]);
            }
            return false;
        }
        k = k + 1;
    }
    proof {
        assert(v@.subrange(i as int, i + p@.len()) =~= p@);
    }
    true
}

/// Whether `p` occurs in `v`.
pub fn contains_seq(v: &[char], p: &[char]) -> (r: bool)
    ensures
        r == has_substring(v@, p@),
{
    if p.len() > v.len() {
        return false;
    }
    let last = v.len() - p.len();
    let mut i: usize = 0;
    while i < last
        invariant
            last == v@.len() - p@.len(),
            i <= last,
            forall|j: int| 0 <= j < i ==> !occurs_at(v@, p@, j),
        decreases last - i,
    {
        if occurs_at_exec(v, p, i) {
            return true;
        }
        i = i + 1;
    }
    occurs_at_exec(v, p, last)
}

/// `str::contains` with a string pattern.
pub fn contains_str(s: &str, p: &str) -> (r: bool)
    ensures
        r == has_substring(s@, p@),
{
    let v = chars_of(s);
    let w = chars_of(p);
    contains_seq(v.as_slice(), w.as_slice())
}

/// `s` holds a line feed, a carriage return or a NUL character.
pub open spec fn has_break_or_nul(s: Seq<char>) -> bool {
    exists|i: int| 0 <= i < s.len() && (s[i] == '\n' || s[i] == '\r' || s[i] == '\0')
}

/// `s` holds a NUL character.
pub open spec fn has_nul(s: Seq<char>) -> bool {
    exists|i: int| 0 <= i < s.len() && s[i] == '\0'
}

/// `str::contains(['\n', '\r', '\0'])`.
pub fn contains_break_or_nul(s: &str) -> (r: bool)
    ensures
        r == has_break_or_nul(s@),
{
    let v = chars_of(s);
    let mut i: usize = 0;
    while i < v.len()
        invariant
            v@ == s@,
            i <= v@.len(),
            forall|j: int| 0 <= j < i ==> !(v@[j] == '\n' || v@[j] == '\r' || v@[j] == '\0'),
        decreases v.len() - i,
    {
        if v[i] == '\n' || v[i] == '\r' || v[i] == '\0' {
            return true;
        }
        i = i + 1;
    }
    false
}

/// `str::contains('\0')`.
pub fn contains_nul(s: &str) -> (r: bool)
    ensures
        r == has_nul(s@),
{
    let v = chars_of(s);
    let mut i: usize = 0;
    while i < v.len()
        invariant
            v@ == s@,
            i <= v@.len(),
            forall|j: int| 0 <= j < i ==> v@[j] != '\0',
        decreases v.len() - i,
    {
        if v[i] == '\0' {
            return true;
        }
        i = i + 1;
    }
    false
}

/// `str::starts_with` with a string pattern.
pub fn starts_with(s: &str, p: &str) -> (r: bool)
    ensures
        r == p@.is_prefix_of(s@),
{
    let v = chars_of(s);
    let w = chars_of(p);
    let r = occurs_at_exec(v.as_slice(), w.as_slice(), 0);
    proof {
        if r {
            assert(v@.subrange(0, w@.len() as int) == w@);
        }
        if p@.is_prefix_of(s@) {
            assert(v@.subrange(0, w@.len() as int) =~= w@);
        }
    }
    r
}

/// Two strings have the same characters.
pub fn same_text(a: &str, b: &str) -> (r: bool)
    ensures
        r == (a@ == b@),
{
    let v = chars_of(a);
    let w = chars_of(b);
    if v.len() != w.len() {
        return false;
    }
    let r = occurs_at_exec(v.as_slice(), w.as_slice(), 0);
    proof {
        if r {
            assert(v@.subrange(0, w@.len() as int) == w@);
            assert(v@.subrange(0, w@.len() as int) =~= v@);
        }
        if a@ == b@ {
            assert(v@.subrange(0, w@.len() as int) =~= w@);
        }
    }
    r
}

// ---------------------------------------------------------------------------
// Decimal numbers
// ---------------------------------------------------------------------------

/// The character of a decimal digit.
pub open spec fn digit_char(d: nat) -> char {
    if d == 0 {
        '0'
    } else if d == 1 {
        '1'
    } else if d == 2 {
        '2'
    } else if d == 3 {
        '3'
    } else if d == 4 {
        '4'
    } else if d == 5 {
        '5'
    } else if d == 6 {
        '6'
    } else if d == 7 {
        '7'
    } else if d == 8 {
        '8'
    } else {
        '9'
    }
}

/// The decimal representation of `n`, without sign or leading zeros
/// (what `format!("{n}")` prints for an unsigned integer).
pub open spec fn decimal(n: nat) -> Seq<char>
    decreases n,
{
    if n < 10 {
        seq![digit_char(n)]
    } else {
        decimal(n / 10).push(digit_char(n % 10))
    }
}

fn digit(d: u128) -> (c: char)
    requires
        d < 10,
    ensures
        c == digit_char(d as nat),
{
    if d == 0 {
        '0'
    } else if d == 1 {
        '1'
    } else if d == 2 {
        '2'
    } else if d == 3 {
        '3'
    } else if d == 4 {
        '4'
    } else if d == 5 {
        '5'
    } else if d == 6 {
        '6'
    } else if d == 7 {
        '7'
    } else if d == 8 {
        '8'
    } else {
        '9'
    }
}

/// Appends the decimal representation of `n` to `s`.
pub fn push_decimal(s: &mut String, n: u128)
    ensures
        final(s)@ == old(s)@ + decimal(n as nat),
    decreases n,
{
    if n < 10 {
        push_char(s, digit(n));
        proof {
            assert(old(s)@.push(digit_char(n as nat)) =~= old(s)@ + seq![digit_char(n as nat)]);
        }
    } else {
        push_decimal(s, n / 10);
        push_char(s, digit(n % 10));
        proof {
            assert(old(s)@ + decimal((n / 10) as nat) + seq![digit_char((n % 10) as nat)]
                =~= old(s)@ + decimal(n as nat));
        }
    }
}

// ---------------------------------------------------------------------------
// Path text
// ---------------------------------------------------------------------------

/// The platform's primary path separator.
///
/// Wraps `std::path::MAIN_SEPARATOR` (`/` on Unix, `\` on Windows). It
/// depends on the platform the library is built for, so nothing is claimed
/// of it.
#[verifier::external_body]
pub(crate) fn main_separator() -> char {
    std::path::MAIN_SEPARATOR
}

/// `c` separates path components on a platform whose primary separator is
/// `sep`: `/` does on every platform, and so does `sep`.
pub open spec fn is_path_separator(c: char, sep: char) -> bool {
    c == '/' || c == sep
}

/// Joins a relative component onto a path as `PathBuf::push` does: `sep`
/// goes between them unless the base is empty or already ends with a
/// separator.
pub open spec fn join_component(base: Seq<char>, part: Seq<char>, sep: char) -> Seq<char> {
    if base.len() == 0 {
        part
    } else if is_path_separator(base.last(), sep) {
        base + part
    } else {
        base + seq![sep] + part
    }
}

pub fn join_path(base: &str, part: &str, sep: char) -> (r: String)
    ensures
        r@ == join_component(base@, part@, sep),
{
    let v = chars_of(base);
    let mut r = String::new();
    push_range(&mut r, v.as_slice(), 0, v.len());
    proof {
        assert(v@.subrange(0, v@.len() as int) == v@);
        assert(Seq::<char>::empty() + v@ == v@);
    }
    if v.len() > 0 && v[v.len() - 1] != '/' && v[v.len() - 1] != sep {
        push_char(&mut r, sep);
    }
    push_str(&mut r, part);
    proof {
        if v@.len() > 0 && !is_path_separator(v@.last(), sep) {
            assert(v@.push(sep) == v@ + seq![sep]);
        }
    }
    r
}

/// `s` with every `\` replaced by `/`.
pub open spec fn forward_slashes(s: Seq<char>) -> Seq<char> {
    s.map_values(|c: char| if c == '\\' { '/' } else { c })
}

/// `str::replace('\\', "/")`.
pub fn with_forward_slashes(s: &str) -> (r: String)
    ensures
        r@ == forward_slashes(s@),
{
    let v = chars_of(s);
    let mut r = String::new();
    let mut i: usize = 0;
    while i < v.len()
        invariant
            v@ == s@,
            i <= v@.len(),
            r@ == forward_slashes(v@.take(i as int)),
        decreases v.len() - i,
    {
        let c = if v[i] == '\\' {
            '/'
        } else {
            v[i]
        };
        push_char(&mut r, c);
        proof {
            assert(forward_slashes(v@.take(i + 1)) =~= forward_slashes(v@.take(i as int)).push(c));
        }
        i = i + 1;
    }
    proof {
        assert(v@.take(v@.len() as int) == v@);
    }
    r
}

} // verus!

verus! {

// ---------------------------------------------------------------------------
// Order of strings
// ---------------------------------------------------------------------------

/// Lexicographic order on characters by code point, which is the order of
/// `str` (UTF-8 bytes compare in the same order as code points).
pub open spec fn text_lt(a: Seq<char>, b: Seq<char>) -> bool
    decreases a.len(),
{
    if a.len() == 0 {
        b.len() > 0
    } else if b.len() == 0 {
        false
    } else if (a[0] as int) < (b[0] as int) {
        true
    } else if a[0] == b[0] {
        text_lt(a.drop_first(), b.drop_first())
    } else {
        false
    }
}

pub proof fn lemma_text_lt_irreflexive(a: Seq<char>)
    ensures
        !text_lt(a, a),
    decreases a.len(),
{
    if a.len() > 0 {
        lemma_text_lt_irreflexive(a.drop_first());
    }
}

pub proof fn lemma_text_lt_trichotomy(a: Seq<char>, b: Seq<char>)
    ensures
        text_lt(a, b) || text_lt(b, a) || a == b,
        !(text_lt(a, b) && text_lt(b, a)),
    decreases a.len(),
{
    if a.len() > 0 && b.len() > 0 {
        if a[0] == b[0] {
            lemma_text_lt_trichotomy(a.drop_first(), b.drop_first());
            if a.drop_first() == b.drop_first() {
                assert(a =~= seq![a[0]] + a.drop_first());
                assert(b =~= seq![b[0]] + b.drop_first());
            }
        } else {
            assert((a[0] as int) != (b[0] as int));
        }
    } else if a.len() == 0 && b.len() == 0 {
        assert(a =~= b);
    }
}

pub proof fn lemma_text_lt_transitive(a: Seq<char>, b: Seq<char>, c: Seq<char>)
    requires
        text_lt(a, b),
        text_lt(b, c),
    ensures
        text_lt(a, c),
    decreases a.len(),
{
    if a.len() > 0 && b.len() > 0 && c.len() > 0 {
        if a[0] == b[0] && b[0] == c[0] {
            lemma_text_lt_transitive(a.drop_first(), b.drop_first(), c.drop_first());
        }
    }
}

/// `a < b` on strings.
pub fn text_less(a: &str, b: &str) -> (r: bool)
    ensures
        r == text_lt(a@, b@),
{
    let v = chars_of(a);
    let w = chars_of(b);
    let mut i: usize = 0;
    proof {
        assert(v@.skip(0) == v@);
        assert(w@.skip(0) == w@);
    }
    while i < v.len() && i < w.len() && v[i] == w[i]
        invariant
            v@ == a@,
            w@ == b@,
            i <= v@.len(),
            i <= w@.len(),
            text_lt(a@, b@) == text_lt(v@.skip(i as int), w@.skip(i as int)),
        decreases v.len() - i,
    {
        proof {
            assert(v@.skip(i as int).drop_first() =~= v@.skip(i + 1));
            assert(w@.skip(i as int).drop_first() =~= w@.skip(i + 1));
        }
        i = i + 1;
    }
    if i == v.len() {
        i < w.len()
    } else if i == w.len() {
        false
    } else {
        v[i] < w[i]
    }
}

} // verus!
