//! What the file system says of a folder the user picked, and the decisions
//! shared by the services that read or write configuration folders.
//!
//! The caller asks the file system; these types carry the answers as plain
//! values. A query that failed carries the failure's text, and it is
//! reported only where the check that needed the query is reached.
use vstd::prelude::*;
use crate::text::{decimal, push_decimal, push_str, same_text};

verus! {

/// An absolute, canonical path, with its text and its components.
#[derive(Debug, PartialEq, Eq)]
pub struct CanonicalPath {
    pub text: String,
    pub components: Vec<String>,
}

/// The text of each component.
pub open spec fn component_texts(p: CanonicalPath) -> Seq<Seq<char>> {
    p.components@.map_values(|c: String| c@)
}

/// `inner` is `outer` or lies inside it (`Path::starts_with`, which compares
/// whole components).
pub open spec fn within(inner: CanonicalPath, outer: CanonicalPath) -> bool {
    component_texts(outer).is_prefix_of(component_texts(inner))
}

/// Two folders are the same, or one contains the other.
pub open spec fn overlapping(a: CanonicalPath, b: CanonicalPath) -> bool {
    within(a, b) || within(b, a)
}

pub fn is_within(inner: &CanonicalPath, outer: &CanonicalPath) -> (r: bool)
    ensures
        r == within(*inner, *outer),
{
    let n = outer.components.len();
    if n > inner.components.len() {
        return false;
    }
    let mut i: usize = 0;
    while i < n
        invariant
            n == outer.components@.len(),
            n <= inner.components@.len(),
            i <= n,
            forall|j: int| 0 <= j < i ==> (#[trigger] outer.components@[j])@ == inner.components@[j]@,
        decreases n - i,
    {
        if !same_text(outer.components[i].as_str(), inner.components[i].as_str()) {
            proof {
                assert(component_texts(*outer)[i as int] != component_texts(*inner)[i as int]);
            }
            return false;
        }
        i = i + 1;
    }
    proof {
        assert(component_texts(*inner).subrange(0, n as int) =~= component_texts(*outer));
    }
    true
}

pub fn overlaps(a: &CanonicalPath, b: &CanonicalPath) -> (r: bool)
    ensures
        r == overlapping(*a, *b),
{
    is_within(a, b) || is_within(b, a)
}

/// The two folders are the same folder.
pub open spec fn same_folder(a: CanonicalPath, b: CanonicalPath) -> bool {
    component_texts(a) == component_texts(b)
}

pub fn is_same_folder(a: &CanonicalPath, b: &CanonicalPath) -> (r: bool)
    ensures
        r == same_folder(*a, *b),
{
    let r = is_within(a, b) && a.components.len() == b.components.len();
    proof {
        if r {
            assert(component_texts(*b).subrange(0, component_texts(*b).len() as int) =~= component_texts(*b));
            assert(component_texts(*a).subrange(0, component_texts(*b).len() as int) =~= component_texts(*a));
        }
        if same_folder(*a, *b) {
            assert(component_texts(*a).subrange(0, component_texts(*b).len() as int) =~= component_texts(*b));
        }
    }
    r
}

/// What the file system says of a folder that may not exist yet.
#[derive(Debug, PartialEq, Eq)]
pub struct FolderFacts {
    pub exists: bool,
    pub is_dir: bool,
    /// Whether it has no entries; the failure's text when it could not be
    /// listed. Consulted only for an existing directory.
    pub empty: Result<bool, String>,
}

/// The first failure among the checks that a destination must be an empty
/// directory, or nothing.
pub enum DestinationFault {
    NotADirectory,
    Unlisted,
    NotEmpty,
}

/// An existing destination must be a directory with no entries.
pub open spec fn destination_fault(f: FolderFacts) -> Option<DestinationFault> {
    if !f.exists {
        None
    } else if !f.is_dir {
        Some(DestinationFault::NotADirectory)
    } else {
        match f.empty {
            Err(_) => Some(DestinationFault::Unlisted),
            Ok(true) => None,
            Ok(false) => Some(DestinationFault::NotEmpty),
        }
    }
}

/// The name of a sibling staging folder:
/// `<name>.<label>-<process id>-<nonce>`.
pub open spec fn staging_name_text(name: Seq<char>, label: Seq<char>, pid: nat, nonce: nat) -> Seq<char> {
    name + "."@ + label + "-"@ + decimal(pid) + "-"@ + decimal(nonce)
}

pub fn staging_name(name: &str, label: &str, pid: u32, nonce: u128) -> (r: String)
    ensures
        r@ == staging_name_text(name@, label@, pid as nat, nonce as nat),
{
    let mut r = String::new();
    push_str(&mut r, name);
    push_str(&mut r, ".");
    push_str(&mut r, label);
    push_str(&mut r, "-");
    push_decimal(&mut r, pid as u128);
    push_str(&mut r, "-");
    push_decimal(&mut r, nonce);
    proof {
        assert(r@ =~= staging_name_text(name@, label@, pid as nat, nonce as nat));
    }
    r
}

} // verus!
