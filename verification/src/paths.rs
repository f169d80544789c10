//! The folders of a jump list entry.
//!
//! A path is held as its text.

use smallvec::SmallVec;
use vstd::prelude::*;

use crate::text::same_text;
use crate::text::texts;

verus! {

/// The paths of one entry, in order. Entries rarely have more than two.
#[verifier::external_body]
#[derive(Debug)]
pub struct EntryPaths {
    paths: SmallVec<[String; 2]>,
}

/// The texts of the paths that a `SmallVec` of an entry holds, first to last.
pub uninterp spec fn path_texts(paths: EntryPaths) -> Seq<Seq<char>>;

impl View for EntryPaths {
    type V = Seq<Seq<char>>;

    open spec fn view(&self) -> Seq<Seq<char>> {
        path_texts(*self)
    }
}

/// `SmallVec::new`: a vector without items.
#[verifier::external_body]
fn empty_paths() -> (paths: EntryPaths)
    ensures
        path_texts(paths) == Seq::<Seq<char>>::empty(),
{
    EntryPaths { paths: SmallVec::new() }
}

/// `SmallVec::push`: puts an item behind the last one.
#[verifier::external_body]
fn push_path(paths: &mut EntryPaths, path: String)
    ensures
        path_texts(*final(paths)) == path_texts(*old(paths)).push(path@),
{
    paths.paths.push(path)
}

/// `SmallVec::as_slice`: the items, in order.
#[verifier::external_body]
fn path_slice(paths: &EntryPaths) -> (slice: &[String])
    ensures
        texts(slice@) == path_texts(*paths),
{
    paths.paths.as_slice()
}

/// `SmallVec::clone`: a vector with a clone of each item, in order. The clone of a `String`
/// holds the same text.
#[verifier::external_body]
fn clone_paths(paths: &EntryPaths) -> (cloned: EntryPaths)
    ensures
        path_texts(cloned) == path_texts(*paths),
{
    EntryPaths { paths: paths.paths.clone() }
}

impl EntryPaths {
    /// No paths.
    pub fn new() -> (paths: Self)
        ensures
            paths@ == Seq::<Seq<char>>::empty(),
    {
        empty_paths()
    }

    /// Puts `path` behind the others.
    pub fn push(&mut self, path: String)
        ensures
            final(self)@ == old(self)@.push(path@),
    {
        push_path(self, path)
    }

    /// The paths, first to last.
    pub fn as_slice(&self) -> (slice: &[String])
        ensures
            texts(slice@) == self@,
    {
        path_slice(self)
    }

    /// The paths whose texts are `paths`, in that order.
    pub fn from_texts(paths: &Vec<String>) -> (collected: Self)
        ensures
            collected@ == texts(paths@),
    {
        assert(texts(paths@).skip(0) == texts(paths@));
        Self::from_texts_after(paths, 0)
    }

    /// The paths whose texts are `paths` without the first `skipped`, in that order.
    pub fn from_texts_after(paths: &Vec<String>, skipped: usize) -> (collected: Self)
        requires
            skipped <= paths.len(),
        ensures
            collected@ == texts(paths@).skip(skipped as int),
    {
        let mut collected = empty_paths();
        let mut i: usize = skipped;
        assert(collected@ == texts(paths@).subrange(skipped as int, i as int));
        while i < paths.len()
            invariant
                skipped <= i <= paths.len(),
                collected@ == texts(paths@).subrange(skipped as int, i as int),
            decreases paths.len() - i,
        {
            collected.push(paths[i].clone());
            assert(texts(paths@).subrange(skipped as int, i + 1) == texts(paths@).subrange(
                skipped as int,
                i as int,
            ).push(paths@[i as int]@));
            i += 1;
        }
        assert(texts(paths@).subrange(skipped as int, i as int) == texts(paths@).skip(
            skipped as int,
        ));
        collected
    }
}

impl Clone for EntryPaths {
    fn clone(&self) -> (cloned: Self)
        ensures
            cloned@ == self@,
    {
        clone_paths(self)
    }
}

/// Whether `std::path::Path` finds the same components in two paths.
pub uninterp spec fn equal_components(a: Seq<char>, b: Seq<char>) -> bool;

/// The final component of a path, by `std::path::Path`.
pub uninterp spec fn final_component(path: Seq<char>) -> Option<Seq<char>>;

/// `==` of `std::path::Path`, which compares paths component by component, in the syntax of the
/// platform that the crate is built for.
#[verifier::external_body]
fn components_equal(a: &str, b: &str) -> (equal: bool)
    ensures
        equal == equal_components(a@, b@),
{
    std::path::Path::new(a) == std::path::Path::new(b)
}

/// `std::path::Path::file_name`: the final component of the path, if there is one, in the syntax
/// of the platform that the crate is built for.
#[verifier::external_body]
fn file_name(path: &str) -> (name: Option<String>)
    ensures
        match name {
            Some(name) => final_component(path@) == Some(name@),
            None => final_component(path@) is None,
        },
{
    std::path::Path::new(path).file_name().map(|name| name.to_string_lossy().into_owned())
}

/// Whether two texts name the same path. A path is equal to itself.
pub open spec fn same_path(a: Seq<char>, b: Seq<char>) -> bool {
    a == b || equal_components(a, b)
}

/// Whether two lists name the same paths, in the same order.
pub open spec fn same_paths(a: Seq<Seq<char>>, b: Seq<Seq<char>>) -> bool {
    a.len() == b.len() && forall|i: int| 0 <= i < a.len() ==> same_path(#[trigger] a[i], b[i])
}

/// What stands for a path where it is shown: its final component, or else the whole path.
pub open spec fn folder_name(path: Seq<char>) -> Seq<char> {
    folder_name_from(final_component(path), path)
}

/// `final_component`, or `path` if there is none.
pub open spec fn folder_name_from(final_component: Option<Seq<char>>, path: Seq<char>) -> Seq<
    char,
> {
    match final_component {
        Some(name) => name,
        None => path,
    }
}

/// Whether two texts name the same path.
pub fn is_same_path(a: &str, b: &str) -> (same: bool)
    ensures
        same == same_path(a@, b@),
        same <==> a@ == b@ || equal_components(a@, b@),
{
    same_text(a, b) || components_equal(a, b)
}

/// Whether two lists name the same paths, in the same order.
pub fn are_same_paths(a: &EntryPaths, b: &EntryPaths) -> (same: bool)
    ensures
        same == same_paths(a@, b@),
        same <==> a@.len() == b@.len() && forall|i: int|
            0 <= i < a@.len() ==> #[trigger] a@[i] == b@[i] || equal_components(a@[i], b@[i]),
{
    let left = a.as_slice();
    let right = b.as_slice();
    assert(left@.len() == texts(left@).len() && right@.len() == texts(right@).len());
    if left.len() != right.len() {
        return false;
    }
    let mut i: usize = 0;
    while i < left.len()
        invariant
            texts(left@) == a@,
            texts(right@) == b@,
            left@.len() == a@.len(),
            left@.len() == right@.len(),
            a@.len() == b@.len(),
            i <= left@.len(),
            forall|j: int| 0 <= j < i ==> same_path(#[trigger] a@[j], b@[j]),
        decreases left.len() - i,
    {
        assert(left@[i as int]@ == a@[i as int]);
        assert(right@[i as int]@ == b@[i as int]);
        if !is_same_path(left[i].as_str(), right[i].as_str()) {
            return false;
        }
        i += 1;
    }
    true
}

/// The name that a file name found in `path` gives it.
pub fn name_or_path(file_name: Option<String>, path: &str) -> (name: String)
    ensures
        name@ == folder_name_from(
            match file_name {
                Some(name) => Some(name@),
                None => None,
            },
            path@,
        ),
{
    match file_name {
        Some(name) => name,
        None => path.to_owned(),
    }
}

/// What stands for `path` where it is shown.
pub fn display_name(path: &str) -> (name: String)
    ensures
        name@ == folder_name(path@),
        name@ == match final_component(path@) {
            Some(name) => name,
            None => path@,
        },
{
    name_or_path(file_name(path), path)
}

/// A folder is named by its final component, and by the whole path where there is none.
pub proof fn lemma_folder_name(path: Seq<char>)
    ensures
        final_component(path) matches Some(name) ==> folder_name(path) == name,
        final_component(path) is None ==> folder_name(path) == path,
{
}

} // verus!
