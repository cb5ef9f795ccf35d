//! Which entries of a directory tree are images to sort.
//!
//! A walk hands over the entries that it met, each with its depth below the
//! root: 0 for the root itself, 1 for what lies directly in it. Kept are the
//! regular files with an image extension whose depth is in range. Without
//! recursion only depth 1 is in range; with it, every depth. The root
//! itself is in range only where it is no directory.

use vstd::prelude::*;
use vstd::string::*;
use crate::config::Opt;
use crate::extension::{is_image_path, ExtensionMatcher};
use crate::text::texts;

verus! {

/// One entry that a walk met.
#[derive(Debug, PartialEq, Eq)]
pub struct Entry {
    /// The path of the entry, the root included.
    pub path: String,
    /// How many directories below the root the entry lies.
    pub depth: usize,
    /// Whether the entry is a regular file.
    pub is_file: bool,
}

/// The least depth at which entries are kept.
pub open spec fn min_depth_of(root_is_dir: bool) -> usize {
    if root_is_dir {
        1
    } else {
        0
    }
}

/// The greatest depth at which entries are kept.
pub open spec fn max_depth_of(recursive: bool) -> usize {
    if recursive {
        usize::MAX
    } else {
        1
    }
}

/// Whether an entry is an image to sort.
pub open spec fn is_wanted(entry: Entry, recursive: bool, root_is_dir: bool) -> bool {
    &&& min_depth_of(root_is_dir) <= entry.depth <= max_depth_of(recursive)
    &&& entry.is_file
    &&& is_image_path(entry.path@)
}

/// The paths of the images to sort among `entries`, in the order of the
/// walk.
pub open spec fn found_images(entries: Seq<Entry>, recursive: bool, root_is_dir: bool) -> Seq<
    Seq<char>,
>
    decreases entries.len(),
{
    if entries.len() == 0 {
        Seq::empty()
    } else {
        let before = found_images(entries.drop_last(), recursive, root_is_dir);
        if is_wanted(entries.last(), recursive, root_is_dir) {
            before.push(entries.last().path@)
        } else {
            before
        }
    }
}

/// The depths between which a walk has to look: the least and the greatest.
pub fn walk_depths(recursive: bool, root_is_dir: bool) -> (depths: (usize, usize))
    ensures
        depths.0 == min_depth_of(root_is_dir),
        depths.1 == max_depth_of(recursive),
{
    let min_depth: usize = if root_is_dir {
        1
    } else {
        0
    };
    let max_depth: usize = if recursive {
        usize::MAX
    } else {
        1
    };
    (min_depth, max_depth)
}

/// Picks the image files to sort out of the entries of a walk. `root_is_dir`
/// says whether the root of the walk is a directory.
pub fn image_paths(opts: &Opt, root_is_dir: bool, entries: &Vec<Entry>) -> (paths: Vec<String>)
    ensures
        texts(paths@) == found_images(entries@, opts.recursive, root_is_dir),
{
    let recursive = opts.recursive;
    let matcher = ExtensionMatcher::new();
    let (min_depth, max_depth) = walk_depths(recursive, root_is_dir);
    let mut paths: Vec<String> = Vec::new();
    let mut i: usize = 0;
    assert(entries@.take(0) =~= Seq::empty());
    assert(texts(paths@) =~= Seq::empty());
    while i < entries.len()
        invariant
            i <= entries.len(),
            min_depth == min_depth_of(root_is_dir),
            max_depth == max_depth_of(recursive),
            texts(paths@) == found_images(entries@.take(i as int), recursive, root_is_dir),
        decreases entries.len() - i,
    {
        let entry = &entries[i];
        let ghost before = texts(paths@);
        proof {
            assert(entries@.take(i + 1).drop_last() =~= entries@.take(i as int));
            assert(entries@.take(i + 1).last() == entries@[i as int]);
        }
        if min_depth <= entry.depth && entry.depth <= max_depth && entry.is_file
            && matcher.is_image(entry.path.as_str()) {
            paths.push(entry.path.clone());
            assert(texts(paths@) =~= before.push(entry.path@));
        }
        i = i + 1;
    }
    assert(entries@.take(i as int) =~= entries@);
    paths
}

/// What is found is what is wanted: a path is among the images found if and
/// only if it is the path of an entry that is wanted.
pub proof fn lemma_found_images(entries: Seq<Entry>, recursive: bool, root_is_dir: bool)
    ensures
        forall|p: Seq<char>|
            found_images(entries, recursive, root_is_dir).contains(p) <==> exists|i: int|
                0 <= i < entries.len() && is_wanted(#[trigger] entries[i], recursive, root_is_dir)
                    && entries[i].path@ == p,
    decreases entries.len(),
{
    let found = found_images(entries, recursive, root_is_dir);
    if entries.len() > 0 {
        let rest = entries.drop_last();
        let before = found_images(rest, recursive, root_is_dir);
        let last = entries.last();
        lemma_found_images(rest, recursive, root_is_dir);
        assert forall|p: Seq<char>| found.contains(p) <==> exists|i: int|
            0 <= i < entries.len() && is_wanted(#[trigger] entries[i], recursive, root_is_dir)
                && entries[i].path@ == p by {
            if found.contains(p) {
                let k = choose|k: int| 0 <= k < found.len() && found[k] == p;
                if k < before.len() {
                    assert(before[k] == p);
                    assert(before.contains(p));
                    let i = choose|i: int|
                        0 <= i < rest.len() && is_wanted(#[trigger] rest[i], recursive, root_is_dir)
                            && rest[i].path@ == p;
                    assert(entries[i] == rest[i]);
                } else {
                    assert(entries[entries.len() - 1] == last);
                }
            }
            if exists|i: int|
                0 <= i < entries.len() && is_wanted(#[trigger] entries[i], recursive, root_is_dir)
                    && entries[i].path@ == p {
                let i = choose|i: int|
                    0 <= i < entries.len() && is_wanted(
                        #[trigger] entries[i],
                        recursive,
                        root_is_dir,
                    ) && entries[i].path@ == p;
                if i < rest.len() {
                    assert(rest[i] == entries[i]);
                    assert(before.contains(p));
                    let k = choose|k: int| 0 <= k < before.len() && before[k] == p;
                    assert(found[k] == p);
                } else {
                    assert(found[found.len() - 1] == p);
                }
            }
        }
    }
}

/// Without recursion nothing is found below depth 1, and whatever is found
/// without recursion is found with it.
pub proof fn lemma_recursion_finds_more(entries: Seq<Entry>, root_is_dir: bool)
    ensures
        forall|i: int|
            0 <= i < entries.len() && is_wanted(#[trigger] entries[i], false, root_is_dir)
                ==> entries[i].depth <= 1 && is_wanted(entries[i], true, root_is_dir),
        forall|p: Seq<char>|
            found_images(entries, false, root_is_dir).contains(p) ==> found_images(
                entries,
                true,
                root_is_dir,
            ).contains(p),
{
    lemma_found_images(entries, false, root_is_dir);
    lemma_found_images(entries, true, root_is_dir);
}

} // verus!
