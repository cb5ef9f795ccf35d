//! Where an image goes.
//!
//! In move mode an image goes below the output directory, into the
//! directory named after its orientation, under its own file name. In rename
//! mode it stays where it is and has the label of its orientation set in
//! front of its file name. Whether something is in the way at that place is
//! not looked at here: that is settled when the moves are planned.

use vstd::prelude::*;
use vstd::string::*;
use crate::config::{Mode, Opt};
use crate::orientation::{classified, image_orientation, Orientation};
use crate::path::{directory, directory_of, file_name, file_name_of, join, joined,
    last_component, lemma_last_component_of_concat, lemma_last_component_of_joined, lemma_split,
    names_a_file, string_of, with_last_component};

verus! {

/// An image file that was found, with the dimensions that a decoder
/// reported for it, or `None` where it could not be decoded.
#[derive(Debug, PartialEq, Eq)]
pub struct Image {
    /// Where the file lies.
    pub path: String,
    /// Its width and height in pixels.
    pub size: Option<(u32, u32)>,
}

/// A file name with the label of an orientation in front, after a `_`.
pub open spec fn prefixed(ori: Orientation, name: Seq<char>) -> Seq<char> {
    ori.label_of() + seq!['_'] + name
}

/// The place of the image `p` in rename mode: in its directory, under its
/// file name with the label of its orientation in front. There is none where
/// the image has no orientation or no file name, nor where the prefixed name
/// is the name it has.
pub open spec fn renamed(p: Seq<char>, size: Option<(u32, u32)>) -> Option<Seq<char>> {
    match (classified(size), file_name_of(p)) {
        (Some(ori), Some(name)) => {
            let wanted = with_last_component(p, prefixed(ori, name));
            if wanted == p {
                None
            } else {
                Some(wanted)
            }
        },
        _ => None,
    }
}

/// The place of the image `p` in move mode, below `out`. There is none where
/// the image has no orientation or no file name, nor where it is in its
/// place already.
pub open spec fn moved(out: Seq<char>, p: Seq<char>, size: Option<(u32, u32)>) -> Option<
    Seq<char>,
> {
    match (classified(size), file_name_of(p)) {
        (Some(ori), Some(name)) => {
            let wanted = joined(joined(out, ori.label_of()), name);
            if wanted == p {
                None
            } else {
                Some(wanted)
            }
        },
        _ => None,
    }
}

/// The place of the image `p` under `mode`.
pub open spec fn destination(mode: Mode, p: Seq<char>, size: Option<(u32, u32)>) -> Option<
    Seq<char>,
> {
    match mode {
        Mode::Move { output_dir } => moved(output_dir@, p, size),
        Mode::Rename => renamed(p, size),
    }
}

/// Sets the label of the image's orientation in front of its file name. An
/// image without orientation or file name gets `None`.
pub fn prepend_orientation(p: &str, size: Option<(u32, u32)>) -> (new_name: Option<String>)
    ensures
        string_of(new_name) == renamed(p@, size),
{
    let ori = match image_orientation(size) {
        Some(ori) => ori,
        None => {
            return None;
        },
    };
    let name = match file_name(p) {
        Some(name) => name,
        None => {
            return None;
        },
    };
    proof {
        reveal_strlit("_");
    }
    let mut wanted = String::from_str(directory(p));
    wanted.append(ori.label());
    wanted.append("_");
    wanted.append(name);
    assert(wanted@ =~= with_last_component(p@, prefixed(ori, name@)));
    if wanted != String::from_str(p) {
        Some(wanted)
    } else {
        None
    }
}

/// Finds the place an image goes to, by its orientation. `None` means that
/// the image is left alone: it has no orientation or no file name, or it is
/// in its place already.
pub fn dst_path(opts: &Opt, img_path: &str, size: Option<(u32, u32)>) -> (dst: Option<String>)
    ensures
        string_of(dst) == destination(opts.mode, img_path@, size),
{
    let ori = match image_orientation(size) {
        Some(ori) => ori,
        None => {
            return None;
        },
    };
    match &opts.mode {
        Mode::Rename => prepend_orientation(img_path, size),
        Mode::Move { output_dir } => {
            let imgfile = match file_name(img_path) {
                Some(name) => name,
                None => {
                    return None;
                },
            };
            let out = join(join(output_dir.as_str(), ori.label()).as_str(), imgfile);
            if out == String::from_str(img_path) {
                None
            } else {
                Some(out)
            }
        },
    }
}

/// Finds the place of every image of `imgs`, each on its own: the result
/// has one entry for each image, in the same order.
pub fn get_dsts(opts: &Opt, imgs: &Vec<Image>) -> (dsts: Vec<Option<String>>)
    ensures
        dsts.len() == imgs.len(),
        forall|i: int|
            0 <= i < imgs.len() ==> string_of(#[trigger] dsts[i]) == destination(
                opts.mode,
                imgs[i].path@,
                imgs[i].size,
            ),
{
    let mut dsts: Vec<Option<String>> = Vec::new();
    let mut i: usize = 0;
    while i < imgs.len()
        invariant
            i <= imgs.len(),
            dsts.len() == i,
            forall|j: int|
                0 <= j < i ==> string_of(#[trigger] dsts[j]) == destination(
                    opts.mode,
                    imgs[j].path@,
                    imgs[j].size,
                ),
        decreases imgs.len() - i,
    {
        let dst = dst_path(opts, imgs[i].path.as_str(), imgs[i].size);
        dsts.push(dst);
        i = i + 1;
    }
    dsts
}

/// The three directories that move mode fills, below `output_dir`: one for
/// tall, one for wide and one for square images, in this order.
pub fn orientation_dirs(output_dir: &str) -> (dirs: Vec<String>)
    ensures
        dirs.len() == 3,
        dirs[0]@ == joined(output_dir@, Orientation::Tall.label_of()),
        dirs[1]@ == joined(output_dir@, Orientation::Wide.label_of()),
        dirs[2]@ == joined(output_dir@, Orientation::Square.label_of()),
{
    let mut dirs: Vec<String> = Vec::new();
    dirs.push(join(output_dir, Orientation::Tall.label()));
    dirs.push(join(output_dir, Orientation::Wide.label()));
    dirs.push(join(output_dir, Orientation::Square.label()));
    dirs
}

/// In move mode an image keeps its file name and lands directly in the
/// directory of its orientation below `out`.
pub proof fn lemma_moved_image_place(out: Seq<char>, p: Seq<char>, size: Option<(u32, u32)>)
    requires
        moved(out, p, size) is Some,
    ensures
        file_name_of(moved(out, p, size).unwrap()) == file_name_of(p),
        moved(out, p, size).unwrap() == joined(
            joined(out, classified(size).unwrap().label_of()),
            file_name_of(p).unwrap(),
        ),
        moved(out, p, size) != Some(p),
{
    lemma_split(p);
    lemma_last_component_of_joined(
        joined(out, classified(size).unwrap().label_of()),
        file_name_of(p).unwrap(),
    );
}

/// An image that stands in its place is left alone: in move mode, a file
/// named `name` in the directory of its own orientation below `out` has no
/// destination.
pub proof fn lemma_placed_image_stays(out: Seq<char>, name: Seq<char>, size: Option<(u32, u32)>)
    requires
        classified(size) is Some,
        names_a_file(name),
        !name.contains('/'),
    ensures
        moved(out, joined(joined(out, classified(size).unwrap().label_of()), name), size) is None,
{
    let ori = classified(size).unwrap();
    lemma_last_component_of_joined(joined(out, ori.label_of()), name);
}

/// Move mode is idempotent: the place that an image is moved to is a place
/// from which it is not moved again.
pub proof fn lemma_moved_image_stays(out: Seq<char>, p: Seq<char>, size: Option<(u32, u32)>)
    requires
        moved(out, p, size) is Some,
    ensures
        moved(out, moved(out, p, size).unwrap(), size) is None,
{
    lemma_split(p);
    lemma_placed_image_stays(out, file_name_of(p).unwrap(), size);
}

/// In rename mode every image that has an orientation and a file name gets a
/// new name: its file name with the label in front, in the directory it
/// lies in. That is never the name it has.
pub proof fn lemma_renamed_image_moves(p: Seq<char>, size: Option<(u32, u32)>)
    requires
        classified(size) is Some,
        file_name_of(p) is Some,
    ensures
        renamed(p, size) is Some,
        renamed(p, size) != Some(p),
        directory_of(renamed(p, size).unwrap()) == directory_of(p),
        last_component(renamed(p, size).unwrap()) == prefixed(
            classified(size).unwrap(),
            file_name_of(p).unwrap(),
        ),
{
    let ori = classified(size).unwrap();
    let name = file_name_of(p).unwrap();
    let new_name = prefixed(ori, name);
    let wanted = with_last_component(p, new_name);
    lemma_split(p);
    ori.lemma_label_is_plain();
    assert(wanted.len() == p.len() + ori.label_of().len() + 1);
    if new_name.contains('/') {
        let i = choose|i: int| 0 <= i < new_name.len() && new_name[i] == '/';
        let n = ori.label_of().len() as int;
        if i < n {
            assert(ori.label_of()[i] == '/');
        } else if i > n {
            assert(name[i - n - 1] == '/');
        }
        assert(false);
    }
    lemma_last_component_of_concat(directory_of(p), new_name);
}

} // verus!
