//! The three orientations an image can have, how a pair of pixel dimensions
//! is classified, and the short label each orientation goes by.

use vstd::prelude::*;
use vstd::string::*;

verus! {

/// The shape of an image, judged by its pixel dimensions alone.
#[derive(Clone, Copy, Debug, PartialEq, Eq, Structural)]
pub enum Orientation {
    /// Higher than wide.
    Tall,
    /// Wider than high.
    Wide,
    /// As wide as high.
    Square,
}

/// The orientation of an image `width` pixels wide and `height` pixels high.
pub open spec fn orientation_of(width: int, height: int) -> Orientation {
    if width > height {
        Orientation::Wide
    } else if width < height {
        Orientation::Tall
    } else {
        Orientation::Square
    }
}

/// The orientation that follows from what a decoder reported: none where it
/// reported no dimensions.
pub open spec fn classified(size: Option<(u32, u32)>) -> Option<Orientation> {
    match size {
        Some((width, height)) => Some(orientation_of(width as int, height as int)),
        None => None,
    }
}

impl Orientation {
    /// The label of this orientation: `tall`, `wide` or `sqr`.
    pub open spec fn label_of(self) -> Seq<char> {
        match self {
            Orientation::Tall => "tall"@,
            Orientation::Wide => "wide"@,
            Orientation::Square => "sqr"@,
        }
    }

    /// The label of this orientation, as it appears in directory and file
    /// names.
    pub fn label(&self) -> (s: &'static str)
        ensures
            s@ == self.label_of(),
    {
        match self {
            Orientation::Tall => "tall",
            Orientation::Wide => "wide",
            Orientation::Square => "sqr",
        }
    }

    /// A label is three or four letters, none of them a `/`.
    pub proof fn lemma_label_is_plain(self)
        ensures
            3 <= self.label_of().len() <= 4,
            !self.label_of().contains('/'),
    {
        reveal_strlit("tall");
        reveal_strlit("wide");
        reveal_strlit("sqr");
        let label = self.label_of();
        if label.contains('/') {
            let i = choose|i: int| 0 <= i < label.len() && label[i] == '/';
            assert(label[i] == '/');
        }
    }
}

/// Classifies a pair of pixel dimensions.
pub fn classify(width: u32, height: u32) -> (ori: Orientation)
    ensures
        ori == orientation_of(width as int, height as int),
{
    if width > height {
        Orientation::Wide
    } else if width < height {
        Orientation::Tall
    } else {
        Orientation::Square
    }
}

/// Determines the orientation of an image from the dimensions that a decoder
/// reported for it. `None` stands for an image that could not be decoded,
/// and gives `None`.
pub fn image_orientation(size: Option<(u32, u32)>) -> (ori: Option<Orientation>)
    ensures
        ori == classified(size),
{
    match size {
        Some((width, height)) => Some(classify(width, height)),
        None => None,
    }
}

} // verus!
