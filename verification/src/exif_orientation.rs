//! The eight orientations that a camera records for a picture, and the
//! turn or mirroring that sets each of them upright.

use crate::frame::{flip_h, flip_v, rot180, rot270, rot90, Frame, FrameView};
use crate::imaging::{flip_horizontal, flip_vertical, rotate180, rotate270, rotate90};
use vstd::prelude::*;
use vstd::std_specs::convert::{FromSpecImpl, TryFromSpecImpl};

verus! {

/// How a stored picture has to be turned or mirrored to stand upright.
#[derive(Clone, Copy, Debug, PartialEq, Eq, Structural)]
pub enum ExifOrientation {
    Unchanged,
    MirroredHorizontally,
    Rotated180,
    MirroredVertically,
    Rotated90AndMirroredHorizontally,
    Rotated90,
    Rotated90AndMirroredVertically,
    Rotated270,
}

/// The orientation that the code `value` stands for: the codes are 1 to 8.
pub open spec fn orientation_of(value: u64) -> Option<ExifOrientation> {
    if value == 1 {
        Some(ExifOrientation::Unchanged)
    } else if value == 2 {
        Some(ExifOrientation::MirroredHorizontally)
    } else if value == 3 {
        Some(ExifOrientation::Rotated180)
    } else if value == 4 {
        Some(ExifOrientation::MirroredVertically)
    } else if value == 5 {
        Some(ExifOrientation::Rotated90AndMirroredHorizontally)
    } else if value == 6 {
        Some(ExifOrientation::Rotated90)
    } else if value == 7 {
        Some(ExifOrientation::Rotated90AndMirroredVertically)
    } else if value == 8 {
        Some(ExifOrientation::Rotated270)
    } else {
        None
    }
}

/// The code of an orientation.
pub open spec fn code_of(orientation: ExifOrientation) -> u64 {
    match orientation {
        ExifOrientation::Unchanged => 1,
        ExifOrientation::MirroredHorizontally => 2,
        ExifOrientation::Rotated180 => 3,
        ExifOrientation::MirroredVertically => 4,
        ExifOrientation::Rotated90AndMirroredHorizontally => 5,
        ExifOrientation::Rotated90 => 6,
        ExifOrientation::Rotated90AndMirroredVertically => 7,
        ExifOrientation::Rotated270 => 8,
    }
}

/// The picture `v` set upright from the orientation `orientation`.
pub open spec fn upright(orientation: ExifOrientation, v: FrameView) -> FrameView {
    match orientation {
        ExifOrientation::Unchanged => v,
        ExifOrientation::MirroredHorizontally => flip_h(v),
        ExifOrientation::Rotated180 => rot180(v),
        ExifOrientation::MirroredVertically => flip_v(v),
        ExifOrientation::Rotated90AndMirroredHorizontally => flip_h(rot90(v)),
        ExifOrientation::Rotated90 => rot90(v),
        ExifOrientation::Rotated90AndMirroredVertically => flip_v(rot90(v)),
        ExifOrientation::Rotated270 => rot270(v),
    }
}

impl Default for ExifOrientation {
    fn default() -> (r: Self)
        ensures
            r == ExifOrientation::Unchanged,
    {
        Self::Unchanged
    }
}

impl TryFrom<u64> for ExifOrientation {
    type Error = ();

    fn try_from(value: u64) -> (r: Result<Self, ()>) {
        match value {
            1 => Ok(Self::Unchanged),
            2 => Ok(Self::MirroredHorizontally),
            3 => Ok(Self::Rotated180),
            4 => Ok(Self::MirroredVertically),
            5 => Ok(Self::Rotated90AndMirroredHorizontally),
            6 => Ok(Self::Rotated90),
            7 => Ok(Self::Rotated90AndMirroredVertically),
            8 => Ok(Self::Rotated270),
            _ => Err(()),
        }
    }
}

impl TryFromSpecImpl<u64> for ExifOrientation {
    open spec fn obeys_try_from_spec() -> bool {
        true
    }

    open spec fn try_from_spec(value: u64) -> Result<Self, ()> {
        match orientation_of(value) {
            Some(o) => Ok(o),
            None => Err(()),
        }
    }
}

impl From<ExifOrientation> for u64 {
    fn from(value: ExifOrientation) -> (r: u64) {
        match value {
            ExifOrientation::Unchanged => 1,
            ExifOrientation::MirroredHorizontally => 2,
            ExifOrientation::Rotated180 => 3,
            ExifOrientation::MirroredVertically => 4,
            ExifOrientation::Rotated90AndMirroredHorizontally => 5,
            ExifOrientation::Rotated90 => 6,
            ExifOrientation::Rotated90AndMirroredVertically => 7,
            ExifOrientation::Rotated270 => 8,
        }
    }
}

impl FromSpecImpl<ExifOrientation> for u64 {
    open spec fn obeys_from_spec() -> bool {
        true
    }

    open spec fn from_spec(value: ExifOrientation) -> u64 {
        code_of(value)
    }
}

impl ExifOrientation {
    /// Sets `image` upright: turns or mirrors it as the orientation asks.
    pub fn apply(&self, image: Frame) -> (r: Frame)
        requires
            image.wf(),
        ensures
            r.wf(),
            r@ == upright(*self, image@),
    {
        match self {
            ExifOrientation::Unchanged => image,
            ExifOrientation::MirroredHorizontally => flip_horizontal(image),
            ExifOrientation::Rotated180 => rotate180(image),
            ExifOrientation::MirroredVertically => flip_vertical(image),
            ExifOrientation::Rotated90AndMirroredHorizontally => {
                let turned = rotate90(image);
                flip_horizontal(turned)
            },
            ExifOrientation::Rotated90 => rotate90(image),
            ExifOrientation::Rotated90AndMirroredVertically => {
                let turned = rotate90(image);
                flip_vertical(turned)
            },
            ExifOrientation::Rotated270 => rotate270(image),
        }
    }
}

/// Every orientation is found again from its code, and only the codes of
/// the orientations stand for one.
pub proof fn lemma_code_round_trip(orientation: ExifOrientation, value: u64)
    ensures
        orientation_of(code_of(orientation)) == Some(orientation),
        orientation_of(value) is Some <==> 1 <= value <= 8,
        orientation_of(value) is Some ==> code_of(orientation_of(value)->0) == value,
{
}

} // verus!
