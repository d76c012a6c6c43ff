//! Screen-geometry arithmetic for cropping subtitle streams.
//!
//! When the video a stream was authored for is cropped, windows and
//! composition objects have to be shifted onto the new, smaller screen
//! while keeping a margin from its border.

use vstd::prelude::*;

verus! {

/// A crop of one screen axis: the size kept and the offset at which it
/// starts in the original.
#[derive(Clone, Copy, Debug, Eq, PartialEq, Structural)]
pub struct AxisCrop {
    /// The offset of the kept area within the original axis.
    pub offset: u16,
    /// The size of the kept area.
    pub size: u16,
}

/// Builds the crop of one screen axis: a requested size with an explicit
/// offset, or centered when no offset is given. No requested size means no
/// crop.
pub fn to_crop(old_size: u16, new_size: Option<u16>, offset: Option<u16>) -> (r: Option<AxisCrop>)
    requires
        new_size matches Some(ns) ==> ns <= old_size,
    ensures
        match new_size {
            Some(ns) => r == Some(
                AxisCrop {
                    offset: match offset {
                        Some(o) => o,
                        None => ((old_size - ns) / 2) as u16,
                    },
                    size: ns,
                },
            ),
            None => r is None,
        },
{
    match new_size {
        Some(ns) => {
            match offset {
                Some(o) => Some(AxisCrop { size: ns, offset: o }),
                None => Some(AxisCrop { size: ns, offset: (old_size - ns) / 2 }),
            }
        },
        None => None,
    }
}

/// Where an item stands after its screen axis is cropped: shifted by the
/// crop offset, then clamped so that at least `margin` pixels stay between
/// the item and either screen border.
pub open spec fn spec_new_item_offset(
    screen_size: u16,
    screen_offset: u16,
    item_size: u16,
    item_offset: u16,
    margin: u16,
) -> u16 {
    if item_offset < screen_offset + margin {
        margin
    } else if item_offset - screen_offset + item_size > screen_size - margin {
        (screen_size - item_size - margin) as u16
    } else {
        (item_offset - screen_offset) as u16
    }
}

/// Moves an item onto a cropped screen axis, keeping a margin from the
/// borders, as [`spec_new_item_offset`] describes. The item must fit the
/// cropped axis with its margins.
pub fn new_item_offset(
    screen_size: u16,
    screen_offset: u16,
    item_size: u16,
    item_offset: u16,
    margin: u16,
) -> (r: u16)
    requires
        item_size + 2 * margin <= screen_size,
        screen_offset + margin <= u16::MAX,
        item_offset + item_size <= u16::MAX + screen_offset,
    ensures
        r == spec_new_item_offset(screen_size, screen_offset, item_size, item_offset, margin),
{
    if item_offset < screen_offset + margin {
        margin
    } else if item_offset - screen_offset + item_size > screen_size - margin {
        screen_size - item_size - margin
    } else {
        item_offset - screen_offset
    }
}

/// Where an offset lands after a centered crop of its axis from `size` to
/// `crop` pixels.
pub fn cropped_offset(offset: u16, size: u16, crop: u16) -> (r: u16)
    requires
        crop <= size,
        (size - crop) / 2 <= offset,
    ensures
        r == offset - (size - crop) / 2,
{
    offset - (size - crop) / 2
}

} // verus!
