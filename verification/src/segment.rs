//! The five PGS segment kinds and their payload entities.
//!
//! A segment is the most fundamental data structure within a PGS bitstream.
//! Multiple segments come together in a well-defined manner to form a display
//! set. The five kinds, in the order they typically appear:
//!
//! 1. Presentation Composition Segment (PCS) — starts a display set and maps
//!    objects into windows.
//! 2. Window Definition Segment (WDS) — declares the screen regions used by
//!    the epoch.
//! 3. Palette Definition Segment (PDS) — declares YCbCrA palette entries.
//! 4. Object Definition Segment (ODS) — carries run-length-compressed bitmap
//!    data, whole or split into portions.
//! 5. End Segment (ES) — closes the display set.
//!
//! Each kind carries a PTS and a DTS timestamp, typically identical within a
//! display set.

use vstd::prelude::*;

verus! {

/// A PGS segment.
#[derive(Clone, Debug, Hash, PartialEq)]
pub enum Segment {
    /// A Presentation Composition Segment (PCS).
    PresentationComposition(PresentationCompositionSegment),
    /// A Window Definition Segment (WDS).
    WindowDefinition(WindowDefinitionSegment),
    /// A Palette Definition Segment (PDS).
    PaletteDefinition(PaletteDefinitionSegment),
    /// A complete Object Definition Segment (ODS).
    SingleObjectDefinition(SingleObjectDefinitionSegment),
    /// The initial portion of a split Object Definition Segment (ODS).
    InitialObjectDefinition(InitialObjectDefinitionSegment),
    /// A middle portion of a split Object Definition Segment (ODS).
    MiddleObjectDefinition(MiddleObjectDefinitionSegment),
    /// The final portion of a split Object Definition Segment (ODS).
    FinalObjectDefinition(FinalObjectDefinitionSegment),
    /// An End Segment (ES).
    End(EndSegment),
}

/// The role of a PCS (and thereby the display set it leads) within an epoch.
#[derive(Clone, Copy, Debug, Eq, Hash, PartialEq, Structural)]
pub enum CompositionState {
    /// The display set starts a new epoch and should carry every segment
    /// needed to render a composition.
    EpochStart,
    /// The display set redefines the current composition so that a player
    /// seeking past the epoch start can still recover it.
    AcquisitionPoint,
    /// The display set updates the composition already on the screen.
    Normal,
}

impl Default for CompositionState {
    /// An epoch start, the role of the first display set of any stream.
    fn default() -> (r: Self)
        ensures
            r == CompositionState::EpochStart,
    {
        Self::EpochStart
    }
}

/// A Presentation Composition Segment (PCS): the beginning of a display set.
#[derive(Clone, Debug, Default, Hash, PartialEq)]
pub struct PresentationCompositionSegment {
    /// The 90 kHz timestamp at which composition decoding should start.
    pub pts: u32,
    /// The 90 kHz timestamp at which the composition should be displayed.
    pub dts: u32,
    /// The width of the screen in pixels.
    pub width: u16,
    /// The height of the screen in pixels.
    pub height: u16,
    /// Should be `0x10`; carried verbatim and never interpreted.
    pub frame_rate: u8,
    /// Increments each time graphics are updated within an epoch.
    pub composition_number: u16,
    /// The role of this display set within the larger epoch.
    pub composition_state: CompositionState,
    /// If set, the ID of a preceding palette to be updated within the epoch.
    pub palette_update_id: Option<u8>,
    /// Maps the epoch's objects (or areas within them) to its windows.
    pub composition_objects: Vec<CompositionObject>,
}

/// A mapping between an object (or an area of one) and a window.
#[derive(Clone, Debug, Default, Hash, PartialEq)]
pub struct CompositionObject {
    /// The ID of the object within the epoch.
    pub object_id: u16,
    /// The ID of the window within the epoch.
    pub window_id: u8,
    /// The horizontal offset of the object's visible top-left corner relative
    /// to the top-left corner of the screen.
    pub x: u16,
    /// The vertical offset of the object's visible top-left corner relative
    /// to the top-left corner of the screen.
    pub y: u16,
    /// Forces display regardless of the user's subtitle preference.
    pub forced: bool,
    /// If set, only this area of the object is shown.
    pub crop: Option<Crop>,
}

/// The area within an object to be shown.
#[derive(Clone, Debug, Default, Hash, PartialEq)]
pub struct Crop {
    /// The horizontal offset of the area relative to the object itself.
    pub x: u16,
    /// The vertical offset of the area relative to the object itself.
    pub y: u16,
    /// The width of the area.
    pub width: u16,
    /// The height of the area.
    pub height: u16,
}

/// A Window Definition Segment (WDS).
#[derive(Clone, Debug, Default, Hash, PartialEq)]
pub struct WindowDefinitionSegment {
    /// The 90 kHz timestamp at which composition decoding should start.
    pub pts: u32,
    /// The 90 kHz timestamp at which the composition should be displayed.
    pub dts: u32,
    /// The window regions within the screen for this epoch.
    pub windows: Vec<WindowDefinition>,
}

/// One window region within the screen.
#[derive(Clone, Debug, Default, Hash, PartialEq)]
pub struct WindowDefinition {
    /// The ID of this window within the epoch.
    pub id: u8,
    /// The horizontal offset of the window's top-left corner on the screen.
    pub x: u16,
    /// The vertical offset of the window's top-left corner on the screen.
    pub y: u16,
    /// The width of the window.
    pub width: u16,
    /// The height of the window.
    pub height: u16,
}

/// A Palette Definition Segment (PDS).
#[derive(Clone, Debug, Default, Hash, PartialEq)]
pub struct PaletteDefinitionSegment {
    /// The 90 kHz timestamp at which composition decoding should start.
    pub pts: u32,
    /// The 90 kHz timestamp at which the composition should be displayed.
    pub dts: u32,
    /// The ID of this palette set within the epoch.
    pub id: u8,
    /// The version increment of this palette set.
    pub version: u8,
    /// The individual palette entries in this set.
    pub entries: Vec<PaletteEntry>,
}

/// One palette entry within a palette set.
#[derive(Clone, Debug, Default, Hash, PartialEq)]
pub struct PaletteEntry {
    /// The ID of this palette entry, unique within an epoch.
    pub id: u8,
    /// The range-limited, gamma-corrected luminosity value of this entry.
    pub y: u8,
    /// The vertical position of this entry on the YCbCr color plane.
    pub cr: u8,
    /// The horizontal position of this entry on the YCbCr color plane.
    pub cb: u8,
    /// The alpha (transparency ratio) of this entry.
    pub alpha: u8,
}

/// An ODS carrying a complete object.
#[derive(Clone, Debug, Default, Hash, PartialEq)]
pub struct SingleObjectDefinitionSegment {
    /// The 90 kHz timestamp at which composition decoding should start.
    pub pts: u32,
    /// The 90 kHz timestamp at which the composition should be displayed.
    pub dts: u32,
    /// The ID of this object within the epoch.
    pub id: u16,
    /// The version increment of this object.
    pub version: u8,
    /// The width of this object.
    pub width: u16,
    /// The height of this object.
    pub height: u16,
    /// The RLE-compressed data for this object.
    pub data: Vec<u8>,
}

/// An ODS carrying the initial portion of a split object.
#[derive(Clone, Debug, Default, Hash, PartialEq)]
pub struct InitialObjectDefinitionSegment {
    /// The 90 kHz timestamp at which composition decoding should start.
    pub pts: u32,
    /// The 90 kHz timestamp at which the composition should be displayed.
    pub dts: u32,
    /// The ID of this object within the epoch.
    pub id: u16,
    /// The version increment of this object.
    pub version: u8,
    /// The declared length of the object's data buffer across all portions,
    /// including the format's four bytes of header overhead.
    pub length: usize,
    /// The width of this object.
    pub width: u16,
    /// The height of this object.
    pub height: u16,
    /// The RLE-compressed data for this portion of the completed object.
    pub data: Vec<u8>,
}

/// An ODS carrying a middle portion of a split object.
#[derive(Clone, Debug, Default, Hash, PartialEq)]
pub struct MiddleObjectDefinitionSegment {
    /// The 90 kHz timestamp at which composition decoding should start.
    pub pts: u32,
    /// The 90 kHz timestamp at which the composition should be displayed.
    pub dts: u32,
    /// The ID of this object within the epoch.
    pub id: u16,
    /// The version increment of this object.
    pub version: u8,
    /// The RLE-compressed data for this portion of the completed object.
    pub data: Vec<u8>,
}

/// An ODS carrying the final portion of a split object.
#[derive(Clone, Debug, Default, Hash, PartialEq)]
pub struct FinalObjectDefinitionSegment {
    /// The 90 kHz timestamp at which composition decoding should start.
    pub pts: u32,
    /// The 90 kHz timestamp at which the composition should be displayed.
    pub dts: u32,
    /// The ID of this object within the epoch.
    pub id: u16,
    /// The version increment of this object.
    pub version: u8,
    /// The RLE-compressed data for this portion of the completed object.
    pub data: Vec<u8>,
}

/// An End Segment (ES): the end of a display set.
#[derive(Clone, Debug, Default, Hash, PartialEq)]
pub struct EndSegment {
    /// The 90 kHz timestamp at which composition decoding should start.
    pub pts: u32,
    /// The 90 kHz timestamp at which the composition should be displayed.
    pub dts: u32,
}

/// The mathematical model of a PCS: the segment with its record list as a
/// sequence.
pub struct PcsView {
    pub pts: u32,
    pub dts: u32,
    pub width: u16,
    pub height: u16,
    pub frame_rate: u8,
    pub composition_number: u16,
    pub composition_state: CompositionState,
    pub palette_update_id: Option<u8>,
    pub composition_objects: Seq<CompositionObject>,
}

/// The mathematical model of a WDS.
pub struct WdsView {
    pub pts: u32,
    pub dts: u32,
    pub windows: Seq<WindowDefinition>,
}

/// The mathematical model of a PDS.
pub struct PdsView {
    pub pts: u32,
    pub dts: u32,
    pub id: u8,
    pub version: u8,
    pub entries: Seq<PaletteEntry>,
}

/// The mathematical model of a single (complete) ODS.
pub struct SodsView {
    pub pts: u32,
    pub dts: u32,
    pub id: u16,
    pub version: u8,
    pub width: u16,
    pub height: u16,
    pub data: Seq<u8>,
}

/// The mathematical model of an initial ODS portion.
pub struct IodsView {
    pub pts: u32,
    pub dts: u32,
    pub id: u16,
    pub version: u8,
    pub length: usize,
    pub width: u16,
    pub height: u16,
    pub data: Seq<u8>,
}

/// The mathematical model of a middle ODS portion.
pub struct ModsView {
    pub pts: u32,
    pub dts: u32,
    pub id: u16,
    pub version: u8,
    pub data: Seq<u8>,
}

/// The mathematical model of a final ODS portion.
pub struct FodsView {
    pub pts: u32,
    pub dts: u32,
    pub id: u16,
    pub version: u8,
    pub data: Seq<u8>,
}

/// The mathematical model of a segment.
pub enum SegmentView {
    PresentationComposition(PcsView),
    WindowDefinition(WdsView),
    PaletteDefinition(PdsView),
    SingleObjectDefinition(SodsView),
    InitialObjectDefinition(IodsView),
    MiddleObjectDefinition(ModsView),
    FinalObjectDefinition(FodsView),
    End(EndSegment),
}

impl View for PresentationCompositionSegment {
    type V = PcsView;

    open spec fn view(&self) -> PcsView {
        PcsView {
            pts: self.pts,
            dts: self.dts,
            width: self.width,
            height: self.height,
            frame_rate: self.frame_rate,
            composition_number: self.composition_number,
            composition_state: self.composition_state,
            palette_update_id: self.palette_update_id,
            composition_objects: self.composition_objects@,
        }
    }
}

impl View for WindowDefinitionSegment {
    type V = WdsView;

    open spec fn view(&self) -> WdsView {
        WdsView { pts: self.pts, dts: self.dts, windows: self.windows@ }
    }
}

impl View for PaletteDefinitionSegment {
    type V = PdsView;

    open spec fn view(&self) -> PdsView {
        PdsView {
            pts: self.pts,
            dts: self.dts,
            id: self.id,
            version: self.version,
            entries: self.entries@,
        }
    }
}

impl View for SingleObjectDefinitionSegment {
    type V = SodsView;

    open spec fn view(&self) -> SodsView {
        SodsView {
            pts: self.pts,
            dts: self.dts,
            id: self.id,
            version: self.version,
            width: self.width,
            height: self.height,
            data: self.data@,
        }
    }
}

impl View for InitialObjectDefinitionSegment {
    type V = IodsView;

    open spec fn view(&self) -> IodsView {
        IodsView {
            pts: self.pts,
            dts: self.dts,
            id: self.id,
            version: self.version,
            length: self.length,
            width: self.width,
            height: self.height,
            data: self.data@,
        }
    }
}

impl View for MiddleObjectDefinitionSegment {
    type V = ModsView;

    open spec fn view(&self) -> ModsView {
        ModsView {
            pts: self.pts,
            dts: self.dts,
            id: self.id,
            version: self.version,
            data: self.data@,
        }
    }
}

impl View for FinalObjectDefinitionSegment {
    type V = FodsView;

    open spec fn view(&self) -> FodsView {
        FodsView {
            pts: self.pts,
            dts: self.dts,
            id: self.id,
            version: self.version,
            data: self.data@,
        }
    }
}

impl View for Segment {
    type V = SegmentView;

    open spec fn view(&self) -> SegmentView {
        match self {
            Segment::PresentationComposition(s) => SegmentView::PresentationComposition(s@),
            Segment::WindowDefinition(s) => SegmentView::WindowDefinition(s@),
            Segment::PaletteDefinition(s) => SegmentView::PaletteDefinition(s@),
            Segment::SingleObjectDefinition(s) => SegmentView::SingleObjectDefinition(s@),
            Segment::InitialObjectDefinition(s) => SegmentView::InitialObjectDefinition(s@),
            Segment::MiddleObjectDefinition(s) => SegmentView::MiddleObjectDefinition(s@),
            Segment::FinalObjectDefinition(s) => SegmentView::FinalObjectDefinition(s@),
            Segment::End(s) => SegmentView::End(*s),
        }
    }
}

impl SegmentView {
    /// The PTS shared by every segment kind.
    pub open spec fn spec_pts(self) -> u32 {
        match self {
            SegmentView::PresentationComposition(s) => s.pts,
            SegmentView::WindowDefinition(s) => s.pts,
            SegmentView::PaletteDefinition(s) => s.pts,
            SegmentView::SingleObjectDefinition(s) => s.pts,
            SegmentView::InitialObjectDefinition(s) => s.pts,
            SegmentView::MiddleObjectDefinition(s) => s.pts,
            SegmentView::FinalObjectDefinition(s) => s.pts,
            SegmentView::End(s) => s.pts,
        }
    }

    /// The DTS shared by every segment kind.
    pub open spec fn spec_dts(self) -> u32 {
        match self {
            SegmentView::PresentationComposition(s) => s.dts,
            SegmentView::WindowDefinition(s) => s.dts,
            SegmentView::PaletteDefinition(s) => s.dts,
            SegmentView::SingleObjectDefinition(s) => s.dts,
            SegmentView::InitialObjectDefinition(s) => s.dts,
            SegmentView::MiddleObjectDefinition(s) => s.dts,
            SegmentView::FinalObjectDefinition(s) => s.dts,
            SegmentView::End(s) => s.dts,
        }
    }
}

} // verus!
