//! Emitting segments to a byte sink.
//!
//! The spec functions here define the PGS wire image of every segment kind,
//! byte for byte: an 11-byte header (magic `0x5047`, PTS, DTS, kind), a
//! 16-bit payload size, then the payload. [`WriteSegmentExt::write_segment`]
//! is proved to append exactly that image.

use vstd::prelude::*;
use crate::bytes::{
    put_bytes, put_u16_be, put_u24_be, put_u32_be, put_u8, spec_u16_be, spec_u24_be, spec_u32_be,
};
use crate::segment::{
    CompositionObject, CompositionState, FinalObjectDefinitionSegment, FodsView,
    InitialObjectDefinitionSegment, IodsView, MiddleObjectDefinitionSegment, ModsView,
    PaletteDefinitionSegment, PaletteEntry, PcsView, PdsView, PresentationCompositionSegment,
    Segment, SegmentView, SingleObjectDefinitionSegment, SodsView, WdsView, WindowDefinition,
    WindowDefinitionSegment,
};

verus! {

/// The error type for [`WriteSegmentExt`].
///
/// Errors are caused by segment entities that the wire format cannot hold.
#[derive(Clone, Copy, Debug, Eq, PartialEq, Structural)]
pub enum WriteError {
    /// The PCS being written has more than 255 composition objects.
    TooManyCompositionObjects,
    /// The WDS being written has more than 255 window definitions.
    TooManyWindowDefinitions,
    /// The ODS being written has too much compressed data.
    ObjectDataTooLarge,
}

/// A specialized [`Result`](core::result::Result) type for segment-writing
/// operations.
pub type WriteResult<T> = Result<T, WriteError>;

/// The byte written for a composition state.
pub open spec fn spec_state_byte(s: CompositionState) -> u8 {
    match s {
        CompositionState::Normal => 0x00,
        CompositionState::AcquisitionPoint => 0x40,
        CompositionState::EpochStart => 0x80,
    }
}

/// The flags byte of a composition object: bit `0x80` marks a crop, bit
/// `0x40` marks forced display.
pub open spec fn spec_co_flags(co: CompositionObject) -> u8 {
    ((if co.crop is Some {
        0x80int
    } else {
        0int
    }) + (if co.forced {
        0x40int
    } else {
        0int
    })) as u8
}

/// The wire image of one composition-object record.
pub open spec fn spec_co_bytes(co: CompositionObject) -> Seq<u8> {
    spec_u16_be(co.object_id) + seq![co.window_id, spec_co_flags(co)] + spec_u16_be(co.x)
        + spec_u16_be(co.y) + match co.crop {
        Some(c) => spec_u16_be(c.x) + spec_u16_be(c.y) + spec_u16_be(c.width) + spec_u16_be(
            c.height,
        ),
        None => Seq::<u8>::empty(),
    }
}

/// The wire image of a run of composition-object records.
pub open spec fn spec_cos_bytes(cos: Seq<CompositionObject>) -> Seq<u8>
    decreases cos.len(),
{
    if cos.len() == 0 {
        Seq::<u8>::empty()
    } else {
        spec_co_bytes(cos[0]) + spec_cos_bytes(cos.skip(1))
    }
}

pub proof fn lemma_cos_bytes_push(cos: Seq<CompositionObject>, co: CompositionObject)
    ensures
        spec_cos_bytes(cos.push(co)) == spec_cos_bytes(cos) + spec_co_bytes(co),
    decreases cos.len(),
{
    reveal_with_fuel(spec_cos_bytes, 3);
    if cos.len() == 0 {
        assert(cos.push(co).skip(1) =~= Seq::<CompositionObject>::empty());
        assert(spec_cos_bytes(cos.push(co)) =~= spec_cos_bytes(cos) + spec_co_bytes(co));
    } else {
        assert(cos.push(co).skip(1) =~= cos.skip(1).push(co));
        lemma_cos_bytes_push(cos.skip(1), co);
        assert(spec_cos_bytes(cos.push(co)) =~= spec_cos_bytes(cos) + spec_co_bytes(co));
    }
}

/// The PCS payload: screen geometry, composition role, palette update, then
/// the composition-object records.
pub open spec fn spec_pcs_payload(pcs: PcsView) -> Seq<u8> {
    spec_u16_be(pcs.width) + spec_u16_be(pcs.height) + seq![pcs.frame_rate] + spec_u16_be(
        pcs.composition_number,
    ) + seq![spec_state_byte(pcs.composition_state)] + (match pcs.palette_update_id {
        Some(id) => seq![0x80u8, id],
        None => seq![0x00u8, 0x00u8],
    }) + seq![(pcs.composition_objects.len() % 0x100) as u8] + spec_cos_bytes(
        pcs.composition_objects,
    )
}

/// The wire image of one window-definition record.
pub open spec fn spec_window_bytes(w: WindowDefinition) -> Seq<u8> {
    seq![w.id] + spec_u16_be(w.x) + spec_u16_be(w.y) + spec_u16_be(w.width) + spec_u16_be(w.height)
}

/// The wire image of a run of window-definition records.
pub open spec fn spec_windows_bytes(ws: Seq<WindowDefinition>) -> Seq<u8>
    decreases ws.len(),
{
    if ws.len() == 0 {
        Seq::<u8>::empty()
    } else {
        spec_window_bytes(ws[0]) + spec_windows_bytes(ws.skip(1))
    }
}

pub proof fn lemma_windows_bytes_push(ws: Seq<WindowDefinition>, w: WindowDefinition)
    ensures
        spec_windows_bytes(ws.push(w)) == spec_windows_bytes(ws) + spec_window_bytes(w),
    decreases ws.len(),
{
    reveal_with_fuel(spec_windows_bytes, 3);
    if ws.len() == 0 {
        assert(ws.push(w).skip(1) =~= Seq::<WindowDefinition>::empty());
        assert(spec_windows_bytes(ws.push(w)) =~= spec_windows_bytes(ws) + spec_window_bytes(w));
    } else {
        assert(ws.push(w).skip(1) =~= ws.skip(1).push(w));
        lemma_windows_bytes_push(ws.skip(1), w);
        assert(spec_windows_bytes(ws.push(w)) =~= spec_windows_bytes(ws) + spec_window_bytes(w));
    }
}

/// The WDS payload: a count byte, then the window records.
pub open spec fn spec_wds_payload(wds: WdsView) -> Seq<u8> {
    seq![(wds.windows.len() % 0x100) as u8] + spec_windows_bytes(wds.windows)
}

/// The wire image of one palette entry.
pub open spec fn spec_entry_bytes(e: PaletteEntry) -> Seq<u8> {
    seq![e.id, e.y, e.cr, e.cb, e.alpha]
}

/// The wire image of a run of palette entries.
pub open spec fn spec_entries_bytes(es: Seq<PaletteEntry>) -> Seq<u8>
    decreases es.len(),
{
    if es.len() == 0 {
        Seq::<u8>::empty()
    } else {
        spec_entry_bytes(es[0]) + spec_entries_bytes(es.skip(1))
    }
}

pub proof fn lemma_entries_bytes_push(es: Seq<PaletteEntry>, e: PaletteEntry)
    ensures
        spec_entries_bytes(es.push(e)) == spec_entries_bytes(es) + spec_entry_bytes(e),
    decreases es.len(),
{
    reveal_with_fuel(spec_entries_bytes, 3);
    if es.len() == 0 {
        assert(es.push(e).skip(1) =~= Seq::<PaletteEntry>::empty());
        assert(spec_entries_bytes(es.push(e)) =~= spec_entries_bytes(es) + spec_entry_bytes(e));
    } else {
        assert(es.push(e).skip(1) =~= es.skip(1).push(e));
        lemma_entries_bytes_push(es.skip(1), e);
        assert(spec_entries_bytes(es.push(e)) =~= spec_entries_bytes(es) + spec_entry_bytes(e));
    }
}

/// The PDS payload: palette ID and version, then the entries.
pub open spec fn spec_pds_payload(pds: PdsView) -> Seq<u8> {
    seq![pds.id, pds.version] + spec_entries_bytes(pds.entries)
}

/// The payload of a single (complete) ODS. The declared 24-bit length
/// records four bytes more than the data itself, a quirk of the format.
pub open spec fn spec_sods_payload(s: SodsView) -> Seq<u8> {
    spec_u16_be(s.id) + seq![s.version, 0xC0u8] + spec_u24_be(((s.data.len() + 4) % 0x1000000) as u32)
        + spec_u16_be(s.width) + spec_u16_be(s.height) + s.data
}

/// The payload of an initial ODS portion. The declared length covers the
/// whole object across all portions.
pub open spec fn spec_iods_payload(s: IodsView) -> Seq<u8> {
    spec_u16_be(s.id) + seq![s.version, 0x80u8] + spec_u24_be((s.length % 0x1000000) as u32)
        + spec_u16_be(s.width) + spec_u16_be(s.height) + s.data
}

/// The payload of a middle ODS portion.
pub open spec fn spec_mods_payload(s: ModsView) -> Seq<u8> {
    spec_u16_be(s.id) + seq![s.version, 0x00u8] + s.data
}

/// The payload of a final ODS portion.
pub open spec fn spec_fods_payload(s: FodsView) -> Seq<u8> {
    spec_u16_be(s.id) + seq![s.version, 0x40u8] + s.data
}

/// The payload bytes of a segment.
pub open spec fn spec_payload(seg: SegmentView) -> Seq<u8> {
    match seg {
        SegmentView::PresentationComposition(s) => spec_pcs_payload(s),
        SegmentView::WindowDefinition(s) => spec_wds_payload(s),
        SegmentView::PaletteDefinition(s) => spec_pds_payload(s),
        SegmentView::SingleObjectDefinition(s) => spec_sods_payload(s),
        SegmentView::InitialObjectDefinition(s) => spec_iods_payload(s),
        SegmentView::MiddleObjectDefinition(s) => spec_mods_payload(s),
        SegmentView::FinalObjectDefinition(s) => spec_fods_payload(s),
        SegmentView::End(_) => Seq::<u8>::empty(),
    }
}

/// The kind byte of a segment.
pub open spec fn spec_kind_byte(seg: SegmentView) -> u8 {
    match seg {
        SegmentView::PresentationComposition(_) => 0x16,
        SegmentView::WindowDefinition(_) => 0x17,
        SegmentView::PaletteDefinition(_) => 0x14,
        SegmentView::SingleObjectDefinition(_) => 0x15,
        SegmentView::InitialObjectDefinition(_) => 0x15,
        SegmentView::MiddleObjectDefinition(_) => 0x15,
        SegmentView::FinalObjectDefinition(_) => 0x15,
        SegmentView::End(_) => 0x80,
    }
}

/// The first eleven bytes of a segment's wire image: magic, PTS, DTS and
/// kind.
pub open spec fn spec_segment_header(seg: SegmentView) -> Seq<u8> {
    spec_u16_be(0x5047) + spec_u32_be(seg.spec_pts()) + spec_u32_be(seg.spec_dts()) + seq![
        spec_kind_byte(seg),
    ]
}

/// The complete wire image of a segment.
pub open spec fn spec_segment_bytes(seg: SegmentView) -> Seq<u8> {
    spec_segment_header(seg) + spec_u16_be((spec_payload(seg).len() % 0x10000) as u16)
        + spec_payload(seg)
}

/// Whether the entities of a segment fit the wire format's counters, so that
/// writing succeeds.
pub open spec fn spec_write_ok(seg: SegmentView) -> bool {
    match seg {
        SegmentView::PresentationComposition(s) => s.composition_objects.len() <= 255,
        SegmentView::WindowDefinition(s) => s.windows.len() <= 255,
        SegmentView::SingleObjectDefinition(s) => s.data.len() <= 16_777_211,
        SegmentView::InitialObjectDefinition(s) => s.length <= 16_777_215,
        _ => true,
    }
}

/// Whether a segment fits the wire format whole: its counters fit and its
/// payload fits the 16-bit size field.
pub open spec fn spec_segment_valid(seg: SegmentView) -> bool {
    spec_write_ok(seg) && spec_payload(seg).len() <= 0xFFFF
}

/// The error reported for a segment that [`spec_write_ok`] rejects.
pub open spec fn spec_write_err(seg: SegmentView) -> WriteError {
    match seg {
        SegmentView::PresentationComposition(_) => WriteError::TooManyCompositionObjects,
        SegmentView::WindowDefinition(_) => WriteError::TooManyWindowDefinitions,
        _ => WriteError::ObjectDataTooLarge,
    }
}

/// Allows writing segments to a byte sink.
pub trait WriteSegmentExt {
    /// The bytes the sink holds.
    spec fn sink(&self) -> Seq<u8>;

    /// Writes a segment to the sink. The payload is computed to an
    /// in-memory buffer first, then the header, size and payload are
    /// emitted: on success exactly [`spec_segment_bytes`] is appended, and
    /// a segment the wire format cannot hold is reported without touching
    /// the sink at all.
    fn write_segment(&mut self, segment: &Segment) -> (r: WriteResult<()>)
        ensures
            spec_write_ok(segment@) ==> r == Ok::<(), WriteError>(()) && final(self).sink()
                == old(self).sink() + spec_segment_bytes(segment@),
            !spec_write_ok(segment@) ==> r == Err::<(), WriteError>(spec_write_err(segment@))
                && final(self).sink() == old(self).sink(),
    ;
}

impl WriteSegmentExt for Vec<u8> {
    open spec fn sink(&self) -> Seq<u8> {
        self@
    }

    fn write_segment(&mut self, segment: &Segment) -> (r: WriteResult<()>) {
        let generated: WriteResult<Vec<u8>> = match segment {
            Segment::PresentationComposition(pcs) => generate_pcs(pcs),
            Segment::WindowDefinition(wds) => generate_wds(wds),
            Segment::PaletteDefinition(pds) => generate_pds(pds),
            Segment::SingleObjectDefinition(sods) => generate_sods(sods),
            Segment::InitialObjectDefinition(iods) => generate_iods(iods),
            Segment::MiddleObjectDefinition(mods) => generate_mods(mods),
            Segment::FinalObjectDefinition(fods) => generate_fods(fods),
            Segment::End(_es) => Ok(Vec::new()),
        };
        let payload = match generated {
            Ok(payload) => payload,
            Err(e) => {
                return Err(e);
            },
        };
        let (pts, dts, kind) = match segment {
            Segment::PresentationComposition(pcs) => (pcs.pts, pcs.dts, 0x16),
            Segment::WindowDefinition(wds) => (wds.pts, wds.dts, 0x17),
            Segment::PaletteDefinition(pds) => (pds.pts, pds.dts, 0x14),
            Segment::SingleObjectDefinition(sods) => (sods.pts, sods.dts, 0x15),
            Segment::InitialObjectDefinition(iods) => (iods.pts, iods.dts, 0x15),
            Segment::MiddleObjectDefinition(mods) => (mods.pts, mods.dts, 0x15),
            Segment::FinalObjectDefinition(fods) => (fods.pts, fods.dts, 0x15),
            Segment::End(es) => (es.pts, es.dts, 0x80),
        };
        put_u16_be(self, 0x5047);
        put_u32_be(self, pts);
        put_u32_be(self, dts);
        put_u8(self, kind);
        put_u16_be(self, (payload.len() % 0x10000) as u16);
        put_bytes(self, &payload);
        proof {
            assert(pts == segment@.spec_pts());
            assert(dts == segment@.spec_dts());
            assert(kind == spec_kind_byte(segment@));
            assert(final(self).sink() =~= old(self).sink() + spec_segment_bytes(segment@));
        }
        Ok(())
    }
}

/// Builds the payload of a PCS.
fn generate_pcs(pcs: &PresentationCompositionSegment) -> (r: WriteResult<Vec<u8>>)
    ensures
        pcs.composition_objects@.len() <= 255 ==> (r matches Ok(p) && p@ == spec_pcs_payload(pcs@)),
        pcs.composition_objects@.len() > 255 ==> r == Err::<Vec<u8>, WriteError>(
            WriteError::TooManyCompositionObjects,
        ),
{
    let mut payload: Vec<u8> = Vec::new();
    put_u16_be(&mut payload, pcs.width);
    put_u16_be(&mut payload, pcs.height);
    put_u8(&mut payload, pcs.frame_rate);
    put_u16_be(&mut payload, pcs.composition_number);
    put_u8(
        &mut payload,
        match pcs.composition_state {
            CompositionState::Normal => 0x00,
            CompositionState::AcquisitionPoint => 0x40,
            CompositionState::EpochStart => 0x80,
        },
    );
    match pcs.palette_update_id {
        Some(pal_id) => {
            put_u8(&mut payload, 0x80);
            put_u8(&mut payload, pal_id);
        },
        None => {
            put_u8(&mut payload, 0x00);
            put_u8(&mut payload, 0);
        },
    }
    if pcs.composition_objects.len() <= 255 {
        put_u8(&mut payload, (pcs.composition_objects.len() % 0x100) as u8);
    } else {
        return Err(WriteError::TooManyCompositionObjects);
    }
    let ghost prefix = payload@;
    let mut i: usize = 0;
    while i < pcs.composition_objects.len()
        invariant
            i <= pcs.composition_objects@.len(),
            payload@ == prefix + spec_cos_bytes(pcs.composition_objects@.take(i as int)),
        decreases pcs.composition_objects@.len() - i,
    {
        let comp_obj = &pcs.composition_objects[i];
        let ghost before = payload@;
        put_u16_be(&mut payload, comp_obj.object_id);
        put_u8(&mut payload, comp_obj.window_id);
        put_u8(
            &mut payload,
            (match &comp_obj.crop {
                Some(_) => 0x80u8,
                None => 0x00u8,
            }) + (if comp_obj.forced {
                0x40u8
            } else {
                0x00u8
            }),
        );
        put_u16_be(&mut payload, comp_obj.x);
        put_u16_be(&mut payload, comp_obj.y);
        match &comp_obj.crop {
            Some(crop) => {
                put_u16_be(&mut payload, crop.x);
                put_u16_be(&mut payload, crop.y);
                put_u16_be(&mut payload, crop.width);
                put_u16_be(&mut payload, crop.height);
            },
            None => {},
        }
        proof {
            assert(payload@ =~= before + spec_co_bytes(pcs.composition_objects@[i as int]));
            lemma_cos_bytes_push(
                pcs.composition_objects@.take(i as int),
                pcs.composition_objects@[i as int],
            );
            assert(pcs.composition_objects@.take(i + 1) =~= pcs.composition_objects@.take(
                i as int,
            ).push(pcs.composition_objects@[i as int]));
        }
        i = i + 1;
    }
    proof {
        assert(pcs.composition_objects@.take(pcs.composition_objects@.len() as int)
            =~= pcs.composition_objects@);
        assert(payload@ =~= spec_pcs_payload(pcs@));
    }
    Ok(payload)
}

/// Builds the payload of a WDS.
fn generate_wds(wds: &WindowDefinitionSegment) -> (r: WriteResult<Vec<u8>>)
    ensures
        wds.windows@.len() <= 255 ==> (r matches Ok(p) && p@ == spec_wds_payload(wds@)),
        wds.windows@.len() > 255 ==> r == Err::<Vec<u8>, WriteError>(
            WriteError::TooManyWindowDefinitions,
        ),
{
    let mut payload: Vec<u8> = Vec::new();
    if wds.windows.len() <= 255 {
        put_u8(&mut payload, (wds.windows.len() % 0x100) as u8);
    } else {
        return Err(WriteError::TooManyWindowDefinitions);
    }
    let ghost prefix = payload@;
    let mut i: usize = 0;
    while i < wds.windows.len()
        invariant
            i <= wds.windows@.len(),
            payload@ == prefix + spec_windows_bytes(wds.windows@.take(i as int)),
        decreases wds.windows@.len() - i,
    {
        let window = &wds.windows[i];
        let ghost before = payload@;
        put_u8(&mut payload, window.id);
        put_u16_be(&mut payload, window.x);
        put_u16_be(&mut payload, window.y);
        put_u16_be(&mut payload, window.width);
        put_u16_be(&mut payload, window.height);
        proof {
            assert(payload@ =~= before + spec_window_bytes(wds.windows@[i as int]));
            lemma_windows_bytes_push(wds.windows@.take(i as int), wds.windows@[i as int]);
            assert(wds.windows@.take(i + 1) =~= wds.windows@.take(i as int).push(
                wds.windows@[i as int],
            ));
        }
        i = i + 1;
    }
    proof {
        assert(wds.windows@.take(wds.windows@.len() as int) =~= wds.windows@);
        assert(payload@ =~= spec_wds_payload(wds@));
    }
    Ok(payload)
}

/// Builds the payload of a PDS.
pub fn generate_pds(pds: &PaletteDefinitionSegment) -> (r: WriteResult<Vec<u8>>)
    ensures
        r matches Ok(p) && p@ == spec_pds_payload(pds@),
{
    let mut payload: Vec<u8> = Vec::new();
    put_u8(&mut payload, pds.id);
    put_u8(&mut payload, pds.version);
    let ghost prefix = payload@;
    let mut i: usize = 0;
    while i < pds.entries.len()
        invariant
            i <= pds.entries@.len(),
            payload@ == prefix + spec_entries_bytes(pds.entries@.take(i as int)),
        decreases pds.entries@.len() - i,
    {
        let entry = &pds.entries[i];
        let ghost before = payload@;
        put_u8(&mut payload, entry.id);
        put_u8(&mut payload, entry.y);
        put_u8(&mut payload, entry.cr);
        put_u8(&mut payload, entry.cb);
        put_u8(&mut payload, entry.alpha);
        proof {
            assert(payload@ =~= before + spec_entry_bytes(pds.entries@[i as int]));
            lemma_entries_bytes_push(pds.entries@.take(i as int), pds.entries@[i as int]);
            assert(pds.entries@.take(i + 1) =~= pds.entries@.take(i as int).push(
                pds.entries@[i as int],
            ));
        }
        i = i + 1;
    }
    proof {
        assert(pds.entries@.take(pds.entries@.len() as int) =~= pds.entries@);
        assert(payload@ =~= spec_pds_payload(pds@));
    }
    Ok(payload)
}

/// Builds the payload of a single (complete) ODS.
fn generate_sods(ods: &SingleObjectDefinitionSegment) -> (r: WriteResult<Vec<u8>>)
    ensures
        ods.data@.len() <= 16_777_211 ==> (r matches Ok(p) && p@ == spec_sods_payload(ods@)),
        ods.data@.len() > 16_777_211 ==> r == Err::<Vec<u8>, WriteError>(
            WriteError::ObjectDataTooLarge,
        ),
{
    let mut payload: Vec<u8> = Vec::new();
    put_u16_be(&mut payload, ods.id);
    put_u8(&mut payload, ods.version);
    put_u8(&mut payload, 0xC0);
    if ods.data.len() <= 16_777_211 {
        put_u24_be(&mut payload, ods.data.len() as u32 + 4);
    } else {
        return Err(WriteError::ObjectDataTooLarge);
    }
    put_u16_be(&mut payload, ods.width);
    put_u16_be(&mut payload, ods.height);
    put_bytes(&mut payload, &ods.data);
    proof {
        assert(payload@ =~= spec_sods_payload(ods@));
    }
    Ok(payload)
}

/// Builds the payload of an initial ODS portion.
fn generate_iods(ods: &InitialObjectDefinitionSegment) -> (r: WriteResult<Vec<u8>>)
    ensures
        ods.length <= 16_777_215 ==> (r matches Ok(p) && p@ == spec_iods_payload(ods@)),
        ods.length > 16_777_215 ==> r == Err::<Vec<u8>, WriteError>(WriteError::ObjectDataTooLarge),
{
    let mut payload: Vec<u8> = Vec::new();
    put_u16_be(&mut payload, ods.id);
    put_u8(&mut payload, ods.version);
    put_u8(&mut payload, 0x80);
    if ods.length <= 16_777_215 {
        put_u24_be(&mut payload, ods.length as u32);
    } else {
        return Err(WriteError::ObjectDataTooLarge);
    }
    put_u16_be(&mut payload, ods.width);
    put_u16_be(&mut payload, ods.height);
    put_bytes(&mut payload, &ods.data);
    proof {
        assert(payload@ =~= spec_iods_payload(ods@));
    }
    Ok(payload)
}

/// Builds the payload of a middle ODS portion.
fn generate_mods(ods: &MiddleObjectDefinitionSegment) -> (r: WriteResult<Vec<u8>>)
    ensures
        r matches Ok(p) && p@ == spec_mods_payload(ods@),
{
    let mut payload: Vec<u8> = Vec::new();
    put_u16_be(&mut payload, ods.id);
    put_u8(&mut payload, ods.version);
    put_u8(&mut payload, 0x00);
    put_bytes(&mut payload, &ods.data);
    proof {
        assert(payload@ =~= spec_mods_payload(ods@));
    }
    Ok(payload)
}

/// Builds the payload of a final ODS portion.
fn generate_fods(ods: &FinalObjectDefinitionSegment) -> (r: WriteResult<Vec<u8>>)
    ensures
        r matches Ok(p) && p@ == spec_fods_payload(ods@),
{
    let mut payload: Vec<u8> = Vec::new();
    put_u16_be(&mut payload, ods.id);
    put_u8(&mut payload, ods.version);
    put_u8(&mut payload, 0x40);
    put_bytes(&mut payload, &ods.data);
    proof {
        assert(payload@ =~= spec_fods_payload(ods@));
    }
    Ok(payload)
}

} // verus!
