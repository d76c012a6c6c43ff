//! Reading display sets: segment collection, validation and object
//! reassembly.
//!
//! A display set is read as a bounded run of segments: a PCS first, then
//! window, palette and object definitions, then the end segment. Every
//! segment must carry the PCS's timestamps; windows, palettes and objects
//! must not collide; split objects are reassembled by a typed state machine
//! before their run-length-compressed data is decoded.

use vstd::prelude::*;
use crate::bytes::{copy_range, put_bytes, ByteSource};
use crate::displayset::{
    Cid, CompositionObject, DisplaySet, DisplaySetView, Object, ObjectView, Palette, PaletteEntry,
    PaletteView, SortedMap, Vid, Window, spec_has_key, spec_lines_view, spec_object_dims_ok,
    spec_put, spec_sorted, MapKey,
};
use crate::segment::{
    CompositionObject as SegCompositionObject, PaletteEntry as SegPaletteEntry, PcsView, Segment,
    SegmentView, WindowDefinition,
};
use crate::segmentread::{ReadError as SegmentReadError, ReadSegmentExt, spec_read_segment};

verus! {

/// The error type for [`ReadDisplaySetExt`].
#[derive(Clone, Copy, Debug, Eq, PartialEq, Structural)]
pub enum ReadError {
    /// A segment of the display set could not be read.
    ReadError {
        /// The underlying segment error.
        source: SegmentReadError,
    },
    /// The collected segments could not be parsed into a display set.
    ParseError {
        /// The underlying parse error.
        source: ParseError,
    },
}

/// The error type for parsing a collected run of segments into a display
/// set.
#[derive(Clone, Copy, Debug, Eq, PartialEq, Structural)]
pub enum ParseError {
    /// The run contains no segments.
    NoSegments,
    /// The first segment in the run is not a PCS.
    MissingPresentationCompositionSegment,
    /// A segment was encountered after the end segment.
    SegmentAfterEnd,
    /// The run contains no end segment.
    MissingEndSegment,
    /// A segment's PTS differs from the PCS's PTS.
    InconsistentPts,
    /// A segment's DTS differs from the PCS's DTS.
    InconsistentDts,
    /// A PCS was encountered past the first segment.
    UnexpectedPresentationCompositionSegment,
    /// A single window ID was defined twice.
    DuplicateWindowId,
    /// A single palette (ID, version) was defined twice.
    DuplicatePaletteVid,
    /// A single object (ID, version) was defined twice.
    DuplicateObjectVid,
    /// The palette update references a palette ID that no palette of the
    /// display set has.
    PaletteUpdateReferencesUnknownPaletteId,
    /// An ODS arrived whose sequence flag the reassembly state forbids.
    InvalidObjectSequence,
    /// The run ended with an object still in pieces.
    IncompleteObjectSequence,
    /// The portions of a split object carry different IDs.
    InconsistentObjectId,
    /// The portions of a split object carry different versions.
    InconsistentObjectVersion,
    /// The decoded scan lines of an object do not fill its declared
    /// dimensions: the line count must equal the height and each line's
    /// length the width.
    InvalidObjectDimensions,
    /// The bitstream ended inside a multi-byte RLE code.
    IncompleteRleSequence,
    /// The bitstream holds an RLE code outside the format. The four code
    /// families cover every byte pair, so this is never produced; the
    /// variant is kept for completeness of the taxonomy.
    InvalidRleSequence,
    /// The bitstream ended with pixels after the last line terminator.
    IncompleteRleLine,
}

/// A specialized [`Result`](core::result::Result) type for display
/// set-reading operations.
pub type ReadResult<T> = Result<T, ReadError>;

/// A specialized [`Result`](core::result::Result) type for display
/// set-parsing operations.
pub type ParseResult<T> = Result<T, ParseError>;

/// Decodes RLE bytes `s` into scan lines, with `line` the pixels of the
/// open line and `out` the lines already closed.
///
/// The first byte of each code is a literal pixel unless zero; a zero
/// introduces a terminator or one of the run families. The final line must
/// have been closed when the bytes end.
pub open spec fn spec_rle_decode(s: Seq<u8>, line: Seq<u8>, out: Seq<Seq<u8>>) -> Result<
    Seq<Seq<u8>>,
    ParseError,
>
    decreases s.len(),
{
    if s.len() == 0 {
        if line.len() == 0 {
            Ok(out)
        } else {
            Err(ParseError::IncompleteRleLine)
        }
    } else if s[0] != 0 {
        spec_rle_decode(s.skip(1), line.push(s[0]), out)
    } else if s.len() < 2 {
        Err(ParseError::IncompleteRleSequence)
    } else {
        let b2 = s[1];
        if b2 == 0 {
            spec_rle_decode(s.skip(2), Seq::<u8>::empty(), out.push(line))
        } else if b2 / 0x40 == 0 {
            spec_rle_decode(s.skip(2), line + Seq::new((b2 % 0x40) as nat, |_j: int| 0u8), out)
        } else if b2 / 0x40 == 1 {
            if s.len() < 3 {
                Err(ParseError::IncompleteRleSequence)
            } else {
                spec_rle_decode(
                    s.skip(3),
                    line + Seq::new(((b2 % 0x40) * 0x100 + s[2]) as nat, |_j: int| 0u8),
                    out,
                )
            }
        } else if b2 / 0x40 == 2 {
            if s.len() < 3 {
                Err(ParseError::IncompleteRleSequence)
            } else {
                spec_rle_decode(s.skip(3), line + Seq::new((b2 % 0x40) as nat, |_j: int| s[2]), out)
            }
        } else {
            if s.len() < 4 {
                Err(ParseError::IncompleteRleSequence)
            } else {
                spec_rle_decode(
                    s.skip(4),
                    line + Seq::new(((b2 % 0x40) * 0x100 + s[2]) as nat, |_j: int| s[3]),
                    out,
                )
            }
        }
    }
}

/// Appends `count` copies of a byte to a line.
fn push_repeated(line: &mut Vec<u8>, b: u8, count: usize)
    ensures
        final(line)@ == old(line)@ + Seq::new(count as nat, |_j: int| b),
{
    let mut c: usize = 0;
    while c < count
        invariant
            c <= count,
            line@ == old(line)@ + Seq::new(c as nat, |_j: int| b),
        decreases count - c,
    {
        line.push(b);
        c = c + 1;
        proof {
            assert(line@ =~= old(line)@ + Seq::new(c as nat, |_j: int| b));
        }
    }
    proof {
        assert(line@ =~= old(line)@ + Seq::new(count as nat, |_j: int| b));
    }
}

/// Decodes a run-length-compressed object bitmap into scan lines of
/// palette indices, exactly as [`spec_rle_decode`] describes starting from
/// an empty open line.
#[verifier::loop_isolation(false)]
#[verifier::rlimit(100)]
pub fn rle_decompress(input: &Vec<u8>) -> (r: ParseResult<Vec<Vec<u8>>>)
    ensures
        match spec_rle_decode(input@, Seq::<u8>::empty(), Seq::<Seq<u8>>::empty()) {
            Ok(ls) => r matches Ok(out) && spec_lines_view(out@) == ls,
            Err(e) => r == Err::<Vec<Vec<u8>>, ParseError>(e),
        },
{
    let ghost full = input@;
    let mut output: Vec<Vec<u8>> = Vec::new();
    let mut line: Vec<u8> = Vec::new();
    let mut pos: usize = 0;
    proof {
        assert(full.skip(0) =~= full);
        assert(spec_lines_view(output@) =~= Seq::<Seq<u8>>::empty());
        assert(line@ =~= Seq::<u8>::empty());
    }
    while pos < input.len()
        invariant
            pos <= full.len(),
            spec_rle_decode(full, Seq::<u8>::empty(), Seq::<Seq<u8>>::empty()) == spec_rle_decode(
                full.skip(pos as int),
                line@,
                spec_lines_view(output@),
            ),
        decreases full.len() - pos,
    {
        let ghost pos0 = pos as int;
        let ghost s = full.skip(pos0);
        let b1 = input[pos];
        proof {
            assert(s[0] == full[pos0]);
        }
        if b1 != 0 {
            line.push(b1);
            pos = pos + 1;
            proof {
                assert(s.skip(1) =~= full.skip(pos as int));
            }
        } else {
            if input.len() - pos < 2 {
                proof {
                    assert(s.len() < 2);
                }
                return Err(ParseError::IncompleteRleSequence);
            }
            let b2 = input[pos + 1];
            proof {
                assert(s[1] == full[pos0 + 1]);
            }
            if b2 == 0 {
                let ghost closed = line@;
                let ghost ov = spec_lines_view(output@);
                output.push(line);
                line = Vec::new();
                pos = pos + 2;
                proof {
                    assert(s.skip(2) =~= full.skip(pos as int));
                    assert(spec_lines_view(output@) =~= ov.push(closed));
                    assert(line@ =~= Seq::<u8>::empty());
                }
            } else if b2 / 0x40 == 0 {
                push_repeated(&mut line, 0, (b2 % 0x40) as usize);
                pos = pos + 2;
                proof {
                    assert(s.skip(2) =~= full.skip(pos as int));
                    assert(Seq::new(((b2 % 0x40) as usize) as nat, |_j: int| 0u8) =~= Seq::new(
                        (s[1] % 0x40) as nat,
                        |_j: int| 0u8,
                    ));
                }
            } else if b2 / 0x40 == 1 {
                if input.len() - pos < 3 {
                    proof {
                        assert(s.len() < 3);
                    }
                    return Err(ParseError::IncompleteRleSequence);
                }
                let b3 = input[pos + 2];
                proof {
                    assert(s[2] == full[pos0 + 2]);
                }
                let count = (b2 % 0x40) as usize * 0x100 + b3 as usize;
                push_repeated(&mut line, 0, count);
                pos = pos + 3;
                proof {
                    assert(s.skip(3) =~= full.skip(pos as int));
                    assert(Seq::new(count as nat, |_j: int| 0u8) =~= Seq::new(
                        ((s[1] % 0x40) * 0x100 + s[2]) as nat,
                        |_j: int| 0u8,
                    ));
                }
            } else if b2 / 0x40 == 2 {
                if input.len() - pos < 3 {
                    proof {
                        assert(s.len() < 3);
                    }
                    return Err(ParseError::IncompleteRleSequence);
                }
                let b3 = input[pos + 2];
                proof {
                    assert(s[2] == full[pos0 + 2]);
                }
                push_repeated(&mut line, b3, (b2 % 0x40) as usize);
                pos = pos + 3;
                proof {
                    assert(s.skip(3) =~= full.skip(pos as int));
                    assert(Seq::new(((b2 % 0x40) as usize) as nat, |_j: int| b3) =~= Seq::new(
                        (s[1] % 0x40) as nat,
                        |_j: int| s[2],
                    ));
                }
            } else {
                if input.len() - pos < 4 {
                    proof {
                        assert(s.len() < 4);
                    }
                    return Err(ParseError::IncompleteRleSequence);
                }
                let b3 = input[pos + 2];
                let b4 = input[pos + 3];
                proof {
                    assert(s[2] == full[pos0 + 2]);
                    assert(s[3] == full[pos0 + 3]);
                }
                let count = (b2 % 0x40) as usize * 0x100 + b3 as usize;
                push_repeated(&mut line, b4, count);
                pos = pos + 4;
                proof {
                    assert(s.skip(4) =~= full.skip(pos as int));
                    assert(Seq::new(count as nat, |_j: int| b4) =~= Seq::new(
                        ((s[1] % 0x40) * 0x100 + s[2]) as nat,
                        |_j: int| s[3],
                    ));
                }
            }
        }
    }
    proof {
        assert(full.skip(pos as int) =~= Seq::<u8>::empty());
    }
    if line.len() != 0 {
        return Err(ParseError::IncompleteRleLine);
    }
    proof {
        assert(line@ =~= Seq::<u8>::empty());
    }
    Ok(output)
}

/// The reassembly role of the last ODS seen, per the transition table: a
/// single or final portion may be followed only by a single or initial
/// one; an initial or middle portion only by a middle or final one.
#[derive(Clone, Copy, Debug, Eq, PartialEq, Structural)]
pub enum Sequence {
    Single,
    Initial,
    Middle,
    Final,
}

/// An object under reassembly: its identity, its dimensions, and the data
/// gathered from the portions seen so far.
pub struct PendingObject {
    id: u16,
    version: u8,
    width: u16,
    height: u16,
    data: Vec<u8>,
}

/// The mathematical model of an object under reassembly.
pub struct PendingView {
    pub id: u16,
    pub version: u8,
    pub width: u16,
    pub height: u16,
    pub data: Seq<u8>,
}

impl View for PendingObject {
    type V = PendingView;

    closed spec fn view(&self) -> PendingView {
        PendingView {
            id: self.id,
            version: self.version,
            width: self.width,
            height: self.height,
            data: self.data@,
        }
    }
}

/// The assembler's state between segments.
pub struct AssemblyState {
    pub es_seen: bool,
    pub sequence: Sequence,
    pub pending: Option<PendingView>,
    pub windows: Seq<(u8, Window)>,
    pub palettes: Seq<(Vid<u8>, PaletteView)>,
    pub objects: Seq<(Vid<u16>, ObjectView)>,
}

/// The assembler's state before any segment: nothing seen, nothing
/// pending.
pub open spec fn spec_init_state() -> AssemblyState {
    AssemblyState {
        es_seen: false,
        sequence: Sequence::Single,
        pending: None,
        windows: Seq::<(u8, Window)>::empty(),
        palettes: Seq::<(Vid<u8>, PaletteView)>::empty(),
        objects: Seq::<(Vid<u16>, ObjectView)>::empty(),
    }
}

/// Adds the records of a WDS to the window mapping, rejecting an ID that
/// is already present.
pub open spec fn spec_add_windows(ws: Seq<(u8, Window)>, defs: Seq<WindowDefinition>) -> Result<
    Seq<(u8, Window)>,
    ParseError,
>
    decreases defs.len(),
{
    if defs.len() == 0 {
        Ok(ws)
    } else if spec_has_key(ws, defs[0].id) {
        Err(ParseError::DuplicateWindowId)
    } else {
        spec_add_windows(
            spec_put(
                ws,
                defs[0].id,
                Window {
                    x: defs[0].x,
                    y: defs[0].y,
                    width: defs[0].width,
                    height: defs[0].height,
                },
            ),
            defs.skip(1),
        )
    }
}

/// Folds the entries of a PDS into an entry mapping, in order; an entry
/// with a repeated ID overwrites the earlier one.
pub open spec fn spec_entries_fold(
    acc: Seq<(u8, PaletteEntry)>,
    es: Seq<SegPaletteEntry>,
) -> Seq<(u8, PaletteEntry)>
    decreases es.len(),
{
    if es.len() == 0 {
        acc
    } else {
        spec_entries_fold(
            spec_put(
                acc,
                es[0].id,
                PaletteEntry { y: es[0].y, cr: es[0].cr, cb: es[0].cb, alpha: es[0].alpha },
            ),
            es.skip(1),
        )
    }
}

/// Folds the composition-object records of a PCS into the composition
/// mapping, keyed by compound ID, in order; a repeated compound ID
/// overwrites the earlier record.
pub open spec fn spec_cos_fold(
    acc: Seq<(Cid, CompositionObject)>,
    cos: Seq<SegCompositionObject>,
) -> Seq<(Cid, CompositionObject)>
    decreases cos.len(),
{
    if cos.len() == 0 {
        acc
    } else {
        spec_cos_fold(
            spec_put(
                acc,
                Cid { object_id: cos[0].object_id, window_id: cos[0].window_id },
                CompositionObject {
                    x: cos[0].x,
                    y: cos[0].y,
                    forced: cos[0].forced,
                    crop: cos[0].crop,
                },
            ),
            cos.skip(1),
        )
    }
}

/// Whether some palette of the mapping carries a palette ID.
pub open spec fn spec_has_palette_id(pals: Seq<(Vid<u8>, PaletteView)>, id: u8) -> bool {
    exists|i: int| 0 <= i < pals.len() && pals[i].0.id == id
}

/// Builds the display set once every segment has been taken in: the
/// composition-object records become the composition mapping, and a
/// palette update must name a palette that is present.
pub open spec fn spec_finish(pcs: PcsView, st: AssemblyState) -> Result<
    DisplaySetView,
    ParseError,
> {
    if pcs.palette_update_id is Some && !spec_has_palette_id(
        st.palettes,
        pcs.palette_update_id->0,
    ) {
        Err(ParseError::PaletteUpdateReferencesUnknownPaletteId)
    } else {
        Ok(
            DisplaySetView {
                pts: pcs.pts,
                dts: pcs.dts,
                width: pcs.width,
                height: pcs.height,
                frame_rate: pcs.frame_rate,
                palette_update_id: pcs.palette_update_id,
                windows: st.windows,
                palettes: st.palettes,
                objects: st.objects,
                composition: crate::displayset::CompositionView {
                    number: pcs.composition_number,
                    state: pcs.composition_state,
                    objects: spec_cos_fold(
                        Seq::<(Cid, CompositionObject)>::empty(),
                        pcs.composition_objects,
                    ),
                },
            },
        )
    }
}

/// Takes in the remaining segments one at a time: timestamps must match
/// the PCS, identifiers must not collide, and object portions must follow
/// the reassembly transition table.
pub open spec fn spec_assemble(
    pcs: PcsView,
    segs: Seq<SegmentView>,
    st: AssemblyState,
) -> Result<DisplaySetView, ParseError>
    decreases segs.len(),
{
    if segs.len() == 0 {
        if !st.es_seen {
            Err(ParseError::MissingEndSegment)
        } else {
            spec_finish(pcs, st)
        }
    } else if st.es_seen {
        Err(ParseError::SegmentAfterEnd)
    } else {
        let rest = segs.skip(1);
        match segs[0] {
            SegmentView::PresentationComposition(_) => Err(
                ParseError::UnexpectedPresentationCompositionSegment,
            ),
            SegmentView::WindowDefinition(w) => {
                if w.pts != pcs.pts {
                    Err(ParseError::InconsistentPts)
                } else if w.dts != pcs.dts {
                    Err(ParseError::InconsistentDts)
                } else {
                    match spec_add_windows(st.windows, w.windows) {
                        Ok(ws) => spec_assemble(
                            pcs,
                            rest,
                            AssemblyState {
                                es_seen: st.es_seen,
                                sequence: st.sequence,
                                pending: st.pending,
                                windows: ws,
                                palettes: st.palettes,
                                objects: st.objects,
                            },
                        ),
                        Err(e) => Err(e),
                    }
                }
            },
            SegmentView::PaletteDefinition(p) => {
                if p.pts != pcs.pts {
                    Err(ParseError::InconsistentPts)
                } else if p.dts != pcs.dts {
                    Err(ParseError::InconsistentDts)
                } else {
                    let vid = Vid { id: p.id, version: p.version };
                    if spec_has_key(st.palettes, vid) {
                        Err(ParseError::DuplicatePaletteVid)
                    } else {
                        spec_assemble(
                            pcs,
                            rest,
                            AssemblyState {
                                es_seen: st.es_seen,
                                sequence: st.sequence,
                                pending: st.pending,
                                windows: st.windows,
                                palettes: spec_put(
                                    st.palettes,
                                    vid,
                                    PaletteView {
                                        entries: spec_entries_fold(
                                            Seq::<(u8, PaletteEntry)>::empty(),
                                            p.entries,
                                        ),
                                    },
                                ),
                                objects: st.objects,
                            },
                        )
                    }
                }
            },
            SegmentView::SingleObjectDefinition(x) => {
                if !(st.sequence == Sequence::Single || st.sequence == Sequence::Final) {
                    Err(ParseError::InvalidObjectSequence)
                } else if x.pts != pcs.pts {
                    Err(ParseError::InconsistentPts)
                } else if x.dts != pcs.dts {
                    Err(ParseError::InconsistentDts)
                } else {
                    let vid = Vid { id: x.id, version: x.version };
                    if spec_has_key(st.objects, vid) {
                        Err(ParseError::DuplicateObjectVid)
                    } else {
                        match spec_rle_decode(x.data, Seq::<u8>::empty(), Seq::<Seq<u8>>::empty()) {
                            Ok(lines) => {
                                if !spec_object_dims_ok(x.width, x.height, lines) {
                                    Err(ParseError::InvalidObjectDimensions)
                                } else {
                                    spec_assemble(
                                        pcs,
                                        rest,
                                        AssemblyState {
                                            es_seen: st.es_seen,
                                            sequence: Sequence::Single,
                                            pending: st.pending,
                                            windows: st.windows,
                                            palettes: st.palettes,
                                            objects: spec_put(
                                                st.objects,
                                                vid,
                                                ObjectView {
                                                    width: x.width,
                                                    height: x.height,
                                                    lines,
                                                },
                                            ),
                                        },
                                    )
                                }
                            },
                            Err(e) => Err(e),
                        }
                    }
                }
            },
            SegmentView::InitialObjectDefinition(x) => {
                if !(st.sequence == Sequence::Single || st.sequence == Sequence::Final) {
                    Err(ParseError::InvalidObjectSequence)
                } else if x.pts != pcs.pts {
                    Err(ParseError::InconsistentPts)
                } else if x.dts != pcs.dts {
                    Err(ParseError::InconsistentDts)
                } else {
                    let vid = Vid { id: x.id, version: x.version };
                    if spec_has_key(st.objects, vid) {
                        Err(ParseError::DuplicateObjectVid)
                    } else {
                        spec_assemble(
                            pcs,
                            rest,
                            AssemblyState {
                                es_seen: st.es_seen,
                                sequence: Sequence::Initial,
                                pending: Some(
                                    PendingView {
                                        id: x.id,
                                        version: x.version,
                                        width: x.width,
                                        height: x.height,
                                        data: x.data,
                                    },
                                ),
                                windows: st.windows,
                                palettes: st.palettes,
                                objects: st.objects,
                            },
                        )
                    }
                }
            },
            SegmentView::MiddleObjectDefinition(x) => {
                if !(st.sequence == Sequence::Initial || st.sequence == Sequence::Middle) {
                    Err(ParseError::InvalidObjectSequence)
                } else {
                    match st.pending {
                        Some(p) => {
                            if x.pts != pcs.pts {
                                Err(ParseError::InconsistentPts)
                            } else if x.dts != pcs.dts {
                                Err(ParseError::InconsistentDts)
                            } else if x.id != p.id {
                                Err(ParseError::InconsistentObjectId)
                            } else if x.version != p.version {
                                Err(ParseError::InconsistentObjectVersion)
                            } else {
                                spec_assemble(
                                    pcs,
                                    rest,
                                    AssemblyState {
                                        es_seen: st.es_seen,
                                        sequence: Sequence::Middle,
                                        pending: Some(
                                            PendingView {
                                                id: p.id,
                                                version: p.version,
                                                width: p.width,
                                                height: p.height,
                                                data: p.data + x.data,
                                            },
                                        ),
                                        windows: st.windows,
                                        palettes: st.palettes,
                                        objects: st.objects,
                                    },
                                )
                            }
                        },
                        None => Err(ParseError::InvalidObjectSequence),
                    }
                }
            },
            SegmentView::FinalObjectDefinition(x) => {
                if !(st.sequence == Sequence::Initial || st.sequence == Sequence::Middle) {
                    Err(ParseError::InvalidObjectSequence)
                } else {
                    match st.pending {
                        Some(p) => {
                            if x.pts != pcs.pts {
                                Err(ParseError::InconsistentPts)
                            } else if x.dts != pcs.dts {
                                Err(ParseError::InconsistentDts)
                            } else if x.id != p.id {
                                Err(ParseError::InconsistentObjectId)
                            } else if x.version != p.version {
                                Err(ParseError::InconsistentObjectVersion)
                            } else {
                                match spec_rle_decode(
                                    p.data + x.data,
                                    Seq::<u8>::empty(),
                                    Seq::<Seq<u8>>::empty(),
                                ) {
                                    Ok(lines) => {
                                        if !spec_object_dims_ok(p.width, p.height, lines) {
                                            Err(ParseError::InvalidObjectDimensions)
                                        } else {
                                            spec_assemble(
                                                pcs,
                                                rest,
                                                AssemblyState {
                                                    es_seen: st.es_seen,
                                                    sequence: Sequence::Final,
                                                    pending: None,
                                                    windows: st.windows,
                                                    palettes: st.palettes,
                                                    objects: spec_put(
                                                        st.objects,
                                                        Vid { id: p.id, version: p.version },
                                                        ObjectView {
                                                            width: p.width,
                                                            height: p.height,
                                                            lines,
                                                        },
                                                    ),
                                                },
                                            )
                                        }
                                    },
                                    Err(e) => Err(e),
                                }
                            }
                        },
                        None => Err(ParseError::InvalidObjectSequence),
                    }
                }
            },
            SegmentView::End(es) => {
                if !(st.sequence == Sequence::Single || st.sequence == Sequence::Final) {
                    Err(ParseError::IncompleteObjectSequence)
                } else if es.pts != pcs.pts {
                    Err(ParseError::InconsistentPts)
                } else if es.dts != pcs.dts {
                    Err(ParseError::InconsistentDts)
                } else {
                    spec_assemble(
                        pcs,
                        rest,
                        AssemblyState {
                            es_seen: true,
                            sequence: st.sequence,
                            pending: st.pending,
                            windows: st.windows,
                            palettes: st.palettes,
                            objects: st.objects,
                        },
                    )
                }
            },
        }
    }
}

/// Parses a collected run of segments into a display set: the PCS first,
/// then [`spec_assemble`] over the rest.
pub open spec fn spec_try_from(segs: Seq<SegmentView>) -> Result<DisplaySetView, ParseError> {
    if segs.len() == 0 {
        Err(ParseError::NoSegments)
    } else {
        match segs[0] {
            SegmentView::PresentationComposition(pcs) => spec_assemble(
                pcs,
                segs.skip(1),
                spec_init_state(),
            ),
            _ => Err(ParseError::MissingPresentationCompositionSegment),
        }
    }
}

/// The pair sequence a palette mapping models.
pub open spec fn spec_palettes_view(s: Seq<(Vid<u8>, Palette)>) -> Seq<(Vid<u8>, PaletteView)> {
    s.map_values(|p: (Vid<u8>, Palette)| (p.0, p.1@))
}

/// The pair sequence an object mapping models.
pub open spec fn spec_objects_map_view(s: Seq<(Vid<u16>, Object)>) -> Seq<(Vid<u16>, ObjectView)> {
    s.map_values(|p: (Vid<u16>, Object)| (p.0, p.1@))
}

/// Putting a palette and then taking the model is taking the model and
/// then putting the palette's model.
proof fn lemma_put_palettes_view(s: Seq<(Vid<u8>, Palette)>, k: Vid<u8>, v: Palette)
    ensures
        spec_palettes_view(spec_put(s, k, v)) == spec_put(spec_palettes_view(s), k, v@),
    decreases s.len(),
{
    if s.len() == 0 {
        assert(spec_palettes_view(spec_put(s, k, v)) =~= spec_put(spec_palettes_view(s), k, v@));
    } else {
        assert(spec_palettes_view(s)[0] == (s[0].0, s[0].1@));
        if k.key() < s[0].0.key() {
            assert(spec_palettes_view(seq![(k, v)] + s) =~= seq![(k, v@)] + spec_palettes_view(s));
        } else if k.key() == s[0].0.key() {
            assert(spec_palettes_view(seq![(k, v)] + s.skip(1)) =~= seq![(k, v@)]
                + spec_palettes_view(s).skip(1));
        } else {
            lemma_put_palettes_view(s.skip(1), k, v);
            assert(spec_palettes_view(s.skip(1)) =~= spec_palettes_view(s).skip(1));
            assert(spec_palettes_view(seq![s[0]] + spec_put(s.skip(1), k, v)) =~= seq![
                (s[0].0, s[0].1@),
            ] + spec_palettes_view(spec_put(s.skip(1), k, v)));
            assert(spec_put(spec_palettes_view(s), k, v@) =~= seq![(s[0].0, s[0].1@)] + spec_put(
                spec_palettes_view(s).skip(1),
                k,
                v@,
            ));
        }
    }
}

/// Putting an object and then taking the model is taking the model and
/// then putting the object's model.
proof fn lemma_put_objects_view(s: Seq<(Vid<u16>, Object)>, k: Vid<u16>, v: Object)
    ensures
        spec_objects_map_view(spec_put(s, k, v)) == spec_put(spec_objects_map_view(s), k, v@),
    decreases s.len(),
{
    if s.len() == 0 {
        assert(spec_objects_map_view(spec_put(s, k, v)) =~= spec_put(
            spec_objects_map_view(s),
            k,
            v@,
        ));
    } else {
        assert(spec_objects_map_view(s)[0] == (s[0].0, s[0].1@));
        if k.key() < s[0].0.key() {
            assert(spec_objects_map_view(seq![(k, v)] + s) =~= seq![(k, v@)]
                + spec_objects_map_view(s));
        } else if k.key() == s[0].0.key() {
            assert(spec_objects_map_view(seq![(k, v)] + s.skip(1)) =~= seq![(k, v@)]
                + spec_objects_map_view(s).skip(1));
        } else {
            lemma_put_objects_view(s.skip(1), k, v);
            assert(spec_objects_map_view(s.skip(1)) =~= spec_objects_map_view(s).skip(1));
            assert(spec_objects_map_view(seq![s[0]] + spec_put(s.skip(1), k, v)) =~= seq![
                (s[0].0, s[0].1@),
            ] + spec_objects_map_view(spec_put(s.skip(1), k, v)));
            assert(spec_put(spec_objects_map_view(s), k, v@) =~= seq![(s[0].0, s[0].1@)]
                + spec_put(spec_objects_map_view(s).skip(1), k, v@));
        }
    }
}

/// A key of a palette mapping has the same integer image in the model.
proof fn lemma_palettes_view_keys(s: Seq<(Vid<u8>, Palette)>, k: Vid<u8>)
    ensures
        spec_has_key(spec_palettes_view(s), k) <==> spec_has_key(s, k),
{
    if spec_has_key(spec_palettes_view(s), k) {
        let i = choose|i: int|
            0 <= i < spec_palettes_view(s).len() && spec_palettes_view(s)[i].0.key() == k.key();
        assert(s[i].0.key() == k.key());
    }
    if spec_has_key(s, k) {
        let i = choose|i: int| 0 <= i < s.len() && s[i].0.key() == k.key();
        assert(spec_palettes_view(s)[i].0.key() == k.key());
    }
}

/// A key of an object mapping has the same integer image in the model.
proof fn lemma_objects_view_keys(s: Seq<(Vid<u16>, Object)>, k: Vid<u16>)
    ensures
        spec_has_key(spec_objects_map_view(s), k) <==> spec_has_key(s, k),
{
    if spec_has_key(spec_objects_map_view(s), k) {
        let i = choose|i: int|
            0 <= i < spec_objects_map_view(s).len() && spec_objects_map_view(s)[i].0.key()
                == k.key();
        assert(s[i].0.key() == k.key());
    }
    if spec_has_key(s, k) {
        let i = choose|i: int| 0 <= i < s.len() && s[i].0.key() == k.key();
        assert(spec_objects_map_view(s)[i].0.key() == k.key());
    }
}

/// Adds the records of a WDS to the window mapping, as
/// [`spec_add_windows`] describes.
#[verifier::loop_isolation(false)]
fn add_windows(windows: &mut SortedMap<u8, Window>, defs: &Vec<WindowDefinition>) -> (r:
    ParseResult<()>)
    requires
        old(windows).wf(),
    ensures
        final(windows).wf(),
        match spec_add_windows(old(windows)@, defs@) {
            Ok(ws) => r == Ok::<(), ParseError>(()) && final(windows)@ == ws,
            Err(e) => r == Err::<(), ParseError>(e),
        },
{
    let ghost origin = windows@;
    proof {
        assert(defs@.skip(0) =~= defs@);
    }
    let mut wi: usize = 0;
    while wi < defs.len()
        invariant
            wi <= defs@.len(),
            windows.wf(),
            spec_add_windows(origin, defs@) == spec_add_windows(windows@, defs@.skip(wi as int)),
        decreases defs@.len() - wi,
    {
        let ghost wi0 = wi as int;
        let wd = &defs[wi];
        proof {
            assert(defs@.skip(wi0)[0] == defs@[wi0]);
            assert(defs@.skip(wi0).skip(1) =~= defs@.skip(wi0 + 1));
        }
        if windows.contains_key(&wd.id) {
            proof {
                assert(spec_has_key(windows@, defs@.skip(wi0)[0].id));
                assert(spec_add_windows(windows@, defs@.skip(wi0)) == Err::<
                    Seq<(u8, Window)>,
                    ParseError,
                >(ParseError::DuplicateWindowId));
            }
            return Err(ParseError::DuplicateWindowId);
        }
        windows.insert(wd.id, Window { x: wd.x, y: wd.y, width: wd.width, height: wd.height });
        wi = wi + 1;
    }
    proof {
        assert(defs@.skip(defs@.len() as int) =~= Seq::<WindowDefinition>::empty());
    }
    Ok(())
}

/// Folds the entries of a PDS into a fresh entry mapping, as
/// [`spec_entries_fold`] describes.
fn build_entries(entries: &Vec<SegPaletteEntry>) -> (r: SortedMap<u8, PaletteEntry>)
    ensures
        r.wf(),
        r@ == spec_entries_fold(Seq::<(u8, PaletteEntry)>::empty(), entries@),
{
    let mut m: SortedMap<u8, PaletteEntry> = SortedMap::new();
    proof {
        assert(entries@.skip(0) =~= entries@);
    }
    let mut ei: usize = 0;
    while ei < entries.len()
        invariant
            ei <= entries@.len(),
            m.wf(),
            spec_entries_fold(Seq::<(u8, PaletteEntry)>::empty(), entries@) == spec_entries_fold(
                m@,
                entries@.skip(ei as int),
            ),
        decreases entries@.len() - ei,
    {
        let ghost ei0 = ei as int;
        let e = &entries[ei];
        proof {
            assert(entries@.skip(ei0)[0] == entries@[ei0]);
            assert(entries@.skip(ei0).skip(1) =~= entries@.skip(ei0 + 1));
        }
        m.insert(e.id, PaletteEntry { y: e.y, cr: e.cr, cb: e.cb, alpha: e.alpha });
        ei = ei + 1;
    }
    proof {
        assert(entries@.skip(entries@.len() as int) =~= Seq::<SegPaletteEntry>::empty());
    }
    m
}

/// Folds the composition-object records of a PCS into a fresh composition
/// mapping, as [`spec_cos_fold`] describes.
fn build_cos_map(cos: &Vec<SegCompositionObject>) -> (r: SortedMap<Cid, CompositionObject>)
    ensures
        r.wf(),
        r@ == spec_cos_fold(Seq::<(Cid, CompositionObject)>::empty(), cos@),
{
    let mut m: SortedMap<Cid, CompositionObject> = SortedMap::new();
    proof {
        assert(cos@.skip(0) =~= cos@);
    }
    let mut ci: usize = 0;
    while ci < cos.len()
        invariant
            ci <= cos@.len(),
            m.wf(),
            spec_cos_fold(Seq::<(Cid, CompositionObject)>::empty(), cos@) == spec_cos_fold(
                m@,
                cos@.skip(ci as int),
            ),
        decreases cos@.len() - ci,
    {
        let ghost ci0 = ci as int;
        let co = &cos[ci];
        proof {
            assert(cos@.skip(ci0)[0] == cos@[ci0]);
            assert(cos@.skip(ci0).skip(1) =~= cos@.skip(ci0 + 1));
        }
        let crop = match &co.crop {
            Some(c) => Some(
                crate::segment::Crop { x: c.x, y: c.y, width: c.width, height: c.height },
            ),
            None => None,
        };
        m.insert(
            Cid { object_id: co.object_id, window_id: co.window_id },
            CompositionObject { x: co.x, y: co.y, forced: co.forced, crop },
        );
        ci = ci + 1;
    }
    proof {
        assert(cos@.skip(cos@.len() as int) =~= Seq::<SegCompositionObject>::empty());
    }
    m
}

/// Whether decoded scan lines fill declared dimensions, as
/// [`spec_object_dims_ok`] defines.
fn object_dims_ok(width: u16, height: u16, lines: &Vec<Vec<u8>>) -> (r: bool)
    ensures
        r == spec_object_dims_ok(width, height, spec_lines_view(lines@)),
{
    if lines.len() != height as usize {
        proof {
            assert(spec_lines_view(lines@).len() == lines@.len());
        }
        return false;
    }
    let mut i: usize = 0;
    while i < lines.len()
        invariant
            i <= lines@.len(),
            forall|j: int| 0 <= j < i ==> (#[trigger] spec_lines_view(lines@)[j]).len() == width,
        decreases lines@.len() - i,
    {
        if lines[i].len() != width as usize {
            proof {
                assert(spec_lines_view(lines@)[i as int].len() == lines@[i as int]@.len());
            }
            return false;
        }
        proof {
            assert(spec_lines_view(lines@)[i as int].len() == lines@[i as int]@.len());
        }
        i = i + 1;
    }
    true
}

/// The assembler state the executable locals model.
pub open spec fn exec_state_view(
    es_seen: bool,
    sequence: Sequence,
    pending: Option<PendingObject>,
    windows: SortedMap<u8, Window>,
    palettes: SortedMap<Vid<u8>, Palette>,
    objects: SortedMap<Vid<u16>, Object>,
) -> AssemblyState {
    AssemblyState {
        es_seen,
        sequence,
        pending: match pending {
            Some(p) => Some(p@),
            None => None,
        },
        windows: windows@,
        palettes: spec_palettes_view(palettes@),
        objects: spec_objects_map_view(objects@),
    }
}

impl DisplaySet {
    /// Parses a collected run of segments into a display set, as
    /// [`spec_try_from`] describes: a PCS first, consistent timestamps
    /// throughout, no colliding identifiers, object portions following the
    /// reassembly transition table, and an end segment last.
    #[verifier::loop_isolation(false)]
    #[verifier::rlimit(100)]
    pub fn try_from(segments: &Vec<Segment>) -> (r: ParseResult<DisplaySet>)
        ensures
            match spec_try_from(crate::displaysetwrite::spec_segments_view(segments@)) {
                Ok(dv) => (r matches Ok(ds) && ds@ == dv && ds.wf()),
                Err(e) => r == Err::<DisplaySet, ParseError>(e),
            },
    {
        let ghost ms = crate::displaysetwrite::spec_segments_view(segments@);
        if segments.len() == 0 {
            return Err(ParseError::NoSegments);
        }
        let pcs = match &segments[0] {
            Segment::PresentationComposition(p) => p,
            _ => {
                return Err(ParseError::MissingPresentationCompositionSegment);
            },
        };
        let ghost pcsv = pcs@;
        proof {
            assert(ms[0] == segments@[0]@);
        }
        let mut windows: SortedMap<u8, Window> = SortedMap::new();
        let mut palettes: SortedMap<Vid<u8>, Palette> = SortedMap::new();
        let mut objects: SortedMap<Vid<u16>, Object> = SortedMap::new();
        let mut sequence: Sequence = Sequence::Single;
        let mut pending: Option<PendingObject> = None;
        let mut es_seen: bool = false;
        proof {
            assert(spec_palettes_view(palettes@) =~= Seq::<(Vid<u8>, PaletteView)>::empty());
            assert(spec_objects_map_view(objects@) =~= Seq::<(Vid<u16>, ObjectView)>::empty());
            assert(exec_state_view(es_seen, sequence, pending, windows, palettes, objects)
                == spec_init_state());
        }
        let mut k: usize = 1;
        while k < segments.len()
            invariant
                1 <= k <= ms.len(),
                windows.wf(),
                palettes.wf(),
                objects.wf(),
                forall|i: int|
                    0 <= i < palettes@.len() ==> spec_sorted(
                        (#[trigger] palettes@[i]).1.entries@,
                    ),
                spec_try_from(ms) == spec_assemble(
                    pcsv,
                    ms.skip(k as int),
                    exec_state_view(es_seen, sequence, pending, windows, palettes, objects),
                ),
            decreases ms.len() - k,
        {
            let ghost k0 = k as int;
            let ghost st = exec_state_view(es_seen, sequence, pending, windows, palettes, objects);
            let ghost rest = ms.skip(k0);
            proof {
                assert(rest[0] == ms[k0]);
                assert(ms[k0] == segments@[k0]@);
                assert(rest.skip(1) =~= ms.skip(k0 + 1));
            }
            if es_seen {
                return Err(ParseError::SegmentAfterEnd);
            }
            match &segments[k] {
                Segment::PresentationComposition(_) => {
                    return Err(ParseError::UnexpectedPresentationCompositionSegment);
                },
                Segment::WindowDefinition(wds) => {
                    if wds.pts != pcs.pts {
                        return Err(ParseError::InconsistentPts);
                    }
                    if wds.dts != pcs.dts {
                        return Err(ParseError::InconsistentDts);
                    }
                    match add_windows(&mut windows, &wds.windows) {
                        Ok(()) => {},
                        Err(e) => {
                            return Err(e);
                        },
                    }
                },
                Segment::PaletteDefinition(pds) => {
                    if pds.pts != pcs.pts {
                        return Err(ParseError::InconsistentPts);
                    }
                    if pds.dts != pcs.dts {
                        return Err(ParseError::InconsistentDts);
                    }
                    let vid = Vid { id: pds.id, version: pds.version };
                    proof {
                        lemma_palettes_view_keys(palettes@, vid);
                    }
                    if palettes.contains_key(&vid) {
                        return Err(ParseError::DuplicatePaletteVid);
                    }
                    let entries = build_entries(&pds.entries);
                    let ghost before = palettes@;
                    let palette = Palette { entries };
                    proof {
                        lemma_put_palettes_view(before, vid, palette);
                        crate::displayset::lemma_put_values(before, vid, palette);
                    }
                    palettes.insert(vid, palette);
                    proof {
                        assert forall|i: int| 0 <= i < palettes@.len() implies spec_sorted(
                            (#[trigger] palettes@[i]).1.entries@,
                        ) by {
                            if palettes@[i] != (vid, palette) {
                                assert(before.contains(palettes@[i]));
                                let j = choose|j: int|
                                    0 <= j < before.len() && before[j] == palettes@[i];
                                assert(spec_sorted(before[j].1.entries@));
                            }
                        }
                    }
                },
                Segment::SingleObjectDefinition(sods) => {
                    if !(sequence == Sequence::Single || sequence == Sequence::Final) {
                        return Err(ParseError::InvalidObjectSequence);
                    }
                    if sods.pts != pcs.pts {
                        return Err(ParseError::InconsistentPts);
                    }
                    if sods.dts != pcs.dts {
                        return Err(ParseError::InconsistentDts);
                    }
                    let vid = Vid { id: sods.id, version: sods.version };
                    proof {
                        lemma_objects_view_keys(objects@, vid);
                    }
                    if objects.contains_key(&vid) {
                        return Err(ParseError::DuplicateObjectVid);
                    }
                    let lines = match rle_decompress(&sods.data) {
                        Ok(lines) => lines,
                        Err(e) => {
                            return Err(e);
                        },
                    };
                    if !object_dims_ok(sods.width, sods.height, &lines) {
                        return Err(ParseError::InvalidObjectDimensions);
                    }
                    let ghost before = objects@;
                    let object = Object { width: sods.width, height: sods.height, lines };
                    proof {
                        lemma_put_objects_view(before, vid, object);
                    }
                    objects.insert(vid, object);
                    sequence = Sequence::Single;
                },
                Segment::InitialObjectDefinition(iods) => {
                    if !(sequence == Sequence::Single || sequence == Sequence::Final) {
                        return Err(ParseError::InvalidObjectSequence);
                    }
                    if iods.pts != pcs.pts {
                        return Err(ParseError::InconsistentPts);
                    }
                    if iods.dts != pcs.dts {
                        return Err(ParseError::InconsistentDts);
                    }
                    let vid = Vid { id: iods.id, version: iods.version };
                    proof {
                        lemma_objects_view_keys(objects@, vid);
                    }
                    if objects.contains_key(&vid) {
                        return Err(ParseError::DuplicateObjectVid);
                    }
                    let data = copy_range(&iods.data, 0, iods.data.len());
                    proof {
                        assert(data@ =~= iods.data@);
                    }
                    pending = Some(
                        PendingObject {
                            id: iods.id,
                            version: iods.version,
                            width: iods.width,
                            height: iods.height,
                            data,
                        },
                    );
                    sequence = Sequence::Initial;
                },
                Segment::MiddleObjectDefinition(mods) => {
                    if !(sequence == Sequence::Initial || sequence == Sequence::Middle) {
                        return Err(ParseError::InvalidObjectSequence);
                    }
                    match pending {
                        Some(mut p) => {
                            if mods.pts != pcs.pts {
                                return Err(ParseError::InconsistentPts);
                            }
                            if mods.dts != pcs.dts {
                                return Err(ParseError::InconsistentDts);
                            }
                            if mods.id != p.id {
                                return Err(ParseError::InconsistentObjectId);
                            }
                            if mods.version != p.version {
                                return Err(ParseError::InconsistentObjectVersion);
                            }
                            put_bytes(&mut p.data, &mods.data);
                            pending = Some(p);
                            sequence = Sequence::Middle;
                        },
                        None => {
                            return Err(ParseError::InvalidObjectSequence);
                        },
                    }
                },
                Segment::FinalObjectDefinition(fods) => {
                    if !(sequence == Sequence::Initial || sequence == Sequence::Middle) {
                        return Err(ParseError::InvalidObjectSequence);
                    }
                    match pending {
                        Some(p) => {
                            if fods.pts != pcs.pts {
                                return Err(ParseError::InconsistentPts);
                            }
                            if fods.dts != pcs.dts {
                                return Err(ParseError::InconsistentDts);
                            }
                            if fods.id != p.id {
                                return Err(ParseError::InconsistentObjectId);
                            }
                            if fods.version != p.version {
                                return Err(ParseError::InconsistentObjectVersion);
                            }
                            let mut data = p.data;
                            put_bytes(&mut data, &fods.data);
                            let lines = match rle_decompress(&data) {
                                Ok(lines) => lines,
                                Err(e) => {
                                    return Err(e);
                                },
                            };
                            if !object_dims_ok(p.width, p.height, &lines) {
                                return Err(ParseError::InvalidObjectDimensions);
                            }
                            let vid = Vid { id: p.id, version: p.version };
                            let ghost before = objects@;
                            let object = Object { width: p.width, height: p.height, lines };
                            proof {
                                lemma_put_objects_view(before, vid, object);
                            }
                            objects.insert(vid, object);
                            pending = None;
                            sequence = Sequence::Final;
                        },
                        None => {
                            return Err(ParseError::InvalidObjectSequence);
                        },
                    }
                },
                Segment::End(es) => {
                    if !(sequence == Sequence::Single || sequence == Sequence::Final) {
                        return Err(ParseError::IncompleteObjectSequence);
                    }
                    if es.pts != pcs.pts {
                        return Err(ParseError::InconsistentPts);
                    }
                    if es.dts != pcs.dts {
                        return Err(ParseError::InconsistentDts);
                    }
                    es_seen = true;
                },
            }
            k = k + 1;
        }
        proof {
            assert(ms.skip(ms.len() as int) =~= Seq::<SegmentView>::empty());
        }
        if !es_seen {
            return Err(ParseError::MissingEndSegment);
        }
        let ghost st_end = exec_state_view(es_seen, sequence, pending, windows, palettes, objects);
        match pcs.palette_update_id {
            Some(id) => {
                if !has_palette_id(&palettes, id) {
                    return Err(ParseError::PaletteUpdateReferencesUnknownPaletteId);
                }
            },
            None => {},
        }
        let composition_objects = build_cos_map(&pcs.composition_objects);
        let ds = DisplaySet {
            pts: pcs.pts,
            dts: pcs.dts,
            width: pcs.width,
            height: pcs.height,
            frame_rate: pcs.frame_rate,
            palette_update_id: pcs.palette_update_id,
            windows,
            palettes,
            objects,
            composition: crate::displayset::Composition {
                number: pcs.composition_number,
                state: pcs.composition_state,
                objects: composition_objects,
            },
        };
        proof {
            assert(ds@ == spec_finish(pcsv, st_end)->Ok_0);
        }
        Ok(ds)
    }
}

/// Collects segments from position `pos` of stream `s` into the run `acc`
/// until an end segment arrives, then parses the run: another PCS is
/// rejected, a segment error surfaces with the exact bytes consumed.
pub open spec fn spec_collect(rem: Seq<u8>, consumed: int, acc: Seq<SegmentView>) -> Result<
    (DisplaySetView, int),
    (ReadError, int),
>
    decreases rem.len(),
    via spec_collect_decreases
{
    match spec_read_segment(rem) {
        Err((e, n)) => Err((ReadError::ReadError { source: e }, consumed + n)),
        Ok((m, n)) => match m {
            SegmentView::PresentationComposition(_) => Err(
                (
                    ReadError::ParseError {
                        source: ParseError::UnexpectedPresentationCompositionSegment,
                    },
                    consumed + n,
                ),
            ),
            SegmentView::End(_) => match spec_try_from(acc.push(m)) {
                Ok(dv) => Ok((dv, consumed + n)),
                Err(pe) => Err((ReadError::ParseError { source: pe }, consumed + n)),
            },
            _ => spec_collect(rem.skip(n), consumed + n, acc.push(m)),
        },
    }
}

#[via_fn]
proof fn spec_collect_decreases(rem: Seq<u8>, consumed: int, acc: Seq<SegmentView>) {
    crate::segmentread::lemma_read_segment_consumed(rem);
}

/// Reads one display set from the front of a stream: a PCS first, then
/// [`spec_collect`] until the end segment. An error before the first
/// segment's magic surfaces with nothing consumed: the clean end of the
/// stream.
pub open spec fn spec_read_display_set(s: Seq<u8>) -> Result<(DisplaySetView, int), (
    ReadError,
    int,
)> {
    match spec_read_segment(s) {
        Err((e, n)) => Err((ReadError::ReadError { source: e }, n)),
        Ok((m, n)) => match m {
            SegmentView::PresentationComposition(_) => spec_collect(s.skip(n), n, seq![m]),
            _ => Err(
                (
                    ReadError::ParseError {
                        source: ParseError::MissingPresentationCompositionSegment,
                    },
                    n,
                ),
            ),
        },
    }
}

/// Allows reading display sets from a byte source.
pub trait ReadDisplaySetExt: ReadSegmentExt {
    /// Reads the next display set from the source, as
    /// [`spec_read_display_set`] describes. An `UnexpectedEof` read error
    /// with nothing consumed is the clean end of the stream.
    fn read_display_set(&mut self) -> (r: ReadResult<DisplaySet>)
        requires
            old(self).source_ok(),
        ensures
            final(self).source_ok(),
            match spec_read_display_set(old(self).source()) {
                Ok((dv, n)) => (r matches Ok(ds) && ds@ == dv && ds.wf()) && final(self).source()
                    == old(self).source().skip(n),
                Err((e, n)) => r == Err::<DisplaySet, ReadError>(e) && final(self).source() == old(
                    self,
                ).source().skip(n),
            },
    ;
}

impl ReadDisplaySetExt for ByteSource {
    #[verifier::loop_isolation(false)]
    #[verifier::rlimit(100)]
    fn read_display_set(&mut self) -> (r: ReadResult<DisplaySet>) {
        let ghost s0 = self.remaining();
        let first = match self.read_segment() {
            Ok(seg) => seg,
            Err(e) => {
                return Err(ReadError::ReadError { source: e });
            },
        };
        match &first {
            Segment::PresentationComposition(_) => {},
            _ => {
                return Err(
                    ReadError::ParseError {
                        source: ParseError::MissingPresentationCompositionSegment,
                    },
                );
            },
        }
        let ghost mut pos: int = spec_read_segment(s0)->Ok_0.1;
        let mut segments: Vec<Segment> = Vec::new();
        segments.push(first);
        proof {
            assert(crate::displaysetwrite::spec_segments_view(segments@) =~= seq![
                spec_read_segment(s0)->Ok_0.0,
            ]);
        }
        let mut done: bool = false;
        while !done
            invariant
                self.wf(),
                0 <= pos <= s0.len(),
                self.remaining() == s0.skip(pos),
                !done ==> spec_read_display_set(s0) == spec_collect(
                    s0.skip(pos),
                    pos,
                    crate::displaysetwrite::spec_segments_view(segments@),
                ),
                done ==> spec_read_display_set(s0) == (match spec_try_from(
                    crate::displaysetwrite::spec_segments_view(segments@),
                ) {
                    Ok(dv) => Ok::<(DisplaySetView, int), (ReadError, int)>((dv, pos)),
                    Err(pe) => Err::<(DisplaySetView, int), (ReadError, int)>(
                        (ReadError::ParseError { source: pe }, pos),
                    ),
                }),
            decreases s0.len() - pos + (if done {
                0int
            } else {
                1int
            }),
        {
            let ghost posb = pos;
            let ghost rem = s0.skip(posb);
            let ghost acc = crate::displaysetwrite::spec_segments_view(segments@);
            proof {
                crate::segmentread::lemma_read_segment_consumed(rem);
            }
            let outcome = self.read_segment();
            match outcome {
                Err(e) => {
                    proof {
                        if let Err((_e2, n)) = spec_read_segment(rem) {
                            assert(rem.skip(n) =~= s0.skip(posb + n));
                        }
                    }
                    return Err(ReadError::ReadError { source: e });
                },
                Ok(seg) => {
                    let ghost m = seg@;
                    let ghost n = spec_read_segment(rem)->Ok_0.1;
                    proof {
                        assert(rem.skip(n) =~= s0.skip(posb + n));
                        pos = posb + n;
                    }
                    match seg {
                        Segment::PresentationComposition(_) => {
                            return Err(
                                ReadError::ParseError {
                                    source: ParseError::UnexpectedPresentationCompositionSegment,
                                },
                            );
                        },
                        Segment::End(es) => {
                            segments.push(Segment::End(es));
                            done = true;
                            proof {
                                assert(crate::displaysetwrite::spec_segments_view(segments@)
                                    =~= acc.push(m));
                            }
                        },
                        other => {
                            segments.push(other);
                            proof {
                                assert(crate::displaysetwrite::spec_segments_view(segments@)
                                    =~= acc.push(m));
                            }
                        },
                    }
                },
            }
        }
        match DisplaySet::try_from(&segments) {
            Ok(ds) => Ok(ds),
            Err(pe) => Err(ReadError::ParseError { source: pe }),
        }
    }
}

/// Whether some palette of the mapping carries a palette ID.
fn has_palette_id(palettes: &SortedMap<Vid<u8>, Palette>, id: u8) -> (r: bool)
    ensures
        r <==> spec_has_palette_id(spec_palettes_view(palettes@), id),
{
    let mut i: usize = 0;
    while i < palettes.len()
        invariant
            i <= palettes@.len(),
            forall|j: int| 0 <= j < i ==> (#[trigger] palettes@[j]).0.id != id,
        decreases palettes@.len() - i,
    {
        if palettes.entry_at(i).0.id == id {
            proof {
                assert(spec_palettes_view(palettes@)[i as int].0.id == id);
            }
            return true;
        }
        i = i + 1;
    }
    proof {
        assert forall|j: int| 0 <= j < palettes@.len() implies (#[trigger] spec_palettes_view(
            palettes@,
        )[j]).0.id != id by {
            assert(spec_palettes_view(palettes@)[j].0 == palettes@[j].0);
        }
    }
    false
}

} // verus!
