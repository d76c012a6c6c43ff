//! Reading segments from a byte source.
//!
//! The spec functions here define, byte for byte, how a segment is parsed
//! from a stream: the 13-byte header first, then the payload grammar of the
//! kind the header names. Each spec parser returns either the parsed model
//! and the bytes consumed, or an error paired with the exact number of bytes
//! consumed before the parser stopped.
//!
//! One deliberate tolerance is part of the format rather than error
//! recovery: a composition object whose cropped flag is set but whose eight
//! crop bytes are missing at the end of the payload is read as having no
//! crop. At least one commercial disc emits such a PCS.

use vstd::prelude::*;
use crate::bytes::{spec_u16_at, spec_u24_at, spec_u32_at, ByteSource};
use crate::segment::{
    CompositionObject, CompositionState, Crop, EndSegment, FinalObjectDefinitionSegment,
    FodsView, InitialObjectDefinitionSegment, IodsView, MiddleObjectDefinitionSegment, ModsView,
    PaletteDefinitionSegment, PaletteEntry, PcsView, PdsView, PresentationCompositionSegment,
    Segment, SegmentView, SingleObjectDefinitionSegment, SodsView, WdsView, WindowDefinition,
    WindowDefinitionSegment,
};

verus! {

/// The error type for [`ReadSegmentExt`].
///
/// Errors are caused by an invalid bitstream or by the stream ending inside
/// a segment.
#[derive(Clone, Copy, Debug, Eq, PartialEq, Structural)]
pub enum ReadError {
    /// The stream ended before the segment was complete. Before the first
    /// byte of a segment, this is the clean end of the stream.
    UnexpectedEof,
    /// The bitstream declares an unrecognized magic number. This value
    /// should always be `0x5047`.
    UnrecognizedMagicNumber {
        /// The magic number that was parsed.
        parsed_magic_number: u16,
    },
    /// The bitstream declares an unrecognized kind of segment. The valid
    /// kinds are `0x14` (PDS), `0x15` (ODS), `0x16` (PCS), `0x17` (WDS) and
    /// `0x80` (ES).
    UnrecognizedKind {
        /// The kind value that was parsed.
        parsed_kind: u8,
    },
    /// The bitstream declares an unrecognized composition state within a
    /// PCS. The valid states are `0x00` (normal), `0x40` (acquisition
    /// point) and `0x80` (epoch start).
    UnrecognizedCompositionState {
        /// The composition state value that was parsed.
        parsed_composition_state: u8,
    },
    /// The bitstream declares an unrecognized palette update flag within a
    /// PCS. The valid flags are `0x00` and `0x80`.
    UnrecognizedPaletteUpdateFlag {
        /// The palette update flag that was parsed.
        parsed_palette_update_flag: u8,
    },
    /// The bitstream declares an unrecognized sequence flag within an ODS.
    /// The valid flags are `0xC0` (single), `0x80` (initial), `0x00`
    /// (middle) and `0x40` (final).
    UnrecognizedObjectSequenceFlag {
        /// The sequence flag that was parsed.
        parsed_sequence_flag: u8,
    },
    /// The declared data length of a single ODS disagrees with the
    /// segment's payload size.
    InvalidObjectDataLength {
        /// The data length that was parsed.
        parsed_data_length: u32,
        /// The data length that the payload size implies.
        expected_data_length: u32,
    },
}

/// A specialized [`Result`](core::result::Result) type for segment-reading
/// operations.
pub type ReadResult<T> = Result<T, ReadError>;

/// The composition state a valid state byte maps to.
pub open spec fn spec_state_of(b: u8) -> CompositionState {
    if b == 0x00 {
        CompositionState::Normal
    } else if b == 0x40 {
        CompositionState::AcquisitionPoint
    } else {
        CompositionState::EpochStart
    }
}

/// Parses `n` composition-object records of a PCS payload `p` starting at
/// offset `off`. Returns the records and the offset after them, or an error
/// with the offset at which parsing stopped.
///
/// A record whose cropped flag is set but whose eight crop bytes do not fit
/// in the payload is read as having no crop.
pub open spec fn spec_parse_cos(p: Seq<u8>, off: int, n: int) -> Result<
    (Seq<CompositionObject>, int),
    (ReadError, int),
>
    decreases n,
{
    if n <= 0 {
        Ok((Seq::<CompositionObject>::empty(), off))
    } else if p.len() - off < 8 {
        Err((ReadError::UnexpectedEof, off))
    } else {
        let flags = p[off + 3];
        let cropped = flags / 0x80 >= 1;
        let crop = if cropped && p.len() - (off + 8) >= 8 {
            Some(
                Crop {
                    x: spec_u16_at(p, off + 8),
                    y: spec_u16_at(p, off + 10),
                    width: spec_u16_at(p, off + 12),
                    height: spec_u16_at(p, off + 14),
                },
            )
        } else {
            None
        };
        let off2 = if cropped && p.len() - (off + 8) >= 8 {
            off + 16
        } else {
            off + 8
        };
        let co = CompositionObject {
            object_id: spec_u16_at(p, off),
            window_id: p[off + 2],
            x: spec_u16_at(p, off + 4),
            y: spec_u16_at(p, off + 6),
            forced: (flags / 0x40) % 2 == 1,
            crop,
        };
        match spec_parse_cos(p, off2, n - 1) {
            Ok((rest, end)) => Ok((seq![co] + rest, end)),
            Err(e) => Err(e),
        }
    }
}

/// Parses a PCS payload.
pub open spec fn spec_parse_pcs(p: Seq<u8>, pts: u32, dts: u32) -> Result<
    PcsView,
    (ReadError, int),
> {
    if p.len() < 2 {
        Err((ReadError::UnexpectedEof, 0))
    } else if p.len() < 4 {
        Err((ReadError::UnexpectedEof, 2))
    } else if p.len() < 5 {
        Err((ReadError::UnexpectedEof, 4))
    } else if p.len() < 7 {
        Err((ReadError::UnexpectedEof, 5))
    } else if p.len() < 8 {
        Err((ReadError::UnexpectedEof, 7))
    } else {
        let state_byte = p[7];
        if state_byte != 0x00 && state_byte != 0x40 && state_byte != 0x80 {
            Err((
                ReadError::UnrecognizedCompositionState { parsed_composition_state: state_byte },
                8,
            ))
        } else if p.len() < 9 {
            Err((ReadError::UnexpectedEof, 8))
        } else {
            let update_flag = p[8];
            if update_flag != 0x00 && update_flag != 0x80 {
                Err((
                    ReadError::UnrecognizedPaletteUpdateFlag {
                        parsed_palette_update_flag: update_flag,
                    },
                    9,
                ))
            } else if p.len() < 10 {
                Err((ReadError::UnexpectedEof, 9))
            } else if p.len() < 11 {
                Err((ReadError::UnexpectedEof, 10))
            } else {
                match spec_parse_cos(p, 11, p[10] as int) {
                    Ok((cos, _end)) => Ok(
                        PcsView {
                            pts,
                            dts,
                            width: spec_u16_at(p, 0),
                            height: spec_u16_at(p, 2),
                            frame_rate: p[4],
                            composition_number: spec_u16_at(p, 5),
                            composition_state: spec_state_of(state_byte),
                            palette_update_id: if update_flag == 0x80 {
                                Some(p[9])
                            } else {
                                None
                            },
                            composition_objects: cos,
                        },
                    ),
                    Err(e) => Err(e),
                }
            }
        }
    }
}

/// Parses `n` window records of a WDS payload starting at `off`.
pub open spec fn spec_parse_windows(p: Seq<u8>, off: int, n: int) -> Result<
    (Seq<WindowDefinition>, int),
    (ReadError, int),
>
    decreases n,
{
    if n <= 0 {
        Ok((Seq::<WindowDefinition>::empty(), off))
    } else if p.len() - off < 9 {
        Err((ReadError::UnexpectedEof, off))
    } else {
        let w = WindowDefinition {
            id: p[off],
            x: spec_u16_at(p, off + 1),
            y: spec_u16_at(p, off + 3),
            width: spec_u16_at(p, off + 5),
            height: spec_u16_at(p, off + 7),
        };
        match spec_parse_windows(p, off + 9, n - 1) {
            Ok((rest, end)) => Ok((seq![w] + rest, end)),
            Err(e) => Err(e),
        }
    }
}

/// Parses a WDS payload.
pub open spec fn spec_parse_wds(p: Seq<u8>, pts: u32, dts: u32) -> Result<
    WdsView,
    (ReadError, int),
> {
    if p.len() < 1 {
        Err((ReadError::UnexpectedEof, 0))
    } else {
        match spec_parse_windows(p, 1, p[0] as int) {
            Ok((ws, _end)) => Ok(WdsView { pts, dts, windows: ws }),
            Err(e) => Err(e),
        }
    }
}

/// The `n` palette entries of a PDS payload starting at `off`. The payload
/// always holds them whole, because their count is derived from its size.
pub open spec fn spec_parse_entries(p: Seq<u8>, off: int, n: int) -> Seq<PaletteEntry>
    decreases n,
{
    if n <= 0 {
        Seq::<PaletteEntry>::empty()
    } else {
        seq![
            PaletteEntry {
                id: p[off],
                y: p[off + 1],
                cr: p[off + 2],
                cb: p[off + 3],
                alpha: p[off + 4],
            },
        ] + spec_parse_entries(p, off + 5, n - 1)
    }
}

/// Parses a PDS payload. Its entry count is `(size - 2) / 5`; trailing
/// bytes that do not fill a record are ignored.
pub open spec fn spec_parse_pds(p: Seq<u8>, pts: u32, dts: u32) -> Result<
    PdsView,
    (ReadError, int),
> {
    if p.len() < 1 {
        Err((ReadError::UnexpectedEof, 0))
    } else if p.len() < 2 {
        Err((ReadError::UnexpectedEof, 1))
    } else {
        Ok(
            PdsView {
                pts,
                dts,
                id: p[0],
                version: p[1],
                entries: spec_parse_entries(p, 2, (p.len() - 2) / 5),
            },
        )
    }
}

/// Parses the tail of a single ODS payload: the bytes after ID, version and
/// sequence flag. The declared 24-bit length must equal the payload size
/// less seven, which is the data length plus the format's four bytes of
/// header overhead.
pub open spec fn spec_parse_sods(
    t: Seq<u8>,
    pts: u32,
    dts: u32,
    id: u16,
    version: u8,
    size: u16,
) -> Result<SodsView, (ReadError, int)> {
    if t.len() < 3 {
        Err((ReadError::UnexpectedEof, 0))
    } else {
        let parsed = spec_u24_at(t, 0);
        let expected = (size - 7) as u32;
        if parsed != expected {
            Err((
                ReadError::InvalidObjectDataLength {
                    parsed_data_length: parsed,
                    expected_data_length: expected,
                },
                3,
            ))
        } else if t.len() < 5 {
            Err((ReadError::UnexpectedEof, 3))
        } else if t.len() < 7 {
            Err((ReadError::UnexpectedEof, 5))
        } else {
            Ok(
                SodsView {
                    pts,
                    dts,
                    id,
                    version,
                    width: spec_u16_at(t, 3),
                    height: spec_u16_at(t, 5),
                    data: t.skip(7),
                },
            )
        }
    }
}

/// Parses the tail of an initial ODS payload. The declared length is
/// carried verbatim; it spans all portions of the object.
pub open spec fn spec_parse_iods(t: Seq<u8>, pts: u32, dts: u32, id: u16, version: u8) -> Result<
    IodsView,
    (ReadError, int),
> {
    if t.len() < 3 {
        Err((ReadError::UnexpectedEof, 0))
    } else if t.len() < 5 {
        Err((ReadError::UnexpectedEof, 3))
    } else if t.len() < 7 {
        Err((ReadError::UnexpectedEof, 5))
    } else {
        Ok(
            IodsView {
                pts,
                dts,
                id,
                version,
                length: spec_u24_at(t, 0) as usize,
                width: spec_u16_at(t, 3),
                height: spec_u16_at(t, 5),
                data: t.skip(7),
            },
        )
    }
}

/// The tail of a middle ODS payload: nothing but data.
pub open spec fn spec_parse_mods(t: Seq<u8>, pts: u32, dts: u32, id: u16, version: u8) -> ModsView {
    ModsView { pts, dts, id, version, data: t }
}

/// The tail of a final ODS payload: nothing but data.
pub open spec fn spec_parse_fods(t: Seq<u8>, pts: u32, dts: u32, id: u16, version: u8) -> FodsView {
    FodsView { pts, dts, id, version, data: t }
}

/// Parses one segment from the front of `s`. Returns the segment model and
/// the number of bytes consumed — the 13-byte header plus the whole
/// declared payload — or an error with the exact number of bytes consumed
/// before the parser stopped.
pub open spec fn spec_read_segment(s: Seq<u8>) -> Result<(SegmentView, int), (ReadError, int)> {
    if s.len() < 2 {
        Err((ReadError::UnexpectedEof, 0))
    } else {
        let magic = spec_u16_at(s, 0);
        if magic != 0x5047 {
            Err((ReadError::UnrecognizedMagicNumber { parsed_magic_number: magic }, 2))
        } else if s.len() < 13 {
            Err((ReadError::UnexpectedEof, 2))
        } else {
            let pts = spec_u32_at(s, 2);
            let dts = spec_u32_at(s, 6);
            let kind = s[10];
            let size = spec_u16_at(s, 11);
            if kind != 0x14 && kind != 0x15 && kind != 0x16 && kind != 0x17 && kind != 0x80 {
                Err((ReadError::UnrecognizedKind { parsed_kind: kind }, 13))
            } else if s.len() < 13 + size {
                Err((ReadError::UnexpectedEof, 13))
            } else {
                let p = s.subrange(13, 13 + size);
                if kind == 0x16 {
                    match spec_parse_pcs(p, pts, dts) {
                        Ok(m) => Ok((SegmentView::PresentationComposition(m), 13 + size)),
                        Err((e, n)) => Err((e, 13 + n)),
                    }
                } else if kind == 0x17 {
                    match spec_parse_wds(p, pts, dts) {
                        Ok(m) => Ok((SegmentView::WindowDefinition(m), 13 + size)),
                        Err((e, n)) => Err((e, 13 + n)),
                    }
                } else if kind == 0x14 {
                    match spec_parse_pds(p, pts, dts) {
                        Ok(m) => Ok((SegmentView::PaletteDefinition(m), 13 + size)),
                        Err((e, n)) => Err((e, 13 + n)),
                    }
                } else if kind == 0x80 {
                    Ok((SegmentView::End(EndSegment { pts, dts }), 13 + size))
                } else {
                    if size < 2 {
                        Err((ReadError::UnexpectedEof, 13))
                    } else if size < 3 {
                        Err((ReadError::UnexpectedEof, 15))
                    } else if size < 4 {
                        Err((ReadError::UnexpectedEof, 16))
                    } else {
                        let id = spec_u16_at(p, 0);
                        let version = p[2];
                        let flag = p[3];
                        let t = p.skip(4);
                        if flag == 0xC0 {
                            match spec_parse_sods(t, pts, dts, id, version, size) {
                                Ok(m) => Ok((SegmentView::SingleObjectDefinition(m), 13 + size)),
                                Err((e, n)) => Err((e, 17 + n)),
                            }
                        } else if flag == 0x80 {
                            match spec_parse_iods(t, pts, dts, id, version) {
                                Ok(m) => Ok((SegmentView::InitialObjectDefinition(m), 13 + size)),
                                Err((e, n)) => Err((e, 17 + n)),
                            }
                        } else if flag == 0x00 {
                            Ok(
                                (
                                    SegmentView::MiddleObjectDefinition(
                                        spec_parse_mods(t, pts, dts, id, version),
                                    ),
                                    13 + size,
                                ),
                            )
                        } else if flag == 0x40 {
                            Ok(
                                (
                                    SegmentView::FinalObjectDefinition(
                                        spec_parse_fods(t, pts, dts, id, version),
                                    ),
                                    13 + size,
                                ),
                            )
                        } else {
                            Err((
                                ReadError::UnrecognizedObjectSequenceFlag {
                                    parsed_sequence_flag: flag,
                                },
                                17,
                            ))
                        }
                    }
                }
            }
        }
    }
}

/// The offsets a composition-object run reports stay within the payload.
pub proof fn lemma_parse_cos_bounds(p: Seq<u8>, off: int, n: int)
    requires
        0 <= off <= p.len(),
    ensures
        match spec_parse_cos(p, off, n) {
            Ok((_cos, end)) => off <= end <= p.len(),
            Err((_e, m)) => off <= m <= p.len(),
        },
    decreases n,
{
    if n <= 0 {
    } else if p.len() - off < 8 {
    } else {
        let flags = p[off + 3];
        let cropped = flags / 0x80 >= 1;
        let off2 = if cropped && p.len() - (off + 8) >= 8 {
            off + 16
        } else {
            off + 8
        };
        lemma_parse_cos_bounds(p, off2, n - 1);
    }
}

/// The offsets a PCS parse error reports stay within the payload.
pub proof fn lemma_parse_pcs_bounds(p: Seq<u8>, pts: u32, dts: u32)
    ensures
        match spec_parse_pcs(p, pts, dts) {
            Ok(_m) => true,
            Err((_e, n)) => 0 <= n <= p.len(),
        },
{
    if p.len() >= 11 {
        lemma_parse_cos_bounds(p, 11, p[10] as int);
    }
}

/// The offsets a window run reports stay within the payload.
pub proof fn lemma_parse_windows_bounds(p: Seq<u8>, off: int, n: int)
    requires
        0 <= off <= p.len(),
    ensures
        match spec_parse_windows(p, off, n) {
            Ok((_ws, end)) => off <= end <= p.len(),
            Err((_e, m)) => off <= m <= p.len(),
        },
    decreases n,
{
    if n <= 0 {
    } else if p.len() - off < 9 {
    } else {
        lemma_parse_windows_bounds(p, off + 9, n - 1);
    }
}

/// The offsets a WDS parse error reports stay within the payload.
pub proof fn lemma_parse_wds_bounds(p: Seq<u8>, pts: u32, dts: u32)
    ensures
        match spec_parse_wds(p, pts, dts) {
            Ok(_m) => true,
            Err((_e, n)) => 0 <= n <= p.len(),
        },
{
    if p.len() >= 1 {
        lemma_parse_windows_bounds(p, 1, p[0] as int);
    }
}

/// Prepends already-parsed records to the outcome of the rest of a
/// composition-object run.
pub open spec fn spec_cos_prepend(
    acc: Seq<CompositionObject>,
    r: Result<(Seq<CompositionObject>, int), (ReadError, int)>,
) -> Result<(Seq<CompositionObject>, int), (ReadError, int)> {
    match r {
        Ok((rest, end)) => Ok((acc + rest, end)),
        Err(e) => Err(e),
    }
}

/// Prepends already-parsed records to the outcome of the rest of a window
/// run.
pub open spec fn spec_windows_prepend(
    acc: Seq<WindowDefinition>,
    r: Result<(Seq<WindowDefinition>, int), (ReadError, int)>,
) -> Result<(Seq<WindowDefinition>, int), (ReadError, int)> {
    match r {
        Ok((rest, end)) => Ok((acc + rest, end)),
        Err(e) => Err(e),
    }
}

/// Parses the payload of a PCS from a source that holds at least `size`
/// payload bytes. On success the whole payload is consumed; on an error
/// exactly the bytes up to the offending field are.
#[verifier::rlimit(100)]
#[verifier::loop_isolation(false)]
pub fn parse_pcs(src: &mut ByteSource, pts: u32, dts: u32, size: u16) -> (r: ReadResult<
    PresentationCompositionSegment,
>)
    requires
        old(src).wf(),
        old(src).remaining().len() >= size,
    ensures
        final(src).wf(),
        ({
            let p = old(src).remaining().take(size as int);
            match spec_parse_pcs(p, pts, dts) {
                Ok(m) => (r matches Ok(seg) && seg@ == m)
                    && final(src).remaining() == old(src).remaining().skip(size as int),
                Err((e, n)) => r == Err::<PresentationCompositionSegment, ReadError>(e)
                    && final(src).remaining() == old(src).remaining().skip(n),
            }
        }),
{
    let ghost full = old(src).remaining();
    let ghost p = full.take(size as int);
    proof {
        assert(p.len() == size as int);
    }
    if size < 2 {
        proof {
            assert(full.skip(0) =~= full);
        }
        return Err(ReadError::UnexpectedEof);
    }
    let width = src.take_u16();
    proof {
        assert(width == spec_u16_at(p, 0));
    }
    if size < 4 {
        return Err(ReadError::UnexpectedEof);
    }
    let height = src.take_u16();
    proof {
        assert(height == spec_u16_at(p, 2));
    }
    if size < 5 {
        return Err(ReadError::UnexpectedEof);
    }
    let frame_rate = src.take_u8();
    proof {
        assert(frame_rate == p[4]);
    }
    if size < 7 {
        return Err(ReadError::UnexpectedEof);
    }
    let composition_number = src.take_u16();
    proof {
        assert(composition_number == spec_u16_at(p, 5));
    }
    if size < 8 {
        return Err(ReadError::UnexpectedEof);
    }
    let state_byte = src.take_u8();
    proof {
        assert(state_byte == p[7]);
    }
    let composition_state = if state_byte == 0x00 {
        CompositionState::Normal
    } else if state_byte == 0x40 {
        CompositionState::AcquisitionPoint
    } else if state_byte == 0x80 {
        CompositionState::EpochStart
    } else {
        return Err(
            ReadError::UnrecognizedCompositionState { parsed_composition_state: state_byte },
        );
    };
    if size < 9 {
        return Err(ReadError::UnexpectedEof);
    }
    let update_flag = src.take_u8();
    proof {
        assert(update_flag == p[8]);
    }
    if update_flag != 0x00 && update_flag != 0x80 {
        return Err(
            ReadError::UnrecognizedPaletteUpdateFlag { parsed_palette_update_flag: update_flag },
        );
    }
    if size < 10 {
        return Err(ReadError::UnexpectedEof);
    }
    let pal_id = src.take_u8();
    proof {
        assert(pal_id == p[9]);
    }
    if size < 11 {
        return Err(ReadError::UnexpectedEof);
    }
    let count = src.take_u8();
    proof {
        assert(count == p[10]);
    }
    let palette_update_id = if update_flag == 0x80 {
        Some(pal_id)
    } else {
        None
    };
    let mut composition_objects: Vec<CompositionObject> = Vec::new();
    let mut i: u16 = 0;
    let mut off: usize = 11;
    while i < count as u16
        invariant
            src.wf(),
            full.len() >= size,
            p == full.take(size as int),
            p.len() == size as int,
            size >= 11,
            i <= count as u16,
            11 <= off <= size,
            src.remaining() == full.skip(off as int),
            spec_parse_cos(p, 11, count as int) == spec_cos_prepend(
                composition_objects@,
                spec_parse_cos(p, off as int, (count as u16 - i) as int),
            ),
        decreases count as u16 - i,
    {
        let ghost acc = composition_objects@;
        let ghost off0 = off as int;
        let ghost n0 = (count as u16 - i) as int;
        if size as usize - off < 8 {
            proof {
                assert(spec_parse_cos(p, off0, n0) == Err::<(Seq<CompositionObject>, int), (
                    ReadError,
                    int,
                )>((ReadError::UnexpectedEof, off0)));
            }
            return Err(ReadError::UnexpectedEof);
        }
        let object_id = src.take_u16();
        let window_id = src.take_u8();
        let flags = src.take_u8();
        let x = src.take_u16();
        let y = src.take_u16();
        proof {
            assert(object_id == spec_u16_at(p, off0));
            assert(window_id == p[off0 + 2]);
            assert(flags == p[off0 + 3]);
            assert(x == spec_u16_at(p, off0 + 4));
            assert(y == spec_u16_at(p, off0 + 6));
        }
        let forced = (flags / 0x40) % 2 == 1;
        let cropped = flags / 0x80 >= 1;
        let crop: Option<Crop>;
        if cropped && size as usize - (off + 8) >= 8 {
            let cx = src.take_u16();
            let cy = src.take_u16();
            let cw = src.take_u16();
            let ch = src.take_u16();
            proof {
                assert(cx == spec_u16_at(p, off0 + 8));
                assert(cy == spec_u16_at(p, off0 + 10));
                assert(cw == spec_u16_at(p, off0 + 12));
                assert(ch == spec_u16_at(p, off0 + 14));
            }
            crop = Some(Crop { x: cx, y: cy, width: cw, height: ch });
            off = off + 16;
        } else {
            crop = None;
            off = off + 8;
        }
        let co = CompositionObject { object_id, window_id, x, y, forced, crop };
        proof {
            assert(spec_parse_cos(p, off0, n0) == (match spec_parse_cos(p, off as int, n0 - 1) {
                Ok((rest, end)) => Ok::<(Seq<CompositionObject>, int), (ReadError, int)>(
                    (seq![co] + rest, end),
                ),
                Err(e) => Err(e),
            }));
        }
        composition_objects.push(co);
        proof {
            match spec_parse_cos(p, off as int, n0 - 1) {
                Ok((rest, end)) => {
                    assert(acc + (seq![co] + rest) =~= composition_objects@ + rest);
                },
                Err(e) => {},
            }
        }
        i = i + 1;
    }
    let seg = PresentationCompositionSegment {
        pts,
        dts,
        width,
        height,
        frame_rate,
        composition_number,
        composition_state,
        palette_update_id,
        composition_objects,
    };
    proof {
        assert(spec_parse_cos(p, off as int, 0) == Ok::<(Seq<CompositionObject>, int), (
            ReadError,
            int,
        )>((Seq::<CompositionObject>::empty(), off as int)));
        assert(seg.composition_objects@ + Seq::<CompositionObject>::empty()
            =~= seg.composition_objects@);
        assert(seg@ == spec_parse_pcs(p, pts, dts)->Ok_0);
    }
    let leftover = size as usize - off;
    src.skip_bytes(leftover);
    proof {
        assert(full.skip(off as int).skip(leftover as int) =~= full.skip(size as int));
    }
    Ok(seg)
}

/// Parses the payload of a WDS from a source that holds at least `size`
/// payload bytes. On success the whole payload is consumed; on an error
/// exactly the bytes up to the offending field are.
#[verifier::rlimit(50)]
#[verifier::loop_isolation(false)]
pub fn parse_wds(src: &mut ByteSource, pts: u32, dts: u32, size: u16) -> (r: ReadResult<
    WindowDefinitionSegment,
>)
    requires
        old(src).wf(),
        old(src).remaining().len() >= size,
    ensures
        final(src).wf(),
        ({
            let p = old(src).remaining().take(size as int);
            match spec_parse_wds(p, pts, dts) {
                Ok(m) => (r matches Ok(seg) && seg@ == m)
                    && final(src).remaining() == old(src).remaining().skip(size as int),
                Err((e, n)) => r == Err::<WindowDefinitionSegment, ReadError>(e)
                    && final(src).remaining() == old(src).remaining().skip(n),
            }
        }),
{
    let ghost full = old(src).remaining();
    let ghost p = full.take(size as int);
    proof {
        assert(p.len() == size as int);
    }
    if size < 1 {
        proof {
            assert(full.skip(0) =~= full);
        }
        return Err(ReadError::UnexpectedEof);
    }
    let count = src.take_u8();
    proof {
        assert(count == p[0]);
    }
    let mut windows: Vec<WindowDefinition> = Vec::new();
    let mut i: u16 = 0;
    let mut off: usize = 1;
    while i < count as u16
        invariant
            src.wf(),
            full.len() >= size,
            p == full.take(size as int),
            p.len() == size as int,
            size >= 1,
            i <= count as u16,
            1 <= off <= size,
            src.remaining() == full.skip(off as int),
            spec_parse_windows(p, 1, count as int) == spec_windows_prepend(
                windows@,
                spec_parse_windows(p, off as int, (count as u16 - i) as int),
            ),
        decreases count as u16 - i,
    {
        let ghost acc = windows@;
        let ghost off0 = off as int;
        let ghost n0 = (count as u16 - i) as int;
        if size as usize - off < 9 {
            proof {
                assert(spec_parse_windows(p, off0, n0) == Err::<(Seq<WindowDefinition>, int), (
                    ReadError,
                    int,
                )>((ReadError::UnexpectedEof, off0)));
            }
            return Err(ReadError::UnexpectedEof);
        }
        let w_id = src.take_u8();
        let w_x = src.take_u16();
        let w_y = src.take_u16();
        let w_width = src.take_u16();
        let w_height = src.take_u16();
        let w = WindowDefinition { id: w_id, x: w_x, y: w_y, width: w_width, height: w_height };
        proof {
            assert(w == (WindowDefinition {
                id: p[off0],
                x: spec_u16_at(p, off0 + 1),
                y: spec_u16_at(p, off0 + 3),
                width: spec_u16_at(p, off0 + 5),
                height: spec_u16_at(p, off0 + 7),
            }));
            assert(spec_parse_windows(p, off0, n0) == (match spec_parse_windows(
                p,
                off0 + 9,
                n0 - 1,
            ) {
                Ok((rest, end)) => Ok::<(Seq<WindowDefinition>, int), (ReadError, int)>(
                    (seq![w] + rest, end),
                ),
                Err(e) => Err(e),
            }));
        }
        windows.push(w);
        proof {
            match spec_parse_windows(p, off0 + 9, n0 - 1) {
                Ok((rest, end)) => {
                    assert(acc + (seq![w] + rest) =~= windows@ + rest);
                },
                Err(e) => {},
            }
        }
        i = i + 1;
        off = off + 9;
    }
    let seg = WindowDefinitionSegment { pts, dts, windows };
    proof {
        assert(spec_parse_windows(p, off as int, 0) == Ok::<(Seq<WindowDefinition>, int), (
            ReadError,
            int,
        )>((Seq::<WindowDefinition>::empty(), off as int)));
        assert(seg.windows@ + Seq::<WindowDefinition>::empty() =~= seg.windows@);
        assert(seg@ == spec_parse_wds(p, pts, dts)->Ok_0);
    }
    let leftover = size as usize - off;
    src.skip_bytes(leftover);
    proof {
        assert(full.skip(off as int).skip(leftover as int) =~= full.skip(size as int));
    }
    Ok(seg)
}

/// Parses the payload of a PDS from a source that holds at least `size`
/// payload bytes. On success the whole payload is consumed; on an error
/// exactly the bytes up to the offending field are.
pub fn parse_pds(src: &mut ByteSource, pts: u32, dts: u32, size: u16) -> (r: ReadResult<
    PaletteDefinitionSegment,
>)
    requires
        old(src).wf(),
        old(src).remaining().len() >= size,
    ensures
        final(src).wf(),
        ({
            let p = old(src).remaining().take(size as int);
            match spec_parse_pds(p, pts, dts) {
                Ok(m) => (r matches Ok(seg) && seg@ == m)
                    && final(src).remaining() == old(src).remaining().skip(size as int),
                Err((e, n)) => r == Err::<PaletteDefinitionSegment, ReadError>(e)
                    && final(src).remaining() == old(src).remaining().skip(n),
            }
        }),
{
    let ghost full = old(src).remaining();
    let ghost p = full.take(size as int);
    proof {
        assert(p.len() == size as int);
    }
    if size < 1 {
        proof {
            assert(full.skip(0) =~= full);
        }
        return Err(ReadError::UnexpectedEof);
    }
    let id = src.take_u8();
    proof {
        assert(id == p[0]);
    }
    if size < 2 {
        return Err(ReadError::UnexpectedEof);
    }
    let version = src.take_u8();
    proof {
        assert(version == p[1]);
    }
    let count: u16 = (size - 2) / 5;
    proof {
        assert(2 + 5 * (count as int) <= size as int);
    }
    let mut entries: Vec<PaletteEntry> = Vec::new();
    let mut i: u16 = 0;
    let mut off: usize = 2;
    while i < count
        invariant
            src.wf(),
            full.len() >= size,
            p == full.take(size as int),
            p.len() == size as int,
            size >= 2,
            count == (size - 2) / 5,
            2 + 5 * (count as int) <= size as int,
            i <= count,
            off == 2 + 5 * (i as int),
            src.remaining() == full.skip(off as int),
            spec_parse_entries(p, 2, count as int) == entries@ + spec_parse_entries(
                p,
                off as int,
                (count - i) as int,
            ),
        decreases count - i,
    {
        let ghost acc = entries@;
        let ghost off0 = off as int;
        let e_id = src.take_u8();
        let e_y = src.take_u8();
        let e_cr = src.take_u8();
        let e_cb = src.take_u8();
        let e_alpha = src.take_u8();
        let entry = PaletteEntry { id: e_id, y: e_y, cr: e_cr, cb: e_cb, alpha: e_alpha };
        proof {
            assert(entry == (PaletteEntry {
                id: p[off0],
                y: p[off0 + 1],
                cr: p[off0 + 2],
                cb: p[off0 + 3],
                alpha: p[off0 + 4],
            }));
            assert(spec_parse_entries(p, off0, (count - i) as int) == seq![entry]
                + spec_parse_entries(p, off0 + 5, (count - i) as int - 1));
        }
        entries.push(entry);
        proof {
            assert(acc + (seq![entry] + spec_parse_entries(p, off0 + 5, (count - i) as int - 1))
                =~= entries@ + spec_parse_entries(p, off0 + 5, (count - i) as int - 1));
        }
        i = i + 1;
        off = off + 5;
    }
    let seg = PaletteDefinitionSegment { pts, dts, id, version, entries };
    proof {
        assert(spec_parse_entries(p, off as int, 0) =~= Seq::<PaletteEntry>::empty());
        assert(seg.entries@ + Seq::<PaletteEntry>::empty() =~= seg.entries@);
        assert(seg@ == spec_parse_pds(p, pts, dts)->Ok_0);
    }
    let leftover = size as usize - off;
    src.skip_bytes(leftover);
    proof {
        assert(full.skip(off as int).skip(leftover as int) =~= full.skip(size as int));
    }
    Ok(seg)
}

/// Parses the tail of a single ODS payload — everything after the ID,
/// version and sequence flag — from a source that holds the remaining
/// `size - 4` payload bytes.
pub fn parse_sods(src: &mut ByteSource, pts: u32, dts: u32, id: u16, version: u8, size: u16) -> (r:
    ReadResult<SingleObjectDefinitionSegment>)
    requires
        old(src).wf(),
        size >= 4,
        old(src).remaining().len() >= size - 4,
    ensures
        final(src).wf(),
        ({
            let t = old(src).remaining().take(size - 4);
            match spec_parse_sods(t, pts, dts, id, version, size) {
                Ok(m) => (r matches Ok(seg) && seg@ == m)
                    && final(src).remaining() == old(src).remaining().skip(size - 4),
                Err((e, n)) => r == Err::<SingleObjectDefinitionSegment, ReadError>(e)
                    && final(src).remaining() == old(src).remaining().skip(n),
            }
        }),
{
    let ghost full = old(src).remaining();
    let ghost t = full.take(size - 4);
    proof {
        assert(t.len() == size - 4);
    }
    if size - 4 < 3 {
        proof {
            assert(full.skip(0) =~= full);
        }
        return Err(ReadError::UnexpectedEof);
    }
    let parsed = src.take_u24();
    proof {
        assert(parsed == spec_u24_at(t, 0));
    }
    let expected = size as u32 - 7;
    if parsed != expected {
        return Err(
            ReadError::InvalidObjectDataLength {
                parsed_data_length: parsed,
                expected_data_length: expected,
            },
        );
    }
    if size - 4 < 5 {
        return Err(ReadError::UnexpectedEof);
    }
    let width = src.take_u16();
    proof {
        assert(width == spec_u16_at(t, 3));
    }
    if size - 4 < 7 {
        return Err(ReadError::UnexpectedEof);
    }
    let height = src.take_u16();
    proof {
        assert(height == spec_u16_at(t, 5));
    }
    let data = src.take_bytes((size - 11) as usize);
    proof {
        assert(data@ =~= t.skip(7));
        assert(full.skip(7).skip((size - 11) as int) =~= full.skip(size - 4));
    }
    Ok(SingleObjectDefinitionSegment { pts, dts, id, version, width, height, data })
}

/// Parses the tail of an initial ODS payload from a source that holds the
/// remaining `size - 4` payload bytes.
pub fn parse_iods(src: &mut ByteSource, pts: u32, dts: u32, id: u16, version: u8, size: u16) -> (r:
    ReadResult<InitialObjectDefinitionSegment>)
    requires
        old(src).wf(),
        size >= 4,
        old(src).remaining().len() >= size - 4,
    ensures
        final(src).wf(),
        ({
            let t = old(src).remaining().take(size - 4);
            match spec_parse_iods(t, pts, dts, id, version) {
                Ok(m) => (r matches Ok(seg) && seg@ == m)
                    && final(src).remaining() == old(src).remaining().skip(size - 4),
                Err((e, n)) => r == Err::<InitialObjectDefinitionSegment, ReadError>(e)
                    && final(src).remaining() == old(src).remaining().skip(n),
            }
        }),
{
    let ghost full = old(src).remaining();
    let ghost t = full.take(size - 4);
    proof {
        assert(t.len() == size - 4);
    }
    if size - 4 < 3 {
        proof {
            assert(full.skip(0) =~= full);
        }
        return Err(ReadError::UnexpectedEof);
    }
    let length_u24 = src.take_u24();
    proof {
        assert(length_u24 == spec_u24_at(t, 0));
    }
    let length = length_u24 as usize;
    if size - 4 < 5 {
        return Err(ReadError::UnexpectedEof);
    }
    let width = src.take_u16();
    proof {
        assert(width == spec_u16_at(t, 3));
    }
    if size - 4 < 7 {
        return Err(ReadError::UnexpectedEof);
    }
    let height = src.take_u16();
    proof {
        assert(height == spec_u16_at(t, 5));
    }
    let data = src.take_bytes((size - 11) as usize);
    proof {
        assert(data@ =~= t.skip(7));
        assert(full.skip(7).skip((size - 11) as int) =~= full.skip(size - 4));
    }
    Ok(InitialObjectDefinitionSegment { pts, dts, id, version, length, width, height, data })
}

/// Parses the tail of a middle ODS payload: the remaining `size - 4`
/// payload bytes are the data.
pub fn parse_mods(src: &mut ByteSource, pts: u32, dts: u32, id: u16, version: u8, size: u16) -> (r:
    ReadResult<MiddleObjectDefinitionSegment>)
    requires
        old(src).wf(),
        size >= 4,
        old(src).remaining().len() >= size - 4,
    ensures
        final(src).wf(),
        ({
            let t = old(src).remaining().take(size - 4);
            let m = spec_parse_mods(t, pts, dts, id, version);
            (r matches Ok(seg) && seg@ == m)
                && final(src).remaining() == old(src).remaining().skip(size - 4)
        }),
{
    let ghost full = old(src).remaining();
    let data = src.take_bytes((size - 4) as usize);
    Ok(MiddleObjectDefinitionSegment { pts, dts, id, version, data })
}

/// Parses the tail of a final ODS payload: the remaining `size - 4`
/// payload bytes are the data.
pub fn parse_fods(src: &mut ByteSource, pts: u32, dts: u32, id: u16, version: u8, size: u16) -> (r:
    ReadResult<FinalObjectDefinitionSegment>)
    requires
        old(src).wf(),
        size >= 4,
        old(src).remaining().len() >= size - 4,
    ensures
        final(src).wf(),
        ({
            let t = old(src).remaining().take(size - 4);
            let m = spec_parse_fods(t, pts, dts, id, version);
            (r matches Ok(seg) && seg@ == m)
                && final(src).remaining() == old(src).remaining().skip(size - 4)
        }),
{
    let ghost full = old(src).remaining();
    let data = src.take_bytes((size - 4) as usize);
    Ok(FinalObjectDefinitionSegment { pts, dts, id, version, data })
}

/// What one segment read consumes stays within the stream: a successful
/// read takes its 13-byte header and whole payload, a failed one takes at
/// most the stream.
pub proof fn lemma_read_segment_consumed(s: Seq<u8>)
    ensures
        match spec_read_segment(s) {
            Ok((_m, n)) => 13 <= n <= s.len(),
            Err((_e, n)) => 0 <= n <= s.len(),
        },
{
    if s.len() >= 13 {
        let magic = crate::bytes::spec_u16_at(s, 0);
        let kind = s[10];
        let size = crate::bytes::spec_u16_at(s, 11);
        if magic == 0x5047 && (kind == 0x14 || kind == 0x15 || kind == 0x16 || kind == 0x17
            || kind == 0x80) && s.len() >= 13 + size {
            let p = s.subrange(13, 13 + size);
            let pts = crate::bytes::spec_u32_at(s, 2);
            let dts = crate::bytes::spec_u32_at(s, 6);
            lemma_parse_pcs_bounds(p, pts, dts);
            lemma_parse_wds_bounds(p, pts, dts);
        }
    }
}

/// Allows reading segments from a byte source.
pub trait ReadSegmentExt {
    /// The bytes the source has not yet consumed.
    spec fn source(&self) -> Seq<u8>;

    /// Whether the source is in a readable state.
    spec fn source_ok(&self) -> bool;

    /// Reads the next segment from the source, as [`spec_read_segment`]
    /// describes: on success the header and the whole declared payload are
    /// consumed; on an error exactly the bytes up to the offending field
    /// are. An `UnexpectedEof` with nothing consumed is the clean end of
    /// the stream.
    fn read_segment(&mut self) -> (r: ReadResult<Segment>)
        requires
            old(self).source_ok(),
        ensures
            final(self).source_ok(),
            match spec_read_segment(old(self).source()) {
                Ok((m, n)) => (r matches Ok(seg) && seg@ == m) && final(self).source() == old(
                    self,
                ).source().skip(n),
                Err((e, n)) => r == Err::<Segment, ReadError>(e) && final(self).source() == old(
                    self,
                ).source().skip(n),
            },
    ;
}

impl ReadSegmentExt for ByteSource {
    open spec fn source(&self) -> Seq<u8> {
        self.remaining()
    }

    open spec fn source_ok(&self) -> bool {
        self.wf()
    }

    #[verifier::rlimit(100)]
    #[verifier::loop_isolation(false)]
    fn read_segment(&mut self) -> (r: ReadResult<Segment>) {
        let ghost s = old(self).remaining();
        if self.remaining_len() < 2 {
            proof {
                assert(s.skip(0) =~= s);
            }
            return Err(ReadError::UnexpectedEof);
        }
        let magic = self.take_u16();
        proof {
            assert(magic == spec_u16_at(s, 0));
        }
        if magic != 0x5047 {
            return Err(ReadError::UnrecognizedMagicNumber { parsed_magic_number: magic });
        }
        if self.remaining_len() < 11 {
            return Err(ReadError::UnexpectedEof);
        }
        let pts = self.take_u32();
        let dts = self.take_u32();
        let kind = self.take_u8();
        let size = self.take_u16();
        proof {
            assert(pts == spec_u32_at(s, 2));
            assert(dts == spec_u32_at(s, 6));
            assert(kind == s[10]);
            assert(size == spec_u16_at(s, 11));
        }
        if !(kind == 0x14 || kind == 0x15 || kind == 0x16 || kind == 0x17 || kind == 0x80) {
            return Err(ReadError::UnrecognizedKind { parsed_kind: kind });
        }
        if self.remaining_len() < size as usize {
            return Err(ReadError::UnexpectedEof);
        }
        let ghost p = s.subrange(13, 13 + size as int);
        proof {
            assert(p =~= self.remaining().take(size as int));
        }
        if kind == 0x16 {
            let outcome = parse_pcs(self, pts, dts, size);
            proof {
                assert(s.skip(13).skip(size as int) =~= s.skip(13 + size as int));
                lemma_parse_pcs_bounds(p, pts, dts);
                if let Err((_e, n)) = spec_parse_pcs(p, pts, dts) {
                    assert(s.skip(13).skip(n) =~= s.skip(13 + n));
                }
            }
            match outcome {
                Ok(seg) => Ok(Segment::PresentationComposition(seg)),
                Err(e) => Err(e),
            }
        } else if kind == 0x17 {
            let outcome = parse_wds(self, pts, dts, size);
            proof {
                assert(s.skip(13).skip(size as int) =~= s.skip(13 + size as int));
                lemma_parse_wds_bounds(p, pts, dts);
                if let Err((_e, n)) = spec_parse_wds(p, pts, dts) {
                    assert(s.skip(13).skip(n) =~= s.skip(13 + n));
                }
            }
            match outcome {
                Ok(seg) => Ok(Segment::WindowDefinition(seg)),
                Err(e) => Err(e),
            }
        } else if kind == 0x14 {
            let outcome = parse_pds(self, pts, dts, size);
            proof {
                assert(s.skip(13).skip(size as int) =~= s.skip(13 + size as int));
                if let Err((_e, n)) = spec_parse_pds(p, pts, dts) {
                    assert(s.skip(13).skip(n) =~= s.skip(13 + n));
                }
            }
            match outcome {
                Ok(seg) => Ok(Segment::PaletteDefinition(seg)),
                Err(e) => Err(e),
            }
        } else if kind == 0x80 {
            self.skip_bytes(size as usize);
            proof {
                assert(s.skip(13).skip(size as int) =~= s.skip(13 + size as int));
            }
            Ok(Segment::End(EndSegment { pts, dts }))
        } else {
            if size < 2 {
                return Err(ReadError::UnexpectedEof);
            }
            let id = self.take_u16();
            if size < 3 {
                return Err(ReadError::UnexpectedEof);
            }
            let version = self.take_u8();
            if size < 4 {
                return Err(ReadError::UnexpectedEof);
            }
            let flag = self.take_u8();
            proof {
                assert(id == spec_u16_at(p, 0));
                assert(version == p[2]);
                assert(flag == p[3]);
                assert(self.remaining() == s.skip(17));
                assert(p.skip(4) =~= self.remaining().take(size - 4));
                assert(s.skip(17).skip(size - 4) =~= s.skip(13 + size as int));
            }
            let ghost t = p.skip(4);
            if flag == 0xC0 {
                let outcome = parse_sods(self, pts, dts, id, version, size);
                proof {
                    if let Err((_e, n)) = spec_parse_sods(t, pts, dts, id, version, size) {
                        assert(s.skip(17).skip(n) =~= s.skip(17 + n));
                    }
                }
                match outcome {
                    Ok(seg) => Ok(Segment::SingleObjectDefinition(seg)),
                    Err(e) => Err(e),
                }
            } else if flag == 0x80 {
                let outcome = parse_iods(self, pts, dts, id, version, size);
                proof {
                    if let Err((_e, n)) = spec_parse_iods(t, pts, dts, id, version) {
                        assert(s.skip(17).skip(n) =~= s.skip(17 + n));
                    }
                }
                match outcome {
                    Ok(seg) => Ok(Segment::InitialObjectDefinition(seg)),
                    Err(e) => Err(e),
                }
            } else if flag == 0x00 {
                let outcome = parse_mods(self, pts, dts, id, version, size);
                match outcome {
                    Ok(seg) => Ok(Segment::MiddleObjectDefinition(seg)),
                    Err(e) => Err(e),
                }
            } else if flag == 0x40 {
                let outcome = parse_fods(self, pts, dts, id, version, size);
                match outcome {
                    Ok(seg) => Ok(Segment::FinalObjectDefinition(seg)),
                    Err(e) => Err(e),
                }
            } else {
                Err(ReadError::UnrecognizedObjectSequenceFlag { parsed_sequence_flag: flag })
            }
        }
    }
}

} // verus!
