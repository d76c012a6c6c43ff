//! Emitting display sets: run-length compression and segment generation.
//!
//! A display set is deconstructed into segments in a fixed order — PCS, WDS
//! (omitted when there are no windows), one PDS per palette in ascending
//! (ID, version) order, the ODS run of each object in ascending (ID,
//! version) order, ES — and each object's scan lines are run-length
//! compressed on the way.
//!
//! The compressed image of an object that exceeds 65,508 bytes is split
//! into an initial portion of 65,508 data bytes, middle portions of 65,515
//! data bytes, and a final portion with the remainder. These two sizes are
//! part of the wire contract: they decide where split boundaries fall.

use vstd::prelude::*;
use crate::bytes::put_u8;
use crate::displayset::{DisplaySet, DisplaySetView, ObjectView, PaletteView, Vid};
use crate::segment::{
    CompositionObject as SegCompositionObject, FodsView, IodsView, ModsView, PaletteEntry as
    SegPaletteEntry, PcsView, PdsView, Segment, SegmentView, SodsView, WdsView, WindowDefinition,
};
use crate::segmentwrite::{WriteError as SegmentWriteError, WriteSegmentExt};

verus! {

/// The largest data portion an initial ODS can carry: the 65,535-byte
/// payload ceiling less its 27 bytes of header overhead.
pub const IODS_DATA_SIZE: usize = 65_508;

/// The largest data portion a middle or final ODS can carry: the
/// 65,535-byte payload ceiling less its 20 bytes of header overhead.
pub const MODS_DATA_SIZE: usize = 65_515;

/// The error type for [`WriteDisplaySetExt`].
#[derive(Clone, Copy, Debug, Eq, PartialEq, Structural)]
pub enum WriteError {
    /// A segment of the display set could not be written.
    SegmentError {
        /// The underlying segment error.
        source: SegmentWriteError,
    },
    /// An object has a scan line with a run of more than 16,383 equal
    /// pixels, which run-length encoding cannot hold.
    ObjectLineTooLong,
}

/// A specialized [`Result`](core::result::Result) type for display
/// set-writing operations.
pub type WriteResult<T> = Result<T, WriteError>;

/// The length of the maximal run of equal bytes at the front of a line.
pub open spec fn spec_run_len(line: Seq<u8>) -> int
    decreases line.len(),
{
    if line.len() <= 1 {
        line.len() as int
    } else if line[1] == line[0] {
        1 + spec_run_len(line.skip(1))
    } else {
        1
    }
}

/// The front run is nonempty, bounded by the line, made of the first byte,
/// and maximal.
pub proof fn lemma_run_len_bounds(line: Seq<u8>)
    requires
        line.len() > 0,
    ensures
        1 <= spec_run_len(line) <= line.len(),
        forall|l: int| 0 <= l < spec_run_len(line) ==> #[trigger] line[l] == line[0],
        spec_run_len(line) < line.len() ==> line[spec_run_len(line)] != line[0],
    decreases line.len(),
{
    if line.len() > 1 && line[1] == line[0] {
        lemma_run_len_bounds(line.skip(1));
        let r = spec_run_len(line);
        assert forall|l: int| 0 <= l < r implies #[trigger] line[l] == line[0] by {
            if l > 0 {
                assert(line.skip(1)[l - 1] == line[l]);
            }
        }
        if r < line.len() {
            assert(line.skip(1)[r - 1] == line[r]);
        }
    }
}

/// A run scan that stops at the first differing byte finds the front run.
pub proof fn lemma_run_len_is(s: Seq<u8>, k: int)
    requires
        1 <= k <= s.len(),
        forall|l: int| 0 <= l < k ==> #[trigger] s[l] == s[0],
        k == s.len() || s[k] != s[0],
    ensures
        spec_run_len(s) == k,
    decreases k,
{
    if k == 1 {
        if s.len() > 1 {
            assert(s[1] != s[0]);
        }
    } else {
        assert(s[1] == s[0]);
        assert forall|l: int| 0 <= l < k - 1 implies #[trigger] s.skip(1)[l] == s.skip(1)[0] by {
            assert(s.skip(1)[l] == s[l + 1]);
            assert(s.skip(1)[0] == s[1]);
        }
        if k - 1 < s.skip(1).len() {
            assert(s.skip(1)[k - 1] == s[k]);
            assert(s.skip(1)[k - 1] != s.skip(1)[0]);
        }
        lemma_run_len_is(s.skip(1), k - 1);
    }
}

/// The bytes that encode one run of `count` copies of `byte`, following
/// the format's four overlapping opcode families. Meaningful for `count`
/// between 1 and 16,383.
pub open spec fn spec_encode_run(byte: u8, count: int) -> Seq<u8> {
    if byte == 0 {
        if count <= 63 {
            seq![0u8, count as u8]
        } else {
            seq![0u8, (0x40 + count / 0x100) as u8, (count % 0x100) as u8]
        }
    } else {
        if count == 1 {
            seq![byte]
        } else if count == 2 {
            seq![byte, byte]
        } else if count <= 63 {
            seq![0u8, (0x80 + count) as u8, byte]
        } else {
            seq![0u8, (0xC0 + count / 0x100) as u8, (count % 0x100) as u8, byte]
        }
    }
}

/// Whether every run of a line fits the encoding's 16,383 ceiling.
pub open spec fn spec_line_ok(line: Seq<u8>) -> bool
    decreases line.len(),
    via spec_line_ok_decreases
{
    if line.len() == 0 {
        true
    } else {
        spec_run_len(line) <= 16_383 && spec_line_ok(line.skip(spec_run_len(line)))
    }
}

#[via_fn]
proof fn spec_line_ok_decreases(line: Seq<u8>) {
    if line.len() > 0 {
        lemma_run_len_bounds(line);
    }
}

/// The run-length encoding of one line, run by run.
pub open spec fn spec_compress_line(line: Seq<u8>) -> Seq<u8>
    decreases line.len(),
    via spec_compress_line_decreases
{
    if line.len() == 0 {
        Seq::<u8>::empty()
    } else {
        spec_encode_run(line[0], spec_run_len(line)) + spec_compress_line(
            line.skip(spec_run_len(line)),
        )
    }
}

#[via_fn]
proof fn spec_compress_line_decreases(line: Seq<u8>) {
    if line.len() > 0 {
        lemma_run_len_bounds(line);
    }
}

/// The run-length encoding of a sequence of lines: each line's encoding
/// followed by the two-byte line terminator.
pub open spec fn spec_compress_lines(lines: Seq<Seq<u8>>) -> Seq<u8>
    decreases lines.len(),
{
    if lines.len() == 0 {
        Seq::<u8>::empty()
    } else {
        spec_compress_line(lines[0]) + seq![0u8, 0u8] + spec_compress_lines(lines.skip(1))
    }
}

/// Whether every line of a sequence can be encoded.
pub open spec fn spec_lines_ok(lines: Seq<Seq<u8>>) -> bool {
    forall|i: int| 0 <= i < lines.len() ==> spec_line_ok(#[trigger] lines[i])
}

/// Appends the encoding of one run to the output. A run of zero bytes is
/// nothing and emits nothing; a run longer than 16,383 cannot be encoded.
pub fn output_rle_sequence(output: &mut Vec<u8>, byte: u8, count: usize) -> (r: WriteResult<()>)
    ensures
        count == 0 ==> r == Ok::<(), WriteError>(()) && final(output)@ == old(output)@,
        1 <= count <= 16_383 ==> r == Ok::<(), WriteError>(()) && final(output)@ == old(output)@
            + spec_encode_run(byte, count as int),
        count > 16_383 ==> r == Err::<(), WriteError>(WriteError::ObjectLineTooLong)
            && final(output)@ == old(output)@,
{
    if count == 0 {
        return Ok(());
    }
    if count > 16_383 {
        return Err(WriteError::ObjectLineTooLong);
    }
    if byte == 0x00 {
        if count <= 63 {
            put_u8(output, 0x00);
            put_u8(output, count as u8);
        } else {
            put_u8(output, 0x00);
            put_u8(output, 0x40 + (count / 0x100) as u8);
            put_u8(output, (count % 0x100) as u8);
        }
    } else {
        if count == 1 {
            put_u8(output, byte);
        } else if count == 2 {
            put_u8(output, byte);
            put_u8(output, byte);
        } else if count <= 63 {
            put_u8(output, 0x00);
            put_u8(output, 0x80 + count as u8);
            put_u8(output, byte);
        } else {
            put_u8(output, 0x00);
            put_u8(output, 0xC0 + (count / 0x100) as u8);
            put_u8(output, (count % 0x100) as u8);
            put_u8(output, byte);
        }
    }
    proof {
        assert(final(output)@ =~= old(output)@ + spec_encode_run(byte, count as int));
    }
    Ok(())
}

/// Run-length compresses a sequence of scan lines, line by line, each line
/// closed by the two-byte terminator. Fails when any line holds a run of
/// more than 16,383 equal bytes.
#[verifier::loop_isolation(false)]
#[verifier::rlimit(100)]
pub fn rle_compress(input: &Vec<Vec<u8>>) -> (r: WriteResult<Vec<u8>>)
    ensures
        ({
            let ls = crate::displayset::spec_lines_view(input@);
            match r {
                Ok(out) => spec_lines_ok(ls) && out@ == spec_compress_lines(ls),
                Err(e) => e == WriteError::ObjectLineTooLong && !spec_lines_ok(ls),
            }
        }),
{
    let ghost ls = crate::displayset::spec_lines_view(input@);
    let mut output: Vec<u8> = Vec::new();
    proof {
        assert(ls.skip(0) =~= ls);
        assert(Seq::<u8>::empty() + spec_compress_lines(ls) =~= spec_compress_lines(ls));
    }
    let mut li: usize = 0;
    while li < input.len()
        invariant
            li <= ls.len(),
            forall|j: int| 0 <= j < li ==> spec_line_ok(#[trigger] ls[j]),
            spec_compress_lines(ls) == output@ + spec_compress_lines(ls.skip(li as int)),
        decreases ls.len() - li,
    {
        let line = &input[li];
        let ghost lview = ls[li as int];
        proof {
            assert(lview == line@);
        }
        let ghost out_base = output@;
        proof {
            assert(output@.skip(out_base.len() as int) =~= Seq::<u8>::empty());
            assert(lview.skip(0) =~= lview);
            assert(Seq::<u8>::empty() + spec_compress_line(lview) =~= spec_compress_line(lview));
            assert(output@.take(out_base.len() as int) =~= out_base);
        }
        let mut i: usize = 0;
        while i < line.len()
            invariant
                i <= lview.len(),
                out_base.len() <= output@.len(),
                output@.take(out_base.len() as int) == out_base,
                spec_compress_line(lview) == output@.skip(out_base.len() as int)
                    + spec_compress_line(lview.skip(i as int)),
                spec_line_ok(lview) <==> spec_line_ok(lview.skip(i as int)),
            decreases lview.len() - i,
        {
            let ghost i0 = i as int;
            let b = line[i];
            let mut j: usize = i + 1;
            while j < line.len() && line[j] == b
                invariant
                    i < j <= lview.len(),
                    forall|l: int| i <= l < j ==> #[trigger] lview[l] == lview[i0],
                decreases lview.len() - j,
            {
                j = j + 1;
            }
            let count = j - i;
            proof {
                let s = lview.skip(i0);
                assert forall|l: int| 0 <= l < count implies #[trigger] s[l] == s[0] by {
                    assert(s[l] == lview[i0 + l]);
                    assert(s[0] == lview[i0]);
                }
                if (count as int) < s.len() {
                    assert(s[count as int] == lview[i0 + count]);
                }
                lemma_run_len_is(s, count as int);
                assert(s[0] == lview[i0]);
                assert(lview[i0] == b);
            }
            if count > 16_383 {
                proof {
                    assert(!spec_line_ok(lview.skip(i0)));
                    assert(!spec_line_ok(ls[li as int]));
                }
                return Err(WriteError::ObjectLineTooLong);
            }
            let ghost out_before = output@;
            match output_rle_sequence(&mut output, b, count) {
                Ok(()) => {},
                Err(e) => {
                    return Err(e);
                },
            }
            proof {
                let s = lview.skip(i0);
                assert(spec_compress_line(s) == spec_encode_run(b, count as int)
                    + spec_compress_line(s.skip(count as int)));
                assert(s.skip(count as int) =~= lview.skip(j as int));
                assert(output@.skip(out_base.len() as int) =~= out_before.skip(
                    out_base.len() as int,
                ) + spec_encode_run(b, count as int));
                assert((out_before.skip(out_base.len() as int) + spec_encode_run(b, count as int))
                    + spec_compress_line(lview.skip(j as int)) =~= out_before.skip(
                    out_base.len() as int,
                ) + (spec_encode_run(b, count as int) + spec_compress_line(lview.skip(j as int))));
                assert(output@.take(out_base.len() as int) =~= out_base);
            }
            i = j;
        }
        put_u8(&mut output, 0x00);
        put_u8(&mut output, 0x00);
        proof {
            assert(lview.skip(lview.len() as int) =~= Seq::<u8>::empty());
            assert(spec_compress_lines(ls.skip(li as int)) == spec_compress_line(lview) + seq![
                0u8,
                0u8,
            ] + spec_compress_lines(ls.skip(li as int).skip(1)));
            assert(ls.skip(li as int).skip(1) =~= ls.skip(li + 1));
            assert(output@ =~= out_base + (spec_compress_line(lview) + seq![0u8, 0u8]));
            assert(spec_compress_lines(ls) =~= output@ + spec_compress_lines(ls.skip(li + 1)));
        }
        li = li + 1;
    }
    proof {
        assert(ls.skip(ls.len() as int) =~= Seq::<Seq<u8>>::empty());
        assert(output@ =~= spec_compress_lines(ls));
    }
    Ok(output)
}

/// The segment-level composition objects of a display set's composition,
/// in ascending compound-ID order.
pub open spec fn spec_cos_of(
    objs: Seq<(crate::displayset::Cid, crate::displayset::CompositionObject)>,
) -> Seq<SegCompositionObject> {
    objs.map_values(
        |p: (crate::displayset::Cid, crate::displayset::CompositionObject)|
            SegCompositionObject {
                object_id: p.0.object_id,
                window_id: p.0.window_id,
                x: p.1.x,
                y: p.1.y,
                forced: p.1.forced,
                crop: p.1.crop,
            },
    )
}

/// The PCS a display set emits.
pub open spec fn spec_pcs_of(d: DisplaySetView) -> PcsView {
    PcsView {
        pts: d.pts,
        dts: d.dts,
        width: d.width,
        height: d.height,
        frame_rate: d.frame_rate,
        composition_number: d.composition.number,
        composition_state: d.composition.state,
        palette_update_id: d.palette_update_id,
        composition_objects: spec_cos_of(d.composition.objects),
    }
}

/// The WDS a display set with windows emits.
pub open spec fn spec_wds_of(d: DisplaySetView) -> WdsView {
    WdsView {
        pts: d.pts,
        dts: d.dts,
        windows: d.windows.map_values(
            |p: (u8, crate::displayset::Window)|
                WindowDefinition {
                    id: p.0,
                    x: p.1.x,
                    y: p.1.y,
                    width: p.1.width,
                    height: p.1.height,
                },
        ),
    }
}

/// The PDS one palette emits.
pub open spec fn spec_pds_of(pts: u32, dts: u32, vid: Vid<u8>, pal: PaletteView) -> PdsView {
    PdsView {
        pts,
        dts,
        id: vid.id,
        version: vid.version,
        entries: pal.entries.map_values(
            |p: (u8, crate::displayset::PaletteEntry)|
                SegPaletteEntry { id: p.0, y: p.1.y, cr: p.1.cr, cb: p.1.cb, alpha: p.1.alpha },
        ),
    }
}

/// One PDS per palette, in ascending (ID, version) order.
pub open spec fn spec_pds_segments(
    pts: u32,
    dts: u32,
    pals: Seq<(Vid<u8>, PaletteView)>,
) -> Seq<SegmentView> {
    pals.map_values(
        |p: (Vid<u8>, PaletteView)| SegmentView::PaletteDefinition(spec_pds_of(pts, dts, p.0, p.1)),
    )
}

/// The middle and final portions of a split object: middles of
/// [`MODS_DATA_SIZE`] bytes, then the final portion with the remainder.
pub open spec fn spec_middle_segments(
    pts: u32,
    dts: u32,
    vid: Vid<u16>,
    rem: Seq<u8>,
) -> Seq<SegmentView>
    decreases rem.len(),
{
    if rem.len() <= MODS_DATA_SIZE {
        seq![
            SegmentView::FinalObjectDefinition(
                FodsView { pts, dts, id: vid.id, version: vid.version, data: rem },
            ),
        ]
    } else {
        seq![
            SegmentView::MiddleObjectDefinition(
                ModsView {
                    pts,
                    dts,
                    id: vid.id,
                    version: vid.version,
                    data: rem.take(MODS_DATA_SIZE as int),
                },
            ),
        ] + spec_middle_segments(pts, dts, vid, rem.skip(MODS_DATA_SIZE as int))
    }
}

/// The ODS run one object emits: a single ODS when its compressed image
/// fits [`IODS_DATA_SIZE`], else an initial portion of that size followed
/// by the middle and final portions.
pub open spec fn spec_object_segments(
    pts: u32,
    dts: u32,
    vid: Vid<u16>,
    o: ObjectView,
) -> Seq<SegmentView> {
    let data = spec_compress_lines(o.lines);
    if data.len() <= IODS_DATA_SIZE {
        seq![
            SegmentView::SingleObjectDefinition(
                SodsView {
                    pts,
                    dts,
                    id: vid.id,
                    version: vid.version,
                    width: o.width,
                    height: o.height,
                    data,
                },
            ),
        ]
    } else {
        seq![
            SegmentView::InitialObjectDefinition(
                IodsView {
                    pts,
                    dts,
                    id: vid.id,
                    version: vid.version,
                    length: (data.len() + 4) as usize,
                    width: o.width,
                    height: o.height,
                    data: data.take(IODS_DATA_SIZE as int),
                },
            ),
        ] + spec_middle_segments(pts, dts, vid, data.skip(IODS_DATA_SIZE as int))
    }
}

/// The ODS runs of all objects, in ascending (ID, version) order.
pub open spec fn spec_objects_segments(
    pts: u32,
    dts: u32,
    objs: Seq<(Vid<u16>, ObjectView)>,
) -> Seq<SegmentView>
    decreases objs.len(),
{
    if objs.len() == 0 {
        Seq::<SegmentView>::empty()
    } else {
        spec_object_segments(pts, dts, objs[0].0, objs[0].1) + spec_objects_segments(
            pts,
            dts,
            objs.skip(1),
        )
    }
}

/// Whether every object's scan lines can be run-length encoded.
pub open spec fn spec_objects_ok(objs: Seq<(Vid<u16>, ObjectView)>) -> bool {
    forall|i: int| 0 <= i < objs.len() ==> spec_lines_ok((#[trigger] objs[i]).1.lines)
}

/// A machine limit: each object's compressed image leaves room to count
/// four bytes of header overhead without overflowing a `usize`.
pub open spec fn spec_ds_data_fits(d: DisplaySetView) -> bool {
    forall|i: int|
        0 <= i < d.objects.len() ==> spec_compress_lines((#[trigger] d.objects[i]).1.lines).len()
            + 4 <= usize::MAX
}

/// The segments a display set deconstructs into: PCS, WDS (omitted when
/// there are no windows), the PDS run, the ODS runs, ES.
pub open spec fn spec_to_segments(d: DisplaySetView) -> Result<Seq<SegmentView>, WriteError> {
    if !spec_objects_ok(d.objects) {
        Err(WriteError::ObjectLineTooLong)
    } else {
        Ok(
            seq![SegmentView::PresentationComposition(spec_pcs_of(d))] + (if d.windows.len() == 0 {
                Seq::<SegmentView>::empty()
            } else {
                seq![SegmentView::WindowDefinition(spec_wds_of(d))]
            }) + spec_pds_segments(d.pts, d.dts, d.palettes) + spec_objects_segments(
                d.pts,
                d.dts,
                d.objects,
            ) + seq![
                SegmentView::End(crate::segment::EndSegment { pts: d.pts, dts: d.dts }),
            ],
        )
    }
}

/// The models of a run of segments.
pub open spec fn spec_segments_view(s: Seq<Segment>) -> Seq<SegmentView> {
    s.map_values(|x: Segment| x@)
}

impl DisplaySet {
    /// Deconstructs this display set into the segments that carry it, as
    /// [`spec_to_segments`] describes. Fails when an object holds a scan
    /// line that run-length encoding cannot hold.
    #[verifier::loop_isolation(false)]
    #[verifier::rlimit(100)]
    pub fn to_segments(&self) -> (r: WriteResult<Vec<Segment>>)
        requires
            spec_ds_data_fits(self@),
        ensures
            match spec_to_segments(self@) {
                Ok(ms) => r matches Ok(segs) && spec_segments_view(segs@) == ms,
                Err(e) => r == Err::<Vec<Segment>, WriteError>(e),
            },
    {
        let ghost d = self@;
        let mut segments: Vec<Segment> = Vec::new();
        let mut composition_objects: Vec<SegCompositionObject> = Vec::new();
        let mut ci: usize = 0;
        while ci < self.composition.objects.len()
            invariant
                ci <= d.composition.objects.len(),
                composition_objects@ == spec_cos_of(d.composition.objects.take(ci as int)),
            decreases d.composition.objects.len() - ci,
        {
            let pair = self.composition.objects.entry_at(ci);
            let crop = match &pair.1.crop {
                Some(c) => Some(
                    crate::segment::Crop { x: c.x, y: c.y, width: c.width, height: c.height },
                ),
                None => None,
            };
            composition_objects.push(
                SegCompositionObject {
                    object_id: pair.0.object_id,
                    window_id: pair.0.window_id,
                    x: pair.1.x,
                    y: pair.1.y,
                    forced: pair.1.forced,
                    crop,
                },
            );
            ci = ci + 1;
            proof {
                assert(composition_objects@ =~= spec_cos_of(
                    d.composition.objects.take(ci as int),
                ));
            }
        }
        proof {
            assert(d.composition.objects.take(d.composition.objects.len() as int)
                =~= d.composition.objects);
        }
        segments.push(
            Segment::PresentationComposition(
                crate::segment::PresentationCompositionSegment {
                    pts: self.pts,
                    dts: self.dts,
                    width: self.width,
                    height: self.height,
                    frame_rate: self.frame_rate,
                    composition_number: self.composition.number,
                    composition_state: self.composition.state,
                    palette_update_id: self.palette_update_id,
                    composition_objects,
                },
            ),
        );
        if !self.windows.is_empty() {
            let mut windows: Vec<WindowDefinition> = Vec::new();
            let mut wi: usize = 0;
            while wi < self.windows.len()
                invariant
                    wi <= d.windows.len(),
                    windows@ == spec_wds_of(d).windows.take(wi as int),
                decreases d.windows.len() - wi,
            {
                let pair = self.windows.entry_at(wi);
                windows.push(
                    WindowDefinition {
                        id: pair.0,
                        x: pair.1.x,
                        y: pair.1.y,
                        width: pair.1.width,
                        height: pair.1.height,
                    },
                );
                wi = wi + 1;
                proof {
                    assert(windows@ =~= spec_wds_of(d).windows.take(wi as int));
                }
            }
            proof {
                assert(spec_wds_of(d).windows.take(d.windows.len() as int) =~= spec_wds_of(
                    d,
                ).windows);
            }
            segments.push(
                Segment::WindowDefinition(
                    crate::segment::WindowDefinitionSegment {
                        pts: self.pts,
                        dts: self.dts,
                        windows,
                    },
                ),
            );
        }
        let ghost head = seq![SegmentView::PresentationComposition(spec_pcs_of(d))] + (
        if d.windows.len() == 0 {
            Seq::<SegmentView>::empty()
        } else {
            seq![SegmentView::WindowDefinition(spec_wds_of(d))]
        });
        proof {
            assert(spec_segments_view(segments@) =~= head);
        }
        let mut pi: usize = 0;
        while pi < self.palettes.len()
            invariant
                pi <= d.palettes.len(),
                spec_segments_view(segments@) == head + spec_pds_segments(
                    d.pts,
                    d.dts,
                    d.palettes,
                ).take(pi as int),
            decreases d.palettes.len() - pi,
        {
            let pair = self.palettes.entry_at(pi);
            let ghost pview = d.palettes[pi as int];
            let mut entries: Vec<SegPaletteEntry> = Vec::new();
            let mut ei: usize = 0;
            while ei < pair.1.entries.len()
                invariant
                    ei <= pview.1.entries.len(),
                    pair.1.entries@ == pview.1.entries,
                    entries@ == spec_pds_of(d.pts, d.dts, pview.0, pview.1).entries.take(ei as int),
                decreases pview.1.entries.len() - ei,
            {
                let e = pair.1.entries.entry_at(ei);
                entries.push(
                    SegPaletteEntry {
                        id: e.0,
                        y: e.1.y,
                        cr: e.1.cr,
                        cb: e.1.cb,
                        alpha: e.1.alpha,
                    },
                );
                ei = ei + 1;
                proof {
                    assert(entries@ =~= spec_pds_of(d.pts, d.dts, pview.0, pview.1).entries.take(
                        ei as int,
                    ));
                }
            }
            let ghost eview = entries@;
            proof {
                assert(spec_pds_of(d.pts, d.dts, pview.0, pview.1).entries.take(
                    pview.1.entries.len() as int,
                ) =~= spec_pds_of(d.pts, d.dts, pview.0, pview.1).entries);
                assert(eview == spec_pds_of(d.pts, d.dts, pview.0, pview.1).entries);
                assert(pview.0 == self.palettes@[pi as int].0);
                assert(pair.0 == pview.0);
            }
            let ghost segs_before = segments@;
            segments.push(
                Segment::PaletteDefinition(
                    crate::segment::PaletteDefinitionSegment {
                        pts: self.pts,
                        dts: self.dts,
                        id: pair.0.id,
                        version: pair.0.version,
                        entries,
                    },
                ),
            );
            let ghost pi0 = pi as int;
            pi = pi + 1;
            proof {
                assert(segments@[segments@.len() - 1]@ == SegmentView::PaletteDefinition(
                    crate::segment::PdsView {
                        pts: d.pts,
                        dts: d.dts,
                        id: pview.0.id,
                        version: pview.0.version,
                        entries: eview,
                    },
                ));
                assert(pview == d.palettes[pi0]);
                assert(spec_pds_segments(d.pts, d.dts, d.palettes)[pi0]
                    == SegmentView::PaletteDefinition(spec_pds_of(d.pts, d.dts, pview.0, pview.1)));
                assert(segments@[segments@.len() - 1]@ == spec_pds_segments(
                    d.pts,
                    d.dts,
                    d.palettes,
                )[pi0]);
                let lhs = spec_segments_view(segments@);
                let rhs = head + spec_pds_segments(d.pts, d.dts, d.palettes).take(pi0 + 1);
                assert(lhs.len() == segs_before.len() + 1);
                assert(rhs.len() == head.len() + pi0 + 1);
                assert(segs_before.len() == head.len() + pi0);
                assert forall|ii: int| 0 <= ii < lhs.len() implies lhs[ii] == rhs[ii] by {
                    if ii < segs_before.len() {
                        assert(segments@[ii] == segs_before[ii]);
                        assert(lhs[ii] == spec_segments_view(segs_before)[ii]);
                        assert(spec_segments_view(segs_before)[ii] == (head + spec_pds_segments(
                            d.pts,
                            d.dts,
                            d.palettes,
                        ).take(pi0))[ii]);
                        if ii < head.len() {
                        } else {
                            assert(spec_pds_segments(d.pts, d.dts, d.palettes).take(pi0)[ii
                                - head.len()] == spec_pds_segments(d.pts, d.dts, d.palettes)[ii
                                - head.len()]);
                            assert(spec_pds_segments(d.pts, d.dts, d.palettes).take(pi0 + 1)[ii
                                - head.len()] == spec_pds_segments(d.pts, d.dts, d.palettes)[ii
                                - head.len()]);
                        }
                    } else {
                        assert(lhs[ii] == segments@[segments@.len() - 1]@);
                        assert(rhs[ii] == spec_pds_segments(d.pts, d.dts, d.palettes).take(
                            pi0 + 1,
                        )[pi0]);
                    }
                }
                assert(lhs =~= rhs);
            }
        }
        let ghost head2 = head + spec_pds_segments(d.pts, d.dts, d.palettes);
        proof {
            assert(spec_pds_segments(d.pts, d.dts, d.palettes).take(d.palettes.len() as int)
                =~= spec_pds_segments(d.pts, d.dts, d.palettes));
        }
        proof {
            assert(d.objects.skip(0) =~= d.objects);
        }
        let mut oi: usize = 0;
        while oi < self.objects.len()
            invariant
                oi <= d.objects.len(),
                forall|j: int| 0 <= j < oi ==> spec_lines_ok((#[trigger] d.objects[j]).1.lines),
                spec_segments_view(segments@) + spec_objects_segments(
                    d.pts,
                    d.dts,
                    d.objects.skip(oi as int),
                ) == head2 + spec_objects_segments(d.pts, d.dts, d.objects),
            decreases d.objects.len() - oi,
        {
            let ghost oi0 = oi as int;
            let pair = self.objects.entry_at(oi);
            let ghost oview = d.objects[oi0];
            proof {
                assert(oview.1.lines == crate::displayset::spec_lines_view(pair.1.lines@));
            }
            let data = match rle_compress(&pair.1.lines) {
                Ok(data) => data,
                Err(e) => {
                    proof {
                        assert(!spec_lines_ok(oview.1.lines));
                    }
                    return Err(e);
                },
            };
            let ghost dataview = data@;
            let ghost before = spec_segments_view(segments@);
            proof {
                assert(d.objects.skip(oi0)[0] == d.objects[oi0]);
                assert(d.objects.skip(oi0).skip(1) =~= d.objects.skip(oi0 + 1));
                assert(spec_objects_segments(d.pts, d.dts, d.objects.skip(oi0))
                    == spec_object_segments(d.pts, d.dts, oview.0, oview.1)
                    + spec_objects_segments(d.pts, d.dts, d.objects.skip(oi0 + 1)));
            }
            if data.len() > IODS_DATA_SIZE {
                let total = data.len();
                let length = total + 4;
                let initial_data = crate::bytes::copy_range(&data, 0, IODS_DATA_SIZE);
                proof {
                    assert(initial_data@ =~= dataview.take(IODS_DATA_SIZE as int));
                }
                segments.push(
                    Segment::InitialObjectDefinition(
                        crate::segment::InitialObjectDefinitionSegment {
                            pts: self.pts,
                            dts: self.dts,
                            id: pair.0.id,
                            version: pair.0.version,
                            length,
                            width: pair.1.width,
                            height: pair.1.height,
                            data: initial_data,
                        },
                    ),
                );
                let mut index: usize = IODS_DATA_SIZE;
                let mut size: usize = total - IODS_DATA_SIZE;
                proof {
                    assert(spec_segments_view(segments@) =~= before + seq![
                        spec_object_segments(d.pts, d.dts, oview.0, oview.1)[0],
                    ]);
                }
                while size > MODS_DATA_SIZE
                    invariant
                        index + size == total,
                        IODS_DATA_SIZE <= index,
                        1 <= size,
                        spec_segments_view(segments@) + spec_middle_segments(
                            d.pts,
                            d.dts,
                            oview.0,
                            dataview.skip(index as int),
                        ) == before + spec_object_segments(d.pts, d.dts, oview.0, oview.1),
                    decreases size,
                {
                    let piece = crate::bytes::copy_range(&data, index, index + MODS_DATA_SIZE);
                    proof {
                        assert(piece@ =~= dataview.skip(index as int).take(MODS_DATA_SIZE as int));
                        assert(dataview.skip(index as int).skip(MODS_DATA_SIZE as int)
                            =~= dataview.skip(index + MODS_DATA_SIZE));
                    }
                    segments.push(
                        Segment::MiddleObjectDefinition(
                            crate::segment::MiddleObjectDefinitionSegment {
                                pts: self.pts,
                                dts: self.dts,
                                id: pair.0.id,
                                version: pair.0.version,
                                data: piece,
                            },
                        ),
                    );
                    index = index + MODS_DATA_SIZE;
                    size = size - MODS_DATA_SIZE;
                    proof {
                        assert(spec_segments_view(segments@) + spec_middle_segments(
                            d.pts,
                            d.dts,
                            oview.0,
                            dataview.skip(index as int),
                        ) =~= before + spec_object_segments(d.pts, d.dts, oview.0, oview.1));
                    }
                }
                let final_data = crate::bytes::copy_range(&data, index, total);
                proof {
                    assert(final_data@ =~= dataview.skip(index as int));
                }
                segments.push(
                    Segment::FinalObjectDefinition(
                        crate::segment::FinalObjectDefinitionSegment {
                            pts: self.pts,
                            dts: self.dts,
                            id: pair.0.id,
                            version: pair.0.version,
                            data: final_data,
                        },
                    ),
                );
                proof {
                    assert(spec_segments_view(segments@) =~= before + spec_object_segments(
                        d.pts,
                        d.dts,
                        oview.0,
                        oview.1,
                    ));
                }
            } else {
                segments.push(
                    Segment::SingleObjectDefinition(
                        crate::segment::SingleObjectDefinitionSegment {
                            pts: self.pts,
                            dts: self.dts,
                            id: pair.0.id,
                            version: pair.0.version,
                            width: pair.1.width,
                            height: pair.1.height,
                            data,
                        },
                    ),
                );
                proof {
                    assert(spec_segments_view(segments@) =~= before + spec_object_segments(
                        d.pts,
                        d.dts,
                        oview.0,
                        oview.1,
                    ));
                }
            }
            oi = oi + 1;
        }
        proof {
            assert(d.objects.skip(d.objects.len() as int) =~= Seq::<(Vid<u16>, ObjectView)>::empty());
            assert(spec_segments_view(segments@) =~= head2 + spec_objects_segments(
                d.pts,
                d.dts,
                d.objects,
            ));
        }
        segments.push(
            Segment::End(crate::segment::EndSegment { pts: self.pts, dts: self.dts }),
        );
        proof {
            assert(spec_segments_view(segments@) =~= spec_to_segments(d)->Ok_0);
        }
        Ok(segments)
    }
}

/// The bytes a run of segments writes, and the error that stopped it, if
/// any: each valid segment appends its whole wire image; the first segment
/// the wire format cannot hold appends nothing and stops the run.
pub open spec fn spec_write_run(segs: Seq<SegmentView>) -> (Seq<u8>, Option<SegmentWriteError>)
    decreases segs.len(),
{
    if segs.len() == 0 {
        (Seq::<u8>::empty(), None::<SegmentWriteError>)
    } else if !crate::segmentwrite::spec_write_ok(segs[0]) {
        (Seq::<u8>::empty(), Some(crate::segmentwrite::spec_write_err(segs[0])))
    } else {
        let rest = spec_write_run(segs.skip(1));
        (crate::segmentwrite::spec_segment_bytes(segs[0]) + rest.0, rest.1)
    }
}

/// Allows writing display sets to a byte sink.
pub trait WriteDisplaySetExt: WriteSegmentExt {
    /// Deconstructs a display set into segments, as [`spec_to_segments`]
    /// describes, and writes them in order. Stops at the first segment the
    /// wire format cannot hold, reporting its error with nothing of that
    /// segment in the sink; an object line that run-length encoding cannot
    /// hold is reported before anything is written.
    fn write_display_set(&mut self, display_set: DisplaySet) -> (r: WriteResult<()>)
        requires
            spec_ds_data_fits(display_set@),
        ensures
            match spec_to_segments(display_set@) {
                Err(e) => r == Err::<(), WriteError>(e) && final(self).sink() == old(self).sink(),
                Ok(ms) => ({
                    let run = spec_write_run(ms);
                    final(self).sink() == old(self).sink() + run.0 && (match run.1 {
                        None => r == Ok::<(), WriteError>(()),
                        Some(e) => r == Err::<(), WriteError>(
                            WriteError::SegmentError { source: e },
                        ),
                    })
                }),
            },
    ;
}

impl WriteDisplaySetExt for Vec<u8> {
    #[verifier::loop_isolation(false)]
    #[verifier::rlimit(100)]
    fn write_display_set(&mut self, display_set: DisplaySet) -> (r: WriteResult<()>) {
        let segments = match display_set.to_segments() {
            Ok(s) => s,
            Err(e) => {
                return Err(e);
            },
        };
        let ghost ms = spec_segments_view(segments@);
        let ghost base = self@;
        proof {
            assert(ms.skip(0) =~= ms);
            assert(self@.skip(base.len() as int) =~= Seq::<u8>::empty());
            assert(Seq::<u8>::empty() + spec_write_run(ms).0 =~= spec_write_run(ms).0);
            assert(self@.take(base.len() as int) =~= base);
        }
        let mut i: usize = 0;
        while i < segments.len()
            invariant
                i <= ms.len(),
                base.len() <= self@.len(),
                self@.take(base.len() as int) == base,
                spec_write_run(ms).0 == self@.skip(base.len() as int) + spec_write_run(
                    ms.skip(i as int),
                ).0,
                spec_write_run(ms).1 == spec_write_run(ms.skip(i as int)).1,
            decreases ms.len() - i,
        {
            let ghost i0 = i as int;
            let ghost sink_before = self@;
            let outcome = self.write_segment(&segments[i]);
            proof {
                assert(ms.skip(i0)[0] == ms[i0]);
                assert(ms[i0] == segments@[i0]@);
                assert(ms.skip(i0).skip(1) =~= ms.skip(i0 + 1));
            }
            match outcome {
                Ok(()) => {
                    proof {
                        assert(crate::segmentwrite::spec_write_ok(ms[i0]));
                        assert(self@.skip(base.len() as int) =~= sink_before.skip(
                            base.len() as int,
                        ) + crate::segmentwrite::spec_segment_bytes(ms[i0]));
                        assert((sink_before.skip(base.len() as int)
                            + crate::segmentwrite::spec_segment_bytes(ms[i0])) + spec_write_run(
                            ms.skip(i0 + 1),
                        ).0 =~= sink_before.skip(base.len() as int) + (
                        crate::segmentwrite::spec_segment_bytes(ms[i0]) + spec_write_run(
                            ms.skip(i0 + 1),
                        ).0));
                        assert(self@.take(base.len() as int) =~= base);
                    }
                },
                Err(e) => {
                    proof {
                        assert(!crate::segmentwrite::spec_write_ok(ms[i0]));
                        assert(e == crate::segmentwrite::spec_write_err(ms[i0]));
                        assert(self@ == sink_before);
                        assert(spec_write_run(ms.skip(i0)).0 =~= Seq::<u8>::empty());
                        assert(spec_write_run(ms).0 =~= self@.skip(base.len() as int));
                        assert(self@ =~= base + self@.skip(base.len() as int));
                    }
                    return Err(WriteError::SegmentError { source: e });
                },
            }
            i = i + 1;
        }
        proof {
            assert(ms.skip(ms.len() as int) =~= Seq::<SegmentView>::empty());
            assert(spec_write_run(ms).0 =~= self@.skip(base.len() as int));
            assert(self@ =~= base + self@.skip(base.len() as int));
        }
        Ok(())
    }
}

} // verus!
