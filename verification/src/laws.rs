//! The laws the codec obeys, stated as proof functions.
//!
//! Each public proof function here is a statement about the spec-level
//! codecs that the executable functions are proved against: reading back
//! what was written yields the entity written, and malformed input is
//! rejected exactly as the parsing specs describe.

use vstd::prelude::*;
use crate::bytes::{
    lemma_u16_be_at, lemma_u24_be_at, lemma_u32_be_at, spec_u16_at, spec_u16_be, spec_u24_be,
    spec_u32_at, spec_u32_be,
};
use crate::segment::{
    CompositionObject, CompositionState, PaletteEntry, PcsView, PdsView, SegmentView,
    WindowDefinition,
};
use crate::segmentread::{
    spec_parse_cos, spec_parse_entries, spec_parse_iods, spec_parse_pcs, spec_parse_pds,
    spec_parse_sods, spec_parse_wds, spec_parse_windows, spec_read_segment, ReadError,
};
use crate::displayset::{
    lemma_put_append, spec_object_dims_ok, MapKey, spec_has_key, spec_put, spec_sorted, Cid,
    CompositionObject as
    DsCompositionObject, DisplaySetView, ObjectView, PaletteEntry as DsPaletteEntry, PaletteView,
    Vid, Window,
};
use crate::displaysetread::{
    spec_add_windows, spec_assemble, spec_collect, spec_cos_fold, spec_entries_fold, spec_finish,
    spec_has_palette_id, spec_init_state, spec_read_display_set, spec_rle_decode, spec_try_from,
    AssemblyState, ParseError, PendingView, ReadError as DsReadError, Sequence,
};
use crate::displaysetwrite::spec_write_run;
use crate::displaysetwrite::{
    spec_compress_lines as compress_lines, spec_cos_of, spec_middle_segments,
    spec_object_segments, spec_objects_ok, spec_objects_segments, spec_pcs_of, spec_pds_of,
    spec_pds_segments, spec_to_segments, spec_wds_of, IODS_DATA_SIZE, MODS_DATA_SIZE,
};
use crate::displaysetwrite::{
    lemma_run_len_bounds, spec_compress_line, spec_compress_lines, spec_encode_run, spec_line_ok,
    spec_lines_ok, spec_run_len,
};
use crate::segmentwrite::{
    spec_co_bytes, spec_co_flags, spec_cos_bytes, spec_entries_bytes, spec_entry_bytes,
    spec_payload, spec_pcs_payload, spec_pds_payload, spec_segment_bytes, spec_segment_valid,
    spec_state_byte, spec_wds_payload, spec_window_bytes, spec_windows_bytes,
};

verus! {

broadcast use crate::bytes::group_be_lens;

/// Parsing a run of encoded composition-object records that fills the rest
/// of the payload yields the records again.
proof fn lemma_parse_cos_encoded(p: Seq<u8>, off: int, cos: Seq<CompositionObject>)
    requires
        0 <= off,
        off + spec_cos_bytes(cos).len() == p.len(),
        p.subrange(off, p.len() as int) == spec_cos_bytes(cos),
    ensures
        spec_parse_cos(p, off, cos.len() as int) == Ok::<(Seq<CompositionObject>, int), (
            ReadError,
            int,
        )>((cos, p.len() as int)),
    decreases cos.len(),
{
    if cos.len() == 0 {
        assert(cos =~= Seq::<CompositionObject>::empty());
    } else {
        let co = cos[0];
        let cob = spec_co_bytes(co);
        assert(seq![co.window_id, spec_co_flags(co)].len() == 2);
        let reclen = cob.len() as int;
        let tail = spec_cos_bytes(cos.skip(1));
        assert(spec_cos_bytes(cos) == cob + tail);
        assert(p.subrange(off, off + reclen) =~= cob);
        assert(p[off] == p.subrange(off, off + reclen)[0]);
        assert(p[off + 1] == p.subrange(off, off + reclen)[1]);
        assert(p[off + 2] == p.subrange(off, off + reclen)[2]);
        assert(p[off + 3] == p.subrange(off, off + reclen)[3]);
        assert(p[off + 4] == p.subrange(off, off + reclen)[4]);
        assert(p[off + 5] == p.subrange(off, off + reclen)[5]);
        assert(p[off + 6] == p.subrange(off, off + reclen)[6]);
        assert(p[off + 7] == p.subrange(off, off + reclen)[7]);
        // the fixed eight bytes of the record
        assert(p.subrange(off, off + 2) =~= spec_u16_be(co.object_id));
        lemma_u16_be_at(p, off, co.object_id);
        assert(p[off + 2] == co.window_id);
        assert(p[off + 3] == spec_co_flags(co));
        assert(p.subrange(off + 4, off + 6) =~= spec_u16_be(co.x));
        lemma_u16_be_at(p, off + 4, co.x);
        assert(p.subrange(off + 6, off + 8) =~= spec_u16_be(co.y));
        lemma_u16_be_at(p, off + 6, co.y);
        let flags = spec_co_flags(co);
        assert((flags / 0x40) % 2 == 1 <==> co.forced);
        assert(flags / 0x80 >= 1 <==> co.crop is Some);
        let off2 = if co.crop is Some {
            off + 16
        } else {
            off + 8
        };
        match co.crop {
            Some(c) => {
                assert(reclen == 16);
                assert(p.len() - (off + 8) >= 8);
                assert(p[off + 8] == p.subrange(off, off + reclen)[8]);
                assert(p[off + 9] == p.subrange(off, off + reclen)[9]);
                assert(p[off + 10] == p.subrange(off, off + reclen)[10]);
                assert(p[off + 11] == p.subrange(off, off + reclen)[11]);
                assert(p[off + 12] == p.subrange(off, off + reclen)[12]);
                assert(p[off + 13] == p.subrange(off, off + reclen)[13]);
                assert(p[off + 14] == p.subrange(off, off + reclen)[14]);
                assert(p[off + 15] == p.subrange(off, off + reclen)[15]);
                assert(p.subrange(off + 8, off + 10) =~= spec_u16_be(c.x));
                lemma_u16_be_at(p, off + 8, c.x);
                assert(p.subrange(off + 10, off + 12) =~= spec_u16_be(c.y));
                lemma_u16_be_at(p, off + 10, c.y);
                assert(p.subrange(off + 12, off + 14) =~= spec_u16_be(c.width));
                lemma_u16_be_at(p, off + 12, c.width);
                assert(p.subrange(off + 14, off + 16) =~= spec_u16_be(c.height));
                lemma_u16_be_at(p, off + 14, c.height);
            },
            None => {
                assert(reclen == 8);
            },
        }
        assert forall|j: int| off2 <= j < p.len() implies p[j] == tail[j - off2] by {
            assert(p[j] == p.subrange(off, p.len() as int)[j - off]);
        }
        assert(p.subrange(off2, p.len() as int) =~= tail);
        lemma_parse_cos_encoded(p, off2, cos.skip(1));
        assert(spec_parse_cos(p, off2, cos.len() as int - 1) == Ok::<(Seq<CompositionObject>, int),
            (ReadError, int)>((cos.skip(1), p.len() as int)));
        assert(seq![co] + cos.skip(1) =~= cos);
    }
}

/// Parsing an encoded PCS payload yields the PCS again.
proof fn lemma_parse_pcs_encoded(v: PcsView)
    requires
        v.composition_objects.len() <= 255,
    ensures
        spec_parse_pcs(spec_pcs_payload(v), v.pts, v.dts) == Ok::<PcsView, (ReadError, int)>(v),
{
    let p = spec_pcs_payload(v);
    let cosb = spec_cos_bytes(v.composition_objects);
    assert(p.len() == 11 + cosb.len());
    assert(p.subrange(0, 2) =~= spec_u16_be(v.width));
    lemma_u16_be_at(p, 0, v.width);
    assert(p.subrange(2, 4) =~= spec_u16_be(v.height));
    lemma_u16_be_at(p, 2, v.height);
    assert(p[4] == v.frame_rate);
    assert(p.subrange(5, 7) =~= spec_u16_be(v.composition_number));
    lemma_u16_be_at(p, 5, v.composition_number);
    assert(p[7] == spec_state_byte(v.composition_state));
    match v.palette_update_id {
        Some(id) => {
            assert(p[8] == 0x80);
            assert(p[9] == id);
        },
        None => {
            assert(p[8] == 0x00);
        },
    }
    assert(p[10] == v.composition_objects.len() % 0x100);
    assert(p[10] as int == v.composition_objects.len() as int);
    assert(p.subrange(11, p.len() as int) =~= cosb);
    lemma_parse_cos_encoded(p, 11, v.composition_objects);
}

/// Parsing a run of encoded window records that fills the rest of the
/// payload yields the records again.
proof fn lemma_parse_windows_encoded(p: Seq<u8>, off: int, ws: Seq<WindowDefinition>)
    requires
        0 <= off,
        off + spec_windows_bytes(ws).len() == p.len(),
        p.subrange(off, p.len() as int) == spec_windows_bytes(ws),
    ensures
        spec_parse_windows(p, off, ws.len() as int) == Ok::<(Seq<WindowDefinition>, int), (
            ReadError,
            int,
        )>((ws, p.len() as int)),
    decreases ws.len(),
{
    if ws.len() == 0 {
        assert(ws =~= Seq::<WindowDefinition>::empty());
    } else {
        let w = ws[0];
        let wb = spec_window_bytes(w);
        assert(seq![w.id].len() == 1);
        assert(wb.len() == 9);
        let tail = spec_windows_bytes(ws.skip(1));
        assert(spec_windows_bytes(ws) == wb + tail);
        assert(p.subrange(off, off + 9) =~= wb);
        assert(p[off] == p.subrange(off, off + 9)[0]);
        assert(p[off + 1] == p.subrange(off, off + 9)[1]);
        assert(p[off + 2] == p.subrange(off, off + 9)[2]);
        assert(p[off + 3] == p.subrange(off, off + 9)[3]);
        assert(p[off + 4] == p.subrange(off, off + 9)[4]);
        assert(p[off + 5] == p.subrange(off, off + 9)[5]);
        assert(p[off + 6] == p.subrange(off, off + 9)[6]);
        assert(p[off + 7] == p.subrange(off, off + 9)[7]);
        assert(p[off + 8] == p.subrange(off, off + 9)[8]);
        assert(p[off] == w.id);
        assert(p.subrange(off + 1, off + 3) =~= spec_u16_be(w.x));
        lemma_u16_be_at(p, off + 1, w.x);
        assert(p.subrange(off + 3, off + 5) =~= spec_u16_be(w.y));
        lemma_u16_be_at(p, off + 3, w.y);
        assert(p.subrange(off + 5, off + 7) =~= spec_u16_be(w.width));
        lemma_u16_be_at(p, off + 5, w.width);
        assert(p.subrange(off + 7, off + 9) =~= spec_u16_be(w.height));
        lemma_u16_be_at(p, off + 7, w.height);
        assert forall|j: int| off + 9 <= j < p.len() implies p[j] == tail[j - off - 9] by {
            assert(p[j] == p.subrange(off, p.len() as int)[j - off]);
        }
        assert(p.subrange(off + 9, p.len() as int) =~= tail);
        lemma_parse_windows_encoded(p, off + 9, ws.skip(1));
        assert(seq![w] + ws.skip(1) =~= ws);
    }
}

/// Parsing an encoded WDS payload yields the WDS again.
proof fn lemma_parse_wds_encoded(v: crate::segment::WdsView)
    requires
        v.windows.len() <= 255,
    ensures
        spec_parse_wds(spec_wds_payload(v), v.pts, v.dts) == Ok::<crate::segment::WdsView, (
            ReadError,
            int,
        )>(v),
{
    let p = spec_wds_payload(v);
    assert(p[0] == v.windows.len() % 0x100);
    assert(p[0] as int == v.windows.len() as int);
    assert(p.subrange(1, p.len() as int) =~= spec_windows_bytes(v.windows));
    lemma_parse_windows_encoded(p, 1, v.windows);
}

/// Parsing a run of encoded palette entries that fills the rest of the
/// payload yields the entries again.
proof fn lemma_parse_entries_encoded(p: Seq<u8>, off: int, es: Seq<PaletteEntry>)
    requires
        0 <= off,
        off + spec_entries_bytes(es).len() == p.len(),
        p.subrange(off, p.len() as int) == spec_entries_bytes(es),
    ensures
        spec_parse_entries(p, off, es.len() as int) == es,
    decreases es.len(),
{
    if es.len() == 0 {
        assert(spec_parse_entries(p, off, 0) =~= es);
    } else {
        let e = es[0];
        let tail = spec_entries_bytes(es.skip(1));
        assert(spec_entry_bytes(e).len() == 5);
        assert(spec_entries_bytes(es) == spec_entry_bytes(e) + tail);
        assert(p.subrange(off, off + 5) =~= spec_entry_bytes(e));
        assert(p[off] == p.subrange(off, off + 5)[0]);
        assert(p[off + 1] == p.subrange(off, off + 5)[1]);
        assert(p[off + 2] == p.subrange(off, off + 5)[2]);
        assert(p[off + 3] == p.subrange(off, off + 5)[3]);
        assert(p[off + 4] == p.subrange(off, off + 5)[4]);
        assert(p[off] == e.id);
        assert(p[off + 1] == e.y);
        assert(p[off + 2] == e.cr);
        assert(p[off + 3] == e.cb);
        assert(p[off + 4] == e.alpha);
        assert forall|j: int| off + 5 <= j < p.len() implies p[j] == tail[j - off - 5] by {
            assert(p[j] == p.subrange(off, p.len() as int)[j - off]);
        }
        assert(p.subrange(off + 5, p.len() as int) =~= tail);
        lemma_parse_entries_encoded(p, off + 5, es.skip(1));
        assert(seq![
            PaletteEntry {
                id: p[off],
                y: p[off + 1],
                cr: p[off + 2],
                cb: p[off + 3],
                alpha: p[off + 4],
            },
        ] + es.skip(1) =~= es);
    }
}

/// Parsing an encoded PDS payload yields the PDS again.
proof fn lemma_parse_pds_encoded(v: PdsView)
    ensures
        spec_parse_pds(spec_pds_payload(v), v.pts, v.dts) == Ok::<PdsView, (ReadError, int)>(v),
{
    let p = spec_pds_payload(v);
    assert(spec_entries_bytes(v.entries).len() == 5 * v.entries.len()) by {
        lemma_entries_bytes_len(v.entries);
    }
    assert(p.len() == 2 + 5 * v.entries.len());
    assert(p[0] == v.id);
    assert(p[1] == v.version);
    assert((p.len() - 2) / 5 == v.entries.len());
    assert(p.subrange(2, p.len() as int) =~= spec_entries_bytes(v.entries));
    lemma_parse_entries_encoded(p, 2, v.entries);
}

/// An encoded run of palette entries takes five bytes per entry.
proof fn lemma_entries_bytes_len(es: Seq<PaletteEntry>)
    ensures
        spec_entries_bytes(es).len() == 5 * es.len(),
    decreases es.len(),
{
    if es.len() > 0 {
        lemma_entries_bytes_len(es.skip(1));
    }
}

/// The header bytes of any segment image parse back to its magic, PTS,
/// DTS, kind and payload size.
proof fn lemma_header_facts(m: SegmentView, rest: Seq<u8>)
    requires
        spec_segment_valid(m),
    ensures
        ({
            let b = spec_segment_bytes(m) + rest;
            let payload = spec_payload(m);
            b.len() == 13 + payload.len() + rest.len() && spec_u16_at(b, 0) == 0x5047
                && spec_u32_at(b, 2) == m.spec_pts() && spec_u32_at(b, 6) == m.spec_dts() && b[10]
                == crate::segmentwrite::spec_kind_byte(m) && spec_u16_at(b, 11) as int
                == payload.len() && b.subrange(13, 13 + payload.len() as int) == payload
        }),
{
    let b = spec_segment_bytes(m) + rest;
    let payload = spec_payload(m);
    let size = payload.len() as int;
    assert(b.subrange(0, 2) =~= spec_u16_be(0x5047));
    lemma_u16_be_at(b, 0, 0x5047);
    assert(b.subrange(2, 6) =~= spec_u32_be(m.spec_pts()));
    lemma_u32_be_at(b, 2, m.spec_pts());
    assert(b.subrange(6, 10) =~= spec_u32_be(m.spec_dts()));
    lemma_u32_be_at(b, 6, m.spec_dts());
    assert(b[10] == crate::segmentwrite::spec_kind_byte(m));
    assert(b.subrange(11, 13) =~= spec_u16_be((payload.len() % 0x10000) as u16));
    lemma_u16_be_at(b, 11, (payload.len() % 0x10000) as u16);
    assert(spec_u16_at(b, 11) as int == size);
    assert(b.subrange(13, 13 + size) =~= payload);
}

/// Parsing the tail of an encoded single ODS payload yields the segment
/// again.
proof fn lemma_parse_sods_encoded(v: crate::segment::SodsView, size: u16)
    requires
        v.data.len() <= 16_777_211,
        size as int == crate::segmentwrite::spec_sods_payload(v).len(),
    ensures
        ({
            let p = crate::segmentwrite::spec_sods_payload(v);
            spec_u16_at(p, 0) == v.id && p[2] == v.version && p[3] == 0xC0 && spec_parse_sods(
                p.skip(4),
                v.pts,
                v.dts,
                v.id,
                v.version,
                size,
            ) == Ok::<crate::segment::SodsView, (ReadError, int)>(v)
        }),
{
    let p = crate::segmentwrite::spec_sods_payload(v);
    let t = p.skip(4);
    assert(p.subrange(0, 2) =~= spec_u16_be(v.id));
    lemma_u16_be_at(p, 0, v.id);
    assert(p[2] == v.version);
    assert(p[3] == 0xC0);
    assert(t.len() == 7 + v.data.len());
    assert(t.subrange(0, 3) =~= spec_u24_be(((v.data.len() + 4) % 0x1000000) as u32));
    lemma_u24_be_at(t, 0, ((v.data.len() + 4) % 0x1000000) as u32);
    assert(((v.data.len() + 4) % 0x1000000) as u32 == (size - 7) as u32);
    assert(t.subrange(3, 5) =~= spec_u16_be(v.width));
    lemma_u16_be_at(t, 3, v.width);
    assert(t.subrange(5, 7) =~= spec_u16_be(v.height));
    lemma_u16_be_at(t, 5, v.height);
    assert(t.skip(7) =~= v.data);
}

/// Parsing the tail of an encoded initial ODS payload yields the segment
/// again.
proof fn lemma_parse_iods_encoded(v: crate::segment::IodsView)
    requires
        v.length <= 16_777_215,
    ensures
        ({
            let p = crate::segmentwrite::spec_iods_payload(v);
            spec_u16_at(p, 0) == v.id && p[2] == v.version && p[3] == 0x80 && spec_parse_iods(
                p.skip(4),
                v.pts,
                v.dts,
                v.id,
                v.version,
            ) == Ok::<crate::segment::IodsView, (ReadError, int)>(v)
        }),
{
    let p = crate::segmentwrite::spec_iods_payload(v);
    let t = p.skip(4);
    assert(p.subrange(0, 2) =~= spec_u16_be(v.id));
    lemma_u16_be_at(p, 0, v.id);
    assert(p[2] == v.version);
    assert(p[3] == 0x80);
    assert(t.len() == 7 + v.data.len());
    assert(t.subrange(0, 3) =~= spec_u24_be((v.length % 0x1000000) as u32));
    lemma_u24_be_at(t, 0, (v.length % 0x1000000) as u32);
    assert((v.length % 0x1000000) as u32 as usize == v.length);
    assert(t.subrange(3, 5) =~= spec_u16_be(v.width));
    lemma_u16_be_at(t, 3, v.width);
    assert(t.subrange(5, 7) =~= spec_u16_be(v.height));
    lemma_u16_be_at(t, 5, v.height);
    assert(t.skip(7) =~= v.data);
}

/// Parsing the tail of an encoded middle or final ODS payload yields the
/// data again.
proof fn lemma_parse_mods_fods_encoded(id: u16, version: u8, flag: u8, data: Seq<u8>)
    ensures
        ({
            let p = spec_u16_be(id) + seq![version, flag] + data;
            spec_u16_at(p, 0) == id && p[2] == version && p[3] == flag && p.skip(4) == data
        }),
{
    let p = spec_u16_be(id) + seq![version, flag] + data;
    assert(p.subrange(0, 2) =~= spec_u16_be(id));
    lemma_u16_be_at(p, 0, id);
    assert(p[2] == version);
    assert(p[3] == flag);
    assert(p.skip(4) =~= data);
}

/// Round trip at the segment layer: reading a stream that begins with the
/// wire image of any valid segment yields that segment back and consumes
/// exactly its image.
pub proof fn lemma_segment_round_trip(m: SegmentView, rest: Seq<u8>)
    requires
        spec_segment_valid(m),
    ensures
        spec_read_segment(spec_segment_bytes(m) + rest) == Ok::<(SegmentView, int), (
            ReadError,
            int,
        )>((m, spec_segment_bytes(m).len() as int)),
{
    let img = spec_segment_bytes(m);
    let b = img + rest;
    let payload = spec_payload(m);
    let size = payload.len() as int;
    lemma_header_facts(m, rest);
    let p = b.subrange(13, 13 + size);
    match m {
        SegmentView::PresentationComposition(v) => {
            lemma_parse_pcs_encoded(v);
        },
        SegmentView::WindowDefinition(v) => {
            lemma_parse_wds_encoded(v);
        },
        SegmentView::PaletteDefinition(v) => {
            lemma_parse_pds_encoded(v);
        },
        SegmentView::SingleObjectDefinition(v) => {
            lemma_parse_sods_encoded(v, (payload.len() % 0x10000) as u16);
        },
        SegmentView::InitialObjectDefinition(v) => {
            lemma_parse_iods_encoded(v);
        },
        SegmentView::MiddleObjectDefinition(v) => {
            lemma_parse_mods_fods_encoded(v.id, v.version, 0x00, v.data);
        },
        SegmentView::FinalObjectDefinition(v) => {
            lemma_parse_mods_fods_encoded(v.id, v.version, 0x40, v.data);
        },
        SegmentView::End(_v) => {},
    }
}

/// Decoding the encoding of one run appends the run to the open line.
proof fn lemma_decode_run(b: u8, c: int, t: Seq<u8>, cur: Seq<u8>, out: Seq<Seq<u8>>)
    requires
        1 <= c <= 16_383,
    ensures
        spec_rle_decode(spec_encode_run(b, c) + t, cur, out) == spec_rle_decode(
            t,
            cur + Seq::new(c as nat, |_j: int| b),
            out,
        ),
{
    let e = spec_encode_run(b, c);
    let s = e + t;
    if b == 0 {
        if c <= 63 {
            assert(s[0] == 0);
            assert(s[1] == c as u8);
            assert(s[1] != 0);
            assert(s[1] / 0x40 == 0);
            assert(s.skip(2) =~= t);
            assert(Seq::new((s[1] % 0x40) as nat, |_j: int| 0u8) =~= Seq::new(
                c as nat,
                |_j: int| b,
            ));
        } else {
            assert(s[0] == 0);
            assert(s[1] == (0x40 + c / 0x100) as u8);
            assert(s[2] == (c % 0x100) as u8);
            assert(s[1] != 0);
            assert(s[1] / 0x40 == 1);
            assert(s.len() >= 3);
            assert((s[1] % 0x40) * 0x100 + s[2] == c);
            assert(s.skip(3) =~= t);
            assert(Seq::new(((s[1] % 0x40) * 0x100 + s[2]) as nat, |_j: int| 0u8) =~= Seq::new(
                c as nat,
                |_j: int| b,
            ));
        }
    } else {
        if c == 1 {
            assert(s[0] == b);
            assert(s.skip(1) =~= t);
            assert(cur.push(b) =~= cur + Seq::new(1nat, |_j: int| b));
        } else if c == 2 {
            assert(s[0] == b);
            assert(s.skip(1) =~= seq![b] + t);
            assert((seq![b] + t)[0] == b);
            assert((seq![b] + t).skip(1) =~= t);
            assert(cur.push(b).push(b) =~= cur + Seq::new(2nat, |_j: int| b));
            assert(spec_rle_decode(s, cur, out) == spec_rle_decode(seq![b] + t, cur.push(b), out));
        } else if c <= 63 {
            assert(s[0] == 0);
            assert(s[1] == (0x80 + c) as u8);
            assert(s[2] == b);
            assert(s[1] != 0);
            assert(s[1] / 0x40 == 2);
            assert(s.len() >= 3);
            assert((s[1] % 0x40) as int == c);
            assert(s.skip(3) =~= t);
            assert(Seq::new((s[1] % 0x40) as nat, |_j: int| s[2]) =~= Seq::new(
                c as nat,
                |_j: int| b,
            ));
        } else {
            assert(s[0] == 0);
            assert(s[1] == (0xC0 + c / 0x100) as u8);
            assert(s[2] == (c % 0x100) as u8);
            assert(s[3] == b);
            assert(s[1] != 0);
            assert(s[1] / 0x40 == 3);
            assert(s.len() >= 4);
            assert((s[1] % 0x40) * 0x100 + s[2] == c);
            assert(s.skip(4) =~= t);
            assert(Seq::new(((s[1] % 0x40) * 0x100 + s[2]) as nat, |_j: int| s[3]) =~= Seq::new(
                c as nat,
                |_j: int| b,
            ));
        }
    }
}

/// Decoding the encoding of a line appends the line to the open pixels.
proof fn lemma_decode_line(line: Seq<u8>, t: Seq<u8>, cur: Seq<u8>, out: Seq<Seq<u8>>)
    requires
        spec_line_ok(line),
    ensures
        spec_rle_decode(spec_compress_line(line) + t, cur, out) == spec_rle_decode(
            t,
            cur + line,
            out,
        ),
    decreases line.len(),
{
    if line.len() == 0 {
        assert(spec_compress_line(line) + t =~= t);
        assert(cur + line =~= cur);
    } else {
        let r = spec_run_len(line);
        lemma_run_len_bounds(line);
        lemma_decode_run(line[0], r, spec_compress_line(line.skip(r)) + t, cur, out);
        assert(spec_compress_line(line) + t =~= spec_encode_run(line[0], r) + (spec_compress_line(
            line.skip(r),
        ) + t));
        assert(Seq::new(r as nat, |_j: int| line[0]) =~= line.take(r));
        lemma_decode_line(line.skip(r), t, cur + line.take(r), out);
        assert((cur + line.take(r)) + line.skip(r) =~= cur + line);
    }
}

/// Decoding the encoding of a sequence of lines closes exactly those
/// lines, in order.
proof fn lemma_decode_lines(lines: Seq<Seq<u8>>, out: Seq<Seq<u8>>)
    requires
        spec_lines_ok(lines),
    ensures
        spec_rle_decode(spec_compress_lines(lines), Seq::<u8>::empty(), out) == Ok::<
            Seq<Seq<u8>>,
            ParseError,
        >(out + lines),
    decreases lines.len(),
{
    if lines.len() == 0 {
        assert(spec_compress_lines(lines) =~= Seq::<u8>::empty());
        assert(out + lines =~= out);
    } else {
        let rest = spec_compress_lines(lines.skip(1));
        assert(spec_compress_lines(lines) =~= spec_compress_line(lines[0]) + (seq![0u8, 0u8]
            + rest));
        lemma_decode_line(lines[0], seq![0u8, 0u8] + rest, Seq::<u8>::empty(), out);
        assert(Seq::<u8>::empty() + lines[0] =~= lines[0]);
        let s2 = seq![0u8, 0u8] + rest;
        assert(s2[0] == 0);
        assert(s2[1] == 0);
        assert(s2.skip(2) =~= rest);
        assert(spec_rle_decode(s2, lines[0], out) == spec_rle_decode(
            rest,
            Seq::<u8>::empty(),
            out.push(lines[0]),
        ));
        assert forall|i: int| 0 <= i < lines.skip(1).len() implies spec_line_ok(
            #[trigger] lines.skip(1)[i],
        ) by {
            assert(lines.skip(1)[i] == lines[i + 1]);
        }
        lemma_decode_lines(lines.skip(1), out.push(lines[0]));
        assert(out.push(lines[0]) + lines.skip(1) =~= out + lines);
    }
}

/// Round trip at the run-length layer: decoding the encoding of any
/// encodable scan lines yields the lines again.
pub proof fn lemma_rle_round_trip(lines: Seq<Seq<u8>>)
    requires
        spec_lines_ok(lines),
    ensures
        spec_rle_decode(spec_compress_lines(lines), Seq::<u8>::empty(), Seq::<Seq<u8>>::empty())
            == Ok::<Seq<Seq<u8>>, ParseError>(lines),
{
    lemma_decode_lines(lines, Seq::<Seq<u8>>::empty());
    assert(Seq::<Seq<u8>>::empty() + lines =~= lines);
}

/// Adding back the window records of a sorted tail rebuilds the mapping.
proof fn lemma_add_windows_rebuild(acc: Seq<(u8, Window)>, rem: Seq<(u8, Window)>)
    requires
        spec_sorted(acc + rem),
    ensures
        spec_add_windows(
            acc,
            rem.map_values(
                |p: (u8, Window)|
                    WindowDefinition {
                        id: p.0,
                        x: p.1.x,
                        y: p.1.y,
                        width: p.1.width,
                        height: p.1.height,
                    },
            ),
        ) == Ok::<Seq<(u8, Window)>, ParseError>(acc + rem),
    decreases rem.len(),
{
    let f = |p: (u8, Window)|
        WindowDefinition { id: p.0, x: p.1.x, y: p.1.y, width: p.1.width, height: p.1.height };
    let recs = rem.map_values(f);
    if rem.len() == 0 {
        assert(acc + rem =~= acc);
    } else {
        assert(recs[0] == f(rem[0]));
        let k = rem[0].0;
        if spec_has_key(acc, recs[0].id) {
            let i = choose|i: int| 0 <= i < acc.len() && acc[i].0.key() == k.key();
            assert((acc + rem)[i] == acc[i]);
            assert((acc + rem)[acc.len() as int] == rem[0]);
            assert(false);
        }
        assert forall|i: int| 0 <= i < acc.len() implies (#[trigger] acc[i]).0.key() < k.key() by {
            assert((acc + rem)[i] == acc[i]);
            assert((acc + rem)[acc.len() as int] == rem[0]);
        }
        lemma_put_append(acc, k, rem[0].1);
        assert((Window { x: recs[0].x, y: recs[0].y, width: recs[0].width, height: recs[0].height })
            == rem[0].1);
        assert(spec_put(acc, recs[0].id, Window {
            x: recs[0].x,
            y: recs[0].y,
            width: recs[0].width,
            height: recs[0].height,
        }) == acc.push(rem[0]));
        assert(recs.skip(1) =~= rem.skip(1).map_values(f));
        assert(acc.push(rem[0]) + rem.skip(1) =~= acc + rem);
        lemma_add_windows_rebuild(acc.push(rem[0]), rem.skip(1));
    }
}

/// Folding back the entry records of a sorted tail rebuilds the mapping.
proof fn lemma_entries_rebuild(acc: Seq<(u8, DsPaletteEntry)>, rem: Seq<(u8, DsPaletteEntry)>)
    requires
        spec_sorted(acc + rem),
    ensures
        spec_entries_fold(
            acc,
            rem.map_values(
                |p: (u8, DsPaletteEntry)|
                    PaletteEntry { id: p.0, y: p.1.y, cr: p.1.cr, cb: p.1.cb, alpha: p.1.alpha },
            ),
        ) == acc + rem,
    decreases rem.len(),
{
    let f = |p: (u8, DsPaletteEntry)|
        PaletteEntry { id: p.0, y: p.1.y, cr: p.1.cr, cb: p.1.cb, alpha: p.1.alpha };
    let recs = rem.map_values(f);
    if rem.len() == 0 {
        assert(acc + rem =~= acc);
    } else {
        assert(recs[0] == f(rem[0]));
        let k = rem[0].0;
        assert forall|i: int| 0 <= i < acc.len() implies (#[trigger] acc[i]).0.key() < k.key() by {
            assert((acc + rem)[i] == acc[i]);
            assert((acc + rem)[acc.len() as int] == rem[0]);
        }
        lemma_put_append(acc, k, rem[0].1);
        assert((DsPaletteEntry { y: recs[0].y, cr: recs[0].cr, cb: recs[0].cb, alpha: recs[0].alpha })
            == rem[0].1);
        assert(recs.skip(1) =~= rem.skip(1).map_values(f));
        assert(acc.push(rem[0]) + rem.skip(1) =~= acc + rem);
        lemma_entries_rebuild(acc.push(rem[0]), rem.skip(1));
    }
}

/// Folding back the composition-object records of a sorted tail rebuilds
/// the mapping.
proof fn lemma_cos_rebuild(acc: Seq<(Cid, DsCompositionObject)>, rem: Seq<(Cid, DsCompositionObject)>)
    requires
        spec_sorted(acc + rem),
    ensures
        spec_cos_fold(acc, spec_cos_of(rem)) == acc + rem,
    decreases rem.len(),
{
    let recs = spec_cos_of(rem);
    if rem.len() == 0 {
        assert(acc + rem =~= acc);
    } else {
        let k = rem[0].0;
        assert(recs[0].object_id == k.object_id);
        assert(recs[0].window_id == k.window_id);
        assert forall|i: int| 0 <= i < acc.len() implies (#[trigger] acc[i]).0.key() < k.key() by {
            assert((acc + rem)[i] == acc[i]);
            assert((acc + rem)[acc.len() as int] == rem[0]);
        }
        lemma_put_append(acc, k, rem[0].1);
        assert((Cid { object_id: recs[0].object_id, window_id: recs[0].window_id }) == k);
        assert((DsCompositionObject {
            x: recs[0].x,
            y: recs[0].y,
            forced: recs[0].forced,
            crop: recs[0].crop,
        }) == rem[0].1);
        assert(recs.skip(1) =~= spec_cos_of(rem.skip(1)));
        assert(acc.push(rem[0]) + rem.skip(1) =~= acc + rem);
        lemma_cos_rebuild(acc.push(rem[0]), rem.skip(1));
    }
}

/// Taking in the PDS run of a sorted palette tail extends the assembler's
/// palette mapping by exactly that tail.
proof fn lemma_assemble_pds_run(
    pcs: PcsView,
    pals: Seq<(Vid<u8>, PaletteView)>,
    rest: Seq<SegmentView>,
    st: AssemblyState,
)
    requires
        !st.es_seen,
        spec_sorted(st.palettes + pals),
        forall|i: int| 0 <= i < pals.len() ==> spec_sorted((#[trigger] pals[i]).1.entries),
    ensures
        spec_assemble(pcs, spec_pds_segments(pcs.pts, pcs.dts, pals) + rest, st) == spec_assemble(
            pcs,
            rest,
            AssemblyState {
                es_seen: st.es_seen,
                sequence: st.sequence,
                pending: st.pending,
                windows: st.windows,
                palettes: st.palettes + pals,
                objects: st.objects,
            },
        ),
    decreases pals.len(),
{
    if pals.len() == 0 {
        assert(spec_pds_segments(pcs.pts, pcs.dts, pals) + rest =~= rest);
        assert(st.palettes + pals =~= st.palettes);
        assert(st == AssemblyState {
            es_seen: st.es_seen,
            sequence: st.sequence,
            pending: st.pending,
            windows: st.windows,
            palettes: st.palettes + pals,
            objects: st.objects,
        });
    } else {
        let segs = spec_pds_segments(pcs.pts, pcs.dts, pals) + rest;
        let pv = spec_pds_of(pcs.pts, pcs.dts, pals[0].0, pals[0].1);
        assert(segs[0] == SegmentView::PaletteDefinition(pv));
        assert(segs.skip(1) =~= spec_pds_segments(pcs.pts, pcs.dts, pals.skip(1)) + rest);
        let k = pals[0].0;
        assert((Vid { id: pv.id, version: pv.version }) == k);
        if spec_has_key(st.palettes, Vid { id: pv.id, version: pv.version }) {
            let i = choose|i: int|
                0 <= i < st.palettes.len() && st.palettes[i].0.key() == k.key();
            assert((st.palettes + pals)[i] == st.palettes[i]);
            assert((st.palettes + pals)[st.palettes.len() as int] == pals[0]);
            assert(false);
        }
        assert(pals[0].1.entries + Seq::<(u8, DsPaletteEntry)>::empty() =~= pals[0].1.entries);
        lemma_entries_rebuild(Seq::<(u8, DsPaletteEntry)>::empty(), pals[0].1.entries);
        assert(Seq::<(u8, DsPaletteEntry)>::empty() + pals[0].1.entries =~= pals[0].1.entries);
        assert((PaletteView {
            entries: spec_entries_fold(Seq::<(u8, DsPaletteEntry)>::empty(), pv.entries),
        }) == pals[0].1);
        assert forall|i: int| 0 <= i < st.palettes.len() implies (#[trigger] st.palettes[i]).0.key()
            < k.key() by {
            assert((st.palettes + pals)[i] == st.palettes[i]);
            assert((st.palettes + pals)[st.palettes.len() as int] == pals[0]);
        }
        lemma_put_append(st.palettes, k, pals[0].1);
        let st2 = AssemblyState {
            es_seen: st.es_seen,
            sequence: st.sequence,
            pending: st.pending,
            windows: st.windows,
            palettes: st.palettes.push(pals[0]),
            objects: st.objects,
        };
        assert(st.palettes.push(pals[0]) + pals.skip(1) =~= st.palettes + pals);
        assert forall|i: int| 0 <= i < pals.skip(1).len() implies spec_sorted(
            (#[trigger] pals.skip(1)[i]).1.entries,
        ) by {
            assert(pals.skip(1)[i] == pals[i + 1]);
        }
        lemma_assemble_pds_run(pcs, pals.skip(1), rest, st2);
    }
}

/// Taking in the middle and final portions of a split object finishes its
/// reassembly with exactly the object's bytes.
proof fn lemma_assemble_middles(
    pcs: PcsView,
    vid: Vid<u16>,
    o: ObjectView,
    whole: Seq<u8>,
    done: int,
    rest: Seq<SegmentView>,
    st: AssemblyState,
)
    requires
        !st.es_seen,
        st.sequence == Sequence::Initial || st.sequence == Sequence::Middle,
        st.pending == Some(
            PendingView {
                id: vid.id,
                version: vid.version,
                width: o.width,
                height: o.height,
                data: whole.take(done),
            },
        ),
        0 <= done < whole.len(),
        spec_rle_decode(whole, Seq::<u8>::empty(), Seq::<Seq<u8>>::empty()) == Ok::<
            Seq<Seq<u8>>,
            ParseError,
        >(o.lines),
        spec_object_dims_ok(o.width, o.height, o.lines),
    ensures
        spec_assemble(
            pcs,
            spec_middle_segments(pcs.pts, pcs.dts, vid, whole.skip(done)) + rest,
            st,
        ) == spec_assemble(
            pcs,
            rest,
            AssemblyState {
                es_seen: st.es_seen,
                sequence: Sequence::Final,
                pending: None,
                windows: st.windows,
                palettes: st.palettes,
                objects: spec_put(st.objects, vid, o),
            },
        ),
    decreases whole.len() - done,
{
    let rem = whole.skip(done);
    let segs = spec_middle_segments(pcs.pts, pcs.dts, vid, rem) + rest;
    let p = st.pending->0;
    if rem.len() <= MODS_DATA_SIZE {
        assert(segs[0] == SegmentView::FinalObjectDefinition(
            crate::segment::FodsView {
                pts: pcs.pts,
                dts: pcs.dts,
                id: vid.id,
                version: vid.version,
                data: rem,
            },
        ));
        assert(segs.skip(1) =~= rest);
        assert(p.data + rem =~= whole);
        assert((ObjectView { width: p.width, height: p.height, lines: o.lines }) == o);
        assert((Vid { id: p.id, version: p.version }) == vid);
    } else {
        assert(segs[0] == SegmentView::MiddleObjectDefinition(
            crate::segment::ModsView {
                pts: pcs.pts,
                dts: pcs.dts,
                id: vid.id,
                version: vid.version,
                data: rem.take(MODS_DATA_SIZE as int),
            },
        ));
        assert(segs.skip(1) =~= spec_middle_segments(
            pcs.pts,
            pcs.dts,
            vid,
            rem.skip(MODS_DATA_SIZE as int),
        ) + rest);
        assert(p.data + rem.take(MODS_DATA_SIZE as int) =~= whole.take(done + MODS_DATA_SIZE));
        assert(rem.skip(MODS_DATA_SIZE as int) =~= whole.skip(done + MODS_DATA_SIZE));
        let st2 = AssemblyState {
            es_seen: st.es_seen,
            sequence: Sequence::Middle,
            pending: Some(
                PendingView {
                    id: vid.id,
                    version: vid.version,
                    width: o.width,
                    height: o.height,
                    data: whole.take(done + MODS_DATA_SIZE),
                },
            ),
            windows: st.windows,
            palettes: st.palettes,
            objects: st.objects,
        };
        lemma_assemble_middles(pcs, vid, o, whole, done + MODS_DATA_SIZE, rest, st2);
    }
}

/// Taking in the ODS runs of a sorted object tail and then the end segment
/// completes the display set with exactly those objects.
proof fn lemma_assemble_objects_run(
    pcs: PcsView,
    objs: Seq<(Vid<u16>, ObjectView)>,
    st: AssemblyState,
)
    requires
        !st.es_seen,
        st.sequence == Sequence::Single || st.sequence == Sequence::Final,
        spec_sorted(st.objects + objs),
        forall|i: int|
            0 <= i < objs.len() ==> crate::displaysetwrite::spec_lines_ok(
                (#[trigger] objs[i]).1.lines,
            ),
        forall|i: int|
            0 <= i < objs.len() ==> spec_object_dims_ok(
                (#[trigger] objs[i]).1.width,
                objs[i].1.height,
                objs[i].1.lines,
            ),
    ensures
        spec_assemble(
            pcs,
            spec_objects_segments(pcs.pts, pcs.dts, objs) + seq![
                SegmentView::End(crate::segment::EndSegment { pts: pcs.pts, dts: pcs.dts }),
            ],
            st,
        ) == spec_finish(
            pcs,
            AssemblyState {
                es_seen: true,
                sequence: Sequence::Single,
                pending: None,
                windows: st.windows,
                palettes: st.palettes,
                objects: st.objects + objs,
            },
        ),
    decreases objs.len(),
{
    let es = SegmentView::End(crate::segment::EndSegment { pts: pcs.pts, dts: pcs.dts });
    if objs.len() == 0 {
        let segs = spec_objects_segments(pcs.pts, pcs.dts, objs) + seq![es];
        assert(segs[0] == es);
        assert(segs.skip(1) =~= Seq::<SegmentView>::empty());
        assert(st.objects + objs =~= st.objects);
        let st2 = AssemblyState {
            es_seen: true,
            sequence: st.sequence,
            pending: st.pending,
            windows: st.windows,
            palettes: st.palettes,
            objects: st.objects,
        };
        assert(spec_assemble(pcs, Seq::<SegmentView>::empty(), st2) == spec_finish(pcs, st2));
        assert(spec_finish(pcs, st2) == spec_finish(
            pcs,
            AssemblyState {
                es_seen: true,
                sequence: Sequence::Single,
                pending: None,
                windows: st.windows,
                palettes: st.palettes,
                objects: st.objects + objs,
            },
        ));
    } else {
        let vid = objs[0].0;
        let o = objs[0].1;
        let data = compress_lines(o.lines);
        let osegs = spec_object_segments(pcs.pts, pcs.dts, vid, o);
        let tail = spec_objects_segments(pcs.pts, pcs.dts, objs.skip(1)) + seq![es];
        assert(spec_objects_segments(pcs.pts, pcs.dts, objs) + seq![es] =~= osegs + tail);
        if spec_has_key(st.objects, vid) {
            let i = choose|i: int| 0 <= i < st.objects.len() && st.objects[i].0.key() == vid.key();
            assert((st.objects + objs)[i] == st.objects[i]);
            assert((st.objects + objs)[st.objects.len() as int] == objs[0]);
            assert(false);
        }
        assert forall|i: int| 0 <= i < st.objects.len() implies (#[trigger] st.objects[i]).0.key()
            < vid.key() by {
            assert((st.objects + objs)[i] == st.objects[i]);
            assert((st.objects + objs)[st.objects.len() as int] == objs[0]);
        }
        lemma_put_append(st.objects, vid, o);
        lemma_rle_round_trip(o.lines);
        assert(st.objects.push(objs[0]) + objs.skip(1) =~= st.objects + objs);
        assert forall|i: int| 0 <= i < objs.skip(1).len() implies
            crate::displaysetwrite::spec_lines_ok((#[trigger] objs.skip(1)[i]).1.lines) by {
            assert(objs.skip(1)[i] == objs[i + 1]);
        }
        assert forall|i: int| 0 <= i < objs.skip(1).len() implies spec_object_dims_ok(
            (#[trigger] objs.skip(1)[i]).1.width,
            objs.skip(1)[i].1.height,
            objs.skip(1)[i].1.lines,
        ) by {
            assert(objs.skip(1)[i] == objs[i + 1]);
        }
        if data.len() <= IODS_DATA_SIZE {
            let segs = osegs + tail;
            assert(segs[0] == SegmentView::SingleObjectDefinition(
                crate::segment::SodsView {
                    pts: pcs.pts,
                    dts: pcs.dts,
                    id: vid.id,
                    version: vid.version,
                    width: o.width,
                    height: o.height,
                    data,
                },
            ));
            assert(segs.skip(1) =~= tail);
            assert((Vid { id: vid.id, version: vid.version }) == vid);
            assert((ObjectView { width: o.width, height: o.height, lines: o.lines }) == o);
            let st2 = AssemblyState {
                es_seen: st.es_seen,
                sequence: Sequence::Single,
                pending: st.pending,
                windows: st.windows,
                palettes: st.palettes,
                objects: st.objects.push(objs[0]),
            };
            lemma_assemble_objects_run(pcs, objs.skip(1), st2);
        } else {
            let segs = osegs + tail;
            let iv = crate::segment::IodsView {
                pts: pcs.pts,
                dts: pcs.dts,
                id: vid.id,
                version: vid.version,
                length: (data.len() + 4) as usize,
                width: o.width,
                height: o.height,
                data: data.take(IODS_DATA_SIZE as int),
            };
            assert(segs[0] == SegmentView::InitialObjectDefinition(iv));
            assert(segs.skip(1) =~= spec_middle_segments(
                pcs.pts,
                pcs.dts,
                vid,
                data.skip(IODS_DATA_SIZE as int),
            ) + tail);
            assert((Vid { id: iv.id, version: iv.version }) == vid);
            let st2 = AssemblyState {
                es_seen: st.es_seen,
                sequence: Sequence::Initial,
                pending: Some(
                    PendingView {
                        id: vid.id,
                        version: vid.version,
                        width: o.width,
                        height: o.height,
                        data: data.take(IODS_DATA_SIZE as int),
                    },
                ),
                windows: st.windows,
                palettes: st.palettes,
                objects: st.objects,
            };
            lemma_assemble_middles(pcs, vid, o, data, IODS_DATA_SIZE as int, tail, st2);
            let st3 = AssemblyState {
                es_seen: st.es_seen,
                sequence: Sequence::Final,
                pending: None,
                windows: st.windows,
                palettes: st.palettes,
                objects: spec_put(st.objects, vid, o),
            };
            assert(st3.objects == st.objects.push(objs[0]));
            lemma_assemble_objects_run(pcs, objs.skip(1), st3);
        }
    }
}

/// Whether a display set can be carried whole by the wire format, so that
/// writing it and reading the stream back yields it again: mappings in
/// ascending key order, counters within the format's ceilings, every
/// object encodable and filling its declared dimensions, and a palette
/// update that names a present palette.
pub open spec fn spec_ds_valid(d: DisplaySetView) -> bool {
    &&& spec_sorted(d.windows)
    &&& spec_sorted(d.palettes)
    &&& spec_sorted(d.objects)
    &&& spec_sorted(d.composition.objects)
    &&& forall|i: int| 0 <= i < d.palettes.len() ==> spec_sorted((#[trigger] d.palettes[i]).1.entries)
    &&& d.windows.len() <= 255
    &&& d.composition.objects.len() <= 255
    &&& forall|i: int|
        0 <= i < d.objects.len() ==> crate::displaysetwrite::spec_lines_ok(
            (#[trigger] d.objects[i]).1.lines,
        )
    &&& forall|i: int|
        0 <= i < d.objects.len() ==> compress_lines((#[trigger] d.objects[i]).1.lines).len()
            <= 16_777_211
    &&& forall|i: int|
        0 <= i < d.objects.len() ==> spec_object_dims_ok(
            (#[trigger] d.objects[i]).1.width,
            d.objects[i].1.height,
            d.objects[i].1.lines,
        )
    &&& (d.palette_update_id matches Some(id) ==> spec_has_palette_id(d.palettes, id))
}

/// Round trip at the display-set layer: parsing back the segments any
/// valid display set deconstructs into yields that display set again.
#[verifier::rlimit(100)]
pub proof fn lemma_display_set_round_trip(d: DisplaySetView)
    requires
        spec_ds_valid(d),
    ensures
        spec_to_segments(d) matches Ok(segs) && spec_try_from(segs) == Ok::<
            DisplaySetView,
            ParseError,
        >(d),
{
    let pcs = spec_pcs_of(d);
    let es = SegmentView::End(crate::segment::EndSegment { pts: pcs.pts, dts: pcs.dts });
    let wpart = if d.windows.len() == 0 {
        Seq::<SegmentView>::empty()
    } else {
        seq![SegmentView::WindowDefinition(spec_wds_of(d))]
    };
    let pdsrun = spec_pds_segments(d.pts, d.dts, d.palettes);
    let objrun = spec_objects_segments(d.pts, d.dts, d.objects);
    let segs = spec_to_segments(d)->Ok_0;
    assert(segs == seq![SegmentView::PresentationComposition(pcs)] + wpart + pdsrun + objrun
        + seq![es]);
    assert(segs[0] == SegmentView::PresentationComposition(pcs));
    assert(segs.skip(1) =~= wpart + pdsrun + objrun + seq![es]);
    let st0 = spec_init_state();
    let st1 = AssemblyState {
        es_seen: false,
        sequence: Sequence::Single,
        pending: None,
        windows: d.windows,
        palettes: st0.palettes,
        objects: st0.objects,
    };
    if d.windows.len() > 0 {
        let rest1 = segs.skip(1);
        assert(rest1[0] == SegmentView::WindowDefinition(spec_wds_of(d)));
        assert(rest1.skip(1) =~= pdsrun + (objrun + seq![es]));
        assert(Seq::<(u8, Window)>::empty() + d.windows =~= d.windows);
        lemma_add_windows_rebuild(Seq::<(u8, Window)>::empty(), d.windows);
        assert(spec_assemble(pcs, rest1, st0) == spec_assemble(
            pcs,
            pdsrun + (objrun + seq![es]),
            st1,
        ));
    } else {
        assert(d.windows =~= Seq::<(u8, Window)>::empty());
        assert(segs.skip(1) =~= pdsrun + (objrun + seq![es]));
        assert(st0 == st1);
    }
    assert(Seq::<(Vid<u8>, PaletteView)>::empty() + d.palettes =~= d.palettes);
    assert(pdsrun == spec_pds_segments(pcs.pts, pcs.dts, d.palettes));
    lemma_assemble_pds_run(pcs, d.palettes, objrun + seq![es], st1);
    let st2 = AssemblyState {
        es_seen: false,
        sequence: Sequence::Single,
        pending: None,
        windows: d.windows,
        palettes: d.palettes,
        objects: st1.objects,
    };
    assert(st1.palettes + d.palettes =~= d.palettes);
    assert(Seq::<(Vid<u16>, ObjectView)>::empty() + d.objects =~= d.objects);
    assert(objrun == spec_objects_segments(pcs.pts, pcs.dts, d.objects));
    lemma_assemble_objects_run(pcs, d.objects, st2);
    let stf = AssemblyState {
        es_seen: true,
        sequence: Sequence::Single,
        pending: None,
        windows: d.windows,
        palettes: d.palettes,
        objects: st2.objects + d.objects,
    };
    assert(st2.objects + d.objects =~= d.objects);
    assert(d.composition.objects + Seq::<(Cid, DsCompositionObject)>::empty()
        =~= d.composition.objects);
    assert(Seq::<(Cid, DsCompositionObject)>::empty() + d.composition.objects
        =~= d.composition.objects);
    lemma_cos_rebuild(Seq::<(Cid, DsCompositionObject)>::empty(), d.composition.objects);
    let built = spec_finish(pcs, stf)->Ok_0;
    assert(built.composition == d.composition);
    assert(built == d);
    assert(spec_try_from(segs) == Ok::<DisplaySetView, ParseError>(d));
}

/// A stream that does not begin with the magic number `0x5047` fails with
/// `UnrecognizedMagicNumber`, and exactly the two magic bytes are
/// consumed: nothing past byte two is read.
pub proof fn lemma_bad_magic_number(s: Seq<u8>)
    requires
        s.len() >= 2,
        spec_u16_at(s, 0) != 0x5047,
    ensures
        spec_read_segment(s) == Err::<(SegmentView, int), (ReadError, int)>(
            (ReadError::UnrecognizedMagicNumber { parsed_magic_number: spec_u16_at(s, 0) }, 2),
        ),
{
}

/// A PCS payload whose composition-state byte is none of `0x00`, `0x40`
/// and `0x80` fails with `UnrecognizedCompositionState`, and the parser
/// consumes nothing past that byte.
pub proof fn lemma_bad_composition_state(p: Seq<u8>, pts: u32, dts: u32)
    requires
        p.len() >= 8,
        p[7] != 0x00,
        p[7] != 0x40,
        p[7] != 0x80,
    ensures
        spec_parse_pcs(p, pts, dts) == Err::<PcsView, (ReadError, int)>(
            (ReadError::UnrecognizedCompositionState { parsed_composition_state: p[7] }, 8),
        ),
{
}

/// The compressed data an ODS run carries for its object.
pub open spec fn spec_ods_data(m: SegmentView) -> Seq<u8> {
    match m {
        SegmentView::SingleObjectDefinition(x) => x.data,
        SegmentView::InitialObjectDefinition(x) => x.data,
        SegmentView::MiddleObjectDefinition(x) => x.data,
        SegmentView::FinalObjectDefinition(x) => x.data,
        _ => Seq::<u8>::empty(),
    }
}

/// The object (ID, version) an ODS carries; other kinds carry none.
pub open spec fn spec_ods_vid(m: SegmentView) -> Option<Vid<u16>> {
    match m {
        SegmentView::SingleObjectDefinition(x) => Some(Vid { id: x.id, version: x.version }),
        SegmentView::InitialObjectDefinition(x) => Some(Vid { id: x.id, version: x.version }),
        SegmentView::MiddleObjectDefinition(x) => Some(Vid { id: x.id, version: x.version }),
        SegmentView::FinalObjectDefinition(x) => Some(Vid { id: x.id, version: x.version }),
        _ => None,
    }
}

/// The concatenated data of a run of segments.
pub open spec fn spec_frag_concat(segs: Seq<SegmentView>) -> Seq<u8>
    decreases segs.len(),
{
    if segs.len() == 0 {
        Seq::<u8>::empty()
    } else {
        spec_ods_data(segs[0]) + spec_frag_concat(segs.skip(1))
    }
}

/// The middle and final portions of a split object carry exactly the
/// remaining bytes, its (ID, version) on each.
proof fn lemma_middle_segments_frags(pts: u32, dts: u32, vid: Vid<u16>, rem: Seq<u8>)
    ensures
        ({
            let segs = spec_middle_segments(pts, dts, vid, rem);
            spec_frag_concat(segs) == rem && forall|k: int|
                0 <= k < segs.len() ==> spec_ods_vid(#[trigger] segs[k]) == Some(vid)
                    && segs[k].spec_pts() == pts && segs[k].spec_dts() == dts
        }),
    decreases rem.len(),
{
    let segs = spec_middle_segments(pts, dts, vid, rem);
    if rem.len() <= MODS_DATA_SIZE {
        assert(segs.skip(1) =~= Seq::<SegmentView>::empty());
        assert(spec_frag_concat(segs.skip(1)) =~= Seq::<u8>::empty());
        assert(spec_frag_concat(segs) =~= rem);
    } else {
        lemma_middle_segments_frags(pts, dts, vid, rem.skip(MODS_DATA_SIZE as int));
        let tail = spec_middle_segments(pts, dts, vid, rem.skip(MODS_DATA_SIZE as int));
        assert(segs.skip(1) =~= tail);
        assert(spec_frag_concat(segs) =~= rem.take(MODS_DATA_SIZE as int) + rem.skip(
            MODS_DATA_SIZE as int,
        ));
        assert(rem.take(MODS_DATA_SIZE as int) + rem.skip(MODS_DATA_SIZE as int) =~= rem);
        assert forall|k: int| 0 <= k < segs.len() implies spec_ods_vid(#[trigger] segs[k]) == Some(
            vid,
        ) && segs[k].spec_pts() == pts && segs[k].spec_dts() == dts by {
            if k > 0 {
                assert(segs[k] == tail[k - 1]);
            }
        }
    }
}

/// The ODS run of an object carries exactly its run-length-compressed
/// image: the concatenated fragment data is the compressed image, so the
/// fragments' sizes sum to the compressed size, and every fragment names
/// the object's (ID, version) and the given timestamps.
pub proof fn lemma_object_fragments(pts: u32, dts: u32, vid: Vid<u16>, o: ObjectView)
    ensures
        ({
            let segs = spec_object_segments(pts, dts, vid, o);
            spec_frag_concat(segs) == compress_lines(o.lines) && forall|k: int|
                0 <= k < segs.len() ==> spec_ods_vid(#[trigger] segs[k]) == Some(vid)
                    && segs[k].spec_pts() == pts && segs[k].spec_dts() == dts
        }),
{
    let data = compress_lines(o.lines);
    let segs = spec_object_segments(pts, dts, vid, o);
    if data.len() <= IODS_DATA_SIZE {
        assert(segs.skip(1) =~= Seq::<SegmentView>::empty());
        assert(spec_frag_concat(segs.skip(1)) =~= Seq::<u8>::empty());
        assert(spec_frag_concat(segs) =~= data);
    } else {
        lemma_middle_segments_frags(pts, dts, vid, data.skip(IODS_DATA_SIZE as int));
        let tail = spec_middle_segments(pts, dts, vid, data.skip(IODS_DATA_SIZE as int));
        assert(segs.skip(1) =~= tail);
        assert(spec_frag_concat(segs) =~= data.take(IODS_DATA_SIZE as int) + data.skip(
            IODS_DATA_SIZE as int,
        ));
        assert(data.take(IODS_DATA_SIZE as int) + data.skip(IODS_DATA_SIZE as int) =~= data);
        assert forall|k: int| 0 <= k < segs.len() implies spec_ods_vid(#[trigger] segs[k]) == Some(
            vid,
        ) && segs[k].spec_pts() == pts && segs[k].spec_dts() == dts by {
            if k > 0 {
                assert(segs[k] == tail[k - 1]);
            }
        }
    }
}

/// Decoding the concatenated fragment data of an object's ODS run
/// reproduces the object's scan lines exactly.
pub proof fn lemma_reassembly_reproduces_lines(pts: u32, dts: u32, vid: Vid<u16>, o: ObjectView)
    requires
        crate::displaysetwrite::spec_lines_ok(o.lines),
    ensures
        spec_rle_decode(
            spec_frag_concat(spec_object_segments(pts, dts, vid, o)),
            Seq::<u8>::empty(),
            Seq::<Seq<u8>>::empty(),
        ) == Ok::<Seq<Seq<u8>>, ParseError>(o.lines),
{
    lemma_object_fragments(pts, dts, vid, o);
    lemma_rle_round_trip(o.lines);
}

/// Every segment a display set emits carries the display set's PTS and
/// DTS.
pub proof fn lemma_emitted_timestamps(d: DisplaySetView)
    requires
        spec_objects_ok(d.objects),
    ensures
        ({
            let segs = spec_to_segments(d)->Ok_0;
            forall|k: int|
                0 <= k < segs.len() ==> (#[trigger] segs[k]).spec_pts() == d.pts
                    && segs[k].spec_dts() == d.dts
        }),
{
    let segs = spec_to_segments(d)->Ok_0;
    let wpart = if d.windows.len() == 0 {
        Seq::<SegmentView>::empty()
    } else {
        seq![SegmentView::WindowDefinition(spec_wds_of(d))]
    };
    let pdsrun = spec_pds_segments(d.pts, d.dts, d.palettes);
    let objrun = spec_objects_segments(d.pts, d.dts, d.objects);
    lemma_objects_segments_ts(d.pts, d.dts, d.objects);
    assert forall|k: int| 0 <= k < segs.len() implies (#[trigger] segs[k]).spec_pts() == d.pts
        && segs[k].spec_dts() == d.dts by {
        let h = 1 + wpart.len();
        if k == 0 {
        } else if k < h {
            assert(segs[k] == wpart[k - 1]);
        } else if k < h + pdsrun.len() {
            assert(segs[k] == pdsrun[k - h]);
        } else if k < h + pdsrun.len() + objrun.len() {
            assert(segs[k] == objrun[k - h - pdsrun.len()]);
        } else {
            assert(segs[k] == SegmentView::End(
                crate::segment::EndSegment { pts: d.pts, dts: d.dts },
            ));
        }
    }
}

/// Every segment of the ODS runs carries the given timestamps.
proof fn lemma_objects_segments_ts(pts: u32, dts: u32, objs: Seq<(Vid<u16>, ObjectView)>)
    ensures
        ({
            let segs = spec_objects_segments(pts, dts, objs);
            forall|k: int|
                0 <= k < segs.len() ==> (#[trigger] segs[k]).spec_pts() == pts
                    && segs[k].spec_dts() == dts
        }),
    decreases objs.len(),
{
    if objs.len() > 0 {
        let head = spec_object_segments(pts, dts, objs[0].0, objs[0].1);
        let tail = spec_objects_segments(pts, dts, objs.skip(1));
        lemma_object_fragments(pts, dts, objs[0].0, objs[0].1);
        lemma_objects_segments_ts(pts, dts, objs.skip(1));
        let segs = spec_objects_segments(pts, dts, objs);
        assert forall|k: int| 0 <= k < segs.len() implies (#[trigger] segs[k]).spec_pts() == pts
            && segs[k].spec_dts() == dts by {
            if k < head.len() {
                assert(segs[k] == head[k]);
            } else {
                assert(segs[k] == tail[k - head.len()]);
            }
        }
    }
}

/// The emitted PDS run ascends strictly in (ID, version): palette `i`
/// comes before palette `j` exactly when its key is smaller.
pub proof fn lemma_emitted_pds_ascending(d: DisplaySetView)
    requires
        spec_sorted(d.palettes),
    ensures
        ({
            let run = spec_pds_segments(d.pts, d.dts, d.palettes);
            forall|i: int, j: int|
                0 <= i < j < run.len() ==> (Vid {
                    id: (#[trigger] run[i])->PaletteDefinition_0.id,
                    version: run[i]->PaletteDefinition_0.version,
                }).key() < (Vid {
                    id: (#[trigger] run[j])->PaletteDefinition_0.id,
                    version: run[j]->PaletteDefinition_0.version,
                }).key()
        }),
{
    let run = spec_pds_segments(d.pts, d.dts, d.palettes);
    assert forall|i: int, j: int| 0 <= i < j < run.len() implies (Vid {
        id: (#[trigger] run[i])->PaletteDefinition_0.id,
        version: run[i]->PaletteDefinition_0.version,
    }).key() < (Vid {
        id: (#[trigger] run[j])->PaletteDefinition_0.id,
        version: run[j]->PaletteDefinition_0.version,
    }).key() by {
        assert((Vid { id: run[i]->PaletteDefinition_0.id, version: run[i]->PaletteDefinition_0.version })
            == d.palettes[i].0);
        assert((Vid { id: run[j]->PaletteDefinition_0.id, version: run[j]->PaletteDefinition_0.version })
            == d.palettes[j].0);
    }
}

/// The emitted ODS runs ascend in (ID, version): the object keys named by
/// the run never decrease, and they increase strictly from one object's
/// run to the next.
pub proof fn lemma_emitted_objects_ascending(pts: u32, dts: u32, objs: Seq<(Vid<u16>, ObjectView)>)
    requires
        spec_sorted(objs),
    ensures
        ({
            let run = spec_objects_segments(pts, dts, objs);
            forall|m: int, n: int|
                0 <= m < n < run.len() ==> (spec_ods_vid(#[trigger] run[m])->0).key() <= (
                spec_ods_vid(#[trigger] run[n])->0).key()
        }),
    decreases objs.len(),
{
    let run = spec_objects_segments(pts, dts, objs);
    if objs.len() > 0 {
        let head = spec_object_segments(pts, dts, objs[0].0, objs[0].1);
        let tail = spec_objects_segments(pts, dts, objs.skip(1));
        lemma_object_fragments(pts, dts, objs[0].0, objs[0].1);
        assert forall|i: int| 0 <= i < objs.skip(1).len() implies (#[trigger] objs.skip(1)[i]).0.key()
            >= objs[0].0.key() by {
            assert(objs.skip(1)[i] == objs[i + 1]);
        }
        assert forall|i: int, j: int| 0 <= i < j < objs.skip(1).len() implies (#[trigger] objs.skip(
            1,
        )[i]).0.key() < (#[trigger] objs.skip(1)[j]).0.key() by {
            assert(objs.skip(1)[i] == objs[i + 1]);
            assert(objs.skip(1)[j] == objs[j + 1]);
        }
        lemma_emitted_objects_ascending(pts, dts, objs.skip(1));
        lemma_objects_segments_floor(pts, dts, objs.skip(1), objs[0].0.key());
        assert forall|m: int, n: int| 0 <= m < n < run.len() implies (spec_ods_vid(
            #[trigger] run[m],
        )->0).key() <= (spec_ods_vid(#[trigger] run[n])->0).key() by {
            if n < head.len() {
                assert(run[m] == head[m]);
                assert(run[n] == head[n]);
            } else if m >= head.len() {
                assert(run[m] == tail[m - head.len()]);
                assert(run[n] == tail[n - head.len()]);
            } else {
                assert(run[m] == head[m]);
                assert(run[n] == tail[n - head.len()]);
            }
        }
    }
}

/// Every key named by the ODS runs of objects whose keys are at least
/// `floor` is at least `floor`.
proof fn lemma_objects_segments_floor(
    pts: u32,
    dts: u32,
    objs: Seq<(Vid<u16>, ObjectView)>,
    floor: int,
)
    requires
        forall|i: int| 0 <= i < objs.len() ==> (#[trigger] objs[i]).0.key() >= floor,
    ensures
        ({
            let run = spec_objects_segments(pts, dts, objs);
            forall|n: int| 0 <= n < run.len() ==> (spec_ods_vid(#[trigger] run[n])->0).key() >= floor
        }),
    decreases objs.len(),
{
    let run = spec_objects_segments(pts, dts, objs);
    if objs.len() > 0 {
        let head = spec_object_segments(pts, dts, objs[0].0, objs[0].1);
        let tail = spec_objects_segments(pts, dts, objs.skip(1));
        lemma_object_fragments(pts, dts, objs[0].0, objs[0].1);
        assert forall|i: int| 0 <= i < objs.skip(1).len() implies (#[trigger] objs.skip(1)[i]).0.key()
            >= floor by {
            assert(objs.skip(1)[i] == objs[i + 1]);
        }
        lemma_objects_segments_floor(pts, dts, objs.skip(1), floor);
        assert forall|n: int| 0 <= n < run.len() implies (spec_ods_vid(#[trigger] run[n])->0).key()
            >= floor by {
            if n < head.len() {
                assert(run[n] == head[n]);
            } else {
                assert(run[n] == tail[n - head.len()]);
            }
        }
    }
}

/// An encoded run of composition-object records takes at most sixteen
/// bytes per record.
proof fn lemma_cos_bytes_size(cos: Seq<CompositionObject>)
    ensures
        spec_cos_bytes(cos).len() <= 16 * cos.len(),
    decreases cos.len(),
{
    if cos.len() > 0 {
        lemma_cos_bytes_size(cos.skip(1));
    }
}

/// An encoded run of window records takes nine bytes per record.
proof fn lemma_windows_bytes_size(ws: Seq<WindowDefinition>)
    ensures
        spec_windows_bytes(ws).len() == 9 * ws.len(),
    decreases ws.len(),
{
    if ws.len() > 0 {
        lemma_windows_bytes_size(ws.skip(1));
    }
}

/// In a strictly ascending pair sequence, the key at `i` is at least the
/// first key plus `i`.
proof fn lemma_sorted_key_spread<K: MapKey, V>(s: Seq<(K, V)>, i: int)
    requires
        spec_sorted(s),
        0 <= i < s.len(),
    ensures
        s[i].0.key() >= s[0].0.key() + i,
    decreases i,
{
    if i > 0 {
        lemma_sorted_key_spread(s, i - 1);
    }
}

/// A mapping keyed by a byte holds at most 256 entries.
proof fn lemma_sorted_u8_len<V>(s: Seq<(u8, V)>)
    requires
        spec_sorted(s),
    ensures
        s.len() <= 256,
{
    if s.len() > 256 {
        lemma_sorted_key_spread(s, 256);
    }
}

/// The middle and final portions of a split object are valid segments and
/// neither a PCS nor an end segment.
proof fn lemma_middle_segments_valid(pts: u32, dts: u32, vid: Vid<u16>, rem: Seq<u8>)
    ensures
        ({
            let segs = spec_middle_segments(pts, dts, vid, rem);
            forall|k: int|
                0 <= k < segs.len() ==> spec_segment_valid(#[trigger] segs[k]) && !(segs[k]
                    is PresentationComposition) && !(segs[k] is End)
        }),
    decreases rem.len(),
{
    let segs = spec_middle_segments(pts, dts, vid, rem);
    if rem.len() <= MODS_DATA_SIZE {
    } else {
        lemma_middle_segments_valid(pts, dts, vid, rem.skip(MODS_DATA_SIZE as int));
        let tail = spec_middle_segments(pts, dts, vid, rem.skip(MODS_DATA_SIZE as int));
        assert forall|k: int| 0 <= k < segs.len() implies spec_segment_valid(#[trigger] segs[k])
            && !(segs[k] is PresentationComposition) && !(segs[k] is End) by {
            if k > 0 {
                assert(segs[k] == tail[k - 1]);
            }
        }
    }
}

/// The ODS run of an object whose compressed image fits the format is
/// made of valid segments, none a PCS or an end segment.
proof fn lemma_object_segments_valid(pts: u32, dts: u32, vid: Vid<u16>, o: ObjectView)
    requires
        compress_lines(o.lines).len() <= 16_777_211,
    ensures
        ({
            let segs = spec_object_segments(pts, dts, vid, o);
            forall|k: int|
                0 <= k < segs.len() ==> spec_segment_valid(#[trigger] segs[k]) && !(segs[k]
                    is PresentationComposition) && !(segs[k] is End)
        }),
{
    let data = compress_lines(o.lines);
    let segs = spec_object_segments(pts, dts, vid, o);
    if data.len() <= IODS_DATA_SIZE {
    } else {
        lemma_middle_segments_valid(pts, dts, vid, data.skip(IODS_DATA_SIZE as int));
        let tail = spec_middle_segments(pts, dts, vid, data.skip(IODS_DATA_SIZE as int));
        assert forall|k: int| 0 <= k < segs.len() implies spec_segment_valid(#[trigger] segs[k])
            && !(segs[k] is PresentationComposition) && !(segs[k] is End) by {
            if k > 0 {
                assert(segs[k] == tail[k - 1]);
            }
        }
    }
}

/// The ODS runs of objects whose compressed images fit the format are
/// made of valid segments, none a PCS or an end segment.
proof fn lemma_objects_segments_valid(pts: u32, dts: u32, objs: Seq<(Vid<u16>, ObjectView)>)
    requires
        forall|i: int|
            0 <= i < objs.len() ==> compress_lines((#[trigger] objs[i]).1.lines).len()
                <= 16_777_211,
    ensures
        ({
            let segs = spec_objects_segments(pts, dts, objs);
            forall|k: int|
                0 <= k < segs.len() ==> spec_segment_valid(#[trigger] segs[k]) && !(segs[k]
                    is PresentationComposition) && !(segs[k] is End)
        }),
    decreases objs.len(),
{
    let segs = spec_objects_segments(pts, dts, objs);
    if objs.len() > 0 {
        let head = spec_object_segments(pts, dts, objs[0].0, objs[0].1);
        let tail = spec_objects_segments(pts, dts, objs.skip(1));
        lemma_object_segments_valid(pts, dts, objs[0].0, objs[0].1);
        assert forall|i: int| 0 <= i < objs.skip(1).len() implies compress_lines(
            (#[trigger] objs.skip(1)[i]).1.lines,
        ).len() <= 16_777_211 by {
            assert(objs.skip(1)[i] == objs[i + 1]);
        }
        lemma_objects_segments_valid(pts, dts, objs.skip(1));
        assert forall|k: int| 0 <= k < segs.len() implies spec_segment_valid(#[trigger] segs[k])
            && !(segs[k] is PresentationComposition) && !(segs[k] is End) by {
            if k < head.len() {
                assert(segs[k] == head[k]);
            } else {
                assert(segs[k] == tail[k - head.len()]);
            }
        }
    }
}

/// Every segment a valid display set emits is a valid segment, the first
/// is its PCS, the last its end segment, and no other is either.
proof fn lemma_emitted_segments_valid(d: DisplaySetView)
    requires
        spec_ds_valid(d),
    ensures
        ({
            let segs = spec_to_segments(d)->Ok_0;
            &&& segs.len() >= 2
            &&& segs[0] == SegmentView::PresentationComposition(spec_pcs_of(d))
            &&& segs[segs.len() - 1] is End
            &&& forall|k: int|
                0 < k < segs.len() - 1 ==> !((#[trigger] segs[k]) is PresentationComposition) && !(
                segs[k] is End)
            &&& forall|k: int| 0 <= k < segs.len() ==> spec_segment_valid(#[trigger] segs[k])
        }),
{
    let segs = spec_to_segments(d)->Ok_0;
    let wpart = if d.windows.len() == 0 {
        Seq::<SegmentView>::empty()
    } else {
        seq![SegmentView::WindowDefinition(spec_wds_of(d))]
    };
    let pdsrun = spec_pds_segments(d.pts, d.dts, d.palettes);
    let objrun = spec_objects_segments(d.pts, d.dts, d.objects);
    let es = SegmentView::End(crate::segment::EndSegment { pts: d.pts, dts: d.dts });
    lemma_objects_segments_valid(d.pts, d.dts, d.objects);
    lemma_cos_bytes_size(spec_cos_of(d.composition.objects));
    lemma_windows_bytes_size(spec_wds_of(d).windows);
    assert(spec_segment_valid(SegmentView::PresentationComposition(spec_pcs_of(d))));
    if d.windows.len() > 0 {
        assert(spec_segment_valid(SegmentView::WindowDefinition(spec_wds_of(d))));
    }
    assert forall|k: int| 0 <= k < pdsrun.len() implies spec_segment_valid(#[trigger] pdsrun[k])
        && !(pdsrun[k] is PresentationComposition) && !(pdsrun[k] is End) by {
        let pv = spec_pds_of(d.pts, d.dts, d.palettes[k].0, d.palettes[k].1);
        assert(pdsrun[k] == SegmentView::PaletteDefinition(pv));
        lemma_sorted_u8_len(d.palettes[k].1.entries);
        lemma_entries_bytes_len(pv.entries);
    }
    let h = 1 + wpart.len();
    assert(segs[segs.len() - 1] == es);
    assert forall|k: int| 0 <= k < segs.len() implies spec_segment_valid(#[trigger] segs[k]) by {
        if k == 0 {
        } else if k < h {
            assert(segs[k] == wpart[k - 1]);
        } else if k < h + pdsrun.len() {
            assert(segs[k] == pdsrun[k - h]);
        } else if k < h + pdsrun.len() + objrun.len() {
            assert(segs[k] == objrun[k - h - pdsrun.len()]);
        } else {
            assert(segs[k] == es);
        }
    }
    assert forall|k: int| 0 < k < segs.len() - 1 implies !((#[trigger] segs[k])
        is PresentationComposition) && !(segs[k] is End) by {
        if k < h {
            assert(segs[k] == wpart[k - 1]);
        } else if k < h + pdsrun.len() {
            assert(segs[k] == pdsrun[k - h]);
        } else {
            assert(segs[k] == objrun[k - h - pdsrun.len()]);
        }
    }
}

/// Writing a run of valid segments appends every wire image whole.
proof fn lemma_write_run_ok(segs: Seq<SegmentView>)
    requires
        forall|k: int| 0 <= k < segs.len() ==> spec_segment_valid(#[trigger] segs[k]),
    ensures
        spec_write_run(segs).1 is None,
    decreases segs.len(),
{
    if segs.len() > 0 {
        assert forall|k: int| 0 <= k < segs.skip(1).len() implies spec_segment_valid(
            #[trigger] segs.skip(1)[k],
        ) by {
            assert(segs.skip(1)[k] == segs[k + 1]);
        }
        lemma_write_run_ok(segs.skip(1));
    }
}

/// Collecting segments from the concatenated wire images of a run that
/// ends with its only end segment gathers exactly that run and parses it.
proof fn lemma_collect_images(
    segs: Seq<SegmentView>,
    acc: Seq<SegmentView>,
    consumed: int,
    restb: Seq<u8>,
)
    requires
        segs.len() >= 1,
        forall|k: int| 0 <= k < segs.len() ==> spec_segment_valid(#[trigger] segs[k]),
        segs[segs.len() - 1] is End,
        forall|k: int|
            0 <= k < segs.len() - 1 ==> !((#[trigger] segs[k]) is PresentationComposition) && !(
            segs[k] is End),
    ensures
        spec_collect(spec_write_run(segs).0 + restb, consumed, acc) == (match spec_try_from(
            acc + segs,
        ) {
            Ok(dv) => Ok::<(DisplaySetView, int), (DsReadError, int)>(
                (dv, consumed + spec_write_run(segs).0.len()),
            ),
            Err(pe) => Err::<(DisplaySetView, int), (DsReadError, int)>(
                (DsReadError::ParseError { source: pe }, consumed + spec_write_run(segs).0.len()),
            ),
        }),
    decreases segs.len(),
{
    assert forall|k: int| 0 <= k < segs.skip(1).len() implies spec_segment_valid(
        #[trigger] segs.skip(1)[k],
    ) by {
        assert(segs.skip(1)[k] == segs[k + 1]);
    }
    let img = spec_segment_bytes(segs[0]);
    let resttail = spec_write_run(segs.skip(1)).0;
    assert(spec_write_run(segs).0 == img + resttail);
    let b = spec_write_run(segs).0 + restb;
    assert(b =~= img + (resttail + restb));
    lemma_segment_round_trip(segs[0], resttail + restb);
    assert(b.skip(img.len() as int) =~= resttail + restb);
    if segs.len() == 1 {
        assert(segs[0] is End);
        assert(spec_write_run(segs.skip(1)).0 =~= Seq::<u8>::empty());
        assert(acc.push(segs[0]) =~= acc + segs);
        assert(img + resttail =~= img);
    } else {
        assert(!(segs[0] is End));
        assert(!(segs[0] is PresentationComposition));
        assert(segs.skip(1)[segs.skip(1).len() - 1] == segs[segs.len() - 1]);
        assert forall|k: int| 0 <= k < segs.skip(1).len() - 1 implies !((#[trigger] segs.skip(
            1,
        )[k]) is PresentationComposition) && !(segs.skip(1)[k] is End) by {
            assert(segs.skip(1)[k] == segs[k + 1]);
        }
        lemma_collect_images(segs.skip(1), acc.push(segs[0]), consumed + img.len(), restb);
        assert(acc.push(segs[0]) + segs.skip(1) =~= acc + segs);
    }
}

/// Round trip at the stream layer: the bytes a valid display set writes,
/// followed by anything, read back as that display set, consuming exactly
/// its bytes.
pub proof fn lemma_stream_round_trip(d: DisplaySetView, restb: Seq<u8>)
    requires
        spec_ds_valid(d),
    ensures
        ({
            let segs = spec_to_segments(d)->Ok_0;
            let run = spec_write_run(segs);
            run.1 is None && spec_read_display_set(run.0 + restb) == Ok::<
                (DisplaySetView, int),
                (DsReadError, int),
            >((d, run.0.len() as int))
        }),
{
    let segs = spec_to_segments(d)->Ok_0;
    let run = spec_write_run(segs);
    lemma_emitted_segments_valid(d);
    lemma_write_run_ok(segs);
    lemma_display_set_round_trip(d);
    let img = spec_segment_bytes(segs[0]);
    let resttail = spec_write_run(segs.skip(1)).0;
    assert(run.0 == img + resttail);
    let b = run.0 + restb;
    assert(b =~= img + (resttail + restb));
    lemma_segment_round_trip(segs[0], resttail + restb);
    assert(b.skip(img.len() as int) =~= resttail + restb);
    assert forall|k: int| 0 <= k < segs.skip(1).len() implies spec_segment_valid(
        #[trigger] segs.skip(1)[k],
    ) by {
        assert(segs.skip(1)[k] == segs[k + 1]);
    }
    assert(segs.skip(1)[segs.skip(1).len() - 1] == segs[segs.len() - 1]);
    assert forall|k: int| 0 <= k < segs.skip(1).len() - 1 implies !((#[trigger] segs.skip(1)[k])
        is PresentationComposition) && !(segs.skip(1)[k] is End) by {
        assert(segs.skip(1)[k] == segs[k + 1]);
    }
    lemma_collect_images(segs.skip(1), seq![segs[0]], img.len() as int, restb);
    assert(seq![segs[0]] + segs.skip(1) =~= segs);
}

/// Every object a successful parse hands out satisfies the model's two
/// dimension equalities: its decoded line count equals its height and
/// every line's length its width.
pub proof fn lemma_parsed_objects_dimensions(segs: Seq<SegmentView>)
    ensures
        match spec_try_from(segs) {
            Ok(dv) => forall|i: int|
                0 <= i < dv.objects.len() ==> spec_object_dims_ok(
                    (#[trigger] dv.objects[i]).1.width,
                    dv.objects[i].1.height,
                    dv.objects[i].1.lines,
                ),
            Err(_e) => true,
        },
{
    if segs.len() > 0 {
        if let SegmentView::PresentationComposition(pcs) = segs[0] {
            lemma_assemble_dimensions(pcs, segs.skip(1), spec_init_state());
        }
    }
}

/// The assembler only ever inserts objects whose decoded lines fill their
/// declared dimensions.
proof fn lemma_assemble_dimensions(pcs: PcsView, segs: Seq<SegmentView>, st: AssemblyState)
    requires
        forall|i: int|
            0 <= i < st.objects.len() ==> spec_object_dims_ok(
                (#[trigger] st.objects[i]).1.width,
                st.objects[i].1.height,
                st.objects[i].1.lines,
            ),
    ensures
        match spec_assemble(pcs, segs, st) {
            Ok(dv) => forall|i: int|
                0 <= i < dv.objects.len() ==> spec_object_dims_ok(
                    (#[trigger] dv.objects[i]).1.width,
                    dv.objects[i].1.height,
                    dv.objects[i].1.lines,
                ),
            Err(_e) => true,
        },
    decreases segs.len(),
{
    if segs.len() == 0 || st.es_seen {
    } else {
        let rest = segs.skip(1);
        match segs[0] {
            SegmentView::PresentationComposition(_) => {},
            SegmentView::WindowDefinition(w) => {
                if w.pts == pcs.pts && w.dts == pcs.dts {
                    if let Ok(ws) = spec_add_windows(st.windows, w.windows) {
                        lemma_assemble_dimensions(
                            pcs,
                            rest,
                            AssemblyState {
                                es_seen: st.es_seen,
                                sequence: st.sequence,
                                pending: st.pending,
                                windows: ws,
                                palettes: st.palettes,
                                objects: st.objects,
                            },
                        );
                    }
                }
            },
            SegmentView::PaletteDefinition(p) => {
                if p.pts == pcs.pts && p.dts == pcs.dts && !spec_has_key(
                    st.palettes,
                    Vid { id: p.id, version: p.version },
                ) {
                    lemma_assemble_dimensions(
                        pcs,
                        rest,
                        AssemblyState {
                            es_seen: st.es_seen,
                            sequence: st.sequence,
                            pending: st.pending,
                            windows: st.windows,
                            palettes: spec_put(
                                st.palettes,
                                Vid { id: p.id, version: p.version },
                                PaletteView {
                                    entries: spec_entries_fold(
                                        Seq::<(u8, DsPaletteEntry)>::empty(),
                                        p.entries,
                                    ),
                                },
                            ),
                            objects: st.objects,
                        },
                    );
                }
            },
            SegmentView::SingleObjectDefinition(x) => {
                let vid = Vid { id: x.id, version: x.version };
                if (st.sequence == Sequence::Single || st.sequence == Sequence::Final) && x.pts
                    == pcs.pts && x.dts == pcs.dts && !spec_has_key(st.objects, vid) {
                    if let Ok(lines) = spec_rle_decode(
                        x.data,
                        Seq::<u8>::empty(),
                        Seq::<Seq<u8>>::empty(),
                    ) {
                        if spec_object_dims_ok(x.width, x.height, lines) {
                            let ov = ObjectView { width: x.width, height: x.height, lines };
                            lemma_put_objects_dims(st.objects, vid, ov);
                            lemma_assemble_dimensions(
                                pcs,
                                rest,
                                AssemblyState {
                                    es_seen: st.es_seen,
                                    sequence: Sequence::Single,
                                    pending: st.pending,
                                    windows: st.windows,
                                    palettes: st.palettes,
                                    objects: spec_put(st.objects, vid, ov),
                                },
                            );
                        }
                    }
                }
            },
            SegmentView::InitialObjectDefinition(x) => {
                let vid = Vid { id: x.id, version: x.version };
                if (st.sequence == Sequence::Single || st.sequence == Sequence::Final) && x.pts
                    == pcs.pts && x.dts == pcs.dts && !spec_has_key(st.objects, vid) {
                    lemma_assemble_dimensions(
                        pcs,
                        rest,
                        AssemblyState {
                            es_seen: st.es_seen,
                            sequence: Sequence::Initial,
                            pending: Some(
                                PendingView {
                                    id: x.id,
                                    version: x.version,
                                    width: x.width,
                                    height: x.height,
                                    data: x.data,
                                },
                            ),
                            windows: st.windows,
                            palettes: st.palettes,
                            objects: st.objects,
                        },
                    );
                }
            },
            SegmentView::MiddleObjectDefinition(x) => {
                if st.sequence == Sequence::Initial || st.sequence == Sequence::Middle {
                    if let Some(p) = st.pending {
                        if x.pts == pcs.pts && x.dts == pcs.dts && x.id == p.id && x.version
                            == p.version {
                            lemma_assemble_dimensions(
                                pcs,
                                rest,
                                AssemblyState {
                                    es_seen: st.es_seen,
                                    sequence: Sequence::Middle,
                                    pending: Some(
                                        PendingView {
                                            id: p.id,
                                            version: p.version,
                                            width: p.width,
                                            height: p.height,
                                            data: p.data + x.data,
                                        },
                                    ),
                                    windows: st.windows,
                                    palettes: st.palettes,
                                    objects: st.objects,
                                },
                            );
                        }
                    }
                }
            },
            SegmentView::FinalObjectDefinition(x) => {
                if st.sequence == Sequence::Initial || st.sequence == Sequence::Middle {
                    if let Some(p) = st.pending {
                        if x.pts == pcs.pts && x.dts == pcs.dts && x.id == p.id && x.version
                            == p.version {
                            if let Ok(lines) = spec_rle_decode(
                                p.data + x.data,
                                Seq::<u8>::empty(),
                                Seq::<Seq<u8>>::empty(),
                            ) {
                                if spec_object_dims_ok(p.width, p.height, lines) {
                                    let vid = Vid { id: p.id, version: p.version };
                                    let ov = ObjectView {
                                        width: p.width,
                                        height: p.height,
                                        lines,
                                    };
                                    lemma_put_objects_dims(st.objects, vid, ov);
                                    lemma_assemble_dimensions(
                                        pcs,
                                        rest,
                                        AssemblyState {
                                            es_seen: st.es_seen,
                                            sequence: Sequence::Final,
                                            pending: None,
                                            windows: st.windows,
                                            palettes: st.palettes,
                                            objects: spec_put(st.objects, vid, ov),
                                        },
                                    );
                                }
                            }
                        }
                    }
                }
            },
            SegmentView::End(es) => {
                if (st.sequence == Sequence::Single || st.sequence == Sequence::Final) && es.pts
                    == pcs.pts && es.dts == pcs.dts {
                    lemma_assemble_dimensions(
                        pcs,
                        rest,
                        AssemblyState {
                            es_seen: true,
                            sequence: st.sequence,
                            pending: st.pending,
                            windows: st.windows,
                            palettes: st.palettes,
                            objects: st.objects,
                        },
                    );
                }
            },
        }
    }
}

/// Putting one dimension-consistent object into a mapping of
/// dimension-consistent objects keeps every entry consistent.
proof fn lemma_put_objects_dims(s: Seq<(Vid<u16>, ObjectView)>, vid: Vid<u16>, ov: ObjectView)
    requires
        forall|i: int|
            0 <= i < s.len() ==> spec_object_dims_ok(
                (#[trigger] s[i]).1.width,
                s[i].1.height,
                s[i].1.lines,
            ),
        spec_object_dims_ok(ov.width, ov.height, ov.lines),
    ensures
        forall|i: int|
            0 <= i < spec_put(s, vid, ov).len() ==> spec_object_dims_ok(
                (#[trigger] spec_put(s, vid, ov)[i]).1.width,
                spec_put(s, vid, ov)[i].1.height,
                spec_put(s, vid, ov)[i].1.lines,
            ),
{
    crate::displayset::lemma_put_values(s, vid, ov);
    assert forall|i: int| 0 <= i < spec_put(s, vid, ov).len() implies spec_object_dims_ok(
        (#[trigger] spec_put(s, vid, ov)[i]).1.width,
        spec_put(s, vid, ov)[i].1.height,
        spec_put(s, vid, ov)[i].1.lines,
    ) by {
        if spec_put(s, vid, ov)[i] != (vid, ov) {
            assert(s.contains(spec_put(s, vid, ov)[i]));
            let j = choose|j: int| 0 <= j < s.len() && s[j] == spec_put(s, vid, ov)[i];
            assert(spec_object_dims_ok(s[j].1.width, s[j].1.height, s[j].1.lines));
        }
    }
}

/// The data of a run of middle portions, concatenated in order.
pub open spec fn spec_mods_data_concat(middles: Seq<crate::segment::ModsView>) -> Seq<u8>
    decreases middles.len(),
{
    if middles.len() == 0 {
        Seq::<u8>::empty()
    } else {
        middles[0].data + spec_mods_data_concat(middles.skip(1))
    }
}

/// A run of middle portions as segments.
pub open spec fn spec_mods_segments(middles: Seq<crate::segment::ModsView>) -> Seq<SegmentView> {
    middles.map_values(|m: crate::segment::ModsView| SegmentView::MiddleObjectDefinition(m))
}

/// Reassembly of an incoming split run, general in the number of middle
/// portions: taking in the middle portions and the final portion of an
/// object under reassembly finishes it with exactly the object whose
/// lines decode from the concatenated fragment data.
proof fn lemma_split_run_middles(
    pcs: PcsView,
    p: PendingView,
    middles: Seq<crate::segment::ModsView>,
    f: crate::segment::FodsView,
    rest: Seq<SegmentView>,
    st: AssemblyState,
)
    requires
        !st.es_seen,
        st.sequence == Sequence::Initial || st.sequence == Sequence::Middle,
        st.pending == Some(p),
        f.pts == pcs.pts,
        f.dts == pcs.dts,
        f.id == p.id,
        f.version == p.version,
        forall|k: int|
            0 <= k < middles.len() ==> (#[trigger] middles[k]).pts == pcs.pts && middles[k].dts
                == pcs.dts && middles[k].id == p.id && middles[k].version == p.version,
        spec_rle_decode(
            p.data + spec_mods_data_concat(middles) + f.data,
            Seq::<u8>::empty(),
            Seq::<Seq<u8>>::empty(),
        ) is Ok,
        spec_object_dims_ok(
            p.width,
            p.height,
            spec_rle_decode(
                p.data + spec_mods_data_concat(middles) + f.data,
                Seq::<u8>::empty(),
                Seq::<Seq<u8>>::empty(),
            )->Ok_0,
        ),
    ensures
        spec_assemble(
            pcs,
            spec_mods_segments(middles) + seq![SegmentView::FinalObjectDefinition(f)] + rest,
            st,
        ) == spec_assemble(
            pcs,
            rest,
            AssemblyState {
                es_seen: st.es_seen,
                sequence: Sequence::Final,
                pending: None,
                windows: st.windows,
                palettes: st.palettes,
                objects: spec_put(
                    st.objects,
                    Vid { id: p.id, version: p.version },
                    ObjectView {
                        width: p.width,
                        height: p.height,
                        lines: spec_rle_decode(
                            p.data + spec_mods_data_concat(middles) + f.data,
                            Seq::<u8>::empty(),
                            Seq::<Seq<u8>>::empty(),
                        )->Ok_0,
                    },
                ),
            },
        ),
    decreases middles.len(),
{
    let whole = p.data + spec_mods_data_concat(middles) + f.data;
    let segs = spec_mods_segments(middles) + seq![SegmentView::FinalObjectDefinition(f)] + rest;
    if middles.len() == 0 {
        assert(spec_mods_data_concat(middles) =~= Seq::<u8>::empty());
        assert(whole =~= p.data + f.data);
        assert(segs[0] == SegmentView::FinalObjectDefinition(f));
        assert(segs.skip(1) =~= rest);
    } else {
        let m0 = middles[0];
        assert(segs[0] == SegmentView::MiddleObjectDefinition(m0));
        assert(segs.skip(1) =~= spec_mods_segments(middles.skip(1)) + seq![
            SegmentView::FinalObjectDefinition(f),
        ] + rest);
        let p2 = PendingView {
            id: p.id,
            version: p.version,
            width: p.width,
            height: p.height,
            data: p.data + m0.data,
        };
        assert forall|k: int| 0 <= k < middles.skip(1).len() implies (#[trigger] middles.skip(
            1,
        )[k]).pts == pcs.pts && middles.skip(1)[k].dts == pcs.dts && middles.skip(1)[k].id == p2.id
            && middles.skip(1)[k].version == p2.version by {
            assert(middles.skip(1)[k] == middles[k + 1]);
        }
        assert((p.data + m0.data) + spec_mods_data_concat(middles.skip(1)) + f.data =~= whole);
        let st2 = AssemblyState {
            es_seen: st.es_seen,
            sequence: Sequence::Middle,
            pending: Some(p2),
            windows: st.windows,
            palettes: st.palettes,
            objects: st.objects,
        };
        lemma_split_run_middles(pcs, p2, middles.skip(1), f, rest, st2);
    }
}

/// Reading direction of object reassembly, general in the number of
/// middle portions: an incoming run of one initial, any middle and one
/// final portion, consistent in identity and timestamps, yields exactly
/// the object whose lines decode from the concatenated fragment data.
pub proof fn lemma_split_run_reassembly(
    pcs: PcsView,
    i: crate::segment::IodsView,
    middles: Seq<crate::segment::ModsView>,
    f: crate::segment::FodsView,
    rest: Seq<SegmentView>,
    st: AssemblyState,
)
    requires
        !st.es_seen,
        st.sequence == Sequence::Single || st.sequence == Sequence::Final,
        i.pts == pcs.pts,
        i.dts == pcs.dts,
        f.pts == pcs.pts,
        f.dts == pcs.dts,
        f.id == i.id,
        f.version == i.version,
        forall|k: int|
            0 <= k < middles.len() ==> (#[trigger] middles[k]).pts == pcs.pts && middles[k].dts
                == pcs.dts && middles[k].id == i.id && middles[k].version == i.version,
        !spec_has_key(st.objects, Vid { id: i.id, version: i.version }),
        spec_rle_decode(
            i.data + spec_mods_data_concat(middles) + f.data,
            Seq::<u8>::empty(),
            Seq::<Seq<u8>>::empty(),
        ) is Ok,
        spec_object_dims_ok(
            i.width,
            i.height,
            spec_rle_decode(
                i.data + spec_mods_data_concat(middles) + f.data,
                Seq::<u8>::empty(),
                Seq::<Seq<u8>>::empty(),
            )->Ok_0,
        ),
    ensures
        spec_assemble(
            pcs,
            seq![SegmentView::InitialObjectDefinition(i)] + spec_mods_segments(middles) + seq![
                SegmentView::FinalObjectDefinition(f),
            ] + rest,
            st,
        ) == spec_assemble(
            pcs,
            rest,
            AssemblyState {
                es_seen: st.es_seen,
                sequence: Sequence::Final,
                pending: None,
                windows: st.windows,
                palettes: st.palettes,
                objects: spec_put(
                    st.objects,
                    Vid { id: i.id, version: i.version },
                    ObjectView {
                        width: i.width,
                        height: i.height,
                        lines: spec_rle_decode(
                            i.data + spec_mods_data_concat(middles) + f.data,
                            Seq::<u8>::empty(),
                            Seq::<Seq<u8>>::empty(),
                        )->Ok_0,
                    },
                ),
            },
        ),
{
    let segs = seq![SegmentView::InitialObjectDefinition(i)] + spec_mods_segments(middles) + seq![
        SegmentView::FinalObjectDefinition(f),
    ] + rest;
    assert(segs[0] == SegmentView::InitialObjectDefinition(i));
    assert(segs.skip(1) =~= spec_mods_segments(middles) + seq![
        SegmentView::FinalObjectDefinition(f),
    ] + rest);
    let p = PendingView {
        id: i.id,
        version: i.version,
        width: i.width,
        height: i.height,
        data: i.data,
    };
    let st2 = AssemblyState {
        es_seen: st.es_seen,
        sequence: Sequence::Initial,
        pending: Some(p),
        windows: st.windows,
        palettes: st.palettes,
        objects: st.objects,
    };
    lemma_split_run_middles(pcs, p, middles, f, rest, st2);
}

/// Split-run reassembly at the parse boundary: a run of one PCS, one
/// initial portion, any number of middle portions, one final portion and
/// the end segment parses to the display set holding exactly the
/// reassembled object.
pub proof fn lemma_try_from_split_run(
    pcs: PcsView,
    i: crate::segment::IodsView,
    middles: Seq<crate::segment::ModsView>,
    f: crate::segment::FodsView,
)
    requires
        pcs.palette_update_id is None,
        i.pts == pcs.pts,
        i.dts == pcs.dts,
        f.pts == pcs.pts,
        f.dts == pcs.dts,
        f.id == i.id,
        f.version == i.version,
        forall|k: int|
            0 <= k < middles.len() ==> (#[trigger] middles[k]).pts == pcs.pts && middles[k].dts
                == pcs.dts && middles[k].id == i.id && middles[k].version == i.version,
        spec_rle_decode(
            i.data + spec_mods_data_concat(middles) + f.data,
            Seq::<u8>::empty(),
            Seq::<Seq<u8>>::empty(),
        ) is Ok,
        spec_object_dims_ok(
            i.width,
            i.height,
            spec_rle_decode(
                i.data + spec_mods_data_concat(middles) + f.data,
                Seq::<u8>::empty(),
                Seq::<Seq<u8>>::empty(),
            )->Ok_0,
        ),
    ensures
        spec_try_from(
            seq![
                SegmentView::PresentationComposition(pcs),
                SegmentView::InitialObjectDefinition(i),
            ] + spec_mods_segments(middles) + seq![
                SegmentView::FinalObjectDefinition(f),
                SegmentView::End(crate::segment::EndSegment { pts: pcs.pts, dts: pcs.dts }),
            ],
        ) == Ok::<DisplaySetView, ParseError>(
            DisplaySetView {
                pts: pcs.pts,
                dts: pcs.dts,
                width: pcs.width,
                height: pcs.height,
                frame_rate: pcs.frame_rate,
                palette_update_id: pcs.palette_update_id,
                windows: Seq::<(u8, Window)>::empty(),
                palettes: Seq::<(Vid<u8>, PaletteView)>::empty(),
                objects: seq![
                    (
                        Vid { id: i.id, version: i.version },
                        ObjectView {
                            width: i.width,
                            height: i.height,
                            lines: spec_rle_decode(
                                i.data + spec_mods_data_concat(middles) + f.data,
                                Seq::<u8>::empty(),
                                Seq::<Seq<u8>>::empty(),
                            )->Ok_0,
                        },
                    ),
                ],
                composition: crate::displayset::CompositionView {
                    number: pcs.composition_number,
                    state: pcs.composition_state,
                    objects: spec_cos_fold(
                        Seq::<(Cid, DsCompositionObject)>::empty(),
                        pcs.composition_objects,
                    ),
                },
            },
        ),
{
    let es = SegmentView::End(crate::segment::EndSegment { pts: pcs.pts, dts: pcs.dts });
    let vid = Vid { id: i.id, version: i.version };
    let ov = ObjectView {
        width: i.width,
        height: i.height,
        lines: spec_rle_decode(
            i.data + spec_mods_data_concat(middles) + f.data,
            Seq::<u8>::empty(),
            Seq::<Seq<u8>>::empty(),
        )->Ok_0,
    };
    let segs = seq![SegmentView::PresentationComposition(pcs), SegmentView::InitialObjectDefinition(i)]
        + spec_mods_segments(middles) + seq![SegmentView::FinalObjectDefinition(f), es];
    assert(segs[0] == SegmentView::PresentationComposition(pcs));
    assert(segs.skip(1) =~= seq![SegmentView::InitialObjectDefinition(i)] + spec_mods_segments(
        middles,
    ) + seq![SegmentView::FinalObjectDefinition(f)] + seq![es]);
    let st0 = spec_init_state();
    lemma_split_run_reassembly(pcs, i, middles, f, seq![es], st0);
    let stf = AssemblyState {
        es_seen: false,
        sequence: Sequence::Final,
        pending: None,
        windows: st0.windows,
        palettes: st0.palettes,
        objects: spec_put(st0.objects, vid, ov),
    };
    assert(spec_put(st0.objects, vid, ov) =~= seq![(vid, ov)]);
    assert(seq![es][0] == es);
    assert(seq![es].skip(1) =~= Seq::<SegmentView>::empty());
    let st_es = AssemblyState {
        es_seen: true,
        sequence: Sequence::Final,
        pending: None,
        windows: st0.windows,
        palettes: st0.palettes,
        objects: spec_put(st0.objects, vid, ov),
    };
    assert(spec_assemble(pcs, seq![es], stf) == spec_assemble(
        pcs,
        Seq::<SegmentView>::empty(),
        st_es,
    ));
    assert(spec_assemble(pcs, Seq::<SegmentView>::empty(), st_es) == spec_finish(pcs, st_es));
    assert(spec_finish(pcs, st_es) == Ok::<DisplaySetView, ParseError>(
        DisplaySetView {
            pts: pcs.pts,
            dts: pcs.dts,
            width: pcs.width,
            height: pcs.height,
            frame_rate: pcs.frame_rate,
            palette_update_id: pcs.palette_update_id,
            windows: Seq::<(u8, Window)>::empty(),
            palettes: Seq::<(Vid<u8>, PaletteView)>::empty(),
            objects: seq![(vid, ov)],
            composition: crate::displayset::CompositionView {
                number: pcs.composition_number,
                state: pcs.composition_state,
                objects: spec_cos_fold(
                    Seq::<(Cid, DsCompositionObject)>::empty(),
                    pcs.composition_objects,
                ),
            },
        },
    ));
}

} // verus!
