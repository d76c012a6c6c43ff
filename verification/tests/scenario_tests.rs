use pgs::bytes::ByteSource;
use pgs::displayset::{
    Cid, Composition, CompositionObject, DisplaySet, Object, Palette, PaletteEntry, SortedMap,
    Vid, Window,
};
use pgs::displaysetread::ReadDisplaySetExt;
use pgs::displaysetwrite::WriteDisplaySetExt;
use pgs::segment::{CompositionState, Crop, Segment};
use pgs::segmentread::ReadSegmentExt;
use pgs::segmentwrite::WriteSegmentExt;

fn empty_display_set() -> DisplaySet {
    DisplaySet {
        pts: 1000,
        dts: 900,
        width: 1920,
        height: 1080,
        frame_rate: 0x10,
        palette_update_id: None,
        windows: SortedMap::new(),
        palettes: SortedMap::new(),
        objects: SortedMap::new(),
        composition: Composition {
            number: 0,
            state: CompositionState::EpochStart,
            objects: SortedMap::new(),
        },
    }
}

fn small_display_set() -> DisplaySet {
    let mut ds = empty_display_set();
    ds.windows.insert(
        1,
        Window {
            x: 100,
            y: 100,
            width: 200,
            height: 50,
        },
    );
    let mut entries = SortedMap::new();
    entries.insert(
        0,
        PaletteEntry {
            y: 16,
            cr: 128,
            cb: 128,
            alpha: 0,
        },
    );
    entries.insert(
        1,
        PaletteEntry {
            y: 235,
            cr: 128,
            cb: 128,
            alpha: 255,
        },
    );
    entries.insert(
        2,
        PaletteEntry {
            y: 128,
            cr: 128,
            cb: 128,
            alpha: 128,
        },
    );
    ds.palettes.insert(Vid { id: 1, version: 1 }, Palette { entries });
    ds.objects.insert(
        Vid { id: 1, version: 1 },
        Object {
            width: 4,
            height: 2,
            lines: vec![vec![0, 0, 1, 1], vec![1, 1, 0, 0]],
        },
    );
    ds.composition.objects.insert(
        Cid {
            object_id: 1,
            window_id: 1,
        },
        CompositionObject {
            x: 100,
            y: 100,
            forced: false,
            crop: None,
        },
    );
    ds
}

#[test]
fn empty_display_set_round_trip() {
    let ds = empty_display_set();
    let segments = ds.to_segments().unwrap();
    assert_eq!(segments.len(), 2);
    assert!(matches!(segments[0], Segment::PresentationComposition(_)));
    assert!(matches!(segments[1], Segment::End(_)));

    let mut buffer: Vec<u8> = vec![];
    buffer.write_display_set(ds.clone()).unwrap();
    let mut cursor = ByteSource::new(buffer);
    assert_eq!(cursor.read_display_set().unwrap(), ds);
}

#[test]
fn single_composition_object_round_trip() {
    let ds = small_display_set();
    let segments = ds.to_segments().unwrap();
    assert_eq!(segments.len(), 5);
    assert!(matches!(segments[0], Segment::PresentationComposition(_)));
    assert!(matches!(segments[1], Segment::WindowDefinition(_)));
    assert!(matches!(segments[2], Segment::PaletteDefinition(_)));
    assert!(matches!(segments[3], Segment::SingleObjectDefinition(_)));
    assert!(matches!(segments[4], Segment::End(_)));

    let mut buffer: Vec<u8> = vec![];
    buffer.write_display_set(ds.clone()).unwrap();
    let mut cursor = ByteSource::new(buffer);
    assert_eq!(cursor.read_display_set().unwrap(), ds);
}

#[test]
fn cropped_forced_composition_object() {
    let mut ds = small_display_set();
    ds.composition.objects.insert(
        Cid {
            object_id: 1,
            window_id: 1,
        },
        CompositionObject {
            x: 100,
            y: 100,
            forced: true,
            crop: Some(Crop {
                x: 0,
                y: 0,
                width: 4,
                height: 1,
            }),
        },
    );
    let segments = ds.to_segments().unwrap();
    let mut buffer: Vec<u8> = vec![];
    buffer.write_segment(&segments[0]).unwrap();
    // PCS: a 13-byte header, 11 fixed payload bytes, then the record whose
    // flags byte sits after the object ID and window ID.
    assert_eq!(buffer[13 + 11 + 3], 0xC0);
    // The record carries eight extra crop bytes: 8 + 8 = 16 in all.
    assert_eq!(buffer.len(), 13 + 11 + 16);
    assert_eq!(&buffer[13 + 11 + 8..], &[0, 0, 0, 0, 0, 4, 0, 1]);

    let mut out: Vec<u8> = vec![];
    out.write_display_set(ds.clone()).unwrap();
    let mut cursor = ByteSource::new(out);
    assert_eq!(cursor.read_display_set().unwrap(), ds);
}

#[test]
fn split_object_round_trip() {
    // Three lines of alternating non-zero pixels compress to one literal
    // byte per pixel plus the two-byte terminator per line:
    // 3 * (49,998 + 2) = 150,000 bytes.
    let mut lines: Vec<Vec<u8>> = Vec::new();
    for _ in 0..3 {
        let mut line: Vec<u8> = Vec::with_capacity(49_998);
        for i in 0..49_998usize {
            line.push(if i % 2 == 0 { 1 } else { 2 });
        }
        lines.push(line);
    }
    let mut ds = empty_display_set();
    ds.objects.insert(
        Vid { id: 7, version: 0 },
        Object {
            width: 49_998,
            height: 3,
            lines,
        },
    );
    let segments = ds.to_segments().unwrap();
    assert_eq!(segments.len(), 5);
    match (&segments[1], &segments[2], &segments[3]) {
        (
            Segment::InitialObjectDefinition(iods),
            Segment::MiddleObjectDefinition(mods),
            Segment::FinalObjectDefinition(fods),
        ) => {
            assert_eq!(iods.data.len(), 65_508);
            assert_eq!(mods.data.len(), 65_515);
            assert_eq!(fods.data.len(), 150_000 - 65_508 - 65_515);
            assert_eq!(iods.length, 150_004);
            assert_eq!((iods.id, iods.version), (7, 0));
            assert_eq!((mods.id, mods.version), (7, 0));
            assert_eq!((fods.id, fods.version), (7, 0));
        }
        _ => panic!("expected an initial, middle, final object run"),
    }

    let mut buffer: Vec<u8> = vec![];
    buffer.write_display_set(ds.clone()).unwrap();
    let mut cursor = ByteSource::new(buffer);
    assert_eq!(cursor.read_display_set().unwrap(), ds);
}

#[test]
fn emitted_segments_share_timestamps() {
    let ds = small_display_set();
    let segments = ds.to_segments().unwrap();
    for segment in &segments {
        let (pts, dts) = match segment {
            Segment::PresentationComposition(s) => (s.pts, s.dts),
            Segment::WindowDefinition(s) => (s.pts, s.dts),
            Segment::PaletteDefinition(s) => (s.pts, s.dts),
            Segment::SingleObjectDefinition(s) => (s.pts, s.dts),
            Segment::InitialObjectDefinition(s) => (s.pts, s.dts),
            Segment::MiddleObjectDefinition(s) => (s.pts, s.dts),
            Segment::FinalObjectDefinition(s) => (s.pts, s.dts),
            Segment::End(s) => (s.pts, s.dts),
        };
        assert_eq!((pts, dts), (1000, 900));
    }
}

#[test]
fn emitted_resources_ascend() {
    let mut ds = empty_display_set();
    for id in [4u8, 1, 3] {
        ds.palettes.insert(
            Vid { id, version: 0 },
            Palette {
                entries: SortedMap::new(),
            },
        );
    }
    for id in [9u16, 2, 5] {
        ds.objects.insert(
            Vid { id, version: 0 },
            Object {
                width: 1,
                height: 1,
                lines: vec![vec![1]],
            },
        );
    }
    let segments = ds.to_segments().unwrap();
    let mut pds_ids: Vec<u8> = vec![];
    let mut ods_ids: Vec<u16> = vec![];
    for segment in &segments {
        match segment {
            Segment::PaletteDefinition(s) => pds_ids.push(s.id),
            Segment::SingleObjectDefinition(s) => ods_ids.push(s.id),
            _ => {}
        }
    }
    assert_eq!(pds_ids, vec![1, 3, 4]);
    assert_eq!(ods_ids, vec![2, 5, 9]);
}

#[test]
fn crop_flag_without_crop_bytes_is_tolerated() {
    // A PCS whose only composition object sets the cropped flag but whose
    // payload ends right after the y field.
    let mut bytes: Vec<u8> = vec![];
    bytes.extend_from_slice(&[0x50, 0x47]); // magic
    bytes.extend_from_slice(&[0, 0, 0, 10]); // pts
    bytes.extend_from_slice(&[0, 0, 0, 0]); // dts
    bytes.push(0x16); // PCS
    bytes.extend_from_slice(&[0, 19]); // payload size: 11 + 8
    bytes.extend_from_slice(&[0x07, 0x80]); // width 1920
    bytes.extend_from_slice(&[0x04, 0x38]); // height 1080
    bytes.push(0x10); // frame rate
    bytes.extend_from_slice(&[0, 1]); // composition number
    bytes.push(0x80); // epoch start
    bytes.push(0x00); // no palette update
    bytes.push(0x00); // palette id
    bytes.push(1); // one composition object
    bytes.extend_from_slice(&[0, 5]); // object id
    bytes.push(2); // window id
    bytes.push(0x80); // cropped, but the payload ends after y
    bytes.extend_from_slice(&[0, 50]); // x
    bytes.extend_from_slice(&[0, 60]); // y

    let mut cursor = ByteSource::new(bytes);
    match cursor.read_segment().unwrap() {
        Segment::PresentationComposition(pcs) => {
            assert_eq!(pcs.composition_objects.len(), 1);
            let co = &pcs.composition_objects[0];
            assert_eq!(co.object_id, 5);
            assert_eq!(co.window_id, 2);
            assert_eq!((co.x, co.y), (50, 60));
            assert_eq!(co.crop, None);
        }
        _ => panic!("expected a PCS"),
    }
}

#[test]
fn palette_update_round_trip() {
    let mut ds = small_display_set();
    ds.palette_update_id = Some(1);
    let mut buffer: Vec<u8> = vec![];
    buffer.write_display_set(ds.clone()).unwrap();
    let mut cursor = ByteSource::new(buffer);
    assert_eq!(cursor.read_display_set().unwrap(), ds);
}

#[test]
fn two_display_sets_read_in_sequence() {
    let first = empty_display_set();
    let second = small_display_set();
    let mut buffer: Vec<u8> = vec![];
    buffer.write_display_set(first.clone()).unwrap();
    buffer.write_display_set(second.clone()).unwrap();
    let mut cursor = ByteSource::new(buffer);
    assert_eq!(cursor.read_display_set().unwrap(), first);
    assert_eq!(cursor.read_display_set().unwrap(), second);
    assert_eq!(cursor.remaining_len(), 0);
}
