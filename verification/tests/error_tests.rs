use pgs::bytes::ByteSource;
use pgs::displayset::{Composition, DisplaySet, Object, Palette, SortedMap, Vid};
use pgs::displaysetread::{ParseError, ReadDisplaySetExt, ReadError as DsReadError};
use pgs::displaysetwrite::{WriteDisplaySetExt, WriteError as DsWriteError};
use pgs::segment::{
    CompositionObject, CompositionState, EndSegment, InitialObjectDefinitionSegment,
    PaletteDefinitionSegment, PresentationCompositionSegment, Segment,
    SingleObjectDefinitionSegment, WindowDefinition, WindowDefinitionSegment,
};
use pgs::segmentread::{ReadError, ReadSegmentExt};
use pgs::segmentwrite::{WriteError, WriteSegmentExt};

fn pcs_segment(pts: u32, dts: u32) -> Segment {
    Segment::PresentationComposition(PresentationCompositionSegment {
        pts,
        dts,
        width: 1920,
        height: 1080,
        frame_rate: 0x10,
        composition_number: 0,
        composition_state: CompositionState::EpochStart,
        palette_update_id: None,
        composition_objects: vec![],
    })
}

fn sods_segment(pts: u32, dts: u32, id: u16, version: u8, data: Vec<u8>) -> Segment {
    Segment::SingleObjectDefinition(SingleObjectDefinitionSegment {
        pts,
        dts,
        id,
        version,
        width: 1,
        height: 1,
        data,
    })
}

fn iods_segment(pts: u32, dts: u32, id: u16, version: u8) -> Segment {
    Segment::InitialObjectDefinition(InitialObjectDefinitionSegment {
        pts,
        dts,
        id,
        version,
        length: 4,
        width: 1,
        height: 1,
        data: vec![],
    })
}

#[test]
fn empty_stream_is_clean_eof() {
    let mut cursor = ByteSource::new(vec![]);
    assert_eq!(cursor.read_segment(), Err(ReadError::UnexpectedEof));
    assert_eq!(cursor.remaining_len(), 0);
}

#[test]
fn bad_magic_number_consumes_two_bytes() {
    let mut cursor = ByteSource::new(vec![0x12, 0x34, 0x56, 0x78]);
    assert_eq!(
        cursor.read_segment(),
        Err(ReadError::UnrecognizedMagicNumber {
            parsed_magic_number: 0x1234
        })
    );
    assert_eq!(cursor.remaining_len(), 2);
}

#[test]
fn unrecognized_kind() {
    let mut bytes = vec![0x50, 0x47];
    bytes.extend_from_slice(&[0, 0, 0, 0, 0, 0, 0, 0]);
    bytes.push(0x99);
    bytes.extend_from_slice(&[0, 0]);
    let mut cursor = ByteSource::new(bytes);
    assert_eq!(
        cursor.read_segment(),
        Err(ReadError::UnrecognizedKind { parsed_kind: 0x99 })
    );
}

#[test]
fn unrecognized_composition_state_stops_the_parser() {
    let mut bytes = vec![0x50, 0x47];
    bytes.extend_from_slice(&[0, 0, 0, 0, 0, 0, 0, 0]);
    bytes.push(0x16);
    bytes.extend_from_slice(&[0, 11]);
    bytes.extend_from_slice(&[0x07, 0x80, 0x04, 0x38, 0x10, 0, 1]);
    bytes.push(0x55); // not a composition state
    bytes.extend_from_slice(&[0x00, 0x00, 0]);
    let mut cursor = ByteSource::new(bytes);
    assert_eq!(
        cursor.read_segment(),
        Err(ReadError::UnrecognizedCompositionState {
            parsed_composition_state: 0x55
        })
    );
    // Nothing past the state byte was consumed: 13 header bytes plus the
    // eight payload bytes up to and including the state.
    assert_eq!(cursor.remaining_len(), 3);
}

#[test]
fn unrecognized_palette_update_flag() {
    let mut bytes = vec![0x50, 0x47];
    bytes.extend_from_slice(&[0, 0, 0, 0, 0, 0, 0, 0]);
    bytes.push(0x16);
    bytes.extend_from_slice(&[0, 11]);
    bytes.extend_from_slice(&[0x07, 0x80, 0x04, 0x38, 0x10, 0, 1]);
    bytes.push(0x80);
    bytes.push(0x01); // not a palette update flag
    bytes.extend_from_slice(&[0x00, 0]);
    let mut cursor = ByteSource::new(bytes);
    assert_eq!(
        cursor.read_segment(),
        Err(ReadError::UnrecognizedPaletteUpdateFlag {
            parsed_palette_update_flag: 0x01
        })
    );
}

#[test]
fn unrecognized_object_sequence_flag() {
    let mut bytes = vec![0x50, 0x47];
    bytes.extend_from_slice(&[0, 0, 0, 0, 0, 0, 0, 0]);
    bytes.push(0x15);
    bytes.extend_from_slice(&[0, 4]);
    bytes.extend_from_slice(&[0, 1]); // object id
    bytes.push(0); // version
    bytes.push(0x20); // not a sequence flag
    let mut cursor = ByteSource::new(bytes);
    assert_eq!(
        cursor.read_segment(),
        Err(ReadError::UnrecognizedObjectSequenceFlag {
            parsed_sequence_flag: 0x20
        })
    );
}

#[test]
fn invalid_object_data_length() {
    let mut bytes = vec![0x50, 0x47];
    bytes.extend_from_slice(&[0, 0, 0, 0, 0, 0, 0, 0]);
    bytes.push(0x15);
    bytes.extend_from_slice(&[0, 11]);
    bytes.extend_from_slice(&[0, 1]); // object id
    bytes.push(0); // version
    bytes.push(0xC0); // single
    bytes.extend_from_slice(&[0, 0, 9]); // declared 9, but the size implies 4
    bytes.extend_from_slice(&[0, 1, 0, 1]); // width, height
    let mut cursor = ByteSource::new(bytes);
    assert_eq!(
        cursor.read_segment(),
        Err(ReadError::InvalidObjectDataLength {
            parsed_data_length: 9,
            expected_data_length: 4
        })
    );
}

#[test]
fn truncated_segment_is_eof() {
    let mut bytes = vec![0x50, 0x47];
    bytes.extend_from_slice(&[0, 0, 0, 0, 0, 0, 0, 0]);
    bytes.push(0x80);
    bytes.extend_from_slice(&[0, 9]); // declares nine payload bytes, stream ends
    let mut cursor = ByteSource::new(bytes);
    assert_eq!(cursor.read_segment(), Err(ReadError::UnexpectedEof));
}

#[test]
fn too_many_composition_objects() {
    let mut cos = Vec::new();
    for i in 0..256u16 {
        cos.push(CompositionObject {
            object_id: i,
            window_id: 0,
            x: 0,
            y: 0,
            forced: false,
            crop: None,
        });
    }
    let segment = Segment::PresentationComposition(PresentationCompositionSegment {
        pts: 0,
        dts: 0,
        width: 0,
        height: 0,
        frame_rate: 0,
        composition_number: 0,
        composition_state: CompositionState::Normal,
        palette_update_id: None,
        composition_objects: cos,
    });
    let mut buffer: Vec<u8> = vec![];
    assert_eq!(
        buffer.write_segment(&segment),
        Err(WriteError::TooManyCompositionObjects)
    );
    assert!(buffer.is_empty());
}

#[test]
fn too_many_window_definitions() {
    let mut windows = Vec::new();
    for _ in 0..256 {
        windows.push(WindowDefinition {
            id: 0,
            x: 0,
            y: 0,
            width: 0,
            height: 0,
        });
    }
    let segment = Segment::WindowDefinition(WindowDefinitionSegment {
        pts: 0,
        dts: 0,
        windows,
    });
    let mut buffer: Vec<u8> = vec![];
    assert_eq!(
        buffer.write_segment(&segment),
        Err(WriteError::TooManyWindowDefinitions)
    );
    assert!(buffer.is_empty());
}

#[test]
fn object_data_too_large() {
    let segment = sods_segment(0, 0, 0, 0, vec![0; 16_777_212]);
    let mut buffer: Vec<u8> = vec![];
    assert_eq!(
        buffer.write_segment(&segment),
        Err(WriteError::ObjectDataTooLarge)
    );
    assert!(buffer.is_empty());
}

#[test]
fn object_line_too_long() {
    let mut ds = DisplaySet {
        pts: 0,
        dts: 0,
        width: 0,
        height: 0,
        frame_rate: 0,
        palette_update_id: None,
        windows: SortedMap::new(),
        palettes: SortedMap::new(),
        objects: SortedMap::new(),
        composition: Composition {
            number: 0,
            state: CompositionState::Normal,
            objects: SortedMap::new(),
        },
    };
    ds.objects.insert(
        Vid { id: 0, version: 0 },
        Object {
            width: 0,
            height: 1,
            lines: vec![vec![7; 16_384]],
        },
    );
    let mut buffer: Vec<u8> = vec![];
    assert_eq!(
        buffer.write_display_set(ds),
        Err(DsWriteError::ObjectLineTooLong)
    );
    assert!(buffer.is_empty());
}

#[test]
fn no_segments() {
    assert_eq!(
        DisplaySet::try_from(&vec![]),
        Err(ParseError::NoSegments)
    );
}

#[test]
fn missing_presentation_composition_segment() {
    let segments = vec![Segment::End(EndSegment { pts: 0, dts: 0 })];
    assert_eq!(
        DisplaySet::try_from(&segments),
        Err(ParseError::MissingPresentationCompositionSegment)
    );
}

#[test]
fn unexpected_presentation_composition_segment() {
    let mut buffer: Vec<u8> = vec![];
    buffer.write_segment(&pcs_segment(1, 2)).unwrap();
    buffer.write_segment(&pcs_segment(1, 2)).unwrap();
    let mut cursor = ByteSource::new(buffer);
    assert_eq!(
        cursor.read_display_set(),
        Err(DsReadError::ParseError {
            source: ParseError::UnexpectedPresentationCompositionSegment
        })
    );
}

#[test]
fn missing_end_segment() {
    let segments = vec![pcs_segment(1, 2)];
    assert_eq!(
        DisplaySet::try_from(&segments),
        Err(ParseError::MissingEndSegment)
    );
}

#[test]
fn segment_after_end() {
    let segments = vec![
        pcs_segment(1, 2),
        Segment::End(EndSegment { pts: 1, dts: 2 }),
        Segment::End(EndSegment { pts: 1, dts: 2 }),
    ];
    assert_eq!(
        DisplaySet::try_from(&segments),
        Err(ParseError::SegmentAfterEnd)
    );
}

#[test]
fn inconsistent_pts() {
    let segments = vec![
        pcs_segment(1, 2),
        Segment::WindowDefinition(WindowDefinitionSegment {
            pts: 9,
            dts: 2,
            windows: vec![],
        }),
    ];
    assert_eq!(
        DisplaySet::try_from(&segments),
        Err(ParseError::InconsistentPts)
    );
}

#[test]
fn inconsistent_dts() {
    let segments = vec![
        pcs_segment(1, 2),
        Segment::WindowDefinition(WindowDefinitionSegment {
            pts: 1,
            dts: 9,
            windows: vec![],
        }),
    ];
    assert_eq!(
        DisplaySet::try_from(&segments),
        Err(ParseError::InconsistentDts)
    );
}

#[test]
fn duplicate_window_id() {
    let window = WindowDefinition {
        id: 3,
        x: 0,
        y: 0,
        width: 1,
        height: 1,
    };
    let segments = vec![
        pcs_segment(1, 2),
        Segment::WindowDefinition(WindowDefinitionSegment {
            pts: 1,
            dts: 2,
            windows: vec![window.clone(), window],
        }),
    ];
    assert_eq!(
        DisplaySet::try_from(&segments),
        Err(ParseError::DuplicateWindowId)
    );
}

#[test]
fn duplicate_palette_vid() {
    let pds = Segment::PaletteDefinition(PaletteDefinitionSegment {
        pts: 1,
        dts: 2,
        id: 4,
        version: 1,
        entries: vec![],
    });
    let segments = vec![pcs_segment(1, 2), pds.clone(), pds];
    assert_eq!(
        DisplaySet::try_from(&segments),
        Err(ParseError::DuplicatePaletteVid)
    );
}

#[test]
fn duplicate_object_vid() {
    let segments = vec![
        pcs_segment(1, 2),
        sods_segment(1, 2, 6, 0, vec![1, 0x00, 0x00]),
        sods_segment(1, 2, 6, 0, vec![1, 0x00, 0x00]),
    ];
    assert_eq!(
        DisplaySet::try_from(&segments),
        Err(ParseError::DuplicateObjectVid)
    );
}

#[test]
fn palette_update_references_unknown_palette_id() {
    let pcs = Segment::PresentationComposition(PresentationCompositionSegment {
        pts: 1,
        dts: 2,
        width: 1920,
        height: 1080,
        frame_rate: 0x10,
        composition_number: 0,
        composition_state: CompositionState::Normal,
        palette_update_id: Some(9),
        composition_objects: vec![],
    });
    let segments = vec![pcs, Segment::End(EndSegment { pts: 1, dts: 2 })];
    assert_eq!(
        DisplaySet::try_from(&segments),
        Err(ParseError::PaletteUpdateReferencesUnknownPaletteId)
    );
}

#[test]
fn invalid_object_sequence_initial_initial() {
    let segments = vec![
        pcs_segment(1, 2),
        iods_segment(1, 2, 5, 0),
        iods_segment(1, 2, 5, 0),
    ];
    assert_eq!(
        DisplaySet::try_from(&segments),
        Err(ParseError::InvalidObjectSequence)
    );
}

#[test]
fn incomplete_object_sequence() {
    let segments = vec![
        pcs_segment(1, 2),
        iods_segment(1, 2, 5, 0),
        Segment::End(EndSegment { pts: 1, dts: 2 }),
    ];
    assert_eq!(
        DisplaySet::try_from(&segments),
        Err(ParseError::IncompleteObjectSequence)
    );
}

#[test]
fn inconsistent_object_id() {
    let mods = Segment::MiddleObjectDefinition(pgs::segment::MiddleObjectDefinitionSegment {
        pts: 1,
        dts: 2,
        id: 8,
        version: 0,
        data: vec![],
    });
    let segments = vec![pcs_segment(1, 2), iods_segment(1, 2, 5, 0), mods];
    assert_eq!(
        DisplaySet::try_from(&segments),
        Err(ParseError::InconsistentObjectId)
    );
}

#[test]
fn inconsistent_object_version() {
    let mods = Segment::MiddleObjectDefinition(pgs::segment::MiddleObjectDefinitionSegment {
        pts: 1,
        dts: 2,
        id: 5,
        version: 3,
        data: vec![],
    });
    let segments = vec![pcs_segment(1, 2), iods_segment(1, 2, 5, 0), mods];
    assert_eq!(
        DisplaySet::try_from(&segments),
        Err(ParseError::InconsistentObjectVersion)
    );
}

#[test]
fn incomplete_rle_sequence() {
    let segments = vec![
        pcs_segment(1, 2),
        sods_segment(1, 2, 6, 0, vec![0x00]),
        Segment::End(EndSegment { pts: 1, dts: 2 }),
    ];
    assert_eq!(
        DisplaySet::try_from(&segments),
        Err(ParseError::IncompleteRleSequence)
    );
}

#[test]
fn incomplete_rle_line() {
    let segments = vec![
        pcs_segment(1, 2),
        sods_segment(1, 2, 6, 0, vec![0x05]),
        Segment::End(EndSegment { pts: 1, dts: 2 }),
    ];
    assert_eq!(
        DisplaySet::try_from(&segments),
        Err(ParseError::IncompleteRleLine)
    );
}

#[test]
fn display_set_with_too_many_windows() {
    let mut ds = DisplaySet {
        pts: 0,
        dts: 0,
        width: 0,
        height: 0,
        frame_rate: 0,
        palette_update_id: None,
        windows: SortedMap::new(),
        palettes: SortedMap::new(),
        objects: SortedMap::new(),
        composition: Composition {
            number: 0,
            state: CompositionState::Normal,
            objects: SortedMap::new(),
        },
    };
    for id in 0..=255u8 {
        ds.windows.insert(
            id,
            pgs::displayset::Window {
                x: 0,
                y: 0,
                width: 1,
                height: 1,
            },
        );
    }
    let mut buffer: Vec<u8> = vec![];
    assert_eq!(
        buffer.write_display_set(ds),
        Err(DsWriteError::SegmentError {
            source: WriteError::TooManyWindowDefinitions
        })
    );
}

#[test]
fn reading_stops_at_the_segment_boundary() {
    let mut buffer: Vec<u8> = vec![];
    buffer.write_segment(&pcs_segment(5, 6)).unwrap();
    let written = buffer.len();
    buffer.extend_from_slice(&[0xDE, 0xAD, 0xBE, 0xEF]);
    let total = buffer.len();
    let mut cursor = ByteSource::new(buffer);
    assert_eq!(cursor.read_segment().unwrap(), pcs_segment(5, 6));
    assert_eq!(cursor.remaining_len(), total - written);
}

#[test]
fn invalid_object_dimensions_single() {
    // A single ODS declaring a 4x2 bitmap but carrying no data decodes to
    // zero lines, which its height forbids.
    let sods = Segment::SingleObjectDefinition(SingleObjectDefinitionSegment {
        pts: 1,
        dts: 2,
        id: 6,
        version: 0,
        width: 4,
        height: 2,
        data: vec![],
    });
    let segments = vec![
        pcs_segment(1, 2),
        sods,
        Segment::End(EndSegment { pts: 1, dts: 2 }),
    ];
    assert_eq!(
        DisplaySet::try_from(&segments),
        Err(ParseError::InvalidObjectDimensions)
    );
}

#[test]
fn invalid_object_dimensions_wrong_width() {
    // The data decodes to one three-pixel line; the declared width is 4.
    let sods = Segment::SingleObjectDefinition(SingleObjectDefinitionSegment {
        pts: 1,
        dts: 2,
        id: 6,
        version: 0,
        width: 4,
        height: 1,
        data: vec![1, 2, 3, 0x00, 0x00],
    });
    let segments = vec![
        pcs_segment(1, 2),
        sods,
        Segment::End(EndSegment { pts: 1, dts: 2 }),
    ];
    assert_eq!(
        DisplaySet::try_from(&segments),
        Err(ParseError::InvalidObjectDimensions)
    );
}

#[test]
fn failed_display_set_write_appends_nothing_for_the_bad_segment() {
    let mut ds = DisplaySet {
        pts: 0,
        dts: 0,
        width: 0,
        height: 0,
        frame_rate: 0,
        palette_update_id: None,
        windows: SortedMap::new(),
        palettes: SortedMap::new(),
        objects: SortedMap::new(),
        composition: Composition {
            number: 0,
            state: CompositionState::Normal,
            objects: SortedMap::new(),
        },
    };
    for id in 0..=255u8 {
        ds.windows.insert(
            id,
            pgs::displayset::Window {
                x: 0,
                y: 0,
                width: 1,
                height: 1,
            },
        );
    }
    let mut buffer: Vec<u8> = vec![];
    assert_eq!(
        buffer.write_display_set(ds),
        Err(DsWriteError::SegmentError {
            source: WriteError::TooManyWindowDefinitions
        })
    );
    // The PCS was written whole; the oversized WDS left no trace.
    assert_eq!(buffer.len(), 13 + 11);
}
