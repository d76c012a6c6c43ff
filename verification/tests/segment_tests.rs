use pgs::bytes::ByteSource;
use pgs::segment::{
    CompositionObject, CompositionState, Crop, EndSegment, FinalObjectDefinitionSegment,
    InitialObjectDefinitionSegment, MiddleObjectDefinitionSegment, PaletteDefinitionSegment,
    PaletteEntry, PresentationCompositionSegment, Segment, SingleObjectDefinitionSegment,
    WindowDefinition, WindowDefinitionSegment,
};
use pgs::segmentread::ReadSegmentExt;
use pgs::segmentwrite::WriteSegmentExt;
use rand::{Rng, RngExt};

fn cycle(segment: &Segment) {
    let mut buffer: Vec<u8> = vec![];
    buffer.write_segment(segment).unwrap();
    let mut cursor = ByteSource::new(buffer);
    let cycled_segment = cursor.read_segment().unwrap();
    assert_eq!(cycled_segment, *segment);
}

#[test]
fn test_pcs_cycle_no_pui_no_co() {
    let mut rng = rand::rng();
    let segment = Segment::PresentationComposition(PresentationCompositionSegment {
        pts: rng.random(),
        dts: rng.random(),
        width: rng.random(),
        height: rng.random(),
        frame_rate: rng.random(),
        composition_number: rng.random(),
        composition_state: CompositionState::Normal,
        palette_update_id: None,
        composition_objects: vec![],
    });

    cycle(&segment);
}

#[test]
fn test_pcs_cycle_no_pui_co() {
    let mut rng = rand::rng();
    let segment = Segment::PresentationComposition(PresentationCompositionSegment {
        pts: rng.random(),
        dts: rng.random(),
        width: rng.random(),
        height: rng.random(),
        frame_rate: rng.random(),
        composition_number: rng.random(),
        composition_state: CompositionState::Normal,
        palette_update_id: None,
        composition_objects: vec![
            CompositionObject {
                object_id: rng.random(),
                window_id: rng.random(),
                x: rng.random(),
                y: rng.random(),
                forced: rng.random(),
                crop: None,
            },
            CompositionObject {
                object_id: rng.random(),
                window_id: rng.random(),
                x: rng.random(),
                y: rng.random(),
                forced: rng.random(),
                crop: Some(Crop {
                    x: rng.random(),
                    y: rng.random(),
                    width: rng.random(),
                    height: rng.random(),
                }),
            },
        ],
    });

    cycle(&segment);
}

#[test]
fn test_pcs_cycle_pui_no_co() {
    let mut rng = rand::rng();
    let segment = Segment::PresentationComposition(PresentationCompositionSegment {
        pts: rng.random(),
        dts: rng.random(),
        width: rng.random(),
        height: rng.random(),
        frame_rate: rng.random(),
        composition_number: rng.random(),
        composition_state: CompositionState::Normal,
        palette_update_id: Some(rng.random()),
        composition_objects: vec![],
    });

    cycle(&segment);
}

#[test]
fn test_pcs_cycle_pui_co() {
    let mut rng = rand::rng();
    let segment = Segment::PresentationComposition(PresentationCompositionSegment {
        pts: rng.random(),
        dts: rng.random(),
        width: rng.random(),
        height: rng.random(),
        frame_rate: rng.random(),
        composition_number: rng.random(),
        composition_state: CompositionState::Normal,
        palette_update_id: Some(rng.random()),
        composition_objects: vec![
            CompositionObject {
                object_id: rng.random(),
                window_id: rng.random(),
                x: rng.random(),
                y: rng.random(),
                forced: rng.random(),
                crop: None,
            },
            CompositionObject {
                object_id: rng.random(),
                window_id: rng.random(),
                x: rng.random(),
                y: rng.random(),
                forced: rng.random(),
                crop: Some(Crop {
                    x: rng.random(),
                    y: rng.random(),
                    width: rng.random(),
                    height: rng.random(),
                }),
            },
        ],
    });

    cycle(&segment);
}

#[test]
fn test_wds_empty() {
    let mut rng = rand::rng();
    let segment = Segment::WindowDefinition(WindowDefinitionSegment {
        pts: rng.random(),
        dts: rng.random(),
        windows: vec![],
    });

    cycle(&segment);
}

#[test]
fn test_wds_not_empty() {
    let mut rng = rand::rng();
    let segment = Segment::WindowDefinition(WindowDefinitionSegment {
        pts: rng.random(),
        dts: rng.random(),
        windows: vec![
            WindowDefinition {
                id: rng.random(),
                x: rng.random(),
                y: rng.random(),
                width: rng.random(),
                height: rng.random(),
            },
            WindowDefinition {
                id: rng.random(),
                x: rng.random(),
                y: rng.random(),
                width: rng.random(),
                height: rng.random(),
            },
            WindowDefinition {
                id: rng.random(),
                x: rng.random(),
                y: rng.random(),
                width: rng.random(),
                height: rng.random(),
            },
        ],
    });

    cycle(&segment);
}

#[test]
fn test_pds_empty() {
    let mut rng = rand::rng();
    let segment = Segment::PaletteDefinition(PaletteDefinitionSegment {
        pts: rng.random(),
        dts: rng.random(),
        id: rng.random(),
        version: rng.random(),
        entries: vec![],
    });

    cycle(&segment);
}

#[test]
fn test_pds_not_empty() {
    let mut rng = rand::rng();
    let segment = Segment::PaletteDefinition(PaletteDefinitionSegment {
        pts: rng.random(),
        dts: rng.random(),
        id: rng.random(),
        version: rng.random(),
        entries: vec![
            PaletteEntry {
                id: rng.random(),
                y: rng.random(),
                cr: rng.random(),
                cb: rng.random(),
                alpha: rng.random(),
            },
            PaletteEntry {
                id: rng.random(),
                y: rng.random(),
                cr: rng.random(),
                cb: rng.random(),
                alpha: rng.random(),
            },
            PaletteEntry {
                id: rng.random(),
                y: rng.random(),
                cr: rng.random(),
                cb: rng.random(),
                alpha: rng.random(),
            },
        ],
    });

    cycle(&segment);
}

#[test]
fn test_ods_single() {
    let mut rng = rand::rng();
    let mut data = Vec::with_capacity(1_024);
    rng.fill_bytes(&mut data);
    let segment = Segment::SingleObjectDefinition(SingleObjectDefinitionSegment {
        pts: rng.random(),
        dts: rng.random(),
        id: rng.random(),
        version: rng.random(),
        width: rng.random(),
        height: rng.random(),
        data,
    });

    cycle(&segment);
}

#[test]
fn test_ods_first() {
    let mut rng = rand::rng();
    let mut data = Vec::with_capacity(1_024);
    rng.fill_bytes(&mut data);
    let segment = Segment::InitialObjectDefinition(InitialObjectDefinitionSegment {
        pts: rng.random(),
        dts: rng.random(),
        id: rng.random(),
        version: rng.random(),
        length: data.len(),
        width: rng.random(),
        height: rng.random(),
        data,
    });

    cycle(&segment);
}

#[test]
fn test_ods_middle() {
    let mut rng = rand::rng();
    let mut data = Vec::with_capacity(1_024);
    rng.fill_bytes(&mut data);
    let segment = Segment::MiddleObjectDefinition(MiddleObjectDefinitionSegment {
        pts: rng.random(),
        dts: rng.random(),
        id: rng.random(),
        version: rng.random(),
        data,
    });

    cycle(&segment);
}

#[test]
fn test_ods_last() {
    let mut rng = rand::rng();
    let mut data = Vec::with_capacity(1_024);
    rng.fill_bytes(&mut data);
    let segment = Segment::FinalObjectDefinition(FinalObjectDefinitionSegment {
        pts: rng.random(),
        dts: rng.random(),
        id: rng.random(),
        version: rng.random(),
        data,
    });

    cycle(&segment);
}

#[test]
fn test_es() {
    let mut rng = rand::rng();
    let segment = Segment::End(EndSegment {
        pts: rng.random(),
        dts: rng.random(),
    });

    cycle(&segment);
}
