use pgs::bytes::ByteSource;
use pgs::displayset::{
    Cid, Composition, CompositionObject, DisplaySet, Object, Palette, PaletteEntry, SortedMap,
    Vid, Window,
};
use pgs::displaysetread::ReadDisplaySetExt;
use pgs::displaysetwrite::WriteDisplaySetExt;
use pgs::segment::{CompositionState, Crop};
use rand::RngExt;

#[test]
fn test_ds_cycle_empty() {
    let mut rng = rand::rng();
    let mut buffer: Vec<u8> = vec![];

    let display_set = DisplaySet {
        pts: rng.random(),
        dts: rng.random(),
        width: rng.random(),
        height: rng.random(),
        frame_rate: rng.random(),
        palette_update_id: None,
        windows: SortedMap::<u8, Window>::new(),
        palettes: SortedMap::<Vid<u8>, Palette>::new(),
        objects: SortedMap::<Vid<u16>, Object>::new(),
        composition: Composition {
            number: rng.random(),
            state: CompositionState::EpochStart,
            objects: SortedMap::<Cid, CompositionObject>::new(),
        },
    };

    buffer.write_display_set(display_set.clone()).unwrap();

    let mut cursor = ByteSource::new(buffer);
    let cycled_display_set = cursor.read_display_set().unwrap();

    assert_eq!(cycled_display_set, display_set);
}

#[test]
fn test_ds_cycle_not_empty() {
    let mut rng = rand::rng();
    let mut buffer: Vec<u8> = vec![];
    let mut composition_objects = SortedMap::<Cid, CompositionObject>::new();
    let mut windows = SortedMap::<u8, Window>::new();
    let mut palettes = SortedMap::<Vid<u8>, Palette>::new();
    let mut palette_entries = SortedMap::<u8, PaletteEntry>::new();
    let mut objects = SortedMap::<Vid<u16>, Object>::new();

    composition_objects.insert(
        Cid {
            object_id: 1,
            window_id: 1,
        },
        CompositionObject {
            x: rng.random(),
            y: rng.random(),
            forced: false,
            crop: None,
        },
    );
    composition_objects.insert(
        Cid {
            object_id: 2,
            window_id: 2,
        },
        CompositionObject {
            x: rng.random(),
            y: rng.random(),
            forced: false,
            crop: Some(Crop {
                x: rng.random(),
                y: rng.random(),
                width: rng.random(),
                height: rng.random(),
            }),
        },
    );
    composition_objects.insert(
        Cid {
            object_id: 3,
            window_id: 3,
        },
        CompositionObject {
            x: rng.random(),
            y: rng.random(),
            forced: false,
            crop: Some(Crop {
                x: rng.random(),
                y: rng.random(),
                width: rng.random(),
                height: rng.random(),
            }),
        },
    );

    windows.insert(
        1,
        Window {
            x: rng.random(),
            y: rng.random(),
            width: rng.random(),
            height: rng.random(),
        },
    );
    windows.insert(
        2,
        Window {
            x: rng.random(),
            y: rng.random(),
            width: rng.random(),
            height: rng.random(),
        },
    );
    windows.insert(
        3,
        Window {
            x: rng.random(),
            y: rng.random(),
            width: rng.random(),
            height: rng.random(),
        },
    );

    palette_entries.insert(
        1,
        PaletteEntry {
            y: rng.random(),
            cr: rng.random(),
            cb: rng.random(),
            alpha: rng.random(),
        },
    );
    palette_entries.insert(
        2,
        PaletteEntry {
            y: rng.random(),
            cr: rng.random(),
            cb: rng.random(),
            alpha: rng.random(),
        },
    );
    palette_entries.insert(
        3,
        PaletteEntry {
            y: rng.random(),
            cr: rng.random(),
            cb: rng.random(),
            alpha: rng.random(),
        },
    );

    palettes.insert(
        Vid { id: 1, version: 1 },
        Palette {
            entries: palette_entries,
        },
    );

    // Eight 256-pixel lines covering every opcode family: short and long
    // zero runs, short and long color runs, single and paired literals.
    let mut lines: Vec<Vec<u8>> = Vec::new();
    lines.push(vec![0; 256]);
    lines.push(vec![1; 256]);
    lines.push((0..=255).collect::<Vec<u8>>());
    let mut mixed = vec![0; 64];
    mixed.extend(vec![1; 192]);
    lines.push(mixed);
    let mut mixed = vec![1; 63];
    mixed.extend(vec![0; 193]);
    lines.push(mixed);
    lines.push((0..256u16).map(|i| (i % 2) as u8).collect::<Vec<u8>>());
    let mut mixed = vec![5; 3];
    mixed.extend(vec![0; 253]);
    lines.push(mixed);
    let mut mixed = vec![9; 250];
    mixed.extend(vec![2; 6]);
    lines.push(mixed);
    objects.insert(
        Vid { id: 1, version: 1 },
        Object {
            width: 256,
            height: 8,
            lines,
        },
    );
    objects.insert(
        Vid { id: 2, version: 1 },
        Object {
            width: rng.random(),
            height: 0,
            lines: vec![],
        },
    );
    objects.insert(
        Vid { id: 3, version: 1 },
        Object {
            width: rng.random(),
            height: 0,
            lines: vec![],
        },
    );

    let display_set = DisplaySet {
        pts: rng.random(),
        dts: rng.random(),
        width: rng.random(),
        height: rng.random(),
        frame_rate: rng.random(),
        palette_update_id: None,
        windows,
        palettes,
        objects,
        composition: Composition {
            number: rng.random(),
            state: CompositionState::EpochStart,
            objects: composition_objects,
        },
    };

    buffer.write_display_set(display_set.clone()).unwrap();

    let mut cursor = ByteSource::new(buffer);
    let cycled_display_set = cursor.read_display_set().unwrap();

    assert_eq!(cycled_display_set, display_set);
}
