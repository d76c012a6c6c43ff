use pgs::layout::{cropped_offset, new_item_offset, to_crop, AxisCrop};

#[test]
fn test_new_item_offset_simple() {
    assert_eq!(new_item_offset(800, 140, 88, 563, 40), 423);
}

#[test]
fn test_new_item_offset_too_high() {
    assert_eq!(new_item_offset(800, 140, 88, 95, 40), 40);
}

#[test]
fn test_new_item_offset_too_low() {
    assert_eq!(new_item_offset(800, 140, 88, 852, 40), 672);
}

#[test]
fn test_to_crop_centered() {
    assert_eq!(
        to_crop(1920, Some(1440), None),
        Some(AxisCrop {
            offset: 240,
            size: 1440,
        })
    );
}

#[test]
fn test_to_crop_explicit_offset() {
    assert_eq!(
        to_crop(1920, Some(1440), Some(100)),
        Some(AxisCrop {
            offset: 100,
            size: 1440,
        })
    );
}

#[test]
fn test_to_crop_none() {
    assert_eq!(to_crop(1920, None, Some(100)), None);
}

#[test]
fn test_cropped_offset() {
    assert_eq!(cropped_offset(500, 1920, 1440), 260);
}
