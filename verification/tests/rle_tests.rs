use pgs::displaysetread::rle_decompress;
use pgs::displaysetwrite::rle_compress;
use pgs::ts_to_timestamp;

fn round_trip(lines: Vec<Vec<u8>>) {
    let data = rle_compress(&lines).unwrap();
    assert_eq!(rle_decompress(&data).unwrap(), lines);
}

#[test]
fn rle_exact_zero_run() {
    // One hundred zeros land in the fourteen-bit zero-run family.
    let data = rle_compress(&vec![vec![0; 100]]).unwrap();
    assert_eq!(data, vec![0x00, 0x40, 100, 0x00, 0x00]);
}

#[test]
fn rle_exact_short_zero_run() {
    let data = rle_compress(&vec![vec![0; 63]]).unwrap();
    assert_eq!(data, vec![0x00, 63, 0x00, 0x00]);
}

#[test]
fn rle_exact_literals() {
    assert_eq!(rle_compress(&vec![vec![7]]).unwrap(), vec![7, 0x00, 0x00]);
    assert_eq!(
        rle_compress(&vec![vec![7, 7]]).unwrap(),
        vec![7, 7, 0x00, 0x00]
    );
}

#[test]
fn rle_exact_short_color_run() {
    let data = rle_compress(&vec![vec![5, 5, 5]]).unwrap();
    assert_eq!(data, vec![0x00, 0x83, 5, 0x00, 0x00]);
}

#[test]
fn rle_exact_long_color_run() {
    let data = rle_compress(&vec![vec![9; 64]]).unwrap();
    assert_eq!(data, vec![0x00, 0xC0, 0x40, 9, 0x00, 0x00]);
}

#[test]
fn rle_empty_lines() {
    let data = rle_compress(&vec![vec![], vec![]]).unwrap();
    assert_eq!(data, vec![0x00, 0x00, 0x00, 0x00]);
    round_trip(vec![vec![], vec![]]);
}

#[test]
fn rle_round_trip_boundaries() {
    round_trip(vec![]);
    round_trip(vec![vec![0]]);
    round_trip(vec![vec![0; 63], vec![0; 64], vec![0; 16_383]]);
    round_trip(vec![vec![3], vec![3, 3], vec![3; 3], vec![3; 63], vec![3; 64], vec![3; 16_383]]);
    round_trip(vec![vec![1, 1, 0, 0, 2, 2, 2, 0, 9], vec![], vec![0, 5, 0, 5]]);
}

#[test]
fn rle_longest_run_fails() {
    assert!(rle_compress(&vec![vec![0; 16_384]]).is_err());
    assert!(rle_compress(&vec![vec![1; 16_384]]).is_err());
    assert!(rle_compress(&vec![vec![0; 16_383]]).is_ok());
}

#[test]
fn timestamp_zero() {
    assert_eq!(ts_to_timestamp(0), "00:00:00.000");
}

#[test]
fn timestamp_exact() {
    // One hour, two minutes, 3.456 seconds at 90 kHz.
    assert_eq!(ts_to_timestamp(3_723_456 * 90), "01:02:03.456");
}

#[test]
fn timestamp_widest() {
    // The largest timestamp: 47,721,858 milliseconds.
    assert_eq!(ts_to_timestamp(u32::MAX), "13:15:21.858");
}

#[test]
fn timestamp_padding() {
    assert_eq!(ts_to_timestamp(90), "00:00:00.001");
    assert_eq!(ts_to_timestamp(90 * 10), "00:00:00.010");
    assert_eq!(ts_to_timestamp(90 * 100), "00:00:00.100");
    assert_eq!(ts_to_timestamp(90 * 1000), "00:00:01.000");
}
