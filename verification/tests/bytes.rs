use sqlite_format::bytes::{be_i64, be_u16_at, be_u32_at, be_u64};

#[test]
fn be_u64_reads_most_significant_first() {
    assert_eq!(be_u64(&[]), 0);
    assert_eq!(be_u64(&[0x12]), 0x12);
    assert_eq!(be_u64(&[0x12, 0x34]), 0x1234);
    assert_eq!(be_u64(&[1, 2, 3, 4, 5, 6, 7, 8]), 0x0102_0304_0506_0708);
    assert_eq!(be_u64(&[0xff; 8]), u64::MAX);
}

#[test]
fn be_u16_at_offset() {
    let buf = [0xaa, 0x10, 0x00, 0xbb];
    assert_eq!(be_u16_at(&buf, 1), 4096);
    assert_eq!(be_u16_at(&buf, 0), 0xaa10);
    assert_eq!(be_u16_at(&buf, 2), 0x00bb);
}

#[test]
fn be_u32_at_offset() {
    let buf = [0xaa, 0x00, 0x00, 0x00, 0x01, 0xff];
    assert_eq!(be_u32_at(&buf, 1), 1);
    assert_eq!(be_u32_at(&buf, 0), 0xaa00_0000);
    assert_eq!(be_u32_at(&buf, 2), 0x0000_01ff);
}

#[test]
fn be_i64_sign_extends_from_each_width() {
    assert_eq!(be_i64(&[0x7f]), 127);
    assert_eq!(be_i64(&[0x80]), -128);
    assert_eq!(be_i64(&[0xff]), -1);
    assert_eq!(be_i64(&[0xff, 0xfe]), -2);
    assert_eq!(be_i64(&[0x80, 0x00]), -32768);
    assert_eq!(be_i64(&[0x80, 0x00, 0x00]), -8_388_608);
    assert_eq!(be_i64(&[0x7f, 0xff, 0xff]), 8_388_607);
    assert_eq!(be_i64(&[0x80, 0x00, 0x00, 0x00]), i32::MIN as i64);
    assert_eq!(be_i64(&[0xff, 0xff, 0xff, 0xff, 0xff]), -1);
    assert_eq!(be_i64(&[0x80, 0, 0, 0, 0, 1]), -140_737_488_355_327);
    assert_eq!(be_i64(&[0xff, 0, 0, 0, 0, 0, 0]), -(1i64 << 48));
    assert_eq!(be_i64(&[0x80, 0, 0, 0, 0, 0, 0, 0]), i64::MIN);
    assert_eq!(be_i64(&[0x7f, 0xff, 0xff, 0xff, 0xff, 0xff, 0xff, 0xff]), i64::MAX);
    assert_eq!(be_i64(&[0xff; 8]), -1);
}
