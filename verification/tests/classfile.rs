use mkprop::FormatLimitError;
use mkprop::classfile::{ConstPool, Fields, gen_class_file, write_utf8_const};
use mkprop::reconcile::{DriverDataFile, TemplateFile};
use mkprop::{build, sketch};

fn read_u16(b: &[u8], off: usize) -> usize {
    ((b[off] as usize) << 8) | b[off + 1] as usize
}

fn read_i32(b: &[u8], off: usize) -> i32 {
    (((b[off] as u32) << 24) | ((b[off + 1] as u32) << 16) | ((b[off + 2] as u32) << 8)
        | b[off + 3] as u32) as i32
}

fn cp_entry_size(b: &[u8], off: usize) -> usize {
    match b[off] {
        1 => 3 + read_u16(b, off + 1),
        3 => 5,
        7 => 3,
        10 => 5,
        12 => 5,
        t => panic!("unexpected constant tag {}", t),
    }
}

/// Walks the pool; returns (offset of each entry indexed by 1-based ID,
/// offset just past the pool).
fn pool_offsets(b: &[u8]) -> (Vec<usize>, usize) {
    let count = read_u16(b, 8);
    let mut offsets = vec![0usize; count + 1];
    let mut off = 10;
    for id in 1..count {
        offsets[id] = off;
        off += cp_entry_size(b, off);
    }
    (offsets, off)
}

#[test]
fn test_utf8_payload_length_limit() {
    let mut pool = ConstPool::new();
    let just_fits = "a".repeat(65535);
    assert_eq!(pool.insert_utf8(&just_fits), Ok(12));
    let too_long = "a".repeat(65536);
    assert_eq!(pool.insert_utf8(&too_long), Err(FormatLimitError::Utf8TooLong));
}

#[test]
fn test_pool_id_limit() {
    let mut pool = ConstPool::new();
    // IDs 12 through 0xFFFE are available: 65523 insertions.
    for _ in 0..65523 {
        pool.insert_integer(7).unwrap();
    }
    assert_eq!(pool.insert_integer(7), Err(FormatLimitError::TooManyConstants));
}

#[test]
fn test_field_inserts_stop_when_pool_is_full() {
    let mut pool = ConstPool::new();
    let mut fields = Fields::new();
    // Each field takes two pool IDs after the 11 well-known ones, so 32761
    // fields fit and the next fails on its value constant.
    for _ in 0..32761 {
        fields.insert_int_field(&mut pool, "K", 1).unwrap();
    }
    assert_eq!(
        fields.insert_int_field(&mut pool, "K", 1),
        Err(FormatLimitError::TooManyConstants)
    );
}

#[test]
fn test_too_many_fields_fails() {
    let entries: Vec<(String, i32)> = (0..0x10000).map(|_| (String::from("K"), 0)).collect();
    assert!(gen_class_file((52, 0), "C", &entries).is_err());
}

#[test]
fn test_emitted_bytes_exact() {
    let fields = vec![(String::from("B"), 1)];
    let bytes = gen_class_file((52, 0), "A", &fields).unwrap();
    let mut expected: Vec<u8> = vec![
        0xca, 0xfe, 0xba, 0xbe, // magic
        0, 0, 0, 52, // minor then major version
        0, 14, // pool count: 11 well-known + 2 + 1
        1, 0, 1, 65, // 1: Utf8 "A"
    ];
    expected.extend_from_slice(&[
        7, 0, 1, // 2: Class -> 1
        1, 0, 1, 73, // 3: Utf8 "I"
        1, 0, 13, 67, 111, 110, 115, 116, 97, 110, 116, 86, 97, 108, 117, 101, // 4
        1, 0, 16, 106, 97, 118, 97, 47, 108, 97, 110, 103, 47, 79, 98, 106, 101, 99,
        116, // 5: Utf8 "java/lang/Object"
        7, 0, 5, // 6: Class -> 5
        1, 0, 6, 60, 105, 110, 105, 116, 62, // 7: Utf8 "<init>"
        1, 0, 3, 40, 41, 86, // 8: Utf8 "()V"
        1, 0, 4, 67, 111, 100, 101, // 9: Utf8 "Code"
        12, 0, 7, 0, 8, // 10: NameAndType
        10, 0, 6, 0, 10, // 11: Methodref
    ]);
    expected.extend_from_slice(&[
        1, 0, 1, 66, // 12: Utf8 "B"
        3, 0, 0, 0, 1, // 13: Integer 1
        0x10, 0x31, // access flags
        0, 2, // this-class
        0, 6, // super-class
        0, 0, // no interfaces
        0, 1, // one field
        0x10, 0x19, // field flags
        0, 12, // name
        0, 3, // descriptor "I"
        0, 1, // one attribute
        0, 4, // "ConstantValue"
        0, 0, 0, 2, // attribute length
        0, 13, // the Integer constant
        0, 1, // one method
        0x10, 0x01, // method flags
        0, 7, // "<init>"
        0, 8, // "()V"
        0, 1, // one attribute
        0, 9, // "Code"
        0, 0, 0, 17, // attribute length
        0, 1, // max_stack
        0, 1, // max_locals
        0, 0, 0, 5, // code length
        0x2a, 0xb7, 0, 11, 0xb1, // aload_0; invokespecial #11; return
        0, 0, // no exceptions
        0, 0, // no code attributes
        0, 0, // no class attributes
    ]);
    assert_eq!(bytes, expected);
}

#[test]
fn test_writer_is_deterministic() {
    let fields = vec![(String::from("X"), -7), (String::from("Y"), 7)];
    let a = gen_class_file((52, 0), "Klass", &fields).unwrap();
    let b = gen_class_file((52, 0), "Klass", &fields).unwrap();
    assert_eq!(a, b);
}

#[test]
fn test_read_back_field_values() {
    let fields = vec![
        (String::from("A"), 42),
        (String::from("B"), -1),
        (String::from("C"), 42),
    ];
    let bytes = gen_class_file((52, 0), "RT", &fields).unwrap();
    let (offsets, after_pool) = pool_offsets(&bytes);
    // Two fields share a value yet keep distinct Integer entries: no
    // deduplication ever happens.
    let integer_entries = (1..read_u16(&bytes, 8))
        .filter(|&id| bytes[offsets[id]] == 3)
        .count();
    assert_eq!(integer_entries, 3);
    // The field table holds one entry per resolved field.
    let field_count_off = after_pool + 8;
    assert_eq!(read_u16(&bytes, field_count_off), fields.len());
    // Each field's ConstantValue integer reads back as the original value.
    for (i, field) in fields.iter().enumerate() {
        let rec = field_count_off + 2 + 16 * i;
        let vid = read_u16(&bytes, rec + 14);
        let entry = offsets[vid];
        assert_eq!(bytes[entry], 3);
        assert_eq!(read_i32(&bytes, entry + 1), field.1);
    }
}

#[test]
fn test_modified_utf8_encoding_is_applied() {
    // Plain ASCII passes through.
    let mut out: Vec<u8> = Vec::new();
    write_utf8_const("ab", &mut out).unwrap();
    assert_eq!(out, vec![1, 0, 2, 97, 98]);
    // The null code point becomes the two-byte form.
    let mut out: Vec<u8> = Vec::new();
    write_utf8_const("\u{0}", &mut out).unwrap();
    assert_eq!(out, vec![1, 0, 2, 0xc0, 0x80]);
    // A supplementary-plane character becomes a six-byte surrogate pair.
    let mut out: Vec<u8> = Vec::new();
    write_utf8_const("\u{10401}", &mut out).unwrap();
    assert_eq!(out, vec![1, 0, 6, 0xed, 0xa0, 0x81, 0xed, 0xb0, 0x81]);
}

#[test]
fn test_build_end_to_end() {
    let (template, _) = TemplateFile::parse("@CLASS BR . MAP HIGH BAR .").unwrap();
    let (driver, _) = DriverDataFile::parse("DEF HIGH 7 .").unwrap();
    let (bytes, diags) = build((52, 0), template, driver).unwrap();
    assert_eq!(diags.len(), 0);
    assert_eq!(&bytes[0..8], &[0xca, 0xfe, 0xba, 0xbe, 0, 0, 0, 52]);
    let (offsets, after_pool) = pool_offsets(&bytes);
    assert_eq!(read_u16(&bytes, after_pool + 8), 1);
    let rec = after_pool + 10;
    let vid = read_u16(&bytes, rec + 14);
    assert_eq!(read_i32(&bytes, offsets[vid] + 1), 7);
}

#[test]
fn test_sketch_end_to_end() {
    let (template, _) = TemplateFile::parse("@CLASS BR . MAP HIGH BAR .").unwrap();
    let bytes = sketch((52, 0), template).unwrap();
    let (offsets, after_pool) = pool_offsets(&bytes);
    assert_eq!(read_u16(&bytes, after_pool + 8), 1);
    let rec = after_pool + 10;
    let vid = read_u16(&bytes, rec + 14);
    assert_eq!(read_i32(&bytes, offsets[vid] + 1), -1);
}
