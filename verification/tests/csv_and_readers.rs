//! The CSV virtual backend, the textual codecs, and format readers.

use aapak::file_info::AAPakFileInfo;
use aapak::format_reader::AAPakFileFormatReader;
use aapak::pak::AAPak;
use aapak::pak_type::PakFileType;

fn sample_csv() -> Vec<u8> {
    let mut text = String::new();
    text.push_str("Name;Size;Offset;Md5;CreateTime;ModifyTime;SizeDuplicate;PaddingSize;Dummy1;Dummy2\n");
    text.push_str("data/a.dds;100;0;900150983cd24fb0d6963f7d28e17f72;2020-01-02 03:04:05;2021-02-03 04:05:06;100;412;7;8\n");
    text.push_str("data/b.dds;50;512;00000000000000000000000000000000;1999-12-31 23:59:59;2000-01-01 00:00:00;50;462;0;0\n");
    text.into_bytes()
}

#[test]
fn csv_opens_as_read_only_virtual_container() {
    let mut pak = AAPak::new();
    assert!(pak.open_virtual_csv_pak(sample_csv()));
    assert!(pak.is_open);
    assert!(pak.is_virtual);
    assert!(pak.read_only);
    assert_eq!(pak.pak_type, PakFileType::Csv);
    assert_eq!(pak.files.len(), 2);
    assert_eq!(pak.extra_files.len(), 0);

    let e = &pak.files[0];
    assert_eq!(e.name, b"data/a.dds".to_vec());
    assert_eq!(e.size, 100);
    assert_eq!(e.offset, 0);
    assert_eq!(e.padding_size, 412);
    assert_eq!(e.dummy1, 7);
    assert_eq!(e.dummy2, 8);
    assert_eq!(
        e.md5.to_vec(),
        AAPak::string_to_byte_array(b"900150983cd24fb0d6963f7d28e17f72").unwrap()
    );
    assert_eq!(e.create_time, 1577934245);
    assert_eq!(e.modify_time, 1612325106);
    assert_eq!(pak.files[1].create_time, 946684799);
    assert_eq!(pak.files[1].modify_time, 946684800);
}

#[test]
fn csv_header_is_case_insensitive() {
    let mut text = sample_csv();
    text[0] = b'n';
    let mut pak = AAPak::new();
    assert!(pak.open_virtual_csv_pak(text));
}

#[test]
fn csv_bad_header_is_refused() {
    let text = b"Nope;Size\n".to_vec();
    let mut pak = AAPak::new();
    assert!(!pak.open_virtual_csv_pak(text));
    assert!(!pak.is_open);
    assert!(pak.last_error.is_some());
}

#[test]
fn csv_malformed_row_aborts_the_load() {
    let mut text = sample_csv();
    text.extend_from_slice(b"only;three;fields\n");
    let mut pak = AAPak::new();
    assert!(!pak.open_virtual_csv_pak(text));
}

#[test]
fn csv_bad_number_aborts_the_load() {
    let mut text = sample_csv();
    text.extend_from_slice(b"x;notanumber;0;00000000000000000000000000000000;a;b;0;0;0;0\n");
    let mut pak = AAPak::new();
    assert!(!pak.open_virtual_csv_pak(text));
}

#[test]
fn csv_mutations_are_refused() {
    let mut pak = AAPak::new();
    assert!(pak.open_virtual_csv_pak(sample_csv()));
    assert!(!pak.replace_file(0, &[1u8; 4], 0));
    assert!(!pak.delete_file(0));
    assert!(pak.add_file_from_stream(b"n", &[1u8; 4], 0, 0, false).is_err());
    assert!(!pak.save_header());
}

#[test]
fn csv_parity_with_binary_archive() {
    // A binary archive with two files...
    let mut bin = AAPak::new();
    assert!(bin.new_pak());
    bin.auto_update_md5_when_adding = true;
    bin.add_file_from_stream(b"data/a.dds", &[1u8; 100], 1, 2, false)
        .unwrap();
    bin.add_file_from_stream(b"data/b.dds", &[2u8; 50], 3, 4, false)
        .unwrap();

    // ...and a CSV text with the same logical entries.
    let mut csv = AAPak::new();
    assert!(csv.open_virtual_csv_pak(sample_csv()));

    for name in [&b"data/a.dds"[..], b"data/b.dds", b"data/c.dds"] {
        let (f1, e1) = bin.get_file_by_name(name);
        let (f2, e2) = csv.get_file_by_name(name);
        assert_eq!(f1, f2);
        if f1 {
            assert_eq!(e1.name, e2.name);
        }
    }
}

#[test]
fn hex_decoding_round_trips_bytes() {
    assert_eq!(
        AAPak::string_to_byte_array(b"00ff10Ab").unwrap(),
        vec![0x00, 0xFF, 0x10, 0xAB]
    );
    assert!(AAPak::string_to_byte_array(b"0g").is_none());
    assert!(AAPak::string_to_byte_array(b"abc").is_none());
    assert_eq!(AAPak::string_to_byte_array(b"").unwrap(), Vec::<u8>::new());
}

#[test]
fn date_conversion_matches_the_calendar() {
    assert_eq!(
        AAPak::date_time_str_to_file_time(b"1970-01-01 00:00:00"),
        0
    );
    assert_eq!(
        AAPak::date_time_str_to_file_time(b"2020-01-02 03:04:05"),
        1577934245
    );
    // Too short, non-decimal, and impossible dates all yield zero.
    assert_eq!(AAPak::date_time_str_to_file_time(b"2020"), 0);
    assert_eq!(AAPak::date_time_str_to_file_time(b"yyyy-mm-dd hh:mm:ss"), 0);
    assert_eq!(
        AAPak::date_time_str_to_file_time(b"2020-13-40 03:04:05"),
        0
    );
}

#[test]
fn default_reader_declares_the_classic_layout() {
    let reader = AAPakFileFormatReader::new(true);
    assert!(reader.is_default);
    assert_eq!(reader.header_bytes, vec![0x57, 0x49, 0x42, 0x4F]);
    assert_eq!(reader.header_encryption_key, AAPakFileFormatReader::xl_games_key());
    assert_eq!(reader.read_order.len(), 11);
    assert_eq!(reader.file_info_read_order.len(), 10);
    assert!(!reader.invert_file_counter);

    let empty = AAPakFileFormatReader::new(false);
    assert!(!empty.is_default);
    assert!(empty.read_order.is_empty());
}

#[test]
fn inverted_counter_order_round_trips() {
    let mut pak = AAPak::new();
    if let Some(r) = pak.reader.as_mut() {
        r.invert_file_counter = true;
    }
    pak.reader_pool[0].invert_file_counter = true;
    assert!(pak.new_pak());
    pak.add_file_from_stream(b"kept", &[1u8; 32], 1, 2, false)
        .unwrap();
    pak.add_file_from_stream(b"gone", &[2u8; 32], 3, 4, false)
        .unwrap();
    assert!(pak.delete_file(1));
    assert!(pak.save_header());
    let image = pak.pak_image().clone();

    let mut other = AAPak::new();
    if let Some(r) = other.reader.as_mut() {
        r.invert_file_counter = true;
    }
    other.reader_pool[0].invert_file_counter = true;
    assert!(other.open_pak(image, true));
    assert_eq!(other.files.len(), 1);
    assert_eq!(other.extra_files.len(), 1);
    assert_eq!(other.files[0].name, b"kept".to_vec());
    assert_eq!(other.extra_files[0].name, b"__unused__".to_vec());
}

#[test]
fn null_entry_is_all_zero() {
    let e = AAPakFileInfo::default();
    assert!(e.name.is_empty());
    assert_eq!(e.offset, 0);
    assert_eq!(e.size, 0);
    assert_eq!(e.md5, [0u8; 16]);
}

#[test]
fn digest_equality_is_the_entry_equality() {
    let mut a = AAPakFileInfo::default();
    let mut b = AAPakFileInfo::default();
    a.name = b"left".to_vec();
    b.name = b"right".to_vec();
    assert!(a.has_same_digest(&b));
    b.md5[0] = 1;
    assert!(!a.has_same_digest(&b));
}
