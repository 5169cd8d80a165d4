//! Entry operations: add, replace, delete, lookup, digests, substreams.

use aapak::error::PakError;
use aapak::file_info::AAPakFileInfo;
use aapak::header::AAPakFileHeader;
use aapak::pak::AAPak;

fn fresh_pak() -> AAPak {
    let mut pak = AAPak::new();
    assert!(pak.new_pak());
    pak
}

#[test]
fn add_appends_block_aligned() {
    let mut pak = fresh_pak();
    let added = pak
        .add_file_from_stream(b"a.txt", &[1u8; 100], 10, 20, false)
        .unwrap();
    assert_eq!(added.offset, 0);
    assert_eq!(added.size, 100);
    assert_eq!(added.size_duplicate, 100);
    assert_eq!(added.padding_size, 412);
    assert_eq!(added.create_time, 10);
    assert_eq!(added.modify_time, 20);
    assert_eq!(pak.header.first_file_info_offset, 512);
}

#[test]
fn add_with_spare_space_reserves_a_quarter() {
    let mut pak = fresh_pak();
    let added = pak
        .add_file_from_stream(b"big.bin", &[2u8; 4096], 1, 2, true)
        .unwrap();
    // 4096 is already aligned; the spare is a block-aligned quarter: 1024.
    assert_eq!(added.padding_size, 1024);
    assert_eq!(pak.header.first_file_info_offset, 4096 + 1024);
}

#[test]
fn add_then_replace_keeps_the_range() {
    let mut pak = fresh_pak();
    let a = pak
        .add_file_from_stream(b"a.txt", &[1u8; 100], 10, 20, false)
        .unwrap();
    let range_end = a.offset + a.size + a.padding_size as u64;
    let b = pak
        .add_file_from_stream(b"a.txt", &[9u8; 50], 11, 21, false)
        .unwrap();
    assert_eq!(b.offset, a.offset);
    assert_eq!(b.size, 50);
    assert_eq!(b.offset + b.size + b.padding_size as u64, range_end);
    // The padding grew by exactly the 50 bytes the content shrank.
    assert_eq!(b.padding_size, a.padding_size + 50);
    assert_eq!(pak.files.len(), 1);
}

#[test]
fn replace_refuses_content_too_large() {
    let mut pak = fresh_pak();
    pak.add_file_from_stream(b"a", &[1u8; 100], 1, 2, false)
        .unwrap();
    // 100 + 412 padding = 512 reserved; 513 bytes do not fit in place.
    assert!(!pak.replace_file(0, &vec![0u8; 513], 3));
    // 512 bytes fit exactly.
    assert!(pak.replace_file(0, &vec![0u8; 512], 3));
    assert_eq!(pak.files[0].size, 512);
    assert_eq!(pak.files[0].padding_size, 0);
}

#[test]
fn free_slot_reuse_first_fit() {
    let mut pak = fresh_pak();
    // Stage an entry of exactly 1000 reserved bytes at offset 0.
    pak.contents = vec![0u8; 1000];
    pak.header.first_file_info_offset = 1000;
    pak.files.push(AAPakFileInfo::new(
        0,
        0,
        0,
        0,
        0,
        [1u8; 16],
        0,
        b"a".to_vec(),
        0,
        0,
        1000,
        1000,
    ));
    pak.padding_delete_mode = false;
    assert!(pak.delete_file(0));
    assert_eq!(pak.extra_files.len(), 1);
    assert_eq!(pak.extra_files[0].size, 1000);
    assert_eq!(pak.extra_files[0].name, b"__unused__".to_vec());

    let b = pak
        .add_file_from_stream(b"b", &[7u8; 800], 1, 2, false)
        .unwrap();
    assert_eq!(b.offset, 0);
    assert_eq!(b.padding_size, 200);
    assert!(pak.extra_files.is_empty());
}

#[test]
fn padding_delete_merges_into_predecessor() {
    let mut pak = fresh_pak();
    pak.add_file_from_stream(b"a", &[1u8; 512], 1, 2, false)
        .unwrap();
    pak.add_file_from_stream(b"b", &[2u8; 100], 3, 4, false)
        .unwrap();
    assert_eq!(pak.files[0].padding_size, 0);
    assert_eq!(pak.files[1].offset, 512);
    pak.padding_delete_mode = true;
    assert!(pak.delete_file(1));
    assert_eq!(pak.files.len(), 1);
    assert_eq!(pak.files[0].name, b"a".to_vec());
    // The predecessor absorbed the deleted entry's 100 + 412 bytes.
    assert_eq!(pak.files[0].padding_size, 512);
    assert!(pak.extra_files.is_empty());
}

#[test]
fn delete_removes_every_entry_with_the_digest() {
    let mut pak = fresh_pak();
    pak.auto_update_md5_when_adding = true;
    pak.add_file_from_stream(b"one", &[5u8; 32], 1, 2, false)
        .unwrap();
    pak.add_file_from_stream(b"two", &[5u8; 32], 1, 2, false)
        .unwrap();
    pak.add_file_from_stream(b"other", &[6u8; 32], 1, 2, false)
        .unwrap();
    // "one" and "two" share content, so they share a digest.
    assert_eq!(pak.files[0].md5, pak.files[1].md5);
    pak.padding_delete_mode = false;
    assert!(pak.delete_file(0));
    assert_eq!(pak.files.len(), 1);
    assert_eq!(pak.files[0].name, b"other".to_vec());
}

#[test]
fn offset_lookup_owns_the_reserved_range() {
    let mut pak = fresh_pak();
    pak.add_file_from_stream(b"a", &[1u8; 512], 1, 2, false)
        .unwrap();
    pak.add_file_from_stream(b"b", &[2u8; 100], 3, 4, false)
        .unwrap();
    let end_a = pak.files[0].size + pak.files[0].padding_size as u64;
    assert_eq!(pak.find_file_by_offset(0).unwrap().name, b"a".to_vec());
    assert_eq!(
        pak.find_file_by_offset(end_a - 1).unwrap().name,
        b"a".to_vec()
    );
    // The boundary byte belongs to the next entry: the reserved ranges are
    // half-open, so abutting entries never overlap.
    assert_eq!(pak.find_file_by_offset(end_a).unwrap().name, b"b".to_vec());
    assert_eq!(
        pak.find_file_by_offset(end_a + 1).unwrap().name,
        b"b".to_vec()
    );
    let end_b = pak.files[1].offset + pak.files[1].size + pak.files[1].padding_size as u64;
    // One byte past an entry's reserved range nothing owns the position.
    assert!(pak.find_file_by_offset(end_b).is_none());
    assert!(pak.find_file_by_offset(end_b + 1).is_none());
}

#[test]
fn name_lookup_hits_and_misses() {
    let mut pak = fresh_pak();
    pak.add_file_from_stream(b"dir/a", &[1u8; 8], 1, 2, false)
        .unwrap();
    let (found, e) = pak.get_file_by_name(b"dir/a");
    assert!(found);
    assert_eq!(e.size, 8);
    let (missing, null) = pak.get_file_by_name(b"nope");
    assert!(!missing);
    assert_eq!(null.size, 0);
    assert!(null.name.is_empty());
}

#[test]
fn md5_of_known_content() {
    let mut pak = fresh_pak();
    pak.auto_update_md5_when_adding = true;
    let added = pak
        .add_file_from_stream(b"abc.txt", b"abc", 1, 2, false)
        .unwrap();
    let expected = AAPak::string_to_byte_array(b"900150983cd24fb0d6963f7d28e17f72").unwrap();
    assert_eq!(added.md5.to_vec(), expected);
}

#[test]
fn update_md5_recomputes_and_marks_dirty_on_change() {
    let mut pak = fresh_pak();
    pak.auto_update_md5_when_adding = false;
    pak.add_file_from_stream(b"f", b"abc", 1, 2, false).unwrap();
    assert_eq!(pak.files[0].md5, [0u8; 16]);
    assert!(pak.save_header());
    assert!(!pak.is_dirty);
    let digest = pak.update_md5(0).unwrap();
    let expected = AAPak::string_to_byte_array(b"900150983cd24fb0d6963f7d28e17f72").unwrap();
    assert_eq!(digest.to_vec(), expected);
    assert_eq!(pak.files[0].md5.to_vec(), expected);
    assert!(pak.is_dirty);
}

#[test]
fn update_md5_refused_when_closed() {
    let mut pak = AAPak::new();
    assert!(pak.update_md5(0).is_err());
}

#[test]
fn export_reads_the_entry_bytes() {
    let mut pak = fresh_pak();
    let content: Vec<u8> = (0..50u8).collect();
    pak.add_file_from_stream(b"blob", &content, 1, 2, false)
        .unwrap();
    let entry = pak.files[0].duplicate();
    let mut stream = pak.export_file_as_stream(&entry).unwrap();
    assert_eq!(stream.length(), 50);
    assert_eq!(stream.position(), 0);
    let first = stream.read(20);
    assert_eq!(first, content[0..20].to_vec());
    assert_eq!(stream.position(), 20);
    let rest = stream.read(100);
    assert_eq!(rest, content[20..].to_vec());
    assert_eq!(stream.position(), 50);
    stream.set_position(10);
    assert_eq!(stream.read(5), content[10..15].to_vec());
    stream.set_position(999);
    assert_eq!(stream.position(), 50);
    assert!(stream.write(&[1, 2, 3]).is_err());
}

#[test]
fn add_refuses_bad_names() {
    let mut pak = fresh_pak();
    assert!(pak
        .add_file_from_stream(b"bad\0name", &[1u8; 4], 1, 2, false)
        .is_err());
    let long = vec![b'x'; 0x109];
    assert!(pak.add_file_from_stream(&long, &[1u8; 4], 1, 2, false).is_err());
    let max = vec![b'x'; 0x108];
    assert!(pak.add_file_from_stream(&max, &[1u8; 4], 1, 2, false).is_ok());
}

#[test]
fn delete_refuses_bad_index() {
    let mut pak = fresh_pak();
    assert!(!pak.delete_file(0));
}

#[test]
fn error_variants_name_the_refusal() {
    let mut closed = AAPak::new();
    assert_eq!(closed.update_md5(0), Err(PakError::NotOpen));

    let mut pak = fresh_pak();
    assert_eq!(pak.update_md5(5), Err(PakError::IndexOutOfRange));
    assert_eq!(
        pak.add_file_from_stream(b"bad\0name", &[1u8; 4], 1, 2, false).err(),
        Some(PakError::NameInvalid)
    );
    pak.add_file_from_stream(b"f", &[1u8; 8], 1, 2, false)
        .unwrap();
    assert!(!pak.replace_file(0, &vec![0u8; 4096], 1));
    assert_eq!(pak.last_error, Some(PakError::CapacityExceeded));

    pak.read_only = true;
    assert_eq!(
        pak.add_file_from_stream(b"g", &[1u8; 4], 1, 2, false).err(),
        Some(PakError::ReadOnly)
    );

    let key: [u8; 16] = [0u8; 16];
    assert_eq!(
        AAPakFileHeader::encrypt_aes(&[1u8; 5], &key, true),
        Err(PakError::MisalignedData)
    );
}

#[test]
fn encrypt_aes_round_trips_and_checks_alignment() {
    let key: [u8; 16] = [3u8; 16];
    let message: Vec<u8> = (0..32u8).collect();
    let cipher = AAPakFileHeader::encrypt_aes(&message, &key, true).unwrap();
    assert_eq!(cipher.len(), 32);
    assert_ne!(cipher, message);
    let plain = AAPakFileHeader::encrypt_aes(&cipher, &key, false).unwrap();
    assert_eq!(plain, message);
    assert!(AAPakFileHeader::encrypt_aes(&message[0..5], &key, true).is_err());
}
