//! Container lifecycle: creating, saving, closing and reopening archives.

use aapak::pak::AAPak;
use aapak::pak_type::PakFileType;

fn epoch(n: i64) -> i64 {
    n
}

#[test]
fn new_pak_builds_a_blank_valid_archive() {
    let mut pak = AAPak::new();
    assert!(pak.new_pak());
    assert!(pak.header.is_valid);
    assert!(pak.is_open);
    assert_eq!(pak.files.len(), 0);
    assert_eq!(pak.extra_files.len(), 0);
    // A blank archive is exactly one trailing header block.
    assert_eq!(pak.pak_image().len(), 0x200);
}

#[test]
fn new_pak_refused_while_open() {
    let mut pak = AAPak::new();
    assert!(pak.new_pak());
    assert!(!pak.new_pak());
}

#[test]
fn blank_archive_reopens_from_its_bytes() {
    let mut pak = AAPak::new();
    assert!(pak.new_pak());
    pak.close_pak();
    let image = pak.pak_image().clone();
    let mut other = AAPak::new();
    assert!(other.open_pak(image, false));
    assert!(other.header.is_valid);
    assert_eq!(other.files.len(), 0);
    assert_eq!(other.pak_type, PakFileType::Reader);
}

#[test]
fn open_refused_while_open() {
    let mut pak = AAPak::new();
    assert!(pak.new_pak());
    assert!(!pak.open_pak(vec![0u8; 0x200], false));
}

#[test]
fn short_image_is_not_a_pak() {
    let mut pak = AAPak::new();
    assert!(!pak.open_pak(vec![0u8; 100], true));
    assert!(!pak.header.is_valid);
    assert!(pak.is_open);
}

#[test]
fn garbage_image_is_invalid_not_fatal() {
    let mut pak = AAPak::new();
    let data: Vec<u8> = (0..2048u32).map(|i| (i * 7 + 3) as u8).collect();
    assert!(!pak.open_pak(data, true));
    assert!(!pak.header.is_valid);
    assert_eq!(pak.header.file_count, 0);
    assert_eq!(pak.header.extra_file_count, 0);
    assert!(pak.header.fat.is_empty());
    assert_eq!(pak.header.first_file_info_offset, 0);
    assert!(pak.last_error.is_some());
}

#[test]
fn saved_header_is_encrypted_in_the_image() {
    let mut pak = AAPak::new();
    assert!(pak.new_pak());
    let image = pak.pak_image();
    // The trailing header block must not expose the magic in plaintext.
    let tail = &image[image.len() - 0x200..];
    assert_ne!(&tail[0..4], b"WIBO");
}

#[test]
fn save_header_idempotent_bytes() {
    let mut pak = AAPak::new();
    assert!(pak.new_pak());
    let content: Vec<u8> = vec![7u8; 300];
    assert!(pak
        .add_file_from_stream(b"a.bin", &content, epoch(11), epoch(22), false)
        .is_ok());
    assert!(pak.save_header());
    let first = pak.pak_image().clone();
    assert!(pak.save_header());
    let second = pak.pak_image().clone();
    assert_eq!(first, second);
}

#[test]
fn round_trip_small() {
    round_trip(1, 1);
}

#[test]
fn round_trip_empty() {
    round_trip(0, 0);
}

#[test]
fn round_trip_large() {
    round_trip(1000, 1000);
}

/// Builds an archive with `n` used entries and `m` free slots, saves it,
/// reopens the bytes, and compares every persisted field.
fn round_trip(n: usize, m: usize) {
    let mut pak = AAPak::new();
    assert!(pak.new_pak());
    for i in 0..(n + m) {
        let name = format!("dir/file_{i:04}.dat");
        let content: Vec<u8> = vec![(i % 251) as u8; 16 + (i % 48)];
        let added = pak
            .add_file_from_stream(
                name.as_bytes(),
                &content,
                epoch(1_600_000_000 + i as i64),
                epoch(1_600_100_000 + i as i64),
                false,
            )
            .expect("add failed");
        assert_eq!(added.size as usize, content.len());
    }
    // Delete the first m entries in free-slot mode to produce free slots.
    pak.padding_delete_mode = false;
    for _ in 0..m {
        assert!(pak.delete_file(0));
    }
    assert_eq!(pak.files.len(), n);
    assert_eq!(pak.extra_files.len(), m);
    assert!(pak.save_header());
    let before_files: Vec<_> = pak
        .files
        .iter()
        .map(|e| {
            (
                e.name.clone(),
                e.offset,
                e.size,
                e.size_duplicate,
                e.padding_size,
                e.md5,
                e.dummy1,
                e.dummy2,
                e.create_time,
                e.modify_time,
            )
        })
        .collect();
    let before_extras: Vec<_> = pak
        .extra_files
        .iter()
        .map(|e| (e.name.clone(), e.offset, e.size, e.padding_size, e.md5))
        .collect();
    let image = pak.pak_image().clone();

    let mut other = AAPak::new();
    assert!(other.open_pak(image, true));
    assert_eq!(other.files.len(), n);
    assert_eq!(other.extra_files.len(), m);
    for (i, e) in other.files.iter().enumerate() {
        let b = &before_files[i];
        assert_eq!(e.name, b.0);
        assert_eq!(e.offset, b.1);
        assert_eq!(e.size, b.2);
        assert_eq!(e.size_duplicate, b.3);
        assert_eq!(e.padding_size, b.4);
        assert_eq!(e.md5, b.5);
        assert_eq!(e.dummy1, b.6);
        assert_eq!(e.dummy2, b.7);
        assert_eq!(e.create_time, b.8);
        assert_eq!(e.modify_time, b.9);
        assert_eq!(e.entry_index_number, i as u32);
    }
    for (j, e) in other.extra_files.iter().enumerate() {
        let b = &before_extras[j];
        assert_eq!(e.name, b.0);
        assert_eq!(e.offset, b.1);
        assert_eq!(e.size, b.2);
        assert_eq!(e.padding_size, b.3);
        assert_eq!(e.md5, b.4);
        assert_eq!(e.deleted_index_number, j as u32);
    }
}

#[test]
fn read_only_refuses_every_mutation_and_keeps_bytes() {
    let mut pak = AAPak::new();
    assert!(pak.new_pak());
    let content = vec![1u8; 64];
    assert!(pak
        .add_file_from_stream(b"f", &content, epoch(1), epoch(2), false)
        .is_ok());
    assert!(pak.save_header());
    pak.close_pak();
    let image = pak.pak_image().clone();

    let mut ro = AAPak::new();
    assert!(ro.open_pak(image.clone(), true));
    assert!(ro.read_only);
    assert!(!ro.replace_file(0, &[9u8; 8], epoch(3)));
    assert!(!ro.delete_file(0));
    assert!(ro
        .add_file_from_stream(b"g", &[1u8; 4], epoch(4), epoch(5), false)
        .is_err());
    assert!(!ro.save_header());
    assert!(ro.last_error.is_some());
    assert_eq!(ro.pak_image(), &image);
    ro.close_pak();
    assert_eq!(ro.pak_image(), &image);
}

#[test]
fn close_flushes_a_dirty_table() {
    let mut pak = AAPak::new();
    assert!(pak.new_pak());
    assert!(pak
        .add_file_from_stream(b"x", &[5u8; 10], epoch(1), epoch(2), false)
        .is_ok());
    assert!(pak.is_dirty);
    pak.close_pak();
    assert!(!pak.is_dirty);
    assert!(!pak.is_open);
    assert!(pak.reader.is_none());
    // The flushed image reopens with the entry present.
    let mut other = AAPak::new();
    assert!(other.open_pak(pak.pak_image().clone(), true));
    let (found, e) = other.get_file_by_name(b"x");
    assert!(found);
    assert_eq!(e.size, 10);
}

#[test]
fn close_is_idempotent_when_closed() {
    let mut pak = AAPak::new();
    pak.close_pak();
    assert!(!pak.is_open);
}

#[test]
fn custom_key_archives_need_the_key() {
    let mut writer = AAPak::new();
    let key: [u8; 16] = [9u8; 16];
    writer.header.set_custom_key(key);
    if let Some(r) = writer.reader.as_mut() {
        r.header_encryption_key = key;
    }
    writer.reader_pool[0].header_encryption_key = key;
    assert!(writer.new_pak());
    assert!(writer
        .add_file_from_stream(b"secret", &[3u8; 20], 1, 2, false)
        .is_ok());
    assert!(writer.save_header());
    let image = writer.pak_image().clone();

    // Without the key the archive is not recognized.
    let mut blind = AAPak::new();
    assert!(!blind.open_pak(image.clone(), true));

    // With the key assigned up front it opens.
    let mut seeing = AAPak::new();
    seeing.header.set_custom_key(key);
    assert!(seeing.open_pak(image, true));
    let (found, _) = seeing.get_file_by_name(b"secret");
    assert!(found);
}

#[test]
fn fallback_detects_classic_without_pool() {
    let mut writer = AAPak::new();
    assert!(writer.new_pak());
    assert!(writer.save_header());
    let image = writer.pak_image().clone();

    let mut pak = AAPak::new();
    pak.reader = None;
    pak.reader_pool = Vec::new();
    assert!(pak.open_pak(image, true));
    assert_eq!(pak.pak_type, PakFileType::Classic);
}

#[test]
fn progress_events_are_recorded() {
    let mut pak = AAPak::new();
    assert!(pak.new_pak());
    let events = pak.drain_progress_events();
    assert!(!events.is_empty());
    let again = pak.drain_progress_events();
    assert!(again.is_empty());
}
