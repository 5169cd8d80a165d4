//! The archive container: opening, creating and closing a pak image,
//! entry lookup, add/replace/delete with free-space bookkeeping, and
//! re-encoding the file table on save.
//!
//! The container works on an in-memory byte image of the pak file.  Callers
//! read the file into a `Vec<u8>`, open it here, and write the image back
//! out after closing.

use vstd::prelude::*;
use vstd::bytes::u32_from_le_bytes;
use vstd::slice::slice_subrange;
use crate::codec::zero_bytes;
use crate::crypto::aes_decrypt;
use crate::crypto::aes_plain_of;
use crate::crypto::md5_of;
use crate::crypto::md5_digest;
use crate::error::PakError;
use crate::file_info::AAPakFileInfo;
use crate::file_info::entry_views;
use crate::format_reader::AAPakFileFormatReader;
use crate::format_reader::AAPakFileFormatReaderView;
use crate::format_reader::HEADER_CRYPT_SIZE;
use crate::format_reader::FILE_INFO_SIZE;
use crate::header::AAPakFileHeader;
use crate::header::HEADER_SIZE;
use crate::header::classic_header_check;
use crate::header::decoded_free_entry;
use crate::header::decoded_used_entry;
use crate::header::fat_region_start;
use crate::header::fold_max_end;
use crate::header::fold_newest;
use crate::header::opt_reader_view;
use crate::header::table_in_bounds;
use crate::header::validate_header_tokens;
use crate::header::validate_header_with_reader;
use crate::header::write_layout;
use crate::pak_type::PakFileType;
use crate::progress::AAPakLoadingProgressType;
use crate::progress::ProgressEvent;

verus! {

/// The views of a pool of format readers.
pub open spec fn reader_views(s: Seq<AAPakFileFormatReader>) -> Seq<AAPakFileFormatReaderView> {
    s.map_values(|r: AAPakFileFormatReader| r@)
}

/// Every entry's range ends at or before `limit`.
pub open spec fn entries_within(es: Seq<AAPakFileInfo>, limit: int) -> bool {
    forall|i: int| 0 <= i < es.len() ==> (#[trigger] es[i])@.end_offset() <= limit
}

/// Every entry's name fits the on-disk field.
pub open spec fn names_wf(es: Seq<AAPakFileInfo>) -> bool {
    forall|i: int| 0 <= i < es.len() ==> (#[trigger] es[i])@.name_wf()
}

/// One pak container.  At most one archive is open in it at a time; while a
/// binary archive is open, `contents` holds the full byte image of the file.
pub struct AAPak {
    /// The reader currently handling headers, when one was assigned or
    /// detected.
    pub reader: Option<AAPakFileFormatReader>,
    /// Readers tried in turn to detect the format of an unknown header.
    pub reader_pool: Vec<AAPakFileFormatReader>,
    /// The header codec state of the open archive.
    pub header: AAPakFileHeader,
    /// The byte image of the open archive (empty for virtual containers).
    pub contents: Vec<u8>,
    /// The used entries.
    pub files: Vec<AAPakFileInfo>,
    /// The free-slot entries whose ranges can be reused.
    pub extra_files: Vec<AAPakFileInfo>,
    /// True when the file table needs a rewrite before closing.
    pub is_dirty: bool,
    /// True while an archive is loaded.
    pub is_open: bool,
    /// True when the container is backed by CSV text instead of a pak image.
    pub is_virtual: bool,
    /// The latest create or modify time over the loaded entries.
    pub newest_file_date: i64,
    /// The sentinel returned by lookups that find nothing.
    pub null_aapak_file_info: AAPakFileInfo,
    /// When set, deleting grows the preceding entry's padding instead of
    /// keeping a free slot.
    pub padding_delete_mode: bool,
    /// Which persistence style the open archive uses.
    pub pak_type: PakFileType,
    /// When set, adding or replacing recomputes the entry's digest.
    pub auto_update_md5_when_adding: bool,
    /// Progress notifications recorded for the caller to drain.
    pub progress_events: Vec<ProgressEvent>,
    /// How many table entries pass between progress notifications.
    pub on_progress_fat_file_interval: usize,
    /// True when mutation is refused.
    pub read_only: bool,
    /// The reason the last failing operation gave, if any.
    pub last_error: Option<PakError>,
}

impl AAPak {
    /// The container's data model invariant: a virtual container is
    /// read-only; names fit the on-disk field; and while a binary archive is
    /// open, every entry's range lies below the file table, which lies
    /// within the image.
    pub open spec fn wf(self) -> bool {
        &&& self.is_virtual ==> self.read_only
        &&& names_wf(self.files@)
        &&& names_wf(self.extra_files@)
        &&& (self.is_open && !self.is_virtual) ==> {
            &&& self.header.first_file_info_offset <= self.contents@.len()
            &&& entries_within(self.files@, self.header.first_file_info_offset as int)
            &&& entries_within(self.extra_files@, self.header.first_file_info_offset as int)
        }
    }

    /// A fresh, closed container with the classic reader assigned and
    /// pooled.
    pub fn new() -> (r: AAPak)
        ensures
            r.wf(),
            !r.is_open,
            !r.is_dirty,
            !r.is_virtual,
            !r.read_only,
            !r.padding_delete_mode,
            r.auto_update_md5_when_adding,
            r.reader is Some,
            opt_reader_view(r.reader)->Some_0.is_classic_layout(),
            r.reader_pool@.len() == 1,
            r.reader_pool@[0]@.is_classic_layout(),
            r.header.key@ == crate::format_reader::xl_key_bytes(),
            r.header.first_file_info_offset == 0,
            r.files@.len() == 0,
            r.extra_files@.len() == 0,
            r.contents@.len() == 0,
            r.pak_type == PakFileType::Classic,
            r.newest_file_date == 0,
            r.null_aapak_file_info@ == crate::file_info::null_entry_view(),
            r.last_error is None,
            r.on_progress_fat_file_interval == 10000,
    {
        let mut pool: Vec<AAPakFileFormatReader> = Vec::new();
        pool.push(AAPakFileFormatReader::new(true));
        AAPak {
            reader: Some(AAPakFileFormatReader::new(true)),
            reader_pool: pool,
            header: AAPakFileHeader::new(),
            contents: Vec::new(),
            files: Vec::new(),
            extra_files: Vec::new(),
            is_dirty: false,
            is_open: false,
            is_virtual: false,
            newest_file_date: 0,
            null_aapak_file_info: AAPakFileInfo::default(),
            padding_delete_mode: false,
            pak_type: PakFileType::Classic,
            auto_update_md5_when_adding: true,
            progress_events: Vec::new(),
            on_progress_fat_file_interval: 10000,
            read_only: false,
            last_error: None,
        }
    }

    /// Records one progress notification for the caller to drain.
    fn trigger_progress(&mut self, stage: AAPakLoadingProgressType, step: u64, maximum: u64)
        ensures
            *final(self) == (AAPak { progress_events: final(self).progress_events, ..*old(self) }),
            final(self).progress_events@ == old(self).progress_events@.push(
                ProgressEvent { stage, step, maximum },
            ),
    {
        self.progress_events.push(ProgressEvent { stage, step, maximum });
    }

    /// Hands out and clears the progress notifications recorded so far.
    pub fn drain_progress_events(&mut self) -> (r: Vec<ProgressEvent>)
        ensures
            *final(self) == (AAPak { progress_events: final(self).progress_events, ..*old(self) }),
            final(self).progress_events@.len() == 0,
            r@ == old(self).progress_events@,
    {
        let mut out: Vec<ProgressEvent> = Vec::new();
        core::mem::swap(&mut out, &mut self.progress_events);
        out
    }

    /// The current byte image of the archive; after a close that flushed a
    /// dirty table, this is what belongs back on disk.
    pub fn pak_image(&self) -> (r: &Vec<u8>)
        ensures
            r@ == self.contents@,
    {
        &self.contents
    }
}

// ------------------------------------------------------------------
// Header auto-detection
// ------------------------------------------------------------------

/// How an unknown header was recognized, if at all: by the assigned reader,
/// by a pooled reader, or by the last-resort classic check; `own_key` tells
/// whether the reader's declared key matched instead of the current one.
pub ghost enum DetectResult {
    Assigned { own_key: bool, fc: u32, ec: u32 },
    Pool { index: int, own_key: bool, fc: u32, ec: u32 },
    Fallback { fc: u32, ec: u32 },
    NoMatch,
}

/// One candidate check: decrypt the header area with `key` and walk the
/// reader's tokens over it.
pub open spec fn reader_check(
    raw: Seq<u8>,
    rv: AAPakFileFormatReaderView,
    key: Seq<u8>,
) -> Option<(u32, u32)> {
    validate_header_tokens(aes_plain_of(key, raw), rv.read_order, rv.header_bytes)
}

/// The last-resort candidate: decrypt with the current key and look for the
/// classic magic directly.
pub open spec fn detect_fallback(raw: Seq<u8>, cur_key: Seq<u8>) -> DetectResult {
    match classic_header_check(aes_plain_of(cur_key, raw)) {
        Some((f, e)) => DetectResult::Fallback { fc: f, ec: e },
        None => DetectResult::NoMatch,
    }
}

/// Walks the reader pool from position `i` on: each reader is tried with the
/// current key first, then with its own declared key; after the pool comes
/// the classic fallback.
pub open spec fn detect_pool_from(
    raw: Seq<u8>,
    pool: Seq<AAPakFileFormatReaderView>,
    cur_key: Seq<u8>,
    i: int,
) -> DetectResult
    decreases pool.len() - i,
{
    if i < 0 || i >= pool.len() {
        detect_fallback(raw, cur_key)
    } else {
        match reader_check(raw, pool[i], cur_key) {
            Some((f, e)) => DetectResult::Pool { index: i, own_key: false, fc: f, ec: e },
            None => match reader_check(raw, pool[i], pool[i].header_encryption_key) {
                Some((f, e)) => DetectResult::Pool { index: i, own_key: true, fc: f, ec: e },
                None => detect_pool_from(raw, pool, cur_key, i + 1),
            },
        }
    }
}

/// The full candidate order of header detection: the assigned reader with
/// the current key, the assigned reader with its own key, each pooled reader
/// the same way, and last the classic fallback.
pub open spec fn detect_header(
    raw: Seq<u8>,
    assigned: Option<AAPakFileFormatReaderView>,
    pool: Seq<AAPakFileFormatReaderView>,
    cur_key: Seq<u8>,
) -> DetectResult {
    match assigned {
        Some(rv) => match reader_check(raw, rv, cur_key) {
            Some((f, e)) => DetectResult::Assigned { own_key: false, fc: f, ec: e },
            None => match reader_check(raw, rv, rv.header_encryption_key) {
                Some((f, e)) => DetectResult::Assigned { own_key: true, fc: f, ec: e },
                None => detect_pool_from(raw, pool, cur_key, 0),
            },
        },
        None => detect_pool_from(raw, pool, cur_key, 0),
    }
}

/// The detection found some match.
pub open spec fn detect_is_match(d: DetectResult) -> bool {
    !(d is NoMatch)
}

/// The used-entry count the detection read (zero when nothing matched).
pub open spec fn detect_fc(d: DetectResult) -> u32 {
    match d {
        DetectResult::Assigned { fc, .. } => fc,
        DetectResult::Pool { fc, .. } => fc,
        DetectResult::Fallback { fc, .. } => fc,
        DetectResult::NoMatch => 0,
    }
}

/// The free-slot count the detection read (zero when nothing matched).
pub open spec fn detect_ec(d: DetectResult) -> u32 {
    match d {
        DetectResult::Assigned { ec, .. } => ec,
        DetectResult::Pool { ec, .. } => ec,
        DetectResult::Fallback { ec, .. } => ec,
        DetectResult::NoMatch => 0,
    }
}

/// How the container state after detection relates to the state before it:
/// which reader and key were adopted, which counts were read, and which
/// persistence style was recognized.
pub open spec fn detection_applied(
    d: DetectResult,
    assigned: Option<AAPakFileFormatReaderView>,
    pool: Seq<AAPakFileFormatReaderView>,
    old_key: Seq<u8>,
    old_type: PakFileType,
    new_reader: Option<AAPakFileFormatReaderView>,
    new_key: Seq<u8>,
    new_type: PakFileType,
    fc: u32,
    ec: u32,
    valid: bool,
) -> bool {
    match d {
        DetectResult::Assigned { own_key, fc: f, ec: e } => {
            &&& valid
            &&& new_type == PakFileType::Reader
            &&& new_reader == assigned
            &&& new_key == if own_key {
                assigned->Some_0.header_encryption_key
            } else {
                old_key
            }
            &&& fc == f
            &&& ec == e
        },
        DetectResult::Pool { index, own_key, fc: f, ec: e } => {
            &&& valid
            &&& new_type == PakFileType::Reader
            &&& new_reader == Some(pool[index])
            &&& new_key == if own_key {
                pool[index].header_encryption_key
            } else {
                old_key
            }
            &&& fc == f
            &&& ec == e
        },
        DetectResult::Fallback { fc: f, ec: e } => {
            &&& valid
            &&& new_type == PakFileType::Classic
            &&& new_reader == assigned
            &&& new_key == old_key
            &&& fc == f
            &&& ec == e
        },
        DetectResult::NoMatch => {
            &&& !valid
            &&& fc == 0
            &&& ec == 0
            &&& new_reader == assigned
            &&& new_key == old_key
            &&& new_type == old_type
        },
    }
}

/// Walking the pool never reports a match by the assigned reader.
proof fn lemma_pool_detect_not_assigned(
    raw: Seq<u8>,
    pool: Seq<AAPakFileFormatReaderView>,
    cur_key: Seq<u8>,
    i: int,
)
    ensures
        !(detect_pool_from(raw, pool, cur_key, i) is Assigned),
    decreases pool.len() - i,
{
    if 0 <= i && i < pool.len() {
        lemma_pool_detect_not_assigned(raw, pool, cur_key, i + 1);
    }
}

/// The encrypted header area of an image: the first bytes of its trailing
/// header block.
pub open spec fn raw_header_of(contents: Seq<u8>) -> Seq<u8> {
    contents.subrange(
        contents.len() - HEADER_SIZE,
        contents.len() - HEADER_SIZE + HEADER_CRYPT_SIZE,
    )
}

/// What loading a header and file table from `contents` does to a container:
/// detection adopts the first matching candidate; with a match, the table
/// region is located, bounds-checked and decoded.  Any failure leaves an
/// invalid header with zero counts, an empty raw table and a zero table
/// offset, beside empty entry lists; the detected reader, key and
/// persistence style are kept either way.
pub open spec fn read_header_post(pre: AAPak, contents: Seq<u8>, post: AAPak, ok: bool) -> bool {
    let len = contents.len() as int;
    let d = detect_header(
        raw_header_of(contents),
        opt_reader_view(pre.reader),
        reader_views(pre.reader_pool@),
        pre.header.key@,
    );
    &&& ok == post.header.is_valid
    &&& !ok ==> {
        &&& post.files@.len() == 0
        &&& post.extra_files@.len() == 0
        &&& post.header.file_count == 0
        &&& post.header.extra_file_count == 0
        &&& post.header.fat@.len() == 0
        &&& post.header.first_file_info_offset == 0
    }
    &&& if len < HEADER_SIZE {
        !ok
    } else {
        &&& detection_applied(
            d,
            opt_reader_view(pre.reader),
            reader_views(pre.reader_pool@),
            pre.header.key@,
            pre.pak_type,
            opt_reader_view(post.reader),
            post.header.key@,
            post.pak_type,
            detect_fc(d),
            detect_ec(d),
            detect_is_match(d),
        )
        &&& if !detect_is_match(d) {
            !ok
        } else {
            let fc = detect_fc(d) as int;
            let ec = detect_ec(d) as int;
            if len < HEADER_SIZE + (fc + ec) * FILE_INFO_SIZE {
                !ok
            } else {
                let start = fat_region_start(len, fc, ec);
                let fat = contents.subrange(start, len);
                let key = post.header.key@;
                let lay = write_layout(opt_reader_view(post.reader), post.pak_type)->Some_0;
                let order = lay.file_info_read_order;
                &&& ok == table_in_bounds(fat, key, order, fc + ec, start)
                &&& ok ==> {
                    &&& post.header.first_file_info_offset == start
                    &&& post.header.fat@ == fat
                    &&& post.header.file_count == fc
                    &&& post.header.extra_file_count == ec
                    &&& post.files@.len() == fc
                    &&& forall|i: int|
                        0 <= i < fc ==> post.files@[i]@ == decoded_used_entry(
                            fat,
                            key,
                            order,
                            fc,
                            ec,
                            lay.invert_file_counter,
                            i,
                        )
                    &&& post.extra_files@.len() == ec
                    &&& forall|j: int|
                        0 <= j < ec ==> post.extra_files@[j]@ == decoded_free_entry(
                            fat,
                            key,
                            order,
                            fc,
                            ec,
                            lay.invert_file_counter,
                            j,
                        )
                    &&& post.newest_file_date == fold_newest(fat, key, order, fc + ec, 0, 0)
                    &&& post.header.add_file_offset == fold_max_end(
                        fat,
                        key,
                        order,
                        fc + ec,
                        0,
                        pre.header.add_file_offset as int,
                    )
                }
            }
        }
    }
}

impl AAPak {
    /// Tries every `(reader, key)` candidate in order against the encrypted
    /// header area and adopts the first match: reader, key, counts and
    /// persistence style; with no match the counts reset and the header is
    /// marked invalid.
    fn decrypt_header_data(&mut self, raw: &[u8])
        requires
            raw@.len() == HEADER_CRYPT_SIZE,
        ensures
            detection_applied(
                detect_header(
                    raw@,
                    opt_reader_view(old(self).reader),
                    reader_views(old(self).reader_pool@),
                    old(self).header.key@,
                ),
                opt_reader_view(old(self).reader),
                reader_views(old(self).reader_pool@),
                old(self).header.key@,
                old(self).pak_type,
                opt_reader_view(final(self).reader),
                final(self).header.key@,
                final(self).pak_type,
                final(self).header.file_count,
                final(self).header.extra_file_count,
                final(self).header.is_valid,
            ),
            final(self).header.fat == old(self).header.fat,
            final(self).header.first_file_info_offset == old(self).header.first_file_info_offset,
            final(self).header.add_file_offset == old(self).header.add_file_offset,
            final(self).header.size == old(self).header.size,
            final(self).reader_pool == old(self).reader_pool,
            final(self).contents == old(self).contents,
            final(self).files == old(self).files,
            final(self).extra_files == old(self).extra_files,
            final(self).is_dirty == old(self).is_dirty,
            final(self).is_open == old(self).is_open,
            final(self).is_virtual == old(self).is_virtual,
            final(self).newest_file_date == old(self).newest_file_date,
            final(self).null_aapak_file_info == old(self).null_aapak_file_info,
            final(self).padding_delete_mode == old(self).padding_delete_mode,
            final(self).auto_update_md5_when_adding == old(self).auto_update_md5_when_adding,
            final(self).progress_events == old(self).progress_events,
            final(self).on_progress_fat_file_interval == old(self).on_progress_fat_file_interval,
            final(self).read_only == old(self).read_only,
            final(self).last_error == old(self).last_error,
    {
        let ghost d = detect_header(
            raw@,
            opt_reader_view(self.reader),
            reader_views(self.reader_pool@),
            self.header.key@,
        );
        match &self.reader {
            Some(r) => {
                let rkey: [u8; 16] = r.header_encryption_key;
                match validate_header_with_reader(r, raw, &self.header.key) {
                    Some((f, e)) => {
                        self.pak_type = PakFileType::Reader;
                        self.header.file_count = f;
                        self.header.extra_file_count = e;
                        self.header.is_valid = true;
                        return;
                    },
                    None => {},
                }
                match validate_header_with_reader(r, raw, &rkey) {
                    Some((f, e)) => {
                        self.pak_type = PakFileType::Reader;
                        self.header.key = rkey;
                        self.header.file_count = f;
                        self.header.extra_file_count = e;
                        self.header.is_valid = true;
                        return;
                    },
                    None => {},
                }
            },
            None => {},
        }
        let ghost cur_key0 = self.header.key@;
        let ghost pool_views = reader_views(self.reader_pool@);
        let n: usize = self.reader_pool.len();
        let mut i: usize = 0;
        while i < n
            invariant
                n == self.reader_pool@.len(),
                i <= n,
                *self == *old(self),
                cur_key0 == self.header.key@,
                pool_views == reader_views(self.reader_pool@),
                raw@.len() == HEADER_CRYPT_SIZE,
                d == detect_header(
                    raw@,
                    opt_reader_view(old(self).reader),
                    reader_views(old(self).reader_pool@),
                    old(self).header.key@,
                ),
                d == detect_pool_from(raw@, pool_views, cur_key0, i as int),
            decreases n - i,
        {
            let rkey: [u8; 16] = self.reader_pool[i].header_encryption_key;
            match validate_header_with_reader(&self.reader_pool[i], raw, &self.header.key) {
                Some((f, e)) => {
                    let dup = self.reader_pool[i].duplicate();
                    self.reader = Some(dup);
                    self.pak_type = PakFileType::Reader;
                    self.header.file_count = f;
                    self.header.extra_file_count = e;
                    self.header.is_valid = true;
                    return;
                },
                None => {},
            }
            match validate_header_with_reader(&self.reader_pool[i], raw, &rkey) {
                Some((f, e)) => {
                    let dup = self.reader_pool[i].duplicate();
                    self.reader = Some(dup);
                    self.pak_type = PakFileType::Reader;
                    self.header.key = rkey;
                    self.header.file_count = f;
                    self.header.extra_file_count = e;
                    self.header.is_valid = true;
                    return;
                },
                None => {},
            }
            i += 1;
        }
        let plain = aes_decrypt(raw, &self.header.key);
        let classic_ok: bool = plain.len() >= 16 && plain[0] == 0x57 && plain[1] == 0x49
            && plain[2] == 0x42 && plain[3] == 0x4F;
        if classic_ok {
            proof {
                assert(plain@.subrange(0, 4) =~= crate::format_reader::classic_magic());
            }
            let f = u32_from_le_bytes(slice_subrange(plain.as_slice(), 8, 12));
            let e = u32_from_le_bytes(slice_subrange(plain.as_slice(), 12, 16));
            self.pak_type = PakFileType::Classic;
            self.header.file_count = f;
            self.header.extra_file_count = e;
            self.header.is_valid = true;
        } else {
            proof {
                if plain@.len() >= 16 {
                    if plain@.subrange(0, 4) == crate::format_reader::classic_magic() {
                        assert(plain@[0] == 0x57 && plain@[1] == 0x49 && plain@[2] == 0x42
                            && plain@[3] == 0x4F);
                    }
                }
            }
            self.header.file_count = 0;
            self.header.extra_file_count = 0;
            self.header.is_valid = false;
        }
    }

    /// Reads the trailing header of the loaded image, auto-detects its
    /// format and key, and decodes the file table into the entry lists.
    /// Returns whether the image is a recognized, well-bounded archive.
    #[verifier::rlimit(100)]
    #[verifier::spinoff_prover]
    pub fn read_header(&mut self) -> (ok: bool)
        requires
            old(self).is_virtual ==> old(self).read_only,
        ensures
            final(self).wf(),
            ok == final(self).header.is_valid,
            read_header_post(*old(self), old(self).contents@, *final(self), ok),
            final(self).contents == old(self).contents,
            final(self).read_only == old(self).read_only,
            final(self).is_open == old(self).is_open,
            final(self).is_virtual == old(self).is_virtual,
            final(self).is_dirty == old(self).is_dirty,
            final(self).padding_delete_mode == old(self).padding_delete_mode,
            final(self).auto_update_md5_when_adding == old(self).auto_update_md5_when_adding,
            final(self).on_progress_fat_file_interval == old(self).on_progress_fat_file_interval,
            final(self).reader_pool == old(self).reader_pool,
            final(self).null_aapak_file_info == old(self).null_aapak_file_info,
            final(self).header.size == old(self).header.size,
            ok ==> final(self).last_error == old(self).last_error,
            !ok ==> final(self).last_error is Some,
    {
        self.trigger_progress(AAPakLoadingProgressType::ReadingHeader, 0, 100);
        self.newest_file_date = 0;
        self.files.clear();
        self.extra_files.clear();
        let len: usize = self.contents.len();
        if len < HEADER_SIZE {
            self.header.is_valid = false;
            self.header.file_count = 0;
            self.header.extra_file_count = 0;
            self.header.fat = Vec::new();
            self.header.first_file_info_offset = 0;
            self.last_error = Some(PakError::TooSmall);
            self.trigger_progress(AAPakLoadingProgressType::ReadingHeader, 100, 100);
            return false;
        }
        let raw = crate::codec::copy_range(
            self.contents.as_slice(),
            len - HEADER_SIZE,
            len - HEADER_SIZE + HEADER_CRYPT_SIZE,
        );
        proof {
            assert(raw@ == raw_header_of(self.contents@));
        }
        let ghost d0 = detect_header(
            raw@,
            opt_reader_view(self.reader),
            reader_views(self.reader_pool@),
            self.header.key@,
        );
        self.decrypt_header_data(raw.as_slice());
        proof {
            match d0 {
                DetectResult::Assigned { own_key, fc, ec } => {
                    assert(self.header.is_valid);
                    assert(self.header.file_count == fc);
                },
                DetectResult::Pool { index, own_key, fc, ec } => {
                    assert(self.header.is_valid);
                },
                DetectResult::Fallback { fc, ec } => {
                    assert(self.header.is_valid);
                },
                DetectResult::NoMatch => {
                    assert(!self.header.is_valid);
                },
            }
            assert(self.header.is_valid == detect_is_match(d0));
            assert(self.header.file_count == detect_fc(d0));
            assert(self.header.extra_file_count == detect_ec(d0));
            if self.header.is_valid {
                assert(self.pak_type != PakFileType::Csv);
                if self.pak_type == PakFileType::Reader {
                    if d0 is Assigned {
                        lemma_pool_detect_not_assigned(
                            raw@,
                            reader_views(old(self).reader_pool@),
                            old(self).header.key@,
                            0,
                        );
                        assert(opt_reader_view(old(self).reader) is Some);
                    }
                    assert(self.reader is Some);
                }
            }
        }
        if self.header.is_valid {
            match self.header.load_raw_fat(&self.contents) {
                Ok(()) => {
                    let limit: u64 = self.header.first_file_info_offset as u64;
                    let decode = self.header.read_file_table(
                        &mut self.files,
                        &mut self.extra_files,
                        &self.reader,
                        self.pak_type,
                        limit,
                    );
                    proof {
                        let len_i = self.contents@.len() as int;
                        let fc = detect_fc(d0) as int;
                        let ec = detect_ec(d0) as int;
                        let start = fat_region_start(len_i, fc, ec);
                        let raw_off = len_i - HEADER_SIZE - (fc + ec) * FILE_INFO_SIZE;
                        assert(raw_off % 16 >= 0);
                        assert(start <= raw_off);
                        assert(self.header.fat@.len() == len_i - start);
                        assert((fc + ec) * FILE_INFO_SIZE <= self.header.fat@.len());
                        assert(limit as int == start);
                    }
                    match decode {
                        Ok(newest) => {
                            self.newest_file_date = newest;
                            proof {
                                let lay = write_layout(
                                    opt_reader_view(self.reader),
                                    self.pak_type,
                                )->Some_0;
                                let order = lay.file_info_read_order;
                                let fat = self.header.fat@;
                                let key = self.header.key@;
                                let fc = self.header.file_count as int;
                                let ec = self.header.extra_file_count as int;
                                let lim = self.header.first_file_info_offset as int;
                                let invert = lay.invert_file_counter;
                                assert forall|i: int| 0 <= i < self.files@.len() implies (
                                #[trigger] self.files@[i])@.name_wf() && self.files@[i]@
                                    .end_offset() <= lim by {
                                    let kk = if invert {
                                        ec + i
                                    } else {
                                        i
                                    };
                                    assert(self.files@[i]@ == decoded_used_entry(
                                        fat,
                                        key,
                                        order,
                                        fc,
                                        ec,
                                        invert,
                                        i,
                                    ));
                                    crate::header::lemma_decoded_block_wf(fat, key, order, kk);
                                    assert(crate::header::decoded_block(fat, key, order, kk)
                                        .end_offset() <= lim);
                                }
                                assert forall|j: int| 0 <= j < self.extra_files@.len() implies (
                                #[trigger] self.extra_files@[j])@.name_wf() && self.extra_files@[
                                    j
                                ]@.end_offset() <= lim by {
                                    let kk = if invert {
                                        j
                                    } else {
                                        fc + j
                                    };
                                    assert(self.extra_files@[j]@ == decoded_free_entry(
                                        fat,
                                        key,
                                        order,
                                        fc,
                                        ec,
                                        invert,
                                        j,
                                    ));
                                    crate::header::lemma_decoded_block_wf(fat, key, order, kk);
                                    assert(crate::header::decoded_block(fat, key, order, kk)
                                        .end_offset() <= lim);
                                }
                            }
                        },
                        Err(e) => {
                            self.last_error = Some(e);
                            self.header.is_valid = false;
                            self.header.file_count = 0;
                            self.header.extra_file_count = 0;
                            self.header.fat = Vec::new();
                            self.header.first_file_info_offset = 0;
                            self.files.clear();
                            self.extra_files.clear();
                        },
                    }
                },
                Err(e) => {
                    self.last_error = Some(e);
                    self.header.is_valid = false;
                    self.header.file_count = 0;
                    self.header.extra_file_count = 0;
                    self.header.fat = Vec::new();
                    self.header.first_file_info_offset = 0;
                },
            }
        } else {
            self.header.fat = Vec::new();
            self.header.first_file_info_offset = 0;
            self.last_error = Some(PakError::InvalidHeader);
        }
        self.trigger_progress(AAPakLoadingProgressType::ReadingHeader, 100, 100);
        self.header.is_valid
    }

    /// Opens a binary pak image; refused while another archive is open.  The
    /// container stays open even when the image is not recognized
    /// (`Open-Invalid`), so that callers may probe arbitrary files.
    pub fn open_pak(&mut self, data: Vec<u8>, open_as_read_only: bool) -> (ok: bool)
        requires
            old(self).wf(),
        ensures
            final(self).wf(),
            old(self).is_open ==> !ok && *final(self) == (AAPak {
                progress_events: final(self).progress_events,
                ..*old(self)
            }),
            !old(self).is_open ==> {
                &&& final(self).is_open
                &&& !final(self).is_virtual
                &&& !final(self).is_dirty
                &&& final(self).read_only == open_as_read_only
                &&& final(self).contents@ == data@
                &&& final(self).null_aapak_file_info == old(self).null_aapak_file_info
                &&& ok == final(self).header.is_valid
                &&& read_header_post(*old(self), data@, *final(self), ok)
            },
    {
        self.trigger_progress(AAPakLoadingProgressType::OpeningFile, 0, 100);
        if self.is_open {
            return false;
        }
        self.is_virtual = false;
        self.trigger_progress(AAPakLoadingProgressType::OpeningFile, 25, 100);
        self.contents = data;
        self.is_dirty = false;
        self.is_open = true;
        self.read_only = open_as_read_only;
        let res = self.read_header();
        self.trigger_progress(AAPakLoadingProgressType::OpeningFile, 100, 100);
        res
    }

    /// Re-encodes the file table and overwrites the trailing region of the
    /// image, truncating it to the new length; clears the dirty flag on
    /// success only.  Refused on a closed or read-only container.
    pub fn save_header(&mut self) -> (ok: bool)
        requires
            old(self).wf(),
        ensures
            final(self).wf(),
            ok == save_ok_conditions(*old(self)),
            final(self).files == old(self).files,
            final(self).extra_files == old(self).extra_files,
            final(self).reader == old(self).reader,
            final(self).reader_pool == old(self).reader_pool,
            final(self).pak_type == old(self).pak_type,
            final(self).is_open == old(self).is_open,
            final(self).is_virtual == old(self).is_virtual,
            final(self).read_only == old(self).read_only,
            final(self).header.key == old(self).header.key,
            final(self).header.first_file_info_offset == old(self).header.first_file_info_offset,
            final(self).header.add_file_offset == old(self).header.add_file_offset,
            final(self).header.is_valid == old(self).header.is_valid,
            final(self).newest_file_date == old(self).newest_file_date,
            final(self).padding_delete_mode == old(self).padding_delete_mode,
            final(self).auto_update_md5_when_adding == old(self).auto_update_md5_when_adding,
            ok ==> {
                &&& final(self).contents@ == saved_image(*old(self))
                &&& !final(self).is_dirty
                &&& final(self).header.file_count == old(self).files@.len()
                &&& final(self).header.extra_file_count == old(self).extra_files@.len()
                &&& final(self).last_error == old(self).last_error
            },
            !ok ==> {
                &&& final(self).contents == old(self).contents
                &&& final(self).is_dirty == old(self).is_dirty
                &&& final(self).header.file_count == old(self).header.file_count
                &&& final(self).header.extra_file_count == old(self).header.extra_file_count
                &&& final(self).header.fat == old(self).header.fat
                &&& final(self).last_error is Some
            },
    {
        self.trigger_progress(AAPakLoadingProgressType::WritingHeader, 0, 100);
        if !self.is_open {
            self.last_error = Some(PakError::NotOpen);
            return false;
        }
        if self.read_only {
            self.last_error = Some(PakError::ReadOnly);
            return false;
        }
        let wrote = self.header.write_to_fat(
            &self.files,
            &self.extra_files,
            &self.reader,
            self.pak_type,
        );
        match wrote {
            Err(e) => {
                self.last_error = Some(e);
                false
            },
            Ok(()) => {
                self.trigger_progress(AAPakLoadingProgressType::WritingHeader, 50, 100);
                let fio: usize = self.header.first_file_info_offset;
                self.contents.truncate(fio);
                self.contents.extend_from_slice(self.header.fat.as_slice());
                proof {
                    assert(self.contents@ =~= saved_image(*old(self)));
                }
                self.is_dirty = false;
                self.trigger_progress(AAPakLoadingProgressType::WritingHeader, 100, 100);
                true
            },
        }
    }

    /// Closes the archive: a dirty table is flushed first (unless
    /// read-only), then the format state reverts to its defaults.  The byte
    /// image stays available through [`Self::pak_image`] so the caller can
    /// write it back out.  Idempotent when already closed.
    pub fn close_pak(&mut self)
        requires
            old(self).wf(),
        ensures
            final(self).wf(),
            !old(self).is_open ==> *final(self) == (AAPak {
                progress_events: final(self).progress_events,
                ..*old(self)
            }),
            old(self).is_open ==> {
                &&& !final(self).is_open
                &&& final(self).reader is None
                &&& final(self).pak_type == PakFileType::Classic
                &&& final(self).header.key@ == crate::format_reader::xl_key_bytes()
                &&& final(self).last_error is None
                &&& final(self).files == old(self).files
                &&& final(self).extra_files == old(self).extra_files
                &&& if old(self).is_dirty && !old(self).read_only && save_ok_conditions(
                    *old(self),
                ) {
                    final(self).contents@ == saved_image(*old(self)) && !final(self).is_dirty
                } else {
                    final(self).contents == old(self).contents && final(self).is_dirty == old(self).is_dirty
                }
            },
    {
        self.trigger_progress(AAPakLoadingProgressType::ClosingFile, 0, 100);
        if !self.is_open {
            return;
        }
        if self.is_dirty && !self.read_only {
            let _saved = self.save_header();
        }
        self.is_open = false;
        self.pak_type = PakFileType::Classic;
        self.reader = None;
        self.header.set_default_key();
        self.last_error = None;
        self.trigger_progress(AAPakLoadingProgressType::ClosingFile, 100, 100);
    }

    /// Creates a blank archive in memory: a fresh empty image whose header
    /// is written immediately and read back to confirm that it
    /// round-trips.  Refused while another archive is open.
    pub fn new_pak(&mut self) -> (ok: bool)
        requires
            old(self).wf(),
        ensures
            final(self).wf(),
            old(self).is_open ==> !ok && *final(self) == (AAPak {
                progress_events: final(self).progress_events,
                ..*old(self)
            }),
            !old(self).is_open ==> {
                let lay_ok = layout_ok(opt_reader_view(old(self).reader), old(self).pak_type);
                let blank = crate::header::fat_image(
                    entry_views(Seq::<AAPakFileInfo>::empty()),
                    entry_views(Seq::<AAPakFileInfo>::empty()),
                    write_layout(opt_reader_view(old(self).reader), old(self).pak_type)->Some_0,
                    old(self).header.key@,
                );
                &&& final(self).is_open
                &&& !final(self).is_virtual
                &&& !final(self).read_only
                &&& !lay_ok ==> !ok
                &&& lay_ok ==> final(self).contents@ == blank && read_header_post(
                    *old(self),
                    blank,
                    *final(self),
                    ok,
                )
                &&& ok ==> final(self).header.is_valid && !final(self).is_dirty
            },
    {
        self.trigger_progress(AAPakLoadingProgressType::OpeningFile, 0, 100);
        if self.is_open {
            return false;
        }
        self.is_virtual = false;
        self.contents = Vec::new();
        self.files.clear();
        self.extra_files.clear();
        self.header.first_file_info_offset = 0;
        self.read_only = false;
        self.is_open = true;
        self.is_dirty = true;
        let saved = self.save_header();
        let res = if saved {
            self.read_header()
        } else {
            false
        };
        self.trigger_progress(AAPakLoadingProgressType::OpeningFile, 100, 100);
        res
    }
}

// ------------------------------------------------------------------
// Entry lookup
// ------------------------------------------------------------------

/// The position of the first entry named `name` at or after `i`, or `-1`.
pub open spec fn find_by_name_from(es: Seq<AAPakFileInfo>, name: Seq<u8>, i: int) -> int
    decreases es.len() - i,
{
    if i < 0 || i >= es.len() {
        -1
    } else if es[i]@.name == name {
        i
    } else {
        find_by_name_from(es, name, i + 1)
    }
}

/// The position of the first entry whose reserved range `[offset,
/// offset + size + padding_size)` contains `pos`, at or after `i`, or `-1`.
pub open spec fn find_by_offset_from(es: Seq<AAPakFileInfo>, pos: int, i: int) -> int
    decreases es.len() - i,
{
    if i < 0 || i >= es.len() {
        -1
    } else if es[i]@.offset <= pos < es[i]@.end_offset() {
        i
    } else {
        find_by_offset_from(es, pos, i + 1)
    }
}

impl AAPak {
    /// Looks a used entry up by its name inside the archive; misses yield
    /// the null sentinel and `false`.
    pub fn get_file_by_name(&self, filename: &[u8]) -> (r: (bool, AAPakFileInfo))
        ensures
            ({
                let idx = find_by_name_from(self.files@, filename@, 0);
                &&& r.0 == (idx >= 0)
                &&& idx >= 0 ==> r.1@ == self.files@[idx]@
                &&& idx < 0 ==> r.1@ == self.null_aapak_file_info@
            }),
    {
        let n: usize = self.files.len();
        let mut i: usize = 0;
        while i < n
            invariant
                n == self.files@.len(),
                i <= n,
                find_by_name_from(self.files@, filename@, 0) == find_by_name_from(
                    self.files@,
                    filename@,
                    i as int,
                ),
            decreases n - i,
        {
            if crate::codec::bytes_eq(self.files[i].name.as_slice(), filename) {
                return (true, self.files[i].duplicate());
            }
            i += 1;
        }
        (false, self.null_aapak_file_info.duplicate())
    }

    /// The position of the first used entry whose reserved range contains
    /// `pos`; free slots are never considered.
    fn find_index_by_offset(&self, pos: u64) -> (r: Option<usize>)
        ensures
            ({
                let idx = find_by_offset_from(self.files@, pos as int, 0);
                match r {
                    Some(i) => idx == i && i < self.files@.len(),
                    None => idx < 0,
                }
            }),
    {
        let n: usize = self.files.len();
        let mut i: usize = 0;
        while i < n
            invariant
                n == self.files@.len(),
                i <= n,
                find_by_offset_from(self.files@, pos as int, 0) == find_by_offset_from(
                    self.files@,
                    pos as int,
                    i as int,
                ),
            decreases n - i,
        {
            let e = &self.files[i];
            let end: u128 = e.offset as u128 + e.size as u128 + e.padding_size as u128;
            if e.offset as u128 <= pos as u128 && (pos as u128) < end {
                return Some(i);
            }
            i += 1;
        }
        None
    }

    /// Hands out one entry's content bytes as a bounded, read-only
    /// substream over the archive's range `[offset, offset + size)`.
    pub fn export_file_as_stream(&self, file: &AAPakFileInfo) -> (r: Option<
        crate::sub_stream::PackerSubStream,
    >)
        ensures
            match r {
                Some(s) => {
                    &&& self.is_open
                    &&& !self.is_virtual
                    &&& file@.offset + file@.size <= self.contents@.len()
                    &&& s.data@ == self.contents@.subrange(
                        file@.offset as int,
                        file@.offset + file@.size,
                    )
                    &&& s.base_offset == file@.offset
                    &&& s.position == 0
                },
                None => !self.is_open || self.is_virtual || file@.offset + file@.size
                    > self.contents@.len(),
            },
    {
        if !self.is_open || self.is_virtual {
            return None;
        }
        crate::sub_stream::PackerSubStream::new(self.contents.as_slice(), file.offset, file.size)
    }

    /// Finds the used entry whose reserved range `[offset, offset + size +
    /// padding_size)` contains the given position; free slots are never
    /// considered, a known asymmetry of the format.
    pub fn find_file_by_offset(&self, offset: u64) -> (r: Option<&AAPakFileInfo>)
        ensures
            ({
                let idx = find_by_offset_from(self.files@, offset as int, 0);
                match r {
                    Some(e) => idx >= 0 && *e == self.files@[idx],
                    None => idx < 0,
                }
            }),
    {
        match self.find_index_by_offset(offset) {
            Some(i) => Some(&self.files[i]),
            None => None,
        }
    }
}

// ------------------------------------------------------------------
// Entry mutation
// ------------------------------------------------------------------

/// The `dummy1` value the assigned reader declares for fresh entries.
pub open spec fn default_dummy1_of(r: Option<AAPakFileFormatReader>) -> u32 {
    match r {
        Some(x) => x@.default_dummy1,
        None => 0,
    }
}

/// The `dummy2` value the assigned reader declares for fresh entries.
pub open spec fn default_dummy2_of(r: Option<AAPakFileFormatReader>) -> u64 {
    match r {
        Some(x) => x@.default_dummy2,
        None => 0,
    }
}

impl AAPak {
    /// The `dummy1` value for entries this container synthesizes.
    fn default_dummy1(&self) -> (r: u32)
        ensures
            r == default_dummy1_of(self.reader),
    {
        match &self.reader {
            Some(x) => x.default_dummy1,
            None => 0,
        }
    }

    /// The `dummy2` value for entries this container synthesizes.
    fn default_dummy2(&self) -> (r: u64)
        ensures
            r == default_dummy2_of(self.reader),
    {
        match &self.reader {
            Some(x) => x.default_dummy2,
            None => 0,
        }
    }

    /// Streams the content bytes of the used entry at `index` through MD5
    /// and stores the digest in the entry; the container becomes dirty only
    /// when the digest actually changed.  Returns the new digest.
    pub fn update_md5(&mut self, index: usize) -> (r: Result<[u8; 16], PakError>)
        requires
            old(self).wf(),
        ensures
            final(self).wf(),
            final(self).contents == old(self).contents,
            final(self).extra_files == old(self).extra_files,
            final(self).header == old(self).header,
            final(self).reader == old(self).reader,
            final(self).read_only == old(self).read_only,
            final(self).is_open == old(self).is_open,
            final(self).is_virtual == old(self).is_virtual,
            match r {
                Ok(digest) => {
                    let e = old(self).files@[index as int]@;
                    &&& old(self).is_open && !old(self).is_virtual
                    &&& index < old(self).files@.len()
                    &&& digest@ == md5_of(
                        old(self).contents@.subrange(e.offset as int, e.offset + e.size),
                    )
                    &&& final(self).files@.len() == old(self).files@.len()
                    &&& forall|j: int|
                        0 <= j < old(self).files@.len() && j != index ==> final(self).files@[j]
                            == old(self).files@[j]
                    &&& final(self).files@[index as int]@ == (crate::file_info::AAPakFileInfoView {
                        md5: digest@,
                        ..e
                    })
                    &&& final(self).is_dirty == (old(self).is_dirty || digest@ != e.md5)
                },
                Err(err) => {
                    &&& final(self).files == old(self).files
                    &&& final(self).is_dirty == old(self).is_dirty
                    &&& if !old(self).is_open || old(self).is_virtual {
                        err == PakError::NotOpen
                    } else {
                        err == PakError::IndexOutOfRange && index >= old(self).files@.len()
                    }
                },
            },
    {
        if !self.is_open || self.is_virtual {
            self.last_error = Some(PakError::NotOpen);
            return Err(PakError::NotOpen);
        }
        if index >= self.files.len() {
            self.last_error = Some(PakError::IndexOutOfRange);
            return Err(PakError::IndexOutOfRange);
        }
        proof {
            assert(self.files@[index as int]@.end_offset()
                <= self.header.first_file_info_offset as int);
        }
        let off: usize = self.files[index].offset as usize;
        let sz: usize = self.files[index].size as usize;
        let window = slice_subrange(self.contents.as_slice(), off, off + sz);
        let digest = md5_digest(window);
        let changed = !crate::codec::bytes_eq(
            digest.as_slice(),
            self.files[index].md5.as_slice(),
        );
        let mut e = self.files[index].duplicate();
        e.md5 = digest;
        self.files.set(index, e);
        if changed {
            self.is_dirty = true;
        }
        Ok(digest)
    }

    /// Replaces the content of the used entry at `index` with `source_data`
    /// at its existing offset.  The new content must fit the reserved range
    /// `size + padding_size`; the range itself never changes, the padding
    /// absorbs the difference.
    pub fn replace_file(&mut self, index: usize, source_data: &[u8], modify_time: i64) -> (ok:
        bool)
        requires
            old(self).wf(),
        ensures
            final(self).wf(),
            final(self).extra_files == old(self).extra_files,
            final(self).header == old(self).header,
            final(self).reader == old(self).reader,
            final(self).read_only == old(self).read_only,
            final(self).is_open == old(self).is_open,
            final(self).is_virtual == old(self).is_virtual,
            ok == replace_accepted(*old(self), index as int, source_data@.len() as int),
            !ok ==> final(self).contents == old(self).contents && final(self).files == old(self).files && final(self).is_dirty == old(self).is_dirty,
            ok ==> {
                let e = old(self).files@[index as int]@;
                &&& final(self).contents@ == crate::codec::overwritten(
                    old(self).contents@,
                    e.offset as int,
                    source_data@,
                )
                &&& final(self).files@.len() == old(self).files@.len()
                &&& forall|j: int|
                    0 <= j < old(self).files@.len() && j != index ==> final(self).files@[j]
                        == old(self).files@[j]
                &&& final(self).files@[index as int]@ == (crate::file_info::AAPakFileInfoView {
                    size: source_data@.len() as u64,
                    size_duplicate: source_data@.len() as u64,
                    padding_size: (e.size + e.padding_size - source_data@.len()) as u32,
                    md5: if old(self).auto_update_md5_when_adding {
                        md5_of(source_data@)
                    } else {
                        e.md5
                    },
                    modify_time: modify_time,
                    dummy1: default_dummy1_of(old(self).reader),
                    dummy2: default_dummy2_of(old(self).reader),
                    ..e
                })
                &&& final(self).files@[index as int]@.end_offset() == e.end_offset()
                &&& final(self).is_dirty
            },
    {
        if self.read_only {
            self.last_error = Some(PakError::ReadOnly);
            return false;
        }
        if !self.is_open || self.is_virtual {
            self.last_error = Some(PakError::NotOpen);
            return false;
        }
        if index >= self.files.len() {
            self.last_error = Some(PakError::IndexOutOfRange);
            return false;
        }
        let e = &self.files[index];
        let reserved: u128 = e.size as u128 + e.padding_size as u128;
        if source_data.len() as u128 > reserved {
            self.last_error = Some(PakError::CapacityExceeded);
            return false;
        }
        let leftover: u128 = reserved - source_data.len() as u128;
        if leftover > u32::MAX as u128 {
            self.last_error = Some(PakError::FieldOverflow);
            return false;
        }
        let off: usize = self.files[index].offset as usize;
        proof {
            assert(self.files@[index as int]@.end_offset()
                <= self.header.first_file_info_offset);
        }
        crate::codec::write_at(&mut self.contents, off, source_data);
        let digest: [u8; 16] = if self.auto_update_md5_when_adding {
            md5_digest(source_data)
        } else {
            self.files[index].md5
        };
        let mut upd = self.files[index].duplicate();
        upd.size = source_data.len() as u64;
        upd.size_duplicate = upd.size;
        upd.padding_size = leftover as u32;
        upd.modify_time = modify_time;
        upd.md5 = digest;
        upd.dummy1 = self.default_dummy1();
        upd.dummy2 = self.default_dummy2();
        self.files.set(index, upd);
        self.is_dirty = true;
        true
    }
}

/// The entry images of `vs` whose digest differs from `md5`, in order.
pub open spec fn keep_without_digest(
    vs: Seq<crate::file_info::AAPakFileInfoView>,
    md5: Seq<u8>,
) -> Seq<crate::file_info::AAPakFileInfoView>
    decreases vs.len(),
{
    if vs.len() == 0 {
        vs
    } else {
        let rest = keep_without_digest(vs.drop_last(), md5);
        if vs.last().md5 == md5 {
            rest
        } else {
            rest.push(vs.last())
        }
    }
}

/// The name free slots carry on disk.
pub open spec fn unused_name() -> Seq<u8> {
    seq![0x5Fu8, 0x5Fu8, 0x75u8, 0x6Eu8, 0x75u8, 0x73u8, 0x65u8, 0x64u8, 0x5Fu8, 0x5Fu8]
}

/// The free-slot record that deleting an entry leaves behind: the whole
/// reclaimed range as `size`, no padding, a cleared name and digest.
pub open spec fn free_slot_view(
    e: crate::file_info::AAPakFileInfoView,
    d1: u32,
    d2: u64,
) -> crate::file_info::AAPakFileInfoView {
    crate::file_info::AAPakFileInfoView {
        name: unused_name(),
        offset: e.offset,
        size: (e.size + e.padding_size) as u64,
        size_duplicate: (e.size + e.padding_size) as u64,
        padding_size: 0,
        md5: zero_bytes(16),
        dummy1: d1,
        dummy2: d2,
        create_time: 0,
        modify_time: 0,
        entry_index_number: 0,
        deleted_index_number: 0,
    }
}

/// When a deletion is accepted: writable container, a real index, and—in
/// padding mode with a predecessor—a merged padding that fits its field and
/// stays below the file table.
pub open spec fn delete_accepted(s: AAPak, index: int) -> bool {
    &&& !s.read_only
    &&& 0 <= index < s.files@.len()
    &&& {
        let e = s.files@[index]@;
        if s.padding_delete_mode {
            let pred = if e.offset > 0 {
                find_by_offset_from(s.files@, e.offset - 1, 0)
            } else {
                -1
            };
            pred >= 0 ==> {
                let m = s.files@[pred]@.padding_size + e.size + e.padding_size;
                &&& m <= u32::MAX
                &&& (s.is_open && !s.is_virtual) ==> s.files@[pred]@.offset + s.files@[pred]@.size
                    + m <= s.header.first_file_info_offset
            }
        } else {
            e.size + e.padding_size <= u64::MAX
        }
    }
}

impl AAPak {
    /// Removes the entries from `files` whose digest equals `md5`, keeping
    /// their order; the other container state is untouched.
    fn retain_without_digest(&mut self, md5: &[u8; 16])
        requires
            names_wf(old(self).files@),
            (old(self).is_open && !old(self).is_virtual) ==> entries_within(
                old(self).files@,
                old(self).header.first_file_info_offset as int,
            ),
        ensures
            *final(self) == (AAPak { files: final(self).files, ..*old(self) }),
            entry_views(final(self).files@) == keep_without_digest(
                entry_views(old(self).files@),
                md5@,
            ),
            names_wf(final(self).files@),
            (final(self).is_open && !final(self).is_virtual) ==> entries_within(
                final(self).files@,
                final(self).header.first_file_info_offset as int,
            ),
    {
        let ghost orig = entry_views(self.files@);
        let n: usize = self.files.len();
        let mut kept: Vec<AAPakFileInfo> = Vec::new();
        let mut i: usize = 0;
        while i < n
            invariant
                n == self.files@.len(),
                i <= n,
                *self == *old(self),
                orig == entry_views(self.files@),
                entry_views(kept@) == keep_without_digest(orig.take(i as int), md5@),
                names_wf(kept@),
                (self.is_open && !self.is_virtual) ==> entries_within(
                    kept@,
                    self.header.first_file_info_offset as int,
                ),
                names_wf(self.files@),
                (self.is_open && !self.is_virtual) ==> entries_within(
                    self.files@,
                    self.header.first_file_info_offset as int,
                ),
            decreases n - i,
        {
            let ghost kept0 = kept@;
            if !crate::codec::bytes_eq(self.files[i].md5.as_slice(), md5.as_slice()) {
                kept.push(self.files[i].duplicate());
            }
            proof {
                assert(orig.take(i + 1).drop_last() =~= orig.take(i as int));
                assert(orig.take(i + 1).last() == self.files@[i as int]@);
                if self.files@[i as int]@.md5 == md5@ {
                    assert(entry_views(kept@) =~= keep_without_digest(orig.take(i + 1), md5@));
                } else {
                    assert(entry_views(kept@) =~= entry_views(kept0).push(
                        self.files@[i as int]@,
                    ));
                    assert(entry_views(kept@) =~= keep_without_digest(orig.take(i + 1), md5@));
                }
            }
            i += 1;
        }
        proof {
            assert(orig.take(n as int) =~= orig);
        }
        self.files = kept;
    }

    /// Deletes the used entry at `index`.  In padding mode the reclaimed
    /// range grows the padding of the entry found immediately before it; in
    /// free-slot mode it becomes a free-slot record.  Removal itself is by
    /// digest equality — every used entry sharing the deleted entry's MD5
    /// leaves the list, a format quirk kept for compatibility.
    pub fn delete_file(&mut self, index: usize) -> (ok: bool)
        requires
            old(self).wf(),
        ensures
            final(self).wf(),
            final(self).contents == old(self).contents,
            final(self).header == old(self).header,
            final(self).reader == old(self).reader,
            final(self).read_only == old(self).read_only,
            final(self).is_open == old(self).is_open,
            final(self).is_virtual == old(self).is_virtual,
            final(self).padding_delete_mode == old(self).padding_delete_mode,
            final(self).auto_update_md5_when_adding == old(self).auto_update_md5_when_adding,
            final(self).pak_type == old(self).pak_type,
            final(self).reader_pool == old(self).reader_pool,
            final(self).newest_file_date == old(self).newest_file_date,
            ok == delete_accepted(*old(self), index as int),
            !ok ==> final(self).files == old(self).files && final(self).extra_files == old(self).extra_files && final(self).is_dirty == old(self).is_dirty,
            ok ==> {
                let e = old(self).files@[index as int]@;
                let pred = if e.offset > 0 {
                    find_by_offset_from(old(self).files@, e.offset - 1, 0)
                } else {
                    -1
                };
                &&& final(self).is_dirty
                &&& if old(self).padding_delete_mode {
                    let base = if pred >= 0 {
                        entry_views(old(self).files@).update(
                            pred,
                            (crate::file_info::AAPakFileInfoView {
                                padding_size: (old(self).files@[pred]@.padding_size + e.size
                                    + e.padding_size) as u32,
                                ..old(self).files@[pred]@
                            }),
                        )
                    } else {
                        entry_views(old(self).files@)
                    };
                    &&& entry_views(final(self).files@) == keep_without_digest(base, e.md5)
                    &&& final(self).extra_files == old(self).extra_files
                } else {
                    &&& entry_views(final(self).files@) == keep_without_digest(
                        entry_views(old(self).files@),
                        e.md5,
                    )
                    &&& entry_views(final(self).extra_files@) == entry_views(
                        old(self).extra_files@,
                    ).push(
                        free_slot_view(
                            e,
                            default_dummy1_of(old(self).reader),
                            default_dummy2_of(old(self).reader),
                        ),
                    )
                }
            },
    {
        if self.read_only {
            self.last_error = Some(PakError::ReadOnly);
            return false;
        }
        if index >= self.files.len() {
            self.last_error = Some(PakError::IndexOutOfRange);
            return false;
        }
        let target: [u8; 16] = self.files[index].md5;
        let e_offset: u64 = self.files[index].offset;
        let e_size: u64 = self.files[index].size;
        let e_padding: u32 = self.files[index].padding_size;
        if self.padding_delete_mode {
            let pred_opt = if e_offset > 0 {
                self.find_index_by_offset(e_offset - 1)
            } else {
                None
            };
            match pred_opt {
                Some(p) => {
                    let merged: u128 = self.files[p].padding_size as u128 + e_size as u128
                        + e_padding as u128;
                    if merged > u32::MAX as u128 {
                        self.last_error = Some(PakError::FieldOverflow);
                        return false;
                    }
                    let new_end: u128 = self.files[p].offset as u128 + self.files[p].size as u128
                        + merged;
                    if self.is_open && !self.is_virtual && new_end
                        > self.header.first_file_info_offset as u128 {
                        self.last_error = Some(PakError::EntryOutOfBounds);
                        return false;
                    }
                    let mut upd = self.files[p].duplicate();
                    upd.padding_size = merged as u32;
                    self.files.set(p, upd);
                    proof {
                        assert(entry_views(self.files@) =~= entry_views(old(self).files@).update(
                            p as int,
                            (crate::file_info::AAPakFileInfoView {
                                padding_size: (old(self).files@[p as int]@.padding_size
                                    + e_size + e_padding) as u32,
                                ..old(self).files@[p as int]@
                            }),
                        ));
                    }
                },
                None => {},
            }
            self.retain_without_digest(&target);
        } else {
            let slot_size: u128 = e_size as u128 + e_padding as u128;
            if slot_size > u64::MAX as u128 {
                self.last_error = Some(PakError::FieldOverflow);
                return false;
            }
            let mut slot_name: Vec<u8> = Vec::new();
            slot_name.push(0x5F);
            slot_name.push(0x5F);
            slot_name.push(0x75);
            slot_name.push(0x6E);
            slot_name.push(0x75);
            slot_name.push(0x73);
            slot_name.push(0x65);
            slot_name.push(0x64);
            slot_name.push(0x5F);
            slot_name.push(0x5F);
            proof {
                assert(slot_name@ =~= unused_name());
            }
            let slot = AAPakFileInfo::new(
                0,
                0,
                self.default_dummy1(),
                self.default_dummy2(),
                0,
                [0u8; 16],
                0,
                slot_name,
                e_offset,
                0,
                slot_size as u64,
                slot_size as u64,
            );
            proof {
                broadcast use vstd::array::group_array_axioms;

                assert(slot@.md5 =~= zero_bytes(16));
                assert(slot@ == free_slot_view(
                    old(self).files@[index as int]@,
                    default_dummy1_of(old(self).reader),
                    default_dummy2_of(old(self).reader),
                ));
            }
            self.extra_files.push(slot);
            proof {
                assert(entry_views(self.extra_files@) =~= entry_views(
                    old(self).extra_files@,
                ).push(
                    free_slot_view(
                        old(self).files@[index as int]@,
                        default_dummy1_of(old(self).reader),
                        default_dummy2_of(old(self).reader),
                    ),
                ));
            }
            self.retain_without_digest(&target);
        }
        self.is_dirty = true;
        true
    }
}

// ------------------------------------------------------------------
// Adding entries
// ------------------------------------------------------------------

/// The position of the first free slot at or after `i` whose size holds
/// `len` bytes, or `-1`.
pub open spec fn first_fit_views(
    vs: Seq<crate::file_info::AAPakFileInfoView>,
    len: int,
    i: int,
) -> int
    decreases vs.len() - i,
{
    if i < 0 || i >= vs.len() {
        -1
    } else if vs[i].size >= len {
        i
    } else {
        first_fit_views(vs, len, i + 1)
    }
}

/// The padding a fresh entry appended at the end receives: up to the next
/// 512-byte boundary, plus a block-aligned quarter of the content as spare
/// room when requested.
pub open spec fn add_pad(len: int, auto_spare_space: bool) -> int {
    let pad0 = if len % 0x200 == 0 {
        0
    } else {
        0x200 - len % 0x200
    };
    let spare = if auto_spare_space {
        len / 4 - (len / 4) % 0x200
    } else {
        0
    };
    pad0 + spare
}

/// Why inserting `len` bytes into a container with these free slots and
/// this append point would be refused, if at all: a padding value that does
/// not fit its field, or an appended range past the address space.
pub open spec fn add_room_err(
    extras: Seq<crate::file_info::AAPakFileInfoView>,
    fio: int,
    len: int,
    auto_spare_space: bool,
) -> Option<PakError> {
    let slot = first_fit_views(extras, len, 0);
    if slot >= 0 {
        if extras[slot].size - len > u32::MAX {
            Some(PakError::FieldOverflow)
        } else {
            None
        }
    } else {
        if add_pad(len, auto_spare_space) > u32::MAX {
            Some(PakError::FieldOverflow)
        } else if fio + len + add_pad(len, auto_spare_space) > usize::MAX {
            Some(PakError::FieldOverflow)
        } else {
            None
        }
    }
}

/// The entry a successful insert produces: it reuses the first fitting free
/// slot's offset, the slot's leftover becoming its padding, or sits at the
/// append point with the appended padding.
pub open spec fn added_view(
    extras: Seq<crate::file_info::AAPakFileInfoView>,
    fio: int,
    name: Seq<u8>,
    len: int,
    create_time: i64,
    modify_time: i64,
    auto_spare_space: bool,
    d1: u32,
    d2: u64,
    md5v: Seq<u8>,
) -> crate::file_info::AAPakFileInfoView {
    let slot = first_fit_views(extras, len, 0);
    crate::file_info::AAPakFileInfoView {
        name,
        offset: if slot >= 0 {
            extras[slot].offset
        } else {
            fio as u64
        },
        size: len as u64,
        size_duplicate: len as u64,
        padding_size: if slot >= 0 {
            (extras[slot].size - len) as u32
        } else {
            add_pad(len, auto_spare_space) as u32
        },
        md5: md5v,
        dummy1: d1,
        dummy2: d2,
        create_time,
        modify_time,
        entry_index_number: 0,
        deleted_index_number: 0,
    }
}

impl AAPak {
    /// Inserts a brand-new file: the content goes into the first free slot
    /// that holds it, or is appended at the file table's position, which
    /// then moves past the new entry.
    #[verifier::rlimit(40)]
    pub fn add_as_new_file(
        &mut self,
        filename: &[u8],
        source_data: &[u8],
        create_time: i64,
        modify_time: i64,
        auto_spare_space: bool,
    ) -> (r: Result<AAPakFileInfo, PakError>)
        requires
            old(self).wf(),
        ensures
            final(self).wf(),
            final(self).reader == old(self).reader,
            final(self).read_only == old(self).read_only,
            final(self).is_open == old(self).is_open,
            final(self).is_virtual == old(self).is_virtual,
            final(self).header.key == old(self).header.key,
            ({
                let s = *old(self);
                let len = source_data@.len() as int;
                let evs = entry_views(s.extra_files@);
                let fio = s.header.first_file_info_offset as int;
                let slot = first_fit_views(evs, len, 0);
                match r {
                    Err(e) => {
                        &&& final(self).files == s.files
                        &&& final(self).extra_files == s.extra_files
                        &&& final(self).contents == s.contents
                        &&& final(self).is_dirty == s.is_dirty
                        &&& final(self).header == s.header
                        &&& if s.read_only {
                            e == PakError::ReadOnly
                        } else if !s.is_open || s.is_virtual {
                            e == PakError::NotOpen
                        } else if !valid_new_name(filename@) {
                            e == PakError::NameInvalid
                        } else {
                            Some(e) == add_room_err(evs, fio, len, auto_spare_space)
                        }
                    },
                    Ok(out) => {
                        let md5v = if s.auto_update_md5_when_adding {
                            md5_of(source_data@)
                        } else {
                            zero_bytes(16)
                        };
                        let v = added_view(
                            evs,
                            fio,
                            filename@,
                            len,
                            create_time,
                            modify_time,
                            auto_spare_space,
                            default_dummy1_of(s.reader),
                            default_dummy2_of(s.reader),
                            md5v,
                        );
                        &&& !s.read_only
                        &&& s.is_open
                        &&& !s.is_virtual
                        &&& valid_new_name(filename@)
                        &&& add_room_err(evs, fio, len, auto_spare_space) is None
                        &&& out@ == v
                        &&& entry_views(final(self).files@) == entry_views(s.files@).push(v)
                        &&& final(self).is_dirty
                        &&& if slot >= 0 {
                            &&& final(self).extra_files@ == s.extra_files@.remove(slot)
                            &&& final(self).header.first_file_info_offset
                                == s.header.first_file_info_offset
                            &&& final(self).contents@ == crate::codec::overwritten(
                                s.contents@,
                                v.offset as int,
                                source_data@,
                            )
                        } else {
                            &&& final(self).extra_files == s.extra_files
                            &&& final(self).header.first_file_info_offset == fio + len + add_pad(
                                len,
                                auto_spare_space,
                            )
                            &&& final(self).contents@ == crate::codec::overwritten(
                                crate::codec::extended_to(
                                    s.contents@,
                                    fio + len + add_pad(len, auto_spare_space),
                                ),
                                fio,
                                source_data@,
                            )
                        }
                    },
                }
            }),
    {
        if self.read_only {
            self.last_error = Some(PakError::ReadOnly);
            return Err(PakError::ReadOnly);
        }
        if !self.is_open || self.is_virtual {
            self.last_error = Some(PakError::NotOpen);
            return Err(PakError::NotOpen);
        }
        if !check_new_name(filename) {
            self.last_error = Some(PakError::NameInvalid);
            return Err(PakError::NameInvalid);
        }
        let len64: u64 = source_data.len() as u64;
        let slot = self.first_fit_slot(len64);
        let offset: u64;
        let padding: u32;
        match slot {
            Some(si) => {
                let leftover: u64 = self.extra_files[si].size - len64;
                if leftover > u32::MAX as u64 {
                    self.last_error = Some(PakError::FieldOverflow);
                    return Err(PakError::FieldOverflow);
                }
                offset = self.extra_files[si].offset;
                padding = leftover as u32;
                proof {
                    assert(self.extra_files@[si as int]@.end_offset()
                        <= self.header.first_file_info_offset as int);
                }
                crate::codec::write_at(&mut self.contents, offset as usize, source_data);
                self.extra_files.remove(si);
                proof {
                    assert(self.extra_files@ =~= old(self).extra_files@.remove(si as int));
                }
            },
            None => {
                let rem: u64 = len64 % 0x200;
                let pad0: u64 = if rem > 0 {
                    0x200 - rem
                } else {
                    0
                };
                let spare: u64 = if auto_spare_space {
                    let q: u64 = len64 / 4;
                    q - q % 0x200
                } else {
                    0
                };
                let pad: u64 = pad0 + spare;
                if pad > u32::MAX as u64 {
                    self.last_error = Some(PakError::FieldOverflow);
                    return Err(PakError::FieldOverflow);
                }
                let fio: usize = self.header.first_file_info_offset;
                let end: u128 = fio as u128 + len64 as u128 + pad as u128;
                if end > usize::MAX as u128 {
                    self.last_error = Some(PakError::FieldOverflow);
                    return Err(PakError::FieldOverflow);
                }
                let end_us: usize = end as usize;
                if self.contents.len() < end_us {
                    crate::codec::zero_extend(&mut self.contents, end_us);
                }
                proof {
                    assert(self.contents@ =~= crate::codec::extended_to(
                        old(self).contents@,
                        end as int,
                    ));
                }
                crate::codec::write_at(&mut self.contents, fio, source_data);
                self.header.first_file_info_offset = end_us;
                offset = fio as u64;
                padding = pad as u32;
            },
        }
        let md5v: [u8; 16] = if self.auto_update_md5_when_adding {
            md5_digest(source_data)
        } else {
            [0u8; 16]
        };
        proof {
            broadcast use vstd::array::group_array_axioms;

            if !self.auto_update_md5_when_adding {
                assert(md5v@ =~= zero_bytes(16));
            }
        }
        let mut name_copy: Vec<u8> = Vec::new();
        name_copy.extend_from_slice(filename);
        proof {
            assert(name_copy@ =~= filename@);
        }
        let entry = AAPakFileInfo::new(
            create_time,
            0,
            self.default_dummy1(),
            self.default_dummy2(),
            0,
            md5v,
            modify_time,
            name_copy,
            offset,
            padding,
            len64,
            len64,
        );
        let copy = entry.duplicate();
        self.files.push(entry);
        self.is_dirty = true;
        proof {
            assert(entry_views(self.files@) =~= entry_views(old(self).files@).push(copy@));
        }
        Ok(copy)
    }

    /// The first free slot that holds `len` bytes.
    fn first_fit_slot(&self, len: u64) -> (r: Option<usize>)
        ensures
            ({
                let idx = first_fit_views(entry_views(self.extra_files@), len as int, 0);
                match r {
                    Some(i) => idx == i && i < self.extra_files@.len() && self.extra_files@[
                        i as int
                    ]@.size >= len,
                    None => idx < 0,
                }
            }),
    {
        let n: usize = self.extra_files.len();
        let mut i: usize = 0;
        while i < n
            invariant
                n == self.extra_files@.len(),
                i <= n,
                first_fit_views(entry_views(self.extra_files@), len as int, 0)
                    == first_fit_views(entry_views(self.extra_files@), len as int, i as int),
            decreases n - i,
        {
            if self.extra_files[i].size >= len {
                return Some(i);
            }
            i += 1;
        }
        None
    }
}

/// A found first-fit position is a real slot position that holds the bytes.
proof fn lemma_first_fit_bounds(
    vs: Seq<crate::file_info::AAPakFileInfoView>,
    len: int,
    i: int,
)
    ensures
        first_fit_views(vs, len, i) == -1 || (0 <= first_fit_views(vs, len, i) < vs.len()
            && vs[first_fit_views(vs, len, i)].size >= len),
    decreases vs.len() - i,
{
    if 0 <= i && i < vs.len() {
        lemma_first_fit_bounds(vs, len, i + 1);
    }
}

/// Taking the entry images commutes with removing one position.
proof fn lemma_entry_views_remove(s: Seq<AAPakFileInfo>, i: int)
    requires
        0 <= i < s.len(),
    ensures
        entry_views(s.remove(i)) == entry_views(s).remove(i),
{
    assert(entry_views(s.remove(i)) =~= entry_views(s).remove(i));
}

/// The used-entry images a deletion leaves behind, as a function of the
/// state before it.
pub open spec fn files_after_delete(s: AAPak, index: int) -> Seq<
    crate::file_info::AAPakFileInfoView,
> {
    let e = s.files@[index]@;
    if s.padding_delete_mode {
        let pred = if e.offset > 0 {
            find_by_offset_from(s.files@, e.offset - 1, 0)
        } else {
            -1
        };
        let base = if pred >= 0 {
            entry_views(s.files@).update(
                pred,
                (crate::file_info::AAPakFileInfoView {
                    padding_size: (s.files@[pred]@.padding_size + e.size + e.padding_size) as u32,
                    ..s.files@[pred]@
                }),
            )
        } else {
            entry_views(s.files@)
        };
        keep_without_digest(base, e.md5)
    } else {
        keep_without_digest(entry_views(s.files@), e.md5)
    }
}

/// The free-slot images a deletion leaves behind.
pub open spec fn extras_after_delete(s: AAPak, index: int) -> Seq<
    crate::file_info::AAPakFileInfoView,
> {
    if s.padding_delete_mode {
        entry_views(s.extra_files@)
    } else {
        entry_views(s.extra_files@).push(
            free_slot_view(
                s.files@[index]@,
                default_dummy1_of(s.reader),
                default_dummy2_of(s.reader),
            ),
        )
    }
}

impl AAPak {
    /// The position of the first used entry named `name`.
    fn find_index_by_name(&self, name: &[u8]) -> (r: Option<usize>)
        ensures
            ({
                let idx = find_by_name_from(self.files@, name@, 0);
                match r {
                    Some(i) => idx == i && i < self.files@.len(),
                    None => idx < 0,
                }
            }),
    {
        let n: usize = self.files.len();
        let mut i: usize = 0;
        while i < n
            invariant
                n == self.files@.len(),
                i <= n,
                find_by_name_from(self.files@, name@, 0) == find_by_name_from(
                    self.files@,
                    name@,
                    i as int,
                ),
            decreases n - i,
        {
            if crate::codec::bytes_eq(self.files[i].name.as_slice(), name) {
                return Some(i);
            }
            i += 1;
        }
        None
    }

    /// Adds or replaces the file named `filename`: content that fits an
    /// existing entry of that name replaces it in place; otherwise the stale
    /// entry (if any) is deleted and the content inserted as new.
    #[verifier::rlimit(60)]
    pub fn add_file_from_stream(
        &mut self,
        filename: &[u8],
        source_data: &[u8],
        create_time: i64,
        modify_time: i64,
        auto_spare_space: bool,
    ) -> (r: Result<AAPakFileInfo, PakError>)
        requires
            old(self).wf(),
        ensures
            final(self).wf(),
            final(self).reader == old(self).reader,
            final(self).read_only == old(self).read_only,
            final(self).is_open == old(self).is_open,
            final(self).is_virtual == old(self).is_virtual,
            final(self).header.key == old(self).header.key,
            ({
                let s = *old(self);
                let len = source_data@.len() as int;
                let idx = find_by_name_from(s.files@, filename@, 0);
                if s.read_only {
                    r == Err::<AAPakFileInfo, PakError>(PakError::ReadOnly) && final(self).files
                        == s.files && final(self).extra_files == s.extra_files && final(self).contents == s.contents && final(self).is_dirty == s.is_dirty
                } else if !s.is_open || s.is_virtual {
                    r == Err::<AAPakFileInfo, PakError>(PakError::NotOpen) && final(self).files
                        == s.files && final(self).extra_files == s.extra_files && final(self).contents == s.contents && final(self).is_dirty == s.is_dirty
                } else if idx >= 0 && len <= s.files@[idx]@.size + s.files@[idx]@.padding_size {
                    let e = s.files@[idx]@;
                    if e.size + e.padding_size - len <= u32::MAX {
                        &&& r is Ok
                        &&& r->Ok_0@ == (crate::file_info::AAPakFileInfoView {
                            size: len as u64,
                            size_duplicate: len as u64,
                            padding_size: (e.size + e.padding_size - len) as u32,
                            md5: if s.auto_update_md5_when_adding {
                                md5_of(source_data@)
                            } else {
                                e.md5
                            },
                            modify_time: modify_time,
                            dummy1: default_dummy1_of(s.reader),
                            dummy2: default_dummy2_of(s.reader),
                            ..e
                        })
                        &&& final(self).contents@ == crate::codec::overwritten(
                            s.contents@,
                            e.offset as int,
                            source_data@,
                        )
                        &&& final(self).files@.len() == s.files@.len()
                        &&& forall|j: int|
                            0 <= j < s.files@.len() && j != idx ==> final(self).files@[j]
                                == s.files@[j]
                        &&& final(self).files@[idx]@ == r->Ok_0@
                        &&& final(self).extra_files == s.extra_files
                        &&& final(self).is_dirty
                    } else {
                        r == Err::<AAPakFileInfo, PakError>(PakError::FieldOverflow) && final(self).files == s.files && final(self).extra_files == s.extra_files && final(self).contents == s.contents && final(self).is_dirty == s.is_dirty
                    }
                } else {
                    let deleted = idx >= 0;
                    if deleted && !delete_accepted(s, idx) {
                        r == Err::<AAPakFileInfo, PakError>(PakError::FieldOverflow) && final(self).files == s.files && final(self).extra_files == s.extra_files && final(self).contents == s.contents && final(self).is_dirty == s.is_dirty
                    } else {
                        let mid_files = if deleted {
                            files_after_delete(s, idx)
                        } else {
                            entry_views(s.files@)
                        };
                        let mid_extras = if deleted {
                            extras_after_delete(s, idx)
                        } else {
                            entry_views(s.extra_files@)
                        };
                        let fio = s.header.first_file_info_offset as int;
                        let mid_dirty = deleted || s.is_dirty;
                        if !valid_new_name(filename@) {
                            &&& r == Err::<AAPakFileInfo, PakError>(PakError::NameInvalid)
                            &&& entry_views(final(self).files@) == mid_files
                            &&& entry_views(final(self).extra_files@) == mid_extras
                            &&& final(self).contents == s.contents
                            &&& final(self).is_dirty == mid_dirty
                        } else {
                            match add_room_err(mid_extras, fio, len, auto_spare_space) {
                                Some(err) => {
                                    &&& r == Err::<AAPakFileInfo, PakError>(err)
                                    &&& entry_views(final(self).files@) == mid_files
                                    &&& entry_views(final(self).extra_files@) == mid_extras
                                    &&& final(self).contents == s.contents
                                    &&& final(self).is_dirty == mid_dirty
                                },
                                None => {
                                    let slot = first_fit_views(mid_extras, len, 0);
                                    let md5v = if s.auto_update_md5_when_adding {
                                        md5_of(source_data@)
                                    } else {
                                        zero_bytes(16)
                                    };
                                    let v = added_view(
                                        mid_extras,
                                        fio,
                                        filename@,
                                        len,
                                        create_time,
                                        modify_time,
                                        auto_spare_space,
                                        default_dummy1_of(s.reader),
                                        default_dummy2_of(s.reader),
                                        md5v,
                                    );
                                    &&& r is Ok
                                    &&& r->Ok_0@ == v
                                    &&& entry_views(final(self).files@) == mid_files.push(v)
                                    &&& entry_views(final(self).extra_files@) == if slot >= 0 {
                                        mid_extras.remove(slot)
                                    } else {
                                        mid_extras
                                    }
                                    &&& final(self).is_dirty
                                    &&& if slot >= 0 {
                                        final(self).contents@ == crate::codec::overwritten(
                                            s.contents@,
                                            v.offset as int,
                                            source_data@,
                                        ) && final(self).header.first_file_info_offset
                                            == s.header.first_file_info_offset
                                    } else {
                                        final(self).contents@ == crate::codec::overwritten(
                                            crate::codec::extended_to(
                                                s.contents@,
                                                fio + len + add_pad(len, auto_spare_space),
                                            ),
                                            fio,
                                            source_data@,
                                        ) && final(self).header.first_file_info_offset == fio
                                            + len + add_pad(len, auto_spare_space)
                                    }
                                },
                            }
                        }
                    }
                }
            }),
    {
        if self.read_only {
            self.last_error = Some(PakError::ReadOnly);
            return Err(PakError::ReadOnly);
        }
        if !self.is_open || self.is_virtual {
            self.last_error = Some(PakError::NotOpen);
            return Err(PakError::NotOpen);
        }
        let idx_opt = self.find_index_by_name(filename);
        match idx_opt {
            Some(i) => {
                let reserved: u128 = self.files[i].size as u128 + self.files[i].padding_size
                    as u128;
                if source_data.len() as u128 <= reserved {
                    let okr = self.replace_file(i, source_data, modify_time);
                    if okr {
                        Ok(self.files[i].duplicate())
                    } else {
                        self.last_error = Some(PakError::FieldOverflow);
                        Err(PakError::FieldOverflow)
                    }
                } else {
                    let okd = self.delete_file(i);
                    if !okd {
                        self.last_error = Some(PakError::FieldOverflow);
                        return Err(PakError::FieldOverflow);
                    }
                    let ghost mid = *self;
                    let out = self.add_as_new_file(
                        filename,
                        source_data,
                        create_time,
                        modify_time,
                        auto_spare_space,
                    );
                    proof {
                        assert(entry_views(mid.files@) == files_after_delete(
                            *old(self),
                            i as int,
                        ));
                        assert(entry_views(mid.extra_files@) == extras_after_delete(
                            *old(self),
                            i as int,
                        ));
                        if out is Ok {
                            let slot = first_fit_views(
                                entry_views(mid.extra_files@),
                                source_data@.len() as int,
                                0,
                            );
                            if slot >= 0 {
                                lemma_first_fit_bounds(
                                    entry_views(mid.extra_files@),
                                    source_data@.len() as int,
                                    0,
                                );
                                assert(self.extra_files@ == mid.extra_files@.remove(slot));
                                lemma_entry_views_remove(mid.extra_files@, slot);
                            }
                        }
                    }
                    out
                }
            },
            None => {
                let ghost mid = *self;
                let out = self.add_as_new_file(
                    filename,
                    source_data,
                    create_time,
                    modify_time,
                    auto_spare_space,
                );
                proof {
                    if out is Ok {
                        let slot = first_fit_views(
                            entry_views(mid.extra_files@),
                            source_data@.len() as int,
                            0,
                        );
                        if slot >= 0 {
                            lemma_first_fit_bounds(
                                entry_views(mid.extra_files@),
                                source_data@.len() as int,
                                0,
                            );
                            assert(self.extra_files@ == mid.extra_files@.remove(slot));
                            lemma_entry_views_remove(mid.extra_files@, slot);
                        }
                    }
                }
                out
            },
        }
    }
}

/// A name is accepted for a new entry when it fits the fixed on-disk field
/// and holds no NUL byte.
pub open spec fn valid_new_name(name: Seq<u8>) -> bool {
    &&& name.len() <= crate::file_info::NAME_FIELD_SIZE
    &&& forall|i: int| 0 <= i < name.len() ==> name[i] != 0u8
}

/// Checks a new entry name against the on-disk field.
pub(crate) fn check_new_name(name: &[u8]) -> (r: bool)
    ensures
        r == valid_new_name(name@),
{
    if name.len() > crate::file_info::NAME_FIELD_SIZE {
        return false;
    }
    let n: usize = name.len();
    let mut i: usize = 0;
    while i < n
        invariant
            n == name@.len(),
            i <= n,
            n <= crate::file_info::NAME_FIELD_SIZE,
            forall|j: int| 0 <= j < i ==> name@[j] != 0u8,
        decreases n - i,
    {
        if name[i] == 0 {
            return false;
        }
        i += 1;
    }
    true
}

/// When a replacement is accepted: writable container, a real index, new
/// content that fits the reserved range, and a remainder that fits the
/// padding field.
pub open spec fn replace_accepted(s: AAPak, index: int, new_len: int) -> bool {
    &&& !s.read_only
    &&& s.is_open
    &&& !s.is_virtual
    &&& 0 <= index < s.files@.len()
    &&& new_len <= s.files@[index]@.size + s.files@[index]@.padding_size
    &&& s.files@[index]@.size + s.files@[index]@.padding_size - new_len <= u32::MAX
}

impl AAPak {
    /// Loads CSV text as a virtual, read-only container presenting the same
    /// entry model; refused while another archive is open, and the whole
    /// load is invalid when the header or any row is malformed.
    pub fn open_virtual_csv_pak(&mut self, data: Vec<u8>) -> (ok: bool)
        requires
            old(self).wf(),
            data@.len() < usize::MAX,
        ensures
            final(self).wf(),
            old(self).is_open ==> !ok && *final(self) == (AAPak {
                progress_events: final(self).progress_events,
                ..*old(self)
            }),
            !old(self).is_open ==> {
                &&& final(self).null_aapak_file_info == old(self).null_aapak_file_info
                &&& ok == (crate::csv::csv_parse(data@) is Some)
                &&& ok ==> {
                    &&& final(self).is_open
                    &&& final(self).is_virtual
                    &&& final(self).read_only
                    &&& final(self).pak_type == PakFileType::Csv
                    &&& final(self).header.is_valid
                    &&& !final(self).is_dirty
                    &&& entry_views(final(self).files@) == crate::csv::csv_parse(data@)->Some_0
                    &&& final(self).extra_files@.len() == 0
                }
                &&& !ok ==> {
                    &&& !final(self).is_open
                    &&& final(self).read_only
                    &&& !final(self).header.is_valid
                    &&& final(self).last_error is Some
                }
            },
    {
        if self.is_open {
            return false;
        }
        self.is_virtual = true;
        self.contents = Vec::new();
        self.is_dirty = false;
        self.is_open = true;
        self.read_only = true;
        self.pak_type = PakFileType::Csv;
        let res = self.read_csv_data(data.as_slice());
        if !res {
            self.is_open = false;
            self.read_only = true;
        }
        res
    }

    /// Parses CSV text into the used entry list; a malformed header or row
    /// invalidates the whole load.
    fn read_csv_data(&mut self, data: &[u8]) -> (ok: bool)
        requires
            data@.len() < usize::MAX,
        ensures
            final(self).is_open == old(self).is_open,
            final(self).is_virtual == old(self).is_virtual,
            final(self).read_only == old(self).read_only,
            final(self).is_dirty == old(self).is_dirty,
            final(self).pak_type == old(self).pak_type,
            final(self).contents == old(self).contents,
            final(self).reader == old(self).reader,
            final(self).null_aapak_file_info == old(self).null_aapak_file_info,
            ok == (crate::csv::csv_parse(data@) is Some),
            ok == final(self).header.is_valid,
            ok ==> entry_views(final(self).files@) == crate::csv::csv_parse(data@)->Some_0,
            ok ==> names_wf(final(self).files@),
            !ok ==> final(self).files@.len() == 0,
            !ok ==> final(self).last_error is Some,
            final(self).extra_files@.len() == 0,
    {
        self.trigger_progress(AAPakLoadingProgressType::ReadingFAT, 0, 100);
        self.files.clear();
        self.extra_files.clear();
        match crate::csv::parse_csv(data) {
            Ok(v) => {
                self.files = v;
                self.header.is_valid = true;
                self.trigger_progress(AAPakLoadingProgressType::ReadingFAT, 100, 100);
                true
            },
            Err(e) => {
                self.last_error = Some(e);
                self.header.is_valid = false;
                false
            },
        }
    }

    /// Decodes a hexadecimal string into bytes; `None` on odd length or a
    /// non-digit.
    pub fn string_to_byte_array(hex: &[u8]) -> (r: Option<Vec<u8>>)
        ensures
            match r {
                Some(v) => crate::csv::hex_decode(hex@) == Some(v@),
                None => crate::csv::hex_decode(hex@) is None,
            },
    {
        crate::csv::hex_decode_exec(hex)
    }

    /// Converts a textual `yyyy?MM?dd?HH?mm?ss` stamp to UTC epoch seconds,
    /// zero on any failure.
    pub fn date_time_str_to_file_time(encoded: &[u8]) -> (r: i64)
        ensures
            r == crate::csv::file_time_of(encoded@),
    {
        crate::csv::date_time_to_file_time(encoded)
    }
}

// ------------------------------------------------------------------
// Lookup laws
// ------------------------------------------------------------------

/// Offset lookup hits the owning entry: when the used entries' reserved
/// ranges are pairwise disjoint (abutting entries allowed), looking up an
/// entry's first byte and its last reserved byte both find that entry; any
/// position at or past the entry's range end finds some other entry or
/// nothing, and a position inside no entry's range finds nothing.
pub proof fn lemma_find_by_offset_hits(es: Seq<AAPakFileInfo>, i: int, pos: int)
    requires
        0 <= i < es.len(),
        forall|a: int, b: int|
            0 <= a < es.len() && 0 <= b < es.len() && a != b ==> (#[trigger] es[a])@.end_offset()
                <= (#[trigger] es[b])@.offset || es[b]@.end_offset() <= es[a]@.offset,
    ensures
        es[i]@.size + es[i]@.padding_size > 0 ==> find_by_offset_from(
            es,
            es[i]@.offset as int,
            0,
        ) == i,
        es[i]@.size + es[i]@.padding_size > 0 ==> find_by_offset_from(
            es,
            es[i]@.end_offset() - 1,
            0,
        ) == i,
        pos >= es[i]@.end_offset() ==> find_by_offset_from(es, pos, 0) != i,
        (forall|j: int|
            0 <= j < es.len() ==> !((#[trigger] es[j])@.offset <= pos < es[j]@.end_offset()))
            ==> find_by_offset_from(es, pos, 0) == -1,
{
    if es[i]@.size + es[i]@.padding_size > 0 {
        lemma_find_by_offset_unique(es, i, es[i]@.offset as int, 0);
        lemma_find_by_offset_unique(es, i, es[i]@.end_offset() - 1, 0);
    }
    if pos >= es[i]@.end_offset() {
        lemma_find_by_offset_misses(es, i, pos, 0);
    }
    if forall|j: int|
        0 <= j < es.len() ==> !((#[trigger] es[j])@.offset <= pos < es[j]@.end_offset()) {
        lemma_find_by_offset_none(es, pos, 0);
    }
}

/// A position inside no entry's reserved range is reported as owned by
/// nothing.
proof fn lemma_find_by_offset_none(es: Seq<AAPakFileInfo>, pos: int, k: int)
    requires
        0 <= k <= es.len(),
        forall|j: int|
            0 <= j < es.len() ==> !((#[trigger] es[j])@.offset <= pos < es[j]@.end_offset()),
    ensures
        find_by_offset_from(es, pos, k) == -1,
    decreases es.len() - k,
{
    if k < es.len() {
        lemma_find_by_offset_none(es, pos, k + 1);
    }
}

/// With disjoint ranges, the scan returns the one entry whose range holds
/// the position.
proof fn lemma_find_by_offset_unique(es: Seq<AAPakFileInfo>, i: int, pos: int, k: int)
    requires
        0 <= k <= i < es.len(),
        es[i]@.offset <= pos < es[i]@.end_offset(),
        forall|a: int, b: int|
            0 <= a < es.len() && 0 <= b < es.len() && a != b ==> (#[trigger] es[a])@.end_offset()
                <= (#[trigger] es[b])@.offset || es[b]@.end_offset() <= es[a]@.offset,
    ensures
        find_by_offset_from(es, pos, k) == i,
    decreases es.len() - k,
{
    if k < i {
        assert(es[k]@.end_offset() <= es[i]@.offset || es[i]@.end_offset() <= es[k]@.offset);
        lemma_find_by_offset_unique(es, i, pos, k + 1);
    }
}

/// A position at or past an entry's range end is never reported as that
/// entry.
proof fn lemma_find_by_offset_misses(es: Seq<AAPakFileInfo>, i: int, pos: int, k: int)
    requires
        0 <= k <= es.len(),
        0 <= i < es.len(),
        pos >= es[i]@.end_offset(),
    ensures
        find_by_offset_from(es, pos, k) != i,
    decreases es.len() - k,
{
    if k < es.len() {
        lemma_find_by_offset_misses(es, i, pos, k + 1);
    }
}

/// Backend parity of name lookup: two containers holding the same logical
/// used entries — a binary archive and a virtual CSV one, say — answer every
/// name lookup with the same position and the same entry image.
pub proof fn lemma_find_by_name_parity(
    a: Seq<AAPakFileInfo>,
    b: Seq<AAPakFileInfo>,
    name: Seq<u8>,
    i: int,
)
    requires
        entry_views(a) == entry_views(b),
    ensures
        find_by_name_from(a, name, i) == find_by_name_from(b, name, i),
        find_by_name_from(a, name, i) >= 0 ==> a[find_by_name_from(a, name, i)]@ == b[
            find_by_name_from(b, name, i)
        ]@,
    decreases a.len() - i,
{
    assert(entry_views(a).len() == a.len());
    assert(entry_views(b).len() == b.len());
    if 0 <= i && i < a.len() {
        assert(entry_views(a)[i] == a[i]@);
        assert(entry_views(b)[i] == b[i]@);
        lemma_find_by_name_parity(a, b, name, i + 1);
    }
}

/// The persistence layout is defined and its field widths fill their
/// on-disk blocks.
pub open spec fn layout_ok(
    reader: Option<AAPakFileFormatReaderView>,
    pak_type: PakFileType,
) -> bool {
    &&& write_layout(reader, pak_type) is Some
    &&& crate::format_reader::info_order_size(
        write_layout(reader, pak_type)->Some_0.file_info_read_order,
    ) == FILE_INFO_SIZE
    &&& crate::format_reader::hdr_order_size(
        write_layout(reader, pak_type)->Some_0.read_order,
        write_layout(reader, pak_type)->Some_0.header_bytes.len() as int,
    ) <= HEADER_CRYPT_SIZE
}

/// What a successful save needs: an open, writable container whose layout is
/// defined and block-filling, with counts that fit the header counters.
pub open spec fn save_ok_conditions(s: AAPak) -> bool {
    &&& s.is_open
    &&& !s.read_only
    &&& s.files@.len() <= u32::MAX
    &&& s.extra_files@.len() <= u32::MAX
    &&& layout_ok(opt_reader_view(s.reader), s.pak_type)
}

/// The byte image a save produces: everything below the file table is kept,
/// and the freshly encoded table image follows it.
pub open spec fn saved_image(s: AAPak) -> Seq<u8> {
    s.contents@.take(s.header.first_file_info_offset as int) + crate::header::fat_image(
        entry_views(s.files@),
        entry_views(s.extra_files@),
        write_layout(opt_reader_view(s.reader), s.pak_type)->Some_0,
        s.header.key@,
    )
}

/// Saving twice without an intervening mutation writes byte-identical
/// content the second time: the table image depends only on the entry
/// lists, layout and key, and the bytes kept below the table are unchanged
/// by the first save.
pub proof fn lemma_save_header_idempotent(s1: AAPak, s2: AAPak)
    requires
        s1.header.first_file_info_offset <= s1.contents@.len(),
        s2.contents@ == saved_image(s1),
        s2.files == s1.files,
        s2.extra_files == s1.extra_files,
        s2.reader == s1.reader,
        s2.pak_type == s1.pak_type,
        s2.header.key == s1.header.key,
        s2.header.first_file_info_offset == s1.header.first_file_info_offset,
    ensures
        saved_image(s2) == saved_image(s1),
{
    let fio = s1.header.first_file_info_offset as int;
    assert(s2.contents@.take(fio) =~= s1.contents@.take(fio));
    assert(saved_image(s2) =~= saved_image(s1));
}

} // verus!
