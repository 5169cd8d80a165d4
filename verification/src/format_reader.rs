//! Format readers: declarative descriptions of one on-disk layout variant.
//!
//! A reader lists the tokens of the encrypted header, the field order of one
//! file-table entry, the key that decrypts both, and whether free slots are
//! stored before the used entries.  Many readers may sit in a pool and be
//! tried in turn against an unknown header.

use vstd::prelude::*;
use vstd::slice::slice_to_vec;

verus! {

/// Size in bytes of one encrypted file-table entry block.
pub const FILE_INFO_SIZE: usize = 0x150;

/// Size in bytes of the encrypted portion at the start of the trailing header block.
pub const HEADER_CRYPT_SIZE: usize = 0x20;

/// Tokens making up the decrypted header, in on-disk order.
#[derive(Clone, Copy, PartialEq, Eq, Structural, Debug)]
pub enum AAPakFileHeaderElement {
    /// One byte whose value does not matter.
    AnyByte,
    /// One byte that must be zero.
    NullByte,
    /// The magic byte string of the format.
    Header,
    /// Count of used entries, 32-bit little-endian.
    FilesCount,
    /// Count of free-slot entries, 32-bit little-endian.
    ExtraFilesCount,
}

/// Fields of one file-table entry, in on-disk order.
#[derive(Clone, Copy, PartialEq, Eq, Structural, Debug)]
pub enum AAPakFileInfoElement {
    FileName,
    Offset,
    Size,
    SizeDuplicate,
    PaddingSize,
    Md5,
    Dummy1,
    CreateTime,
    ModifyTime,
    Dummy2,
}

/// Width in bytes that a header token occupies, for a magic string of
/// `magic_len` bytes.
pub open spec fn hdr_elem_size(e: AAPakFileHeaderElement, magic_len: int) -> int {
    match e {
        AAPakFileHeaderElement::AnyByte => 1,
        AAPakFileHeaderElement::NullByte => 1,
        AAPakFileHeaderElement::Header => magic_len,
        AAPakFileHeaderElement::FilesCount => 4,
        AAPakFileHeaderElement::ExtraFilesCount => 4,
    }
}

/// Total width of the header tokens from position `i` on.
pub open spec fn hdr_order_size_from(
    order: Seq<AAPakFileHeaderElement>,
    magic_len: int,
    i: int,
) -> int
    decreases order.len() - i,
{
    if i < 0 || i >= order.len() {
        0
    } else {
        hdr_elem_size(order[i], magic_len) + hdr_order_size_from(order, magic_len, i + 1)
    }
}

/// Total width in bytes of a header token list.
pub open spec fn hdr_order_size(order: Seq<AAPakFileHeaderElement>, magic_len: int) -> int {
    hdr_order_size_from(order, magic_len, 0)
}

/// Width in bytes of one entry field on disk.
pub open spec fn info_elem_size(e: AAPakFileInfoElement) -> int {
    match e {
        AAPakFileInfoElement::FileName => 0x108,
        AAPakFileInfoElement::Offset => 8,
        AAPakFileInfoElement::Size => 8,
        AAPakFileInfoElement::SizeDuplicate => 8,
        AAPakFileInfoElement::PaddingSize => 4,
        AAPakFileInfoElement::Md5 => 16,
        AAPakFileInfoElement::Dummy1 => 4,
        AAPakFileInfoElement::CreateTime => 8,
        AAPakFileInfoElement::ModifyTime => 8,
        AAPakFileInfoElement::Dummy2 => 8,
    }
}

/// Total width of the entry fields from position `i` on.
pub open spec fn info_order_size_from(order: Seq<AAPakFileInfoElement>, i: int) -> int
    decreases order.len() - i,
{
    if i < 0 || i >= order.len() {
        0
    } else {
        info_elem_size(order[i]) + info_order_size_from(order, i + 1)
    }
}

/// Total width in bytes of an entry field list.
pub open spec fn info_order_size(order: Seq<AAPakFileInfoElement>) -> int {
    info_order_size_from(order, 0)
}

/// Entry field widths are positive, so every tail width is non-negative.
pub proof fn lemma_info_order_size_nonneg(order: Seq<AAPakFileInfoElement>, i: int)
    ensures
        info_order_size_from(order, i) >= 0,
    decreases order.len() - i,
{
    if 0 <= i && i < order.len() {
        lemma_info_order_size_nonneg(order, i + 1);
    }
}

/// The well-known 16-byte key of the classic format.
pub open spec fn xl_key_bytes() -> Seq<u8> {
    seq![
        0x32u8, 0x1Fu8, 0x2Au8, 0xEEu8, 0xAAu8, 0x58u8, 0x4Au8, 0xB4u8,
        0x9Au8, 0x6Cu8, 0x9Eu8, 0x09u8, 0xD5u8, 0x9Eu8, 0x9Cu8, 0x6Fu8,
    ]
}

/// The classic magic bytes, spelling "WIBO".
pub open spec fn classic_magic() -> Seq<u8> {
    seq![0x57u8, 0x49u8, 0x42u8, 0x4Fu8]
}

/// Header token order of the classic format: magic, four zero bytes, the two
/// counts, four zero bytes.
pub open spec fn classic_hdr_order() -> Seq<AAPakFileHeaderElement> {
    seq![
        AAPakFileHeaderElement::Header,
        AAPakFileHeaderElement::NullByte,
        AAPakFileHeaderElement::NullByte,
        AAPakFileHeaderElement::NullByte,
        AAPakFileHeaderElement::NullByte,
        AAPakFileHeaderElement::FilesCount,
        AAPakFileHeaderElement::ExtraFilesCount,
        AAPakFileHeaderElement::NullByte,
        AAPakFileHeaderElement::NullByte,
        AAPakFileHeaderElement::NullByte,
        AAPakFileHeaderElement::NullByte,
    ]
}

/// Entry field order of the classic format.
pub open spec fn classic_info_order() -> Seq<AAPakFileInfoElement> {
    seq![
        AAPakFileInfoElement::FileName,
        AAPakFileInfoElement::Offset,
        AAPakFileInfoElement::Size,
        AAPakFileInfoElement::SizeDuplicate,
        AAPakFileInfoElement::PaddingSize,
        AAPakFileInfoElement::Md5,
        AAPakFileInfoElement::Dummy1,
        AAPakFileInfoElement::CreateTime,
        AAPakFileInfoElement::ModifyTime,
        AAPakFileInfoElement::Dummy2,
    ]
}

/// The mathematical image of a format reader.
pub ghost struct AAPakFileFormatReaderView {
    pub reader_name: Seq<char>,
    pub is_default: bool,
    pub header_encryption_key: Seq<u8>,
    pub header_bytes: Seq<u8>,
    pub read_order: Seq<AAPakFileHeaderElement>,
    pub invert_file_counter: bool,
    pub file_info_read_order: Seq<AAPakFileInfoElement>,
    pub default_dummy1: u32,
    pub default_dummy2: u64,
}

impl AAPakFileFormatReaderView {
    /// The token lists fit their on-disk windows: the header tokens fit the
    /// encrypted header area, and the entry fields fill one entry block
    /// exactly.
    pub open spec fn wf(self) -> bool {
        &&& hdr_order_size(self.read_order, self.header_bytes.len() as int) <= HEADER_CRYPT_SIZE
        &&& info_order_size(self.file_info_read_order) == FILE_INFO_SIZE
    }

    /// The reader declares exactly the classic layout and key.
    pub open spec fn is_classic_layout(self) -> bool {
        &&& self.header_encryption_key == xl_key_bytes()
        &&& self.header_bytes == classic_magic()
        &&& self.read_order == classic_hdr_order()
        &&& self.file_info_read_order == classic_info_order()
    }
}

/// Declares how header and entry data of one layout variant are read and
/// written, and which key decrypts them.
pub struct AAPakFileFormatReader {
    /// Display name of this reader.
    pub reader_name: String,
    /// True when the reader was built with the classic defaults.
    pub is_default: bool,
    /// Key for the header and file-table blocks.
    pub header_encryption_key: [u8; 16],
    /// Magic bytes identifying the format.
    pub header_bytes: Vec<u8>,
    /// Token order of the header.
    pub read_order: Vec<AAPakFileHeaderElement>,
    /// True when the table stores free slots before used entries.
    pub invert_file_counter: bool,
    /// Field order of one file-table entry.
    pub file_info_read_order: Vec<AAPakFileInfoElement>,
    /// Value for `dummy1` on entries this library synthesizes.
    pub default_dummy1: u32,
    /// Value for `dummy2` on entries this library synthesizes.
    pub default_dummy2: u64,
}

impl View for AAPakFileFormatReader {
    type V = AAPakFileFormatReaderView;

    open spec fn view(&self) -> AAPakFileFormatReaderView {
        AAPakFileFormatReaderView {
            reader_name: self.reader_name@,
            is_default: self.is_default,
            header_encryption_key: self.header_encryption_key@,
            header_bytes: self.header_bytes@,
            read_order: self.read_order@,
            invert_file_counter: self.invert_file_counter,
            file_info_read_order: self.file_info_read_order@,
            default_dummy1: self.default_dummy1,
            default_dummy2: self.default_dummy2,
        }
    }
}

impl AAPakFileFormatReader {
    /// Builds a reader; with `initialize_with_defaults` it declares the
    /// classic layout and key, otherwise it is empty and must be filled by
    /// the caller before use.
    pub fn new(initialize_with_defaults: bool) -> (r: AAPakFileFormatReader)
        ensures
            r@.is_default == initialize_with_defaults,
            r@.invert_file_counter == false,
            r@.default_dummy1 == 0,
            r@.default_dummy2 == 0,
            r@.header_encryption_key == xl_key_bytes(),
            initialize_with_defaults ==> r@.is_classic_layout(),
            !initialize_with_defaults ==> {
                &&& r@.header_bytes == Seq::<u8>::empty()
                &&& r@.read_order == Seq::<AAPakFileHeaderElement>::empty()
                &&& r@.file_info_read_order == Seq::<AAPakFileInfoElement>::empty()
            },
    {
        if initialize_with_defaults {
            let mut read_order: Vec<AAPakFileHeaderElement> = Vec::new();
            read_order.push(AAPakFileHeaderElement::Header);
            read_order.push(AAPakFileHeaderElement::NullByte);
            read_order.push(AAPakFileHeaderElement::NullByte);
            read_order.push(AAPakFileHeaderElement::NullByte);
            read_order.push(AAPakFileHeaderElement::NullByte);
            read_order.push(AAPakFileHeaderElement::FilesCount);
            read_order.push(AAPakFileHeaderElement::ExtraFilesCount);
            read_order.push(AAPakFileHeaderElement::NullByte);
            read_order.push(AAPakFileHeaderElement::NullByte);
            read_order.push(AAPakFileHeaderElement::NullByte);
            read_order.push(AAPakFileHeaderElement::NullByte);
            let mut file_info_read_order: Vec<AAPakFileInfoElement> = Vec::new();
            file_info_read_order.push(AAPakFileInfoElement::FileName);
            file_info_read_order.push(AAPakFileInfoElement::Offset);
            file_info_read_order.push(AAPakFileInfoElement::Size);
            file_info_read_order.push(AAPakFileInfoElement::SizeDuplicate);
            file_info_read_order.push(AAPakFileInfoElement::PaddingSize);
            file_info_read_order.push(AAPakFileInfoElement::Md5);
            file_info_read_order.push(AAPakFileInfoElement::Dummy1);
            file_info_read_order.push(AAPakFileInfoElement::CreateTime);
            file_info_read_order.push(AAPakFileInfoElement::ModifyTime);
            file_info_read_order.push(AAPakFileInfoElement::Dummy2);
            let mut header_bytes: Vec<u8> = Vec::new();
            header_bytes.push(0x57);
            header_bytes.push(0x49);
            header_bytes.push(0x42);
            header_bytes.push(0x4F);
            proof {
                assert(read_order@ =~= classic_hdr_order());
                assert(file_info_read_order@ =~= classic_info_order());
                assert(header_bytes@ =~= classic_magic());
            }
            AAPakFileFormatReader {
                reader_name: "Default".to_owned(),
                is_default: true,
                header_encryption_key: Self::xl_games_key(),
                header_bytes,
                read_order,
                invert_file_counter: false,
                file_info_read_order,
                default_dummy1: 0,
                default_dummy2: 0,
            }
        } else {
            AAPakFileFormatReader {
                reader_name: "None".to_owned(),
                is_default: false,
                header_encryption_key: Self::xl_games_key(),
                header_bytes: Vec::new(),
                read_order: Vec::new(),
                invert_file_counter: false,
                file_info_read_order: Vec::new(),
                default_dummy1: 0,
                default_dummy2: 0,
            }
        }
    }

    /// An exact copy of the reader.
    pub fn duplicate(&self) -> (r: AAPakFileFormatReader)
        ensures
            r@ == self@,
    {
        AAPakFileFormatReader {
            reader_name: self.reader_name.clone(),
            is_default: self.is_default,
            header_encryption_key: self.header_encryption_key,
            header_bytes: slice_to_vec(self.header_bytes.as_slice()),
            read_order: slice_to_vec(self.read_order.as_slice()),
            invert_file_counter: self.invert_file_counter,
            file_info_read_order: slice_to_vec(self.file_info_read_order.as_slice()),
            default_dummy1: self.default_dummy1,
            default_dummy2: self.default_dummy2,
        }
    }

    /// The well-known static key of the classic format.
    pub fn xl_games_key() -> (r: [u8; 16])
        ensures
            r@ == xl_key_bytes(),
    {
        let r: [u8; 16] = [
            0x32, 0x1F, 0x2A, 0xEE, 0xAA, 0x58, 0x4A, 0xB4,
            0x9A, 0x6C, 0x9E, 0x09, 0xD5, 0x9E, 0x9C, 0x6F,
        ];
        proof {
            assert(r@ =~= xl_key_bytes());
        }
        r
    }
}

/// The classic header token list fits the encrypted header area.
pub proof fn lemma_classic_hdr_order_size()
    ensures
        hdr_order_size(classic_hdr_order(), 4) == 20,
{
    reveal_with_fuel(hdr_order_size_from, 13);
}

/// The classic entry field list fills one entry block exactly.
pub proof fn lemma_classic_info_order_size()
    ensures
        info_order_size(classic_info_order()) == FILE_INFO_SIZE as int,
{
    reveal_with_fuel(info_order_size_from, 12);
}

/// A classic-layout reader is well formed.
pub proof fn lemma_classic_reader_wf(r: AAPakFileFormatReaderView)
    requires
        r.is_classic_layout(),
    ensures
        r.wf(),
{
    lemma_classic_hdr_order_size();
    lemma_classic_info_order_size();
}

} // verus!
