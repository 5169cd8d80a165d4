//! Header and file-table codec: serializes and parses entry blocks per a
//! format reader's field order, validates and builds the encrypted header,
//! and turns the whole file table into bytes and back.
//!
//! Entry blocks and the header area are encrypted with AES-128-CBC (all-zero
//! IV), each block on its own; the cipher calls sit in [`crate::crypto`].

use vstd::prelude::*;
use vstd::bytes::spec_u32_from_le_bytes;
use vstd::bytes::spec_u32_to_le_bytes;
use vstd::bytes::spec_u64_from_le_bytes;
use vstd::bytes::spec_u64_to_le_bytes;
use vstd::bytes::lemma_auto_spec_u32_to_from_le_bytes;
use vstd::bytes::lemma_auto_spec_u64_to_from_le_bytes;
use vstd::bytes::u32_from_le_bytes;
use vstd::bytes::u32_to_le_bytes;
use vstd::bytes::u64_from_le_bytes;
use vstd::bytes::u64_to_le_bytes;
use vstd::slice::slice_subrange;
use crate::codec::copy_range;
use crate::codec::push_zeros;
use crate::codec::lemma_i64_le_bytes_round_trip;
use crate::codec::spec_i64_from_le_bytes;
use crate::codec::spec_i64_to_le_bytes;
use crate::codec::zero_bytes;
use crate::codec::zero_extend;
use crate::crypto::aes_cipher_of;
use crate::crypto::aes_decrypt;
use crate::crypto::aes_encrypt;
use crate::crypto::aes_plain_of;
use crate::error::PakError;
use crate::file_info::AAPakFileInfo;
use crate::file_info::AAPakFileInfoView;
use crate::file_info::NAME_FIELD_SIZE;
use crate::file_info::entry_views;
use crate::file_info::null_entry_view;
use crate::format_reader::AAPakFileFormatReader;
use crate::format_reader::AAPakFileHeaderElement;
use crate::format_reader::AAPakFileInfoElement;
use crate::format_reader::FILE_INFO_SIZE;
use crate::format_reader::HEADER_CRYPT_SIZE;
use crate::format_reader::AAPakFileFormatReaderView;
use crate::format_reader::classic_hdr_order;
use crate::format_reader::classic_info_order;
use crate::format_reader::classic_magic;
use crate::format_reader::xl_key_bytes;
use crate::pak_type::PakFileType;
use crate::format_reader::hdr_elem_size;
use crate::format_reader::hdr_order_size;
use crate::format_reader::hdr_order_size_from;
use crate::format_reader::info_elem_size;
use crate::format_reader::info_order_size;
use crate::format_reader::info_order_size_from;

verus! {

/// Size in bytes of the trailing header block of a container.
pub const HEADER_SIZE: usize = 0x200;

/// Block size of the cipher that encrypts header and file table.
pub const AES_BLOCK_SIZE: usize = 16;

// ------------------------------------------------------------------
// Entry serialization
// ------------------------------------------------------------------

/// The fixed-width on-disk name field: the name bytes, NUL-padded; a name
/// too long for the field is cut to it.
pub open spec fn name_field_bytes(name: Seq<u8>) -> Seq<u8> {
    if name.len() <= NAME_FIELD_SIZE {
        name + zero_bytes(NAME_FIELD_SIZE - name.len())
    } else {
        name.take(NAME_FIELD_SIZE as int)
    }
}

/// The on-disk bytes of one entry field; every multi-byte integer is
/// little-endian.
pub open spec fn info_field_bytes(e: AAPakFileInfoView, f: AAPakFileInfoElement) -> Seq<u8> {
    match f {
        AAPakFileInfoElement::FileName => name_field_bytes(e.name),
        AAPakFileInfoElement::Offset => spec_u64_to_le_bytes(e.offset),
        AAPakFileInfoElement::Size => spec_u64_to_le_bytes(e.size),
        AAPakFileInfoElement::SizeDuplicate => spec_u64_to_le_bytes(e.size_duplicate),
        AAPakFileInfoElement::PaddingSize => spec_u32_to_le_bytes(e.padding_size),
        AAPakFileInfoElement::Md5 => if e.md5.len() == 16 {
            e.md5
        } else {
            zero_bytes(16)
        },
        AAPakFileInfoElement::Dummy1 => spec_u32_to_le_bytes(e.dummy1),
        AAPakFileInfoElement::CreateTime => spec_i64_to_le_bytes(e.create_time),
        AAPakFileInfoElement::ModifyTime => spec_i64_to_le_bytes(e.modify_time),
        AAPakFileInfoElement::Dummy2 => spec_u64_to_le_bytes(e.dummy2),
    }
}

/// Each field serializes to exactly its declared width.
pub proof fn lemma_info_field_bytes_len(e: AAPakFileInfoView, f: AAPakFileInfoElement)
    ensures
        info_field_bytes(e, f).len() == info_elem_size(f),
{
    lemma_auto_spec_u32_to_from_le_bytes();
    lemma_auto_spec_u64_to_from_le_bytes();
}

/// The plaintext of one entry, fields from position `i` of the order on.
pub open spec fn entry_plain_from(
    e: AAPakFileInfoView,
    order: Seq<AAPakFileInfoElement>,
    i: int,
) -> Seq<u8>
    decreases order.len() - i,
{
    if i < 0 || i >= order.len() {
        Seq::empty()
    } else {
        info_field_bytes(e, order[i]) + entry_plain_from(e, order, i + 1)
    }
}

/// The full plaintext of one entry under a field order.
pub open spec fn entry_plain(e: AAPakFileInfoView, order: Seq<AAPakFileInfoElement>) -> Seq<u8> {
    entry_plain_from(e, order, 0)
}

/// An entry's plaintext is as long as its field order says.
pub proof fn lemma_entry_plain_len(e: AAPakFileInfoView, order: Seq<AAPakFileInfoElement>, i: int)
    requires
        0 <= i <= order.len(),
    ensures
        entry_plain_from(e, order, i).len() == info_order_size_from(order, i),
    decreases order.len() - i,
{
    if i < order.len() {
        lemma_info_field_bytes_len(e, order[i]);
        lemma_entry_plain_len(e, order, i + 1);
    }
}

// ------------------------------------------------------------------
// Entry parsing
// ------------------------------------------------------------------

/// The bytes of `s` before its first NUL.
pub open spec fn take_until_nul(s: Seq<u8>) -> Seq<u8>
    decreases s.len(),
{
    if s.len() == 0 {
        Seq::empty()
    } else if s[0] == 0u8 {
        Seq::empty()
    } else {
        seq![s[0]] + take_until_nul(s.drop_first())
    }
}

/// When the first NUL of `s` sits at position `j` (or `s` has none and
/// `j == s.len()`), the bytes before the first NUL are exactly `s.take(j)`.
pub proof fn lemma_take_until_nul_prefix(s: Seq<u8>, j: int)
    requires
        0 <= j <= s.len(),
        forall|i: int| 0 <= i < j ==> s[i] != 0u8,
        j == s.len() || s[j] == 0u8,
    ensures
        take_until_nul(s) == s.take(j),
    decreases j,
{
    if j == 0 {
        assert(take_until_nul(s) =~= s.take(0));
    } else {
        lemma_take_until_nul_prefix(s.drop_first(), j - 1);
        assert(seq![s[0]] + s.drop_first().take(j - 1) =~= s.take(j));
    }
}

/// The bytes before the first NUL form a NUL-free sequence no longer than
/// the input.
pub proof fn lemma_take_until_nul_wf(s: Seq<u8>)
    ensures
        take_until_nul(s).len() <= s.len(),
        forall|i: int| 0 <= i < take_until_nul(s).len() ==> take_until_nul(s)[i] != 0u8,
    decreases s.len(),
{
    if s.len() > 0 && s[0] != 0u8 {
        lemma_take_until_nul_wf(s.drop_first());
    }
}

/// Parsing preserves a well-formed name: either the name field is read from
/// its fixed window, which yields a NUL-free name that fits it, or the
/// accumulator's name survives.
pub proof fn lemma_parse_entry_name_wf(
    data: Seq<u8>,
    order: Seq<AAPakFileInfoElement>,
    i: int,
    pos: int,
    acc: AAPakFileInfoView,
)
    requires
        acc.name_wf(),
    ensures
        parse_entry_from(data, order, i, pos, acc).name_wf(),
    decreases order.len() - i,
{
    if 0 <= i && i < order.len() {
        let sz = info_elem_size(order[i]);
        if 0 <= pos && pos + sz <= data.len() {
            let w = data.subrange(pos, pos + sz);
            if order[i] == AAPakFileInfoElement::FileName {
                lemma_take_until_nul_wf(w);
            }
            lemma_parse_entry_name_wf(data, order, i + 1, pos + sz, set_field(acc, order[i], w));
        }
    }
}

/// One parsed field written into the accumulating entry image; `w` is the
/// field's byte window.
pub open spec fn set_field(
    acc: AAPakFileInfoView,
    f: AAPakFileInfoElement,
    w: Seq<u8>,
) -> AAPakFileInfoView {
    match f {
        AAPakFileInfoElement::FileName => AAPakFileInfoView { name: take_until_nul(w), ..acc },
        AAPakFileInfoElement::Offset => AAPakFileInfoView {
            offset: spec_u64_from_le_bytes(w),
            ..acc
        },
        AAPakFileInfoElement::Size => AAPakFileInfoView { size: spec_u64_from_le_bytes(w), ..acc },
        AAPakFileInfoElement::SizeDuplicate => AAPakFileInfoView {
            size_duplicate: spec_u64_from_le_bytes(w),
            ..acc
        },
        AAPakFileInfoElement::PaddingSize => AAPakFileInfoView {
            padding_size: spec_u32_from_le_bytes(w),
            ..acc
        },
        AAPakFileInfoElement::Md5 => AAPakFileInfoView { md5: w, ..acc },
        AAPakFileInfoElement::Dummy1 => AAPakFileInfoView {
            dummy1: spec_u32_from_le_bytes(w),
            ..acc
        },
        AAPakFileInfoElement::CreateTime => AAPakFileInfoView {
            create_time: spec_i64_from_le_bytes(w),
            ..acc
        },
        AAPakFileInfoElement::ModifyTime => AAPakFileInfoView {
            modify_time: spec_i64_from_le_bytes(w),
            ..acc
        },
        AAPakFileInfoElement::Dummy2 => AAPakFileInfoView {
            dummy2: spec_u64_from_le_bytes(w),
            ..acc
        },
    }
}

/// Parses the fields from position `i` of the order on, reading windows of
/// `data` from byte `pos`; parsing stops where a field would run past the
/// data.
pub open spec fn parse_entry_from(
    data: Seq<u8>,
    order: Seq<AAPakFileInfoElement>,
    i: int,
    pos: int,
    acc: AAPakFileInfoView,
) -> AAPakFileInfoView
    decreases order.len() - i,
{
    if i < 0 || i >= order.len() {
        acc
    } else {
        let sz = info_elem_size(order[i]);
        if 0 <= pos && pos + sz <= data.len() {
            parse_entry_from(
                data,
                order,
                i + 1,
                pos + sz,
                set_field(acc, order[i], data.subrange(pos, pos + sz)),
            )
        } else {
            acc
        }
    }
}

/// The entry image read from `data` under a field order, starting from the
/// all-zero entry.
pub open spec fn parse_entry(data: Seq<u8>, order: Seq<AAPakFileInfoElement>) -> AAPakFileInfoView {
    parse_entry_from(data, order, 0, 0, null_entry_view())
}

// ------------------------------------------------------------------
// Entry round trip
// ------------------------------------------------------------------

/// The field `f` occurs in the order at or after position `i`.
pub open spec fn order_has_from(
    order: Seq<AAPakFileInfoElement>,
    f: AAPakFileInfoElement,
    i: int,
) -> bool
    decreases order.len() - i,
{
    if i < 0 || i >= order.len() {
        false
    } else {
        order[i] == f || order_has_from(order, f, i + 1)
    }
}

/// The field `f` occurs somewhere in the order.
pub open spec fn order_has(order: Seq<AAPakFileInfoElement>, f: AAPakFileInfoElement) -> bool {
    order_has_from(order, f, 0)
}

/// Every entry field occurs in the order, so parsing a serialized entry
/// recovers every persisted field.
pub open spec fn order_complete(order: Seq<AAPakFileInfoElement>) -> bool {
    &&& order_has(order, AAPakFileInfoElement::FileName)
    &&& order_has(order, AAPakFileInfoElement::Offset)
    &&& order_has(order, AAPakFileInfoElement::Size)
    &&& order_has(order, AAPakFileInfoElement::SizeDuplicate)
    &&& order_has(order, AAPakFileInfoElement::PaddingSize)
    &&& order_has(order, AAPakFileInfoElement::Md5)
    &&& order_has(order, AAPakFileInfoElement::Dummy1)
    &&& order_has(order, AAPakFileInfoElement::CreateTime)
    &&& order_has(order, AAPakFileInfoElement::ModifyTime)
    &&& order_has(order, AAPakFileInfoElement::Dummy2)
}

/// Parsing one serialized field recovers the field's value.
proof fn lemma_set_field_round_trip(
    e: AAPakFileInfoView,
    acc: AAPakFileInfoView,
    f: AAPakFileInfoElement,
)
    requires
        e.name_wf(),
        e.md5.len() == 16,
    ensures
        ({
            let r = set_field(acc, f, info_field_bytes(e, f));
            match f {
                AAPakFileInfoElement::FileName => r == (AAPakFileInfoView { name: e.name, ..acc }),
                AAPakFileInfoElement::Offset => r == (AAPakFileInfoView {
                    offset: e.offset,
                    ..acc
                }),
                AAPakFileInfoElement::Size => r == (AAPakFileInfoView { size: e.size, ..acc }),
                AAPakFileInfoElement::SizeDuplicate => r == (AAPakFileInfoView {
                    size_duplicate: e.size_duplicate,
                    ..acc
                }),
                AAPakFileInfoElement::PaddingSize => r == (AAPakFileInfoView {
                    padding_size: e.padding_size,
                    ..acc
                }),
                AAPakFileInfoElement::Md5 => r == (AAPakFileInfoView { md5: e.md5, ..acc }),
                AAPakFileInfoElement::Dummy1 => r == (AAPakFileInfoView {
                    dummy1: e.dummy1,
                    ..acc
                }),
                AAPakFileInfoElement::CreateTime => r == (AAPakFileInfoView {
                    create_time: e.create_time,
                    ..acc
                }),
                AAPakFileInfoElement::ModifyTime => r == (AAPakFileInfoView {
                    modify_time: e.modify_time,
                    ..acc
                }),
                AAPakFileInfoElement::Dummy2 => r == (AAPakFileInfoView {
                    dummy2: e.dummy2,
                    ..acc
                }),
            }
        }),
{
    lemma_auto_spec_u32_to_from_le_bytes();
    lemma_auto_spec_u64_to_from_le_bytes();
    match f {
        AAPakFileInfoElement::FileName => {
            let w = name_field_bytes(e.name);
            assert(forall|t: int| 0 <= t < e.name.len() ==> w[t] == e.name[t]);
            lemma_take_until_nul_prefix(w, e.name.len() as int);
            assert(w.take(e.name.len() as int) =~= e.name);
        },
        AAPakFileInfoElement::CreateTime => {
            lemma_i64_le_bytes_round_trip(e.create_time);
        },
        AAPakFileInfoElement::ModifyTime => {
            lemma_i64_le_bytes_round_trip(e.modify_time);
        },
        _ => {},
    }
}

/// Parsing the tail of a serialized entry writes the serialized fields over
/// the accumulator and touches nothing else.
proof fn lemma_parse_serialized_from(
    e: AAPakFileInfoView,
    order: Seq<AAPakFileInfoElement>,
    i: int,
    pos: int,
    acc: AAPakFileInfoView,
    data: Seq<u8>,
)
    requires
        e.name_wf(),
        e.md5.len() == 16,
        0 <= i <= order.len(),
        0 <= pos <= data.len(),
        data.subrange(pos, data.len() as int) == entry_plain_from(e, order, i),
    ensures
        ({
            let r = parse_entry_from(data, order, i, pos, acc);
            &&& r.name == if order_has_from(order, AAPakFileInfoElement::FileName, i) {
                e.name
            } else {
                acc.name
            }
            &&& r.offset == if order_has_from(order, AAPakFileInfoElement::Offset, i) {
                e.offset
            } else {
                acc.offset
            }
            &&& r.size == if order_has_from(order, AAPakFileInfoElement::Size, i) {
                e.size
            } else {
                acc.size
            }
            &&& r.size_duplicate == if order_has_from(
                order,
                AAPakFileInfoElement::SizeDuplicate,
                i,
            ) {
                e.size_duplicate
            } else {
                acc.size_duplicate
            }
            &&& r.padding_size == if order_has_from(order, AAPakFileInfoElement::PaddingSize, i) {
                e.padding_size
            } else {
                acc.padding_size
            }
            &&& r.md5 == if order_has_from(order, AAPakFileInfoElement::Md5, i) {
                e.md5
            } else {
                acc.md5
            }
            &&& r.dummy1 == if order_has_from(order, AAPakFileInfoElement::Dummy1, i) {
                e.dummy1
            } else {
                acc.dummy1
            }
            &&& r.dummy2 == if order_has_from(order, AAPakFileInfoElement::Dummy2, i) {
                e.dummy2
            } else {
                acc.dummy2
            }
            &&& r.create_time == if order_has_from(order, AAPakFileInfoElement::CreateTime, i) {
                e.create_time
            } else {
                acc.create_time
            }
            &&& r.modify_time == if order_has_from(order, AAPakFileInfoElement::ModifyTime, i) {
                e.modify_time
            } else {
                acc.modify_time
            }
            &&& r.entry_index_number == acc.entry_index_number
            &&& r.deleted_index_number == acc.deleted_index_number
        }),
    decreases order.len() - i,
{
    if i == order.len() {
    } else {
        let f = order[i];
        let sz = info_elem_size(f);
        lemma_info_field_bytes_len(e, f);
        lemma_entry_plain_len(e, order, i + 1);
        let suffix = data.subrange(pos, data.len() as int);
        assert(suffix.len() == sz + info_order_size_from(order, i + 1));
        assert(pos + sz <= data.len());
        let w = data.subrange(pos, pos + sz);
        assert(w =~= info_field_bytes(e, f));
        lemma_set_field_round_trip(e, acc, f);
        let acc2 = set_field(acc, f, w);
        let rest = entry_plain_from(e, order, i + 1);
        assert(suffix == info_field_bytes(e, f) + rest);
        assert forall|k: int| 0 <= k < data.len() - pos - sz implies data.subrange(
            pos + sz,
            data.len() as int,
        )[k] == rest[k] by {
            assert(data.subrange(pos, data.len() as int)[sz + k] == data[pos + sz + k]);
            assert((info_field_bytes(e, f) + rest)[sz + k] == rest[k]);
        }
        assert(data.subrange(pos + sz, data.len() as int) =~= entry_plain_from(e, order, i + 1));
        lemma_parse_serialized_from(e, order, i + 1, pos + sz, acc2, data);
    }
}

/// Round trip of one entry: parsing its serialized block recovers every
/// persisted field, and leaves the transient index numbers zero.
pub proof fn lemma_entry_round_trip(e: AAPakFileInfoView, order: Seq<AAPakFileInfoElement>)
    requires
        e.name_wf(),
        e.md5.len() == 16,
        order_complete(order),
    ensures
        parse_entry(entry_plain(e, order), order).same_content(e),
        parse_entry(entry_plain(e, order), order).entry_index_number == 0,
        parse_entry(entry_plain(e, order), order).deleted_index_number == 0,
{
    let data = entry_plain(e, order);
    assert(data.subrange(0, data.len() as int) =~= entry_plain_from(e, order, 0));
    lemma_parse_serialized_from(e, order, 0, 0, null_entry_view(), data);
}

/// The classic field order mentions every field.
pub proof fn lemma_classic_order_complete()
    ensures
        order_complete(crate::format_reader::classic_info_order()),
{
    reveal_with_fuel(order_has_from, 12);
}

// ------------------------------------------------------------------
// Header tokens
// ------------------------------------------------------------------

/// The on-disk bytes of one header token; synthesized headers write zero for
/// an `AnyByte` token.
pub open spec fn hdr_field_bytes(
    f: AAPakFileHeaderElement,
    magic: Seq<u8>,
    fc: u32,
    ec: u32,
) -> Seq<u8> {
    match f {
        AAPakFileHeaderElement::AnyByte => seq![0u8],
        AAPakFileHeaderElement::NullByte => seq![0u8],
        AAPakFileHeaderElement::Header => magic,
        AAPakFileHeaderElement::FilesCount => spec_u32_to_le_bytes(fc),
        AAPakFileHeaderElement::ExtraFilesCount => spec_u32_to_le_bytes(ec),
    }
}

/// The token bytes of a header from token `i` on.
pub open spec fn hdr_tokens_plain_from(
    order: Seq<AAPakFileHeaderElement>,
    magic: Seq<u8>,
    fc: u32,
    ec: u32,
    i: int,
) -> Seq<u8>
    decreases order.len() - i,
{
    if i < 0 || i >= order.len() {
        Seq::empty()
    } else {
        hdr_field_bytes(order[i], magic, fc, ec) + hdr_tokens_plain_from(order, magic, fc, ec, i + 1)
    }
}

/// The token bytes are as long as the token list says.
pub proof fn lemma_hdr_tokens_plain_len(
    order: Seq<AAPakFileHeaderElement>,
    magic: Seq<u8>,
    fc: u32,
    ec: u32,
    i: int,
)
    requires
        0 <= i <= order.len(),
    ensures
        hdr_tokens_plain_from(order, magic, fc, ec, i).len() == hdr_order_size_from(
            order,
            magic.len() as int,
            i,
        ),
    decreases order.len() - i,
{
    lemma_auto_spec_u32_to_from_le_bytes();
    if i < order.len() {
        lemma_hdr_tokens_plain_len(order, magic, fc, ec, i + 1);
    }
}

/// The full plaintext of the encrypted header area: the token bytes,
/// zero-padded to the area's size.
pub open spec fn header_plain(
    order: Seq<AAPakFileHeaderElement>,
    magic: Seq<u8>,
    fc: u32,
    ec: u32,
) -> Seq<u8> {
    let t = hdr_tokens_plain_from(order, magic, fc, ec, 0);
    if t.len() <= HEADER_CRYPT_SIZE {
        t + zero_bytes(HEADER_CRYPT_SIZE - t.len())
    } else {
        t.take(HEADER_CRYPT_SIZE as int)
    }
}

/// Walks the tokens over decrypted header bytes: every literal zero byte and
/// every magic byte must match, the two counts are read where their tokens
/// sit, and a token running past the data invalidates the header.
pub open spec fn validate_tokens_from(
    data: Seq<u8>,
    order: Seq<AAPakFileHeaderElement>,
    magic: Seq<u8>,
    i: int,
    pos: int,
    fc: u32,
    ec: u32,
) -> Option<(u32, u32)>
    decreases order.len() - i,
{
    if i < 0 || i >= order.len() {
        Some((fc, ec))
    } else {
        let sz = hdr_elem_size(order[i], magic.len() as int);
        if 0 <= pos && pos + sz <= data.len() {
            match order[i] {
                AAPakFileHeaderElement::AnyByte => validate_tokens_from(
                    data,
                    order,
                    magic,
                    i + 1,
                    pos + 1,
                    fc,
                    ec,
                ),
                AAPakFileHeaderElement::NullByte => if data[pos] == 0u8 {
                    validate_tokens_from(data, order, magic, i + 1, pos + 1, fc, ec)
                } else {
                    None
                },
                AAPakFileHeaderElement::Header => if data.subrange(pos, pos + magic.len())
                    == magic {
                    validate_tokens_from(data, order, magic, i + 1, pos + magic.len(), fc, ec)
                } else {
                    None
                },
                AAPakFileHeaderElement::FilesCount => validate_tokens_from(
                    data,
                    order,
                    magic,
                    i + 1,
                    pos + 4,
                    spec_u32_from_le_bytes(data.subrange(pos, pos + 4)),
                    ec,
                ),
                AAPakFileHeaderElement::ExtraFilesCount => validate_tokens_from(
                    data,
                    order,
                    magic,
                    i + 1,
                    pos + 4,
                    fc,
                    spec_u32_from_le_bytes(data.subrange(pos, pos + 4)),
                ),
            }
        } else {
            None
        }
    }
}

/// Validates decrypted header bytes against a token list; `Some` carries the
/// used and free counts read from the tokens (zero where a count token is
/// absent).
pub open spec fn validate_header_tokens(
    data: Seq<u8>,
    order: Seq<AAPakFileHeaderElement>,
    magic: Seq<u8>,
) -> Option<(u32, u32)> {
    validate_tokens_from(data, order, magic, 0, 0, 0, 0)
}

/// The header token `f` occurs in the order at or after position `i`.
pub open spec fn hdr_order_has_from(
    order: Seq<AAPakFileHeaderElement>,
    f: AAPakFileHeaderElement,
    i: int,
) -> bool
    decreases order.len() - i,
{
    if i < 0 || i >= order.len() {
        false
    } else {
        order[i] == f || hdr_order_has_from(order, f, i + 1)
    }
}

/// Validating the tail of a synthesized header succeeds and reads back the
/// counts its tokens carry.
proof fn lemma_validate_encoded_from(
    order: Seq<AAPakFileHeaderElement>,
    magic: Seq<u8>,
    fc: u32,
    ec: u32,
    i: int,
    pos: int,
    accf: u32,
    acce: u32,
    data: Seq<u8>,
)
    requires
        0 <= i <= order.len(),
        0 <= pos,
        pos + hdr_order_size_from(order, magic.len() as int, i) <= data.len(),
        data.subrange(pos, pos + hdr_order_size_from(order, magic.len() as int, i))
            == hdr_tokens_plain_from(order, magic, fc, ec, i),
    ensures
        validate_tokens_from(data, order, magic, i, pos, accf, acce) == Some(
            (
                if hdr_order_has_from(order, AAPakFileHeaderElement::FilesCount, i) {
                    fc
                } else {
                    accf
                },
                if hdr_order_has_from(order, AAPakFileHeaderElement::ExtraFilesCount, i) {
                    ec
                } else {
                    acce
                },
            ),
        ),
    decreases order.len() - i,
{
    lemma_auto_spec_u32_to_from_le_bytes();
    if i < order.len() {
        let f = order[i];
        let sz = hdr_elem_size(f, magic.len() as int);
        let fb = hdr_field_bytes(f, magic, fc, ec);
        assert(fb.len() == sz);
        lemma_hdr_tokens_plain_len(order, magic, fc, ec, i + 1);
        let total = hdr_order_size_from(order, magic.len() as int, i);
        let rest = hdr_tokens_plain_from(order, magic, fc, ec, i + 1);
        let suffix = data.subrange(pos, pos + total);
        assert(suffix == fb + rest);
        let w = data.subrange(pos, pos + sz);
        assert forall|k: int| 0 <= k < sz implies w[k] == fb[k] by {
            assert(suffix[k] == data[pos + k]);
            assert((fb + rest)[k] == fb[k]);
        }
        assert(w =~= fb);
        assert forall|k: int| 0 <= k < rest.len() implies data.subrange(
            pos + sz,
            pos + total,
        )[k] == rest[k] by {
            assert(suffix[sz + k] == data[pos + sz + k]);
            assert((fb + rest)[sz + k] == rest[k]);
        }
        assert(data.subrange(pos + sz, pos + sz + hdr_order_size_from(
            order,
            magic.len() as int,
            i + 1,
        )) =~= rest);
        match f {
            AAPakFileHeaderElement::AnyByte => {
                lemma_validate_encoded_from(order, magic, fc, ec, i + 1, pos + 1, accf, acce, data);
            },
            AAPakFileHeaderElement::NullByte => {
                assert(w[0] == data[pos]);
                assert(fb[0] == 0u8);
                assert(data[pos] == 0u8);
                lemma_validate_encoded_from(order, magic, fc, ec, i + 1, pos + 1, accf, acce, data);
            },
            AAPakFileHeaderElement::Header => {
                assert(data.subrange(pos, pos + magic.len()) == magic);
                lemma_validate_encoded_from(
                    order,
                    magic,
                    fc,
                    ec,
                    i + 1,
                    pos + magic.len(),
                    accf,
                    acce,
                    data,
                );
            },
            AAPakFileHeaderElement::FilesCount => {
                assert(spec_u32_from_le_bytes(data.subrange(pos, pos + 4)) == fc);
                lemma_validate_encoded_from(order, magic, fc, ec, i + 1, pos + 4, fc, acce, data);
            },
            AAPakFileHeaderElement::ExtraFilesCount => {
                assert(spec_u32_from_le_bytes(data.subrange(pos, pos + 4)) == ec);
                lemma_validate_encoded_from(order, magic, fc, ec, i + 1, pos + 4, accf, ec, data);
            },
        }
    }
}

/// Round trip of a synthesized header: validating it under the same tokens
/// succeeds and reads back the counts (where the token list carries them).
pub proof fn lemma_header_round_trip(
    order: Seq<AAPakFileHeaderElement>,
    magic: Seq<u8>,
    fc: u32,
    ec: u32,
)
    requires
        hdr_order_size(order, magic.len() as int) <= HEADER_CRYPT_SIZE,
    ensures
        validate_header_tokens(header_plain(order, magic, fc, ec), order, magic) == Some(
            (
                if hdr_order_has_from(order, AAPakFileHeaderElement::FilesCount, 0) {
                    fc
                } else {
                    0u32
                },
                if hdr_order_has_from(order, AAPakFileHeaderElement::ExtraFilesCount, 0) {
                    ec
                } else {
                    0u32
                },
            ),
        ),
{
    let t = hdr_tokens_plain_from(order, magic, fc, ec, 0);
    lemma_hdr_tokens_plain_len(order, magic, fc, ec, 0);
    let data = header_plain(order, magic, fc, ec);
    assert(data.subrange(0, t.len() as int) =~= t);
    lemma_validate_encoded_from(order, magic, fc, ec, 0, 0, 0, 0, data);
}

// ------------------------------------------------------------------
// Classic fallback check
// ------------------------------------------------------------------

/// The last-resort header check: the classic magic at the start, the used
/// count at byte 8 and the free count at byte 12 of the decrypted bytes.
pub open spec fn classic_header_check(data: Seq<u8>) -> Option<(u32, u32)> {
    if data.len() >= 16 && data.subrange(0, 4) == classic_magic() {
        Some(
            (
                spec_u32_from_le_bytes(data.subrange(8, 12)),
                spec_u32_from_le_bytes(data.subrange(12, 16)),
            ),
        )
    } else {
        None
    }
}

/// A header synthesized under the classic tokens passes the fallback check
/// and yields its counts back.
pub proof fn lemma_classic_fallback_accepts(fc: u32, ec: u32)
    ensures
        classic_header_check(header_plain(classic_hdr_order(), classic_magic(), fc, ec)) == Some(
            (fc, ec),
        ),
{
    lemma_auto_spec_u32_to_from_le_bytes();
    reveal_with_fuel(hdr_tokens_plain_from, 13);
    lemma_hdr_tokens_plain_len(classic_hdr_order(), classic_magic(), fc, ec, 0);
    crate::format_reader::lemma_classic_hdr_order_size();
    let t = hdr_tokens_plain_from(classic_hdr_order(), classic_magic(), fc, ec, 0);
    assert(t =~= classic_magic() + zero_bytes(4) + spec_u32_to_le_bytes(fc)
        + spec_u32_to_le_bytes(ec) + zero_bytes(4));
    let data = header_plain(classic_hdr_order(), classic_magic(), fc, ec);
    assert(data.subrange(0, 4) =~= classic_magic());
    assert(data.subrange(8, 12) =~= spec_u32_to_le_bytes(fc));
    assert(data.subrange(12, 16) =~= spec_u32_to_le_bytes(ec));
}

// ------------------------------------------------------------------
// Executable header codec
// ------------------------------------------------------------------

/// Appends the on-disk bytes of one header token to `out`.
fn append_hdr_field(out: &mut Vec<u8>, f: AAPakFileHeaderElement, magic: &Vec<u8>, fc: u32, ec: u32)
    ensures
        final(out)@ == old(out)@ + hdr_field_bytes(f, magic@, fc, ec),
{
    match f {
        AAPakFileHeaderElement::AnyByte => {
            out.push(0);
            proof {
                assert(out@ =~= old(out)@ + seq![0u8]);
            }
        },
        AAPakFileHeaderElement::NullByte => {
            out.push(0);
            proof {
                assert(out@ =~= old(out)@ + seq![0u8]);
            }
        },
        AAPakFileHeaderElement::Header => {
            out.extend_from_slice(magic.as_slice());
            proof {
                assert(out@ =~= old(out)@ + magic@);
            }
        },
        AAPakFileHeaderElement::FilesCount => {
            let mut b = u32_to_le_bytes(fc);
            out.append(&mut b);
        },
        AAPakFileHeaderElement::ExtraFilesCount => {
            let mut b = u32_to_le_bytes(ec);
            out.append(&mut b);
        },
    }
}

/// Builds the plaintext of the encrypted header area under a token list;
/// refused when the tokens do not fit the area.
pub fn encode_header_plain(
    order: &Vec<AAPakFileHeaderElement>,
    magic: &Vec<u8>,
    fc: u32,
    ec: u32,
) -> (r: Result<Vec<u8>, PakError>)
    ensures
        match r {
            Ok(v) => hdr_order_size(order@, magic@.len() as int) <= HEADER_CRYPT_SIZE && v@
                == header_plain(order@, magic@, fc, ec),
            Err(e) => e == PakError::BadLayout && hdr_order_size(order@, magic@.len() as int)
                > HEADER_CRYPT_SIZE,
        },
{
    let mut out: Vec<u8> = Vec::new();
    let n: usize = order.len();
    let mut i: usize = 0;
    while i < n
        invariant
            n == order@.len(),
            i <= n,
            out@ + hdr_tokens_plain_from(order@, magic@, fc, ec, i as int) == hdr_tokens_plain_from(
                order@,
                magic@,
                fc,
                ec,
                0,
            ),
        decreases n - i,
    {
        append_hdr_field(&mut out, order[i], magic, fc, ec);
        proof {
            assert(out@ + hdr_tokens_plain_from(order@, magic@, fc, ec, i + 1)
                =~= hdr_tokens_plain_from(order@, magic@, fc, ec, 0));
        }
        i += 1;
    }
    proof {
        assert(out@ =~= hdr_tokens_plain_from(order@, magic@, fc, ec, 0));
        lemma_hdr_tokens_plain_len(order@, magic@, fc, ec, 0);
    }
    if out.len() > HEADER_CRYPT_SIZE {
        return Err(PakError::BadLayout);
    }
    zero_extend(&mut out, HEADER_CRYPT_SIZE);
    Ok(out)
}

/// Compares the window of `data` at `pos` with `magic`.
fn bytes_match_at(data: &Vec<u8>, pos: usize, magic: &Vec<u8>) -> (b: bool)
    requires
        pos + magic@.len() <= data@.len(),
    ensures
        b == (data@.subrange(pos as int, pos + magic@.len()) == magic@),
{
    let m: usize = magic.len();
    let dl: usize = data.len();
    let mut j: usize = 0;
    while j < m
        invariant
            m == magic@.len(),
            dl == data@.len(),
            pos + m <= dl,
            j <= m,
            forall|t: int| 0 <= t < j ==> data@[pos + t] == magic@[t],
        decreases m - j,
    {
        if data[pos + j] != magic[j] {
            proof {
                assert(data@.subrange(pos as int, pos + magic@.len())[j as int]
                    != magic@[j as int]);
            }
            return false;
        }
        j += 1;
    }
    proof {
        assert(data@.subrange(pos as int, pos + magic@.len()) =~= magic@);
    }
    true
}

/// Decrypts the first header-area bytes of a raw trailing block with the
/// given key and walks the reader's tokens over them; `Some` carries the used
/// and free counts the tokens yielded.
pub fn validate_header_with_reader(
    reader: &AAPakFileFormatReader,
    raw: &[u8],
    encryption_key: &[u8; 16],
) -> (r: Option<(u32, u32)>)
    requires
        raw@.len() == HEADER_CRYPT_SIZE,
    ensures
        r == validate_header_tokens(
            aes_plain_of(encryption_key@, raw@),
            reader@.read_order,
            reader@.header_bytes,
        ),
{
    let data = aes_decrypt(raw, encryption_key);
    let ghost plain = aes_plain_of(encryption_key@, raw@);
    let data_len: usize = data.len();
    let magic_len: usize = reader.header_bytes.len();
    let n: usize = reader.read_order.len();
    let mut i: usize = 0;
    let mut pos: usize = 0;
    let mut fc: u32 = 0;
    let mut ec: u32 = 0;
    while i < n
        invariant
            n == reader@.read_order.len(),
            i <= n,
            plain == aes_plain_of(encryption_key@, raw@),
            data@ == plain,
            data_len == data@.len(),
            magic_len == reader@.header_bytes.len(),
            pos <= data_len,
            validate_tokens_from(plain, reader@.read_order, reader@.header_bytes, 0, 0, 0, 0)
                == validate_tokens_from(
                plain,
                reader@.read_order,
                reader@.header_bytes,
                i as int,
                pos as int,
                fc,
                ec,
            ),
        decreases n - i,
    {
        let f = reader.read_order[i];
        let sz: usize = match f {
            AAPakFileHeaderElement::AnyByte => 1,
            AAPakFileHeaderElement::NullByte => 1,
            AAPakFileHeaderElement::Header => magic_len,
            AAPakFileHeaderElement::FilesCount => 4,
            AAPakFileHeaderElement::ExtraFilesCount => 4,
        };
        assert(sz == hdr_elem_size(f, magic_len as int));
        let ghost order = reader@.read_order;
        let ghost magic = reader@.header_bytes;
        if sz > data_len - pos {
            proof {
                assert(validate_tokens_from(plain, order, magic, i as int, pos as int, fc, ec)
                    is None);
            }
            return None;
        }
        match f {
            AAPakFileHeaderElement::AnyByte => {},
            AAPakFileHeaderElement::NullByte => {
                if data[pos] != 0 {
                    proof {
                        assert(validate_tokens_from(
                            plain,
                            order,
                            magic,
                            i as int,
                            pos as int,
                            fc,
                            ec,
                        ) is None);
                    }
                    return None;
                }
            },
            AAPakFileHeaderElement::Header => {
                if !bytes_match_at(&data, pos, &reader.header_bytes) {
                    proof {
                        assert(validate_tokens_from(
                            plain,
                            order,
                            magic,
                            i as int,
                            pos as int,
                            fc,
                            ec,
                        ) is None);
                    }
                    return None;
                }
            },
            AAPakFileHeaderElement::FilesCount => {
                fc = u32_from_le_bytes(slice_subrange(data.as_slice(), pos, pos + 4));
            },
            AAPakFileHeaderElement::ExtraFilesCount => {
                ec = u32_from_le_bytes(slice_subrange(data.as_slice(), pos, pos + 4));
            },
        }
        pos = pos + sz;
        i += 1;
    }
    Some((fc, ec))
}

// ------------------------------------------------------------------
// Executable entry codec
// ------------------------------------------------------------------

/// Appends the on-disk bytes of one field of `e` to `out`.
fn append_info_field(out: &mut Vec<u8>, e: &AAPakFileInfo, f: AAPakFileInfoElement)
    ensures
        final(out)@ == old(out)@ + info_field_bytes(e@, f),
{
    match f {
        AAPakFileInfoElement::FileName => {
            let limit: usize = if e.name.len() > NAME_FIELD_SIZE {
                NAME_FIELD_SIZE
            } else {
                e.name.len()
            };
            let mut j: usize = 0;
            while j < limit
                invariant
                    limit <= e.name@.len(),
                    j <= limit,
                    out@ == old(out)@ + e.name@.take(j as int),
                decreases limit - j,
            {
                out.push(e.name[j]);
                proof {
                    assert(out@ =~= old(out)@ + e.name@.take(j + 1));
                }
                j += 1;
            }
            let mut k: usize = limit;
            while k < NAME_FIELD_SIZE
                invariant
                    limit <= k <= NAME_FIELD_SIZE,
                    limit <= e.name@.len(),
                    out@ == old(out)@ + e.name@.take(limit as int) + zero_bytes(k - limit),
                decreases NAME_FIELD_SIZE - k,
            {
                out.push(0);
                proof {
                    assert(out@ =~= old(out)@ + e.name@.take(limit as int) + zero_bytes(
                        k + 1 - limit,
                    ));
                }
                k += 1;
            }
            proof {
                if e.name@.len() <= NAME_FIELD_SIZE {
                    assert(e.name@.take(limit as int) =~= e.name@);
                }
                assert(out@ =~= old(out)@ + name_field_bytes(e.name@));
            }
        },
        AAPakFileInfoElement::Offset => {
            let mut b = u64_to_le_bytes(e.offset);
            out.append(&mut b);
        },
        AAPakFileInfoElement::Size => {
            let mut b = u64_to_le_bytes(e.size);
            out.append(&mut b);
        },
        AAPakFileInfoElement::SizeDuplicate => {
            let mut b = u64_to_le_bytes(e.size_duplicate);
            out.append(&mut b);
        },
        AAPakFileInfoElement::PaddingSize => {
            let mut b = u32_to_le_bytes(e.padding_size);
            out.append(&mut b);
        },
        AAPakFileInfoElement::Md5 => {
            out.extend_from_slice(e.md5.as_slice());
            proof {
                assert(out@ =~= old(out)@ + info_field_bytes(e@, f));
            }
        },
        AAPakFileInfoElement::Dummy1 => {
            let mut b = u32_to_le_bytes(e.dummy1);
            out.append(&mut b);
        },
        AAPakFileInfoElement::CreateTime => {
            let mut b = u64_to_le_bytes(#[verifier::truncate] (e.create_time as u64));
            out.append(&mut b);
        },
        AAPakFileInfoElement::ModifyTime => {
            let mut b = u64_to_le_bytes(#[verifier::truncate] (e.modify_time as u64));
            out.append(&mut b);
        },
        AAPakFileInfoElement::Dummy2 => {
            let mut b = u64_to_le_bytes(e.dummy2);
            out.append(&mut b);
        },
    }
}

/// Serializes one entry to its plaintext block under a field order.
pub fn serialize_entry(e: &AAPakFileInfo, order: &Vec<AAPakFileInfoElement>) -> (r: Vec<u8>)
    ensures
        r@ == entry_plain(e@, order@),
{
    let mut out: Vec<u8> = Vec::new();
    let n: usize = order.len();
    let mut i: usize = 0;
    while i < n
        invariant
            n == order@.len(),
            i <= n,
            out@ + entry_plain_from(e@, order@, i as int) == entry_plain(e@, order@),
        decreases n - i,
    {
        append_info_field(&mut out, e, order[i]);
        proof {
            assert(out@ + entry_plain_from(e@, order@, i + 1) =~= entry_plain(e@, order@));
        }
        i += 1;
    }
    proof {
        assert(out@ =~= entry_plain(e@, order@));
    }
    out
}

/// Reads the name field: the bytes of the window before its first NUL.
fn read_name_field(data: &[u8], pos: usize) -> (r: Vec<u8>)
    requires
        pos + NAME_FIELD_SIZE <= data@.len(),
    ensures
        r@ == take_until_nul(data@.subrange(pos as int, pos + NAME_FIELD_SIZE)),
{
    let ghost w = data@.subrange(pos as int, pos + NAME_FIELD_SIZE);
    let dl: usize = data.len();
    let mut name: Vec<u8> = Vec::new();
    let mut j: usize = 0;
    while j < NAME_FIELD_SIZE
        invariant
            dl == data@.len(),
            pos + NAME_FIELD_SIZE <= dl,
            w == data@.subrange(pos as int, pos + NAME_FIELD_SIZE),
            j <= NAME_FIELD_SIZE,
            name@ == w.take(j as int),
            forall|t: int| 0 <= t < j ==> w[t] != 0u8,
        decreases NAME_FIELD_SIZE - j,
    {
        let b: u8 = data[pos + j];
        assert(b == w[j as int]);
        if b == 0 {
            proof {
                lemma_take_until_nul_prefix(w, j as int);
            }
            return name;
        }
        name.push(b);
        proof {
            assert(name@ =~= w.take(j + 1));
        }
        j += 1;
    }
    proof {
        lemma_take_until_nul_prefix(w, NAME_FIELD_SIZE as int);
        assert(name@ =~= w);
        assert(w.take(NAME_FIELD_SIZE as int) =~= w);
    }
    name
}

/// The width in bytes of one entry field.
pub fn info_elem_width(f: AAPakFileInfoElement) -> (n: usize)
    ensures
        n == info_elem_size(f),
{
    match f {
        AAPakFileInfoElement::FileName => NAME_FIELD_SIZE,
        AAPakFileInfoElement::Offset => 8,
        AAPakFileInfoElement::Size => 8,
        AAPakFileInfoElement::SizeDuplicate => 8,
        AAPakFileInfoElement::PaddingSize => 4,
        AAPakFileInfoElement::Md5 => 16,
        AAPakFileInfoElement::Dummy1 => 4,
        AAPakFileInfoElement::CreateTime => 8,
        AAPakFileInfoElement::ModifyTime => 8,
        AAPakFileInfoElement::Dummy2 => 8,
    }
}

/// Parses one entry from `data` under a field order, stopping where a field
/// would run past the data.
pub fn decode_entry(data: &[u8], order: &Vec<AAPakFileInfoElement>) -> (r: AAPakFileInfo)
    ensures
        r@ == parse_entry(data@, order@),
{
    let mut acc = AAPakFileInfo::default();
    let n: usize = order.len();
    let data_len: usize = data.len();
    let mut i: usize = 0;
    let mut pos: usize = 0;
    while i < n
        invariant
            n == order@.len(),
            i <= n,
            data_len == data@.len(),
            pos <= data_len,
            parse_entry_from(data@, order@, i as int, pos as int, acc@) == parse_entry(
                data@,
                order@,
            ),
        decreases n - i,
    {
        let f = order[i];
        let sz: usize = info_elem_width(f);
        if sz > data_len - pos {
            return acc;
        }
        let ghost w = data@.subrange(pos as int, pos + sz);
        let ghost acc0 = acc@;
        match f {
            AAPakFileInfoElement::FileName => {
                let name = read_name_field(data, pos);
                acc.name = name;
            },
            AAPakFileInfoElement::Offset => {
                acc.offset = u64_from_le_bytes(slice_subrange(data, pos, pos + 8));
            },
            AAPakFileInfoElement::Size => {
                acc.size = u64_from_le_bytes(slice_subrange(data, pos, pos + 8));
            },
            AAPakFileInfoElement::SizeDuplicate => {
                acc.size_duplicate = u64_from_le_bytes(slice_subrange(data, pos, pos + 8));
            },
            AAPakFileInfoElement::PaddingSize => {
                acc.padding_size = u32_from_le_bytes(slice_subrange(data, pos, pos + 4));
            },
            AAPakFileInfoElement::Md5 => {
                let mut m: [u8; 16] = [0u8; 16];
                let mut t: usize = 0;
                while t < 16
                    invariant
                        t <= 16,
                        data_len == data@.len(),
                        pos + 16 <= data_len,
                        forall|u: int| 0 <= u < t ==> m@[u] == data@[pos + u],
                    decreases 16 - t,
                {
                    m[t] = data[pos + t];
                    t += 1;
                }
                proof {
                    broadcast use vstd::array::group_array_axioms;

                    assert(m@ =~= w);
                }
                acc.md5 = m;
            },
            AAPakFileInfoElement::Dummy1 => {
                acc.dummy1 = u32_from_le_bytes(slice_subrange(data, pos, pos + 4));
            },
            AAPakFileInfoElement::CreateTime => {
                let v = u64_from_le_bytes(slice_subrange(data, pos, pos + 8));
                acc.create_time = #[verifier::truncate] (v as i64);
            },
            AAPakFileInfoElement::ModifyTime => {
                let v = u64_from_le_bytes(slice_subrange(data, pos, pos + 8));
                acc.modify_time = #[verifier::truncate] (v as i64);
            },
            AAPakFileInfoElement::Dummy2 => {
                acc.dummy2 = u64_from_le_bytes(slice_subrange(data, pos, pos + 8));
            },
        }
        proof {
            assert(acc@ == set_field(acc0, f, w));
            assert(parse_entry_from(data@, order@, i as int, pos as int, acc0)
                == parse_entry_from(data@, order@, i + 1, pos + sz, acc@));
        }
        pos = pos + sz;
        i += 1;
    }
    acc
}

// ------------------------------------------------------------------
// File table image
// ------------------------------------------------------------------

/// The encrypted blocks of the entries from position `i` on, concatenated;
/// each entry is encrypted on its own.
pub open spec fn fat_entries_cipher_from(
    es: Seq<AAPakFileInfoView>,
    order: Seq<AAPakFileInfoElement>,
    key: Seq<u8>,
    i: int,
) -> Seq<u8>
    decreases es.len() - i,
{
    if i < 0 || i >= es.len() {
        Seq::empty()
    } else {
        aes_cipher_of(key, entry_plain(es[i], order)) + fat_entries_cipher_from(es, order, key, i + 1)
    }
}

/// Ciphers of a shifted tail: blocks of `a + b` from `a.len() + j` on are the
/// blocks of `b` from `j` on.
proof fn lemma_fat_cipher_shift(
    a: Seq<AAPakFileInfoView>,
    b: Seq<AAPakFileInfoView>,
    order: Seq<AAPakFileInfoElement>,
    key: Seq<u8>,
    j: int,
)
    requires
        0 <= j <= b.len(),
    ensures
        fat_entries_cipher_from(a + b, order, key, a.len() + j) == fat_entries_cipher_from(
            b,
            order,
            key,
            j,
        ),
    decreases b.len() - j,
{
    if j < b.len() {
        assert((a + b)[a.len() + j] == b[j]);
        lemma_fat_cipher_shift(a, b, order, key, j + 1);
    }
}

/// The cipher blocks of a concatenation split at the boundary.
pub proof fn lemma_fat_cipher_concat(
    a: Seq<AAPakFileInfoView>,
    b: Seq<AAPakFileInfoView>,
    order: Seq<AAPakFileInfoElement>,
    key: Seq<u8>,
)
    ensures
        fat_entries_cipher_from(a + b, order, key, 0) == fat_entries_cipher_from(a, order, key, 0)
            + fat_entries_cipher_from(b, order, key, 0),
{
    lemma_fat_cipher_concat_from(a, b, order, key, 0);
}

proof fn lemma_fat_cipher_concat_from(
    a: Seq<AAPakFileInfoView>,
    b: Seq<AAPakFileInfoView>,
    order: Seq<AAPakFileInfoElement>,
    key: Seq<u8>,
    i: int,
)
    requires
        0 <= i <= a.len(),
    ensures
        fat_entries_cipher_from(a + b, order, key, i) == fat_entries_cipher_from(a, order, key, i)
            + fat_entries_cipher_from(b, order, key, 0),
    decreases a.len() - i,
{
    if i == a.len() {
        lemma_fat_cipher_shift(a, b, order, key, 0);
        assert(fat_entries_cipher_from(a, order, key, i) + fat_entries_cipher_from(b, order, key, 0)
            =~= fat_entries_cipher_from(b, order, key, 0));
    } else {
        assert((a + b)[i] == a[i]);
        lemma_fat_cipher_concat_from(a, b, order, key, i + 1);
        assert(fat_entries_cipher_from(a + b, order, key, i) =~= fat_entries_cipher_from(
            a,
            order,
            key,
            i,
        ) + fat_entries_cipher_from(b, order, key, 0));
    }
}

/// The entries in file-table order: free slots first when the reader inverts
/// the counters, used entries first otherwise.
pub open spec fn ordered_entry_views(
    used: Seq<AAPakFileInfoView>,
    free: Seq<AAPakFileInfoView>,
    invert: bool,
) -> Seq<AAPakFileInfoView> {
    if invert {
        free + used
    } else {
        used + free
    }
}

/// The view of an optional reader.
pub open spec fn opt_reader_view(r: Option<AAPakFileFormatReader>) -> Option<
    AAPakFileFormatReaderView,
> {
    match r {
        Some(x) => Some(x@),
        None => None,
    }
}

/// The layout the classic format declares, as a reader image.
pub open spec fn classic_layout_view() -> AAPakFileFormatReaderView {
    AAPakFileFormatReaderView {
        reader_name: Seq::<char>::empty(),
        is_default: true,
        header_encryption_key: xl_key_bytes(),
        header_bytes: classic_magic(),
        read_order: classic_hdr_order(),
        invert_file_counter: false,
        file_info_read_order: classic_info_order(),
        default_dummy1: 0,
        default_dummy2: 0,
    }
}

/// The layout that persisting a container of this style uses: the assigned
/// reader's for reader-style paks, the classic one for classic paks, none for
/// the CSV backend.
pub open spec fn write_layout(
    reader: Option<AAPakFileFormatReaderView>,
    pak_type: PakFileType,
) -> Option<AAPakFileFormatReaderView> {
    match pak_type {
        PakFileType::Reader => reader,
        PakFileType::Classic => Some(classic_layout_view()),
        PakFileType::Csv => None,
    }
}

/// The byte image of the whole re-encoded file table: the encrypted entry
/// blocks in table order, then the trailing header block (its encrypted area
/// first, zero bytes for the rest).
pub open spec fn fat_image(
    used: Seq<AAPakFileInfoView>,
    free: Seq<AAPakFileInfoView>,
    lay: AAPakFileFormatReaderView,
    key: Seq<u8>,
) -> Seq<u8> {
    fat_entries_cipher_from(
        ordered_entry_views(used, free, lay.invert_file_counter),
        lay.file_info_read_order,
        key,
        0,
    ) + aes_cipher_of(
        key,
        header_plain(lay.read_order, lay.header_bytes, used.len() as u32, free.len() as u32),
    ) + zero_bytes(HEADER_SIZE - HEADER_CRYPT_SIZE)
}

// ------------------------------------------------------------------
// Decoded file table
// ------------------------------------------------------------------

/// The entry image parsed from block `k` of a raw file-table blob.
pub open spec fn decoded_block(
    fat: Seq<u8>,
    key: Seq<u8>,
    order: Seq<AAPakFileInfoElement>,
    k: int,
) -> AAPakFileInfoView {
    parse_entry(
        aes_plain_of(key, fat.subrange(k * (FILE_INFO_SIZE as int), (k + 1) * (FILE_INFO_SIZE as int))),
        order,
    )
}

/// The `i`-th used entry of a decoded table, carrying its position in the
/// used partition.
pub open spec fn decoded_used_entry(
    fat: Seq<u8>,
    key: Seq<u8>,
    order: Seq<AAPakFileInfoElement>,
    fc: int,
    ec: int,
    invert: bool,
    i: int,
) -> AAPakFileInfoView {
    let k = if invert {
        ec + i
    } else {
        i
    };
    AAPakFileInfoView { entry_index_number: i as u32, ..decoded_block(fat, key, order, k) }
}

/// The `j`-th free-slot entry of a decoded table, carrying its position in
/// the free partition.
pub open spec fn decoded_free_entry(
    fat: Seq<u8>,
    key: Seq<u8>,
    order: Seq<AAPakFileInfoElement>,
    fc: int,
    ec: int,
    invert: bool,
    j: int,
) -> AAPakFileInfoView {
    let k = if invert {
        j
    } else {
        fc + j
    };
    AAPakFileInfoView { deleted_index_number: j as u32, ..decoded_block(fat, key, order, k) }
}

/// A decoded block always carries a well-formed name.
pub proof fn lemma_decoded_block_wf(
    fat: Seq<u8>,
    key: Seq<u8>,
    order: Seq<AAPakFileInfoElement>,
    k: int,
)
    ensures
        decoded_block(fat, key, order, k).name_wf(),
{
    assert(null_entry_view().name_wf());
    lemma_parse_entry_name_wf(
        aes_plain_of(
            key,
            fat.subrange(k * (FILE_INFO_SIZE as int), (k + 1) * (FILE_INFO_SIZE as int)),
        ),
        order,
        0,
        0,
        null_entry_view(),
    );
}

/// Every decoded entry's range ends at or before `limit`.
pub open spec fn table_in_bounds(
    fat: Seq<u8>,
    key: Seq<u8>,
    order: Seq<AAPakFileInfoElement>,
    total: int,
    limit: int,
) -> bool {
    forall|k: int| 0 <= k < total ==> decoded_block(fat, key, order, k).end_offset() <= limit
}

/// The latest create or modify time over the decoded blocks from `k` on,
/// starting from `acc`.
pub open spec fn fold_newest(
    fat: Seq<u8>,
    key: Seq<u8>,
    order: Seq<AAPakFileInfoElement>,
    total: int,
    k: int,
    acc: i64,
) -> i64
    decreases total - k,
{
    if k < 0 || k >= total {
        acc
    } else {
        let v = decoded_block(fat, key, order, k);
        let a1 = if v.create_time > acc {
            v.create_time
        } else {
            acc
        };
        let a2 = if v.modify_time > a1 {
            v.modify_time
        } else {
            a1
        };
        fold_newest(fat, key, order, total, k + 1, a2)
    }
}

/// The greatest range end over the decoded blocks from `k` on, starting from
/// `acc`.
pub open spec fn fold_max_end(
    fat: Seq<u8>,
    key: Seq<u8>,
    order: Seq<AAPakFileInfoElement>,
    total: int,
    k: int,
    acc: int,
) -> int
    decreases total - k,
{
    if k < 0 || k >= total {
        acc
    } else {
        let e = decoded_block(fat, key, order, k).end_offset();
        fold_max_end(fat, key, order, total, k + 1, if e > acc {
            e
        } else {
            acc
        })
    }
}

/// Round trip of the whole file table: when every entry block of a raw
/// table decrypts to the serialization of the corresponding entry — which is
/// exactly what re-encoding the table produces — decoding yields, for every
/// used and every free entry, byte-identical persisted field values, with
/// fresh sequential index numbers inside each partition.
pub proof fn lemma_fat_round_trip(
    fat: Seq<u8>,
    key: Seq<u8>,
    order: Seq<AAPakFileInfoElement>,
    used: Seq<AAPakFileInfoView>,
    free: Seq<AAPakFileInfoView>,
    invert: bool,
)
    requires
        order_complete(order),
        used.len() <= u32::MAX,
        free.len() <= u32::MAX,
        forall|i: int| 0 <= i < used.len() ==> (#[trigger] used[i]).name_wf() && used[i].md5.len()
            == 16,
        forall|j: int| 0 <= j < free.len() ==> (#[trigger] free[j]).name_wf() && free[j].md5.len()
            == 16,
        forall|k: int|
            0 <= k < used.len() + free.len() ==> aes_plain_of(
                key,
                fat.subrange(k * (FILE_INFO_SIZE as int), (k + 1) * (FILE_INFO_SIZE as int)),
            ) == entry_plain(ordered_entry_views(used, free, invert)[k], order),
    ensures
        forall|i: int|
            0 <= i < used.len() ==> {
                let d = #[trigger] decoded_used_entry(
                    fat,
                    key,
                    order,
                    used.len() as int,
                    free.len() as int,
                    invert,
                    i,
                );
                d.same_content(used[i]) && d.entry_index_number == i && d.deleted_index_number
                    == 0
            },
        forall|j: int|
            0 <= j < free.len() ==> {
                let d = #[trigger] decoded_free_entry(
                    fat,
                    key,
                    order,
                    used.len() as int,
                    free.len() as int,
                    invert,
                    j,
                );
                d.same_content(free[j]) && d.deleted_index_number == j && d.entry_index_number
                    == 0
            },
{
    let fc = used.len() as int;
    let ec = free.len() as int;
    let ordered = ordered_entry_views(used, free, invert);
    assert forall|i: int| 0 <= i < fc implies {
        let d = #[trigger] decoded_used_entry(fat, key, order, fc, ec, invert, i);
        d.same_content(used[i]) && d.entry_index_number == i && d.deleted_index_number == 0
    } by {
        let k = if invert {
            ec + i
        } else {
            i
        };
        assert(ordered[k] == used[i]);
        lemma_entry_round_trip(used[i], order);
    }
    assert forall|j: int| 0 <= j < ec implies {
        let d = #[trigger] decoded_free_entry(fat, key, order, fc, ec, invert, j);
        d.same_content(free[j]) && d.deleted_index_number == j && d.entry_index_number == 0
    } by {
        let k = if invert {
            j
        } else {
            fc + j
        };
        assert(ordered[k] == free[j]);
        lemma_entry_round_trip(free[j], order);
    }
}

/// Where the raw file table starts inside a container of length `len`
/// holding `fc` used and `ec` free entries: the byte before the trailing
/// header block and the entry blocks, aligned down to the cipher block size.
pub open spec fn fat_region_start(len: int, fc: int, ec: int) -> int {
    let raw = len - (HEADER_SIZE as int) - (fc + ec) * (FILE_INFO_SIZE as int);
    raw - (raw % 16)
}

/// Checks that an entry field order fills one table block exactly.
fn info_order_fills_block(order: &Vec<AAPakFileInfoElement>) -> (b: bool)
    ensures
        b == (info_order_size(order@) == FILE_INFO_SIZE),
{
    let n: usize = order.len();
    let mut i: usize = 0;
    let mut acc: usize = 0;
    while i < n
        invariant
            n == order@.len(),
            i <= n,
            acc <= FILE_INFO_SIZE,
            info_order_size(order@) == acc + info_order_size_from(order@, i as int),
        decreases n - i,
    {
        let sz = info_elem_width(order[i]);
        if acc + sz > FILE_INFO_SIZE {
            proof {
                crate::format_reader::lemma_info_order_size_nonneg(order@, i + 1);
            }
            return false;
        }
        acc = acc + sz;
        i += 1;
    }
    acc == FILE_INFO_SIZE
}

/// Serializes and encrypts each entry of `list` and appends the blocks to
/// `fat`.
fn append_entry_ciphers(
    fat: &mut Vec<u8>,
    list: &Vec<AAPakFileInfo>,
    order: &Vec<AAPakFileInfoElement>,
    key: &[u8; 16],
)
    requires
        info_order_size(order@) == FILE_INFO_SIZE,
    ensures
        final(fat)@ == old(fat)@ + fat_entries_cipher_from(entry_views(list@), order@, key@, 0),
        final(fat)@.len() == old(fat)@.len() + list@.len() * FILE_INFO_SIZE,
        forall|k: int|
            0 <= k < list@.len() ==> aes_plain_of(
                key@,
                final(fat)@.subrange(
                    old(fat)@.len() + k * FILE_INFO_SIZE,
                    old(fat)@.len() + (k + 1) * FILE_INFO_SIZE,
                ),
            ) == entry_plain(list@[k]@, order@),
{
    let ghost base = fat@.len() as int;
    let n: usize = list.len();
    let mut i: usize = 0;
    while i < n
        invariant
            n == list@.len(),
            i <= n,
            info_order_size(order@) == FILE_INFO_SIZE,
            base == old(fat)@.len(),
            fat@.len() == base + i * FILE_INFO_SIZE,
            fat@ + fat_entries_cipher_from(entry_views(list@), order@, key@, i as int) == old(
                fat,
            )@ + fat_entries_cipher_from(entry_views(list@), order@, key@, 0),
            forall|kk: int|
                0 <= kk < i ==> aes_plain_of(
                    key@,
                    fat@.subrange(base + kk * FILE_INFO_SIZE, base + (kk + 1) * FILE_INFO_SIZE),
                ) == entry_plain(list@[kk]@, order@),
        decreases n - i,
    {
        let ghost prev = fat@;
        let block = serialize_entry(&list[i], order);
        proof {
            lemma_entry_plain_len(list@[i as int]@, order@, 0);
        }
        let mut enc = aes_encrypt(block.as_slice(), key);
        let ghost encv = enc@;
        fat.append(&mut enc);
        proof {
            assert(entry_views(list@)[i as int] == list@[i as int]@);
            assert(fat@ + fat_entries_cipher_from(entry_views(list@), order@, key@, i + 1)
                =~= old(fat)@ + fat_entries_cipher_from(entry_views(list@), order@, key@, 0));
            assert forall|kk: int| 0 <= kk < i implies aes_plain_of(
                key@,
                fat@.subrange(base + kk * FILE_INFO_SIZE, base + (kk + 1) * FILE_INFO_SIZE),
            ) == entry_plain(list@[kk]@, order@) by {
                assert(fat@.subrange(base + kk * FILE_INFO_SIZE, base + (kk + 1) * FILE_INFO_SIZE)
                    =~= prev.subrange(
                    base + kk * FILE_INFO_SIZE,
                    base + (kk + 1) * FILE_INFO_SIZE,
                ));
            }
            assert(fat@.subrange(base + (i as int) * FILE_INFO_SIZE, base + (i as int + 1)
                * FILE_INFO_SIZE) =~= fat@.subrange(prev.len() as int, fat@.len() as int));
            assert(fat@.subrange(prev.len() as int, fat@.len() as int) =~= encv);
        }
        i += 1;
    }
    proof {
        assert(fat@ =~= old(fat)@ + fat_entries_cipher_from(entry_views(list@), order@, key@, 0));
    }
}

// ------------------------------------------------------------------
// The header codec state
// ------------------------------------------------------------------

/// The codec state of one container: current key, the counts and offsets
/// read from or written into the header, and the raw encrypted file table.
pub struct AAPakFileHeader {
    /// Current key for the header and file-table blocks.
    pub key: [u8; 16],
    /// Count of used entries, as the header states it.
    pub file_count: u32,
    /// Count of free-slot entries, as the header states it.
    pub extra_file_count: u32,
    /// Offset in the container where the entry metadata begins.
    pub first_file_info_offset: usize,
    /// One past the highest byte any decoded entry claims: where newly
    /// appended content would start.
    pub add_file_offset: u64,
    /// Whether the last decoded header was recognized.
    pub is_valid: bool,
    /// The raw encrypted file table: entry blocks followed by the trailing
    /// header block.
    pub fat: Vec<u8>,
    /// Size in bytes of the trailing header block.
    pub size: usize,
}

impl AAPakFileHeader {
    /// A fresh codec state with the classic key and an empty table.
    pub fn new() -> (r: AAPakFileHeader)
        ensures
            r.key@ == xl_key_bytes(),
            r.file_count == 0,
            r.extra_file_count == 0,
            r.first_file_info_offset == 0,
            r.add_file_offset == 0,
            r.is_valid == false,
            r.fat@ == Seq::<u8>::empty(),
            r.size == HEADER_SIZE,
    {
        AAPakFileHeader {
            key: AAPakFileFormatReader::xl_games_key(),
            file_count: 0,
            extra_file_count: 0,
            first_file_info_offset: 0,
            add_file_offset: 0,
            is_valid: false,
            fat: Vec::new(),
            size: HEADER_SIZE,
        }
    }

    /// Replaces the encryption key with a caller-supplied one.
    pub fn set_custom_key(&mut self, new_key: [u8; 16])
        ensures
            *final(self) == (AAPakFileHeader { key: new_key, ..*old(self) }),
    {
        self.key = new_key;
    }

    /// Reverts to the well-known classic key.
    pub fn set_default_key(&mut self)
        ensures
            final(self).key@ == xl_key_bytes(),
            *final(self) == (AAPakFileHeader { key: final(self).key, ..*old(self) }),
    {
        self.key = AAPakFileFormatReader::xl_games_key();
    }

    /// Encrypts or decrypts one block-aligned message with the given key;
    /// misaligned data is refused.
    pub fn encrypt_aes(message: &[u8], key: &[u8; 16], do_encryption: bool) -> (r: Result<
        Vec<u8>,
        PakError,
    >)
        ensures
            match r {
                Ok(v) => {
                    &&& message@.len() % 16 == 0
                    &&& v@ == if do_encryption {
                        aes_cipher_of(key@, message@)
                    } else {
                        aes_plain_of(key@, message@)
                    }
                    &&& v@.len() == message@.len()
                    &&& do_encryption ==> aes_plain_of(key@, v@) == message@
                },
                Err(e) => e == PakError::MisalignedData && message@.len() % 16 != 0,
            },
    {
        if message.len() % 16 != 0 {
            return Err(PakError::MisalignedData);
        }
        if do_encryption {
            Ok(aes_encrypt(message, key))
        } else {
            Ok(aes_decrypt(message, key))
        }
    }

    /// Re-encodes the whole file table from the entry lists: serializes and
    /// encrypts each entry in table order, then appends the trailing header
    /// block carrying the new counts.  On failure the codec state is left
    /// untouched.
    pub fn write_to_fat(
        &mut self,
        files: &Vec<AAPakFileInfo>,
        extra_files: &Vec<AAPakFileInfo>,
        reader: &Option<AAPakFileFormatReader>,
        pak_type: PakFileType,
    ) -> (r: Result<(), PakError>)
        ensures
            match r {
                Ok(()) => {
                    let lay = write_layout(opt_reader_view(*reader), pak_type)->Some_0;
                    &&& write_layout(opt_reader_view(*reader), pak_type) is Some
                    &&& files@.len() <= u32::MAX
                    &&& extra_files@.len() <= u32::MAX
                    &&& info_order_size(lay.file_info_read_order) == FILE_INFO_SIZE
                    &&& hdr_order_size(lay.read_order, lay.header_bytes.len() as int)
                        <= HEADER_CRYPT_SIZE
                    &&& final(self).fat@ == fat_image(
                        entry_views(files@),
                        entry_views(extra_files@),
                        lay,
                        old(self).key@,
                    )
                    &&& final(self).fat@.len() == (files@.len() + extra_files@.len())
                        * FILE_INFO_SIZE + HEADER_SIZE
                    &&& forall|k: int|
                        0 <= k < files@.len() + extra_files@.len() ==> aes_plain_of(
                            old(self).key@,
                            final(self).fat@.subrange(
                                k * FILE_INFO_SIZE,
                                (k + 1) * FILE_INFO_SIZE,
                            ),
                        ) == entry_plain(
                            ordered_entry_views(
                                entry_views(files@),
                                entry_views(extra_files@),
                                lay.invert_file_counter,
                            )[k],
                            lay.file_info_read_order,
                        )
                    &&& aes_plain_of(
                        old(self).key@,
                        final(self).fat@.subrange(
                            (files@.len() + extra_files@.len()) * FILE_INFO_SIZE,
                            (files@.len() + extra_files@.len()) * FILE_INFO_SIZE
                                + HEADER_CRYPT_SIZE,
                        ),
                    ) == header_plain(
                        lay.read_order,
                        lay.header_bytes,
                        files@.len() as u32,
                        extra_files@.len() as u32,
                    )
                    &&& final(self).file_count == files@.len()
                    &&& final(self).extra_file_count == extra_files@.len()
                    &&& final(self).key == old(self).key
                    &&& final(self).first_file_info_offset == old(self).first_file_info_offset
                    &&& final(self).add_file_offset == old(self).add_file_offset
                    &&& final(self).is_valid == old(self).is_valid
                    &&& final(self).size == old(self).size
                },
                Err(e) => {
                    &&& *final(self) == *old(self)
                    &&& if pak_type == PakFileType::Csv {
                        e == PakError::UnsupportedFormat
                    } else if pak_type == PakFileType::Reader && (*reader) is None {
                        e == PakError::NoReader
                    } else if files@.len() > u32::MAX || extra_files@.len() > u32::MAX {
                        e == PakError::TooManyEntries
                    } else {
                        let lay = write_layout(opt_reader_view(*reader), pak_type)->Some_0;
                        e == PakError::BadLayout && (info_order_size(lay.file_info_read_order)
                            != FILE_INFO_SIZE || hdr_order_size(
                            lay.read_order,
                            lay.header_bytes.len() as int,
                        ) > HEADER_CRYPT_SIZE)
                    }
                },
            },
    {
        if pak_type == PakFileType::Csv {
            return Err(PakError::UnsupportedFormat);
        }
        let default_reader = AAPakFileFormatReader::new(true);
        let rdr: &AAPakFileFormatReader = if pak_type == PakFileType::Reader {
            match reader {
                Some(x) => x,
                None => {
                    return Err(PakError::NoReader);
                },
            }
        } else {
            &default_reader
        };
        let ghost lay = write_layout(opt_reader_view(*reader), pak_type)->Some_0;
        proof {
            assert(lay.file_info_read_order == rdr@.file_info_read_order);
            assert(lay.read_order == rdr@.read_order);
            assert(lay.header_bytes == rdr@.header_bytes);
            assert(lay.invert_file_counter == rdr@.invert_file_counter);
        }
        if files.len() > (u32::MAX as usize) || extra_files.len() > (u32::MAX as usize) {
            return Err(PakError::TooManyEntries);
        }
        let fc: u32 = files.len() as u32;
        let ec: u32 = extra_files.len() as u32;
        if !info_order_fills_block(&rdr.file_info_read_order) {
            return Err(PakError::BadLayout);
        }
        let plain = match Self::encode_header_plain_checked(
            &rdr.read_order,
            &rdr.header_bytes,
            fc,
            ec,
        ) {
            Ok(p) => p,
            Err(e) => {
                return Err(e);
            },
        };
        let mut fat: Vec<u8> = Vec::new();
        let invert = rdr.invert_file_counter;
        let ghost ordered = ordered_entry_views(
            entry_views(files@),
            entry_views(extra_files@),
            invert,
        );
        let ghost order = lay.file_info_read_order;
        let ghost n1: int = if invert {
            extra_files@.len() as int
        } else {
            files@.len() as int
        };
        let ghost n2: int = if invert {
            files@.len() as int
        } else {
            extra_files@.len() as int
        };
        let ghost mut f1: Seq<u8> = Seq::empty();
        if invert {
            append_entry_ciphers(&mut fat, extra_files, &rdr.file_info_read_order, &self.key);
            proof {
                f1 = fat@;
            }
            append_entry_ciphers(&mut fat, files, &rdr.file_info_read_order, &self.key);
        } else {
            append_entry_ciphers(&mut fat, files, &rdr.file_info_read_order, &self.key);
            proof {
                f1 = fat@;
            }
            append_entry_ciphers(&mut fat, extra_files, &rdr.file_info_read_order, &self.key);
        }
        let ghost f2 = fat@;
        proof {
            if invert {
                lemma_fat_cipher_concat(
                    entry_views(extra_files@),
                    entry_views(files@),
                    order,
                    self.key@,
                );
            } else {
                lemma_fat_cipher_concat(
                    entry_views(files@),
                    entry_views(extra_files@),
                    order,
                    self.key@,
                );
            }
            assert(fat@ =~= fat_entries_cipher_from(ordered, order, self.key@, 0));
            assert(f2.len() == (n1 + n2) * FILE_INFO_SIZE);
            assert forall|k: int| 0 <= k < n1 + n2 implies aes_plain_of(
                self.key@,
                f2.subrange(k * FILE_INFO_SIZE, (k + 1) * FILE_INFO_SIZE),
            ) == entry_plain(ordered[k], order) by {
                if k < n1 {
                    assert(f2.subrange(k * FILE_INFO_SIZE, (k + 1) * FILE_INFO_SIZE)
                        =~= f1.subrange(k * FILE_INFO_SIZE, (k + 1) * FILE_INFO_SIZE));
                } else {
                    let kk = k - n1;
                    assert(f1.len() + kk * FILE_INFO_SIZE == k * FILE_INFO_SIZE);
                    assert(f1.len() + (kk + 1) * FILE_INFO_SIZE == (k + 1) * FILE_INFO_SIZE);
                }
            }
        }
        let mut hdr_cipher = aes_encrypt(plain.as_slice(), &self.key);
        let ghost hc = hdr_cipher@;
        fat.append(&mut hdr_cipher);
        push_zeros(&mut fat, HEADER_SIZE - HEADER_CRYPT_SIZE);
        proof {
            assert(fat@ =~= fat_image(
                entry_views(files@),
                entry_views(extra_files@),
                lay,
                self.key@,
            ));
            assert(fat@.len() == (n1 + n2) * FILE_INFO_SIZE + HEADER_SIZE);
            assert forall|k: int| 0 <= k < n1 + n2 implies aes_plain_of(
                self.key@,
                fat@.subrange(k * FILE_INFO_SIZE, (k + 1) * FILE_INFO_SIZE),
            ) == entry_plain(ordered[k], order) by {
                assert(fat@.subrange(k * FILE_INFO_SIZE, (k + 1) * FILE_INFO_SIZE)
                    =~= f2.subrange(k * FILE_INFO_SIZE, (k + 1) * FILE_INFO_SIZE));
            }
            assert(fat@.subrange(f2.len() as int, f2.len() + HEADER_CRYPT_SIZE) =~= hc);
            assert(n1 + n2 == files@.len() + extra_files@.len());
        }
        self.fat = fat;
        self.file_count = fc;
        self.extra_file_count = ec;
        Ok(())
    }

    /// Decodes the raw file table into the used and free entry lists: each
    /// block is decrypted and parsed on its own, entries are partitioned per
    /// the reader's counter order and numbered inside their partition, and
    /// every entry's range is checked against `limit`.  On success the
    /// append point moves past the highest decoded range and the newest
    /// create or modify time is returned.
    pub fn read_file_table(
        &mut self,
        files: &mut Vec<AAPakFileInfo>,
        extra_files: &mut Vec<AAPakFileInfo>,
        reader: &Option<AAPakFileFormatReader>,
        pak_type: PakFileType,
        limit: u64,
    ) -> (r: Result<i64, PakError>)
        ensures
            final(self).fat == old(self).fat,
            final(self).key == old(self).key,
            final(self).file_count == old(self).file_count,
            final(self).extra_file_count == old(self).extra_file_count,
            final(self).first_file_info_offset == old(self).first_file_info_offset,
            final(self).is_valid == old(self).is_valid,
            final(self).size == old(self).size,
            match r {
                Ok(newest) => {
                    let lay = write_layout(opt_reader_view(*reader), pak_type)->Some_0;
                    let order = lay.file_info_read_order;
                    let fc = old(self).file_count as int;
                    let ec = old(self).extra_file_count as int;
                    let fat = old(self).fat@;
                    let key = old(self).key@;
                    &&& write_layout(opt_reader_view(*reader), pak_type) is Some
                    &&& (fc + ec) * FILE_INFO_SIZE <= fat.len()
                    &&& table_in_bounds(fat, key, order, fc + ec, limit as int)
                    &&& final(files)@.len() == fc
                    &&& forall|i: int|
                        0 <= i < fc ==> final(files)@[i]@ == decoded_used_entry(
                            fat,
                            key,
                            order,
                            fc,
                            ec,
                            lay.invert_file_counter,
                            i,
                        )
                    &&& final(extra_files)@.len() == ec
                    &&& forall|j: int|
                        0 <= j < ec ==> final(extra_files)@[j]@ == decoded_free_entry(
                            fat,
                            key,
                            order,
                            fc,
                            ec,
                            lay.invert_file_counter,
                            j,
                        )
                    &&& newest == fold_newest(fat, key, order, fc + ec, 0, 0)
                    &&& final(self).add_file_offset == fold_max_end(
                        fat,
                        key,
                        order,
                        fc + ec,
                        0,
                        old(self).add_file_offset as int,
                    )
                },
                Err(e) => {
                    let lay = write_layout(opt_reader_view(*reader), pak_type)->Some_0;
                    let fc = old(self).file_count as int;
                    let ec = old(self).extra_file_count as int;
                    &&& final(self).add_file_offset == old(self).add_file_offset
                    &&& if pak_type == PakFileType::Csv {
                        e == PakError::UnsupportedFormat
                    } else if pak_type == PakFileType::Reader && (*reader) is None {
                        e == PakError::NoReader
                    } else if (fc + ec) * FILE_INFO_SIZE > old(self).fat@.len() {
                        e == PakError::TableTruncated
                    } else {
                        e == PakError::EntryOutOfBounds && !table_in_bounds(
                            old(self).fat@,
                            old(self).key@,
                            lay.file_info_read_order,
                            fc + ec,
                            limit as int,
                        )
                    }
                },
            },
    {
        files.clear();
        extra_files.clear();
        if pak_type == PakFileType::Csv {
            return Err(PakError::UnsupportedFormat);
        }
        let default_reader = AAPakFileFormatReader::new(true);
        let rdr: &AAPakFileFormatReader = if pak_type == PakFileType::Reader {
            match reader {
                Some(x) => x,
                None => {
                    return Err(PakError::NoReader);
                },
            }
        } else {
            &default_reader
        };
        let ghost lay = write_layout(opt_reader_view(*reader), pak_type)->Some_0;
        let ghost order = lay.file_info_read_order;
        let ghost fat0 = self.fat@;
        let ghost key0 = self.key@;
        proof {
            assert(order == rdr@.file_info_read_order);
            assert(lay.invert_file_counter == rdr@.invert_file_counter);
        }
        let fc: u32 = self.file_count;
        let ec: u32 = self.extra_file_count;
        let ghost fc_i = fc as int;
        let ghost ec_i = ec as int;
        let ghost total_i = fc_i + ec_i;
        let total64: u64 = fc as u64 + ec as u64;
        let fat_len: usize = self.fat.len();
        if total64 * (FILE_INFO_SIZE as u64) > fat_len as u64 {
            return Err(PakError::TableTruncated);
        }
        let total: usize = total64 as usize;
        let invert: bool = rdr.invert_file_counter;
        let first_count: usize = if invert {
            ec as usize
        } else {
            fc as usize
        };
        let mut newest: i64 = 0;
        let mut add_off: u64 = self.add_file_offset;
        let mut k: usize = 0;
        while k < total
            invariant
                pak_type != PakFileType::Csv,
                pak_type == PakFileType::Reader ==> (*reader) is Some,
                write_layout(opt_reader_view(*reader), pak_type) is Some,
                lay == write_layout(opt_reader_view(*reader), pak_type)->Some_0,
                order == lay.file_info_read_order,
                order == rdr@.file_info_read_order,
                invert == lay.invert_file_counter,
                *self == *old(self),
                fat0 == self.fat@,
                key0 == self.key@,
                fc == old(self).file_count,
                ec == old(self).extra_file_count,
                fc_i == fc as int,
                ec_i == ec as int,
                total_i == fc_i + ec_i,
                total == total_i,
                fat_len == fat0.len(),
                total_i * FILE_INFO_SIZE <= fat_len,
                first_count == if invert {
                    ec_i
                } else {
                    fc_i
                },
                k <= total,
                forall|t: int|
                    0 <= t < k ==> decoded_block(fat0, key0, order, t).end_offset()
                        <= limit as int,
                fold_newest(fat0, key0, order, total_i, k as int, newest) == fold_newest(
                    fat0,
                    key0,
                    order,
                    total_i,
                    0,
                    0,
                ),
                fold_max_end(fat0, key0, order, total_i, k as int, add_off as int)
                    == fold_max_end(
                    fat0,
                    key0,
                    order,
                    total_i,
                    0,
                    old(self).add_file_offset as int,
                ),
                files@.len() + extra_files@.len() == k,
                files@.len() == if invert {
                    if k <= first_count {
                        0int
                    } else {
                        k - first_count
                    }
                } else {
                    if k <= first_count {
                        k as int
                    } else {
                        first_count as int
                    }
                },
                forall|i: int|
                    0 <= i < files@.len() ==> files@[i]@ == decoded_used_entry(
                        fat0,
                        key0,
                        order,
                        fc_i,
                        ec_i,
                        invert,
                        i,
                    ),
                forall|j: int|
                    0 <= j < extra_files@.len() ==> extra_files@[j]@ == decoded_free_entry(
                        fat0,
                        key0,
                        order,
                        fc_i,
                        ec_i,
                        invert,
                        j,
                    ),
            decreases total - k,
        {
            let start: usize = k * FILE_INFO_SIZE;
            let block = slice_subrange(self.fat.as_slice(), start, start + FILE_INFO_SIZE);
            let plain = aes_decrypt(block, &self.key);
            let mut e = decode_entry(plain.as_slice(), &rdr.file_info_read_order);
            let ghost dv = decoded_block(fat0, key0, order, k as int);
            proof {
                assert(block@ == fat0.subrange(
                    (k as int) * (FILE_INFO_SIZE as int),
                    (k as int + 1) * (FILE_INFO_SIZE as int),
                ));
                assert(e@ == dv);
            }
            let end: u128 = e.offset as u128 + e.size as u128 + e.padding_size as u128;
            proof {
                assert(end == dv.end_offset());
            }
            if end > limit as u128 {
                proof {
                    assert(decoded_block(fat0, key0, order, k as int).end_offset()
                        > limit as int);
                    assert(!table_in_bounds(fat0, key0, order, total_i, limit as int));
                }
                return Err(PakError::EntryOutOfBounds);
            }
            let ghost newest0 = newest;
            if e.create_time > newest {
                newest = e.create_time;
            }
            if e.modify_time > newest {
                newest = e.modify_time;
            }
            let ghost add0 = add_off;
            if end > add_off as u128 {
                add_off = end as u64;
            }
            proof {
                assert(fold_newest(fat0, key0, order, total_i, k as int, newest0)
                    == fold_newest(fat0, key0, order, total_i, k as int + 1, newest));
                assert(fold_max_end(fat0, key0, order, total_i, k as int, add0 as int)
                    == fold_max_end(fat0, key0, order, total_i, k as int + 1, add_off as int));
            }
            if k < first_count {
                if invert {
                    e.deleted_index_number = k as u32;
                    extra_files.push(e);
                } else {
                    e.entry_index_number = k as u32;
                    files.push(e);
                }
            } else {
                let idx: usize = k - first_count;
                if invert {
                    e.entry_index_number = idx as u32;
                    files.push(e);
                } else {
                    e.deleted_index_number = idx as u32;
                    extra_files.push(e);
                }
            }
            k += 1;
        }
        self.add_file_offset = add_off;
        Ok(newest)
    }

    /// Builds the header-area plaintext, passing the layout error through.
    fn encode_header_plain_checked(
        order: &Vec<AAPakFileHeaderElement>,
        magic: &Vec<u8>,
        fc: u32,
        ec: u32,
    ) -> (r: Result<Vec<u8>, PakError>)
        ensures
            match r {
                Ok(v) => hdr_order_size(order@, magic@.len() as int) <= HEADER_CRYPT_SIZE && v@
                    == header_plain(order@, magic@, fc, ec) && v@.len() == HEADER_CRYPT_SIZE,
                Err(e) => e == PakError::BadLayout && hdr_order_size(order@, magic@.len() as int)
                    > HEADER_CRYPT_SIZE,
            },
    {
        let r = encode_header_plain(order, magic, fc, ec);
        proof {
            if r is Ok {
                lemma_hdr_tokens_plain_len(order@, magic@, fc, ec, 0);
            }
        }
        r
    }

    /// Computes where the file table starts from the container length and the
    /// decoded counts, and loads the raw table from there to the end.
    pub fn load_raw_fat(&mut self, contents: &Vec<u8>) -> (r: Result<(), PakError>)
        ensures
            final(self).key == old(self).key,
            final(self).file_count == old(self).file_count,
            final(self).extra_file_count == old(self).extra_file_count,
            final(self).add_file_offset == old(self).add_file_offset,
            final(self).is_valid == old(self).is_valid,
            final(self).size == old(self).size,
            match r {
                Ok(()) => {
                    let start = fat_region_start(
                        contents@.len() as int,
                        old(self).file_count as int,
                        old(self).extra_file_count as int,
                    );
                    &&& contents@.len() >= HEADER_SIZE + (old(self).file_count + old(
                        self,
                    ).extra_file_count) * FILE_INFO_SIZE
                    &&& final(self).first_file_info_offset == start
                    &&& final(self).fat@ == contents@.subrange(start, contents@.len() as int)
                },
                Err(e) => {
                    &&& e == PakError::TooSmall
                    &&& contents@.len() < HEADER_SIZE + (old(self).file_count + old(
                        self,
                    ).extra_file_count) * FILE_INFO_SIZE
                    &&& *final(self) == *old(self)
                },
            },
    {
        let fc64: u64 = self.file_count as u64;
        let ec64: u64 = self.extra_file_count as u64;
        let total_info: u64 = (fc64 + ec64) * (FILE_INFO_SIZE as u64);
        let len64: u64 = contents.len() as u64;
        if len64 < (HEADER_SIZE as u64) + total_info {
            return Err(PakError::TooSmall);
        }
        let base: u64 = len64 - (HEADER_SIZE as u64) - total_info;
        let fio64: u64 = base - base % 16;
        let fio: usize = fio64 as usize;
        self.first_file_info_offset = fio;
        self.fat = copy_range(contents.as_slice(), fio, contents.len());
        Ok(())
    }
}

} // verus!
