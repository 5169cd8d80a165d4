//! Entry records: the metadata describing one packed file inside a container.

use vstd::prelude::*;
use vstd::slice::slice_to_vec;

verus! {

/// Width in bytes of the fixed, NUL-padded name field of an entry on disk.
pub const NAME_FIELD_SIZE: usize = 0x108;

/// Metadata of one packed file (or of one reclaimable free slot).
///
/// `offset`, `size` and `padding_size` describe the byte range
/// `[offset, offset + size + padding_size)` that the entry owns inside the
/// container; `size_duplicate` mirrors `size` on disk.  `entry_index_number`
/// and `deleted_index_number` are transient positions inside the used and the
/// free partition; they are assigned while the table is decoded and are never
/// stored on disk.
pub struct AAPakFileInfo {
    /// Path of the file inside the container, as raw bytes.
    pub name: Vec<u8>,
    /// Byte offset of the content inside the container.
    pub offset: u64,
    /// Content size in bytes.
    pub size: u64,
    /// Stored duplicate of `size`.
    pub size_duplicate: u64,
    /// Reserved bytes after the content, available for in-place growth.
    pub padding_size: u32,
    /// MD5 digest of the content.
    pub md5: [u8; 16],
    /// Opaque format-defined field, carried through unchanged.
    pub dummy1: u32,
    /// Opaque format-defined field, carried through unchanged.
    pub dummy2: u64,
    /// Creation time as signed epoch seconds.
    pub create_time: i64,
    /// Last modification time as signed epoch seconds.
    pub modify_time: i64,
    /// Position inside the used partition (transient).
    pub entry_index_number: u32,
    /// Position inside the free partition (transient).
    pub deleted_index_number: u32,
}

/// The mathematical image of an entry: the same fields with byte vectors
/// abstracted to sequences.
pub ghost struct AAPakFileInfoView {
    pub name: Seq<u8>,
    pub offset: u64,
    pub size: u64,
    pub size_duplicate: u64,
    pub padding_size: u32,
    pub md5: Seq<u8>,
    pub dummy1: u32,
    pub dummy2: u64,
    pub create_time: i64,
    pub modify_time: i64,
    pub entry_index_number: u32,
    pub deleted_index_number: u32,
}

impl View for AAPakFileInfo {
    type V = AAPakFileInfoView;

    open spec fn view(&self) -> AAPakFileInfoView {
        AAPakFileInfoView {
            name: self.name@,
            offset: self.offset,
            size: self.size,
            size_duplicate: self.size_duplicate,
            padding_size: self.padding_size,
            md5: self.md5@,
            dummy1: self.dummy1,
            dummy2: self.dummy2,
            create_time: self.create_time,
            modify_time: self.modify_time,
            entry_index_number: self.entry_index_number,
            deleted_index_number: self.deleted_index_number,
        }
    }
}

/// The views of a sequence of entries.
pub open spec fn entry_views(s: Seq<AAPakFileInfo>) -> Seq<AAPakFileInfoView> {
    s.map_values(|e: AAPakFileInfo| e@)
}

impl AAPakFileInfoView {
    /// The name fits the fixed on-disk field and holds no NUL terminator.
    pub open spec fn name_wf(self) -> bool {
        &&& self.name.len() <= NAME_FIELD_SIZE
        &&& forall|i: int| 0 <= i < self.name.len() ==> self.name[i] != 0u8
    }

    /// One past the last byte of the range the entry owns.
    pub open spec fn end_offset(self) -> int {
        self.offset + self.size + self.padding_size
    }

    /// Equality of every persisted field; the transient index numbers may
    /// differ.
    pub open spec fn same_content(self, other: Self) -> bool {
        &&& self.name == other.name
        &&& self.offset == other.offset
        &&& self.size == other.size
        &&& self.size_duplicate == other.size_duplicate
        &&& self.padding_size == other.padding_size
        &&& self.md5 == other.md5
        &&& self.dummy1 == other.dummy1
        &&& self.dummy2 == other.dummy2
        &&& self.create_time == other.create_time
        &&& self.modify_time == other.modify_time
    }

    /// Every field of the entry is zero or empty.
    pub open spec fn is_null(self) -> bool {
        self == null_entry_view()
    }
}

/// The all-zero entry image, the starting point of table decoding and the
/// "not found" sentinel.
pub open spec fn null_entry_view() -> AAPakFileInfoView {
    AAPakFileInfoView {
        name: Seq::<u8>::empty(),
        offset: 0,
        size: 0,
        size_duplicate: 0,
        padding_size: 0,
        md5: Seq::new(16, |i: int| 0u8),
        dummy1: 0,
        dummy2: 0,
        create_time: 0,
        modify_time: 0,
        entry_index_number: 0,
        deleted_index_number: 0,
    }
}

impl AAPakFileInfo {
    /// Builds an entry from all of its fields.
    pub fn new(
        create_time: i64,
        deleted_index_number: u32,
        dummy1: u32,
        dummy2: u64,
        entry_index_number: u32,
        md5: [u8; 16],
        modify_time: i64,
        name: Vec<u8>,
        offset: u64,
        padding_size: u32,
        size: u64,
        size_duplicate: u64,
    ) -> (r: AAPakFileInfo)
        ensures
            r@ == (AAPakFileInfoView {
                name: name@,
                offset,
                size,
                size_duplicate,
                padding_size,
                md5: md5@,
                dummy1,
                dummy2,
                create_time,
                modify_time,
                entry_index_number,
                deleted_index_number,
            }),
    {
        AAPakFileInfo {
            name,
            offset,
            size,
            size_duplicate,
            padding_size,
            md5,
            dummy1,
            dummy2,
            create_time,
            modify_time,
            entry_index_number,
            deleted_index_number,
        }
    }

    /// The all-zero entry, used as the "not found" sentinel.
    pub fn default() -> (r: AAPakFileInfo)
        ensures
            r@ == null_entry_view(),
    {
        let md5: [u8; 16] = [0u8; 16];
        proof {
            broadcast use vstd::array::group_array_axioms;

            assert(md5@ =~= Seq::new(16, |i: int| 0u8));
        }
        let r = AAPakFileInfo {
            name: Vec::new(),
            offset: 0,
            size: 0,
            size_duplicate: 0,
            padding_size: 0,
            md5,
            dummy1: 0,
            dummy2: 0,
            create_time: 0,
            modify_time: 0,
            entry_index_number: 0,
            deleted_index_number: 0,
        };
        proof {
            assert(r@.name =~= Seq::<u8>::empty());
        }
        r
    }

    /// An exact copy of the entry.
    pub fn duplicate(&self) -> (r: AAPakFileInfo)
        ensures
            r@ == self@,
    {
        AAPakFileInfo {
            name: slice_to_vec(self.name.as_slice()),
            offset: self.offset,
            size: self.size,
            size_duplicate: self.size_duplicate,
            padding_size: self.padding_size,
            md5: self.md5,
            dummy1: self.dummy1,
            dummy2: self.dummy2,
            create_time: self.create_time,
            modify_time: self.modify_time,
            entry_index_number: self.entry_index_number,
            deleted_index_number: self.deleted_index_number,
        }
    }

    /// The format treats two entries as the same file exactly when their MD5
    /// digests are equal, whatever their names or offsets say.  This is the
    /// comparison that entry removal uses, stated explicitly so that callers
    /// and tests can rely on it (placeholder all-zero digests do collide).
    pub fn has_same_digest(&self, other: &AAPakFileInfo) -> (r: bool)
        ensures
            r == (self@.md5 == other@.md5),
    {
        let mut i: usize = 0;
        while i < 16
            invariant
                i <= 16,
                forall|j: int| 0 <= j < i ==> self.md5@[j] == other.md5@[j],
            decreases 16 - i,
        {
            if self.md5[i] != other.md5[i] {
                return false;
            }
            i += 1;
        }
        proof {
            assert(self.md5@ =~= other.md5@);
        }
        true
    }
}

} // verus!
