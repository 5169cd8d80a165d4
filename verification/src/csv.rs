//! The CSV virtual backend: parses semicolon-delimited text with the fixed
//! ten-column header into used entry records.  A malformed header or row
//! makes the whole load invalid; the backend is always read-only.

use vstd::prelude::*;
use vstd::slice::slice_subrange;
use crate::codec::copy_range;
use crate::crypto::utc_epoch_of;
use crate::crypto::utc_epoch_seconds;
use crate::error::PakError;
use crate::file_info::AAPakFileInfo;
use crate::file_info::AAPakFileInfoView;
use crate::file_info::entry_views;
use crate::pak::valid_new_name;

verus! {

/// The views of a list of byte strings.
pub open spec fn vec_views(v: Seq<Vec<u8>>) -> Seq<Seq<u8>> {
    v.map_values(|x: Vec<u8>| x@)
}

// ------------------------------------------------------------------
// Splitting
// ------------------------------------------------------------------

/// The first position of `sep` in `s` at or after `i`, or `s.len()`.
pub open spec fn find_byte_from(s: Seq<u8>, sep: u8, i: int) -> int
    decreases s.len() - i,
{
    if i < 0 || i >= s.len() {
        s.len() as int
    } else if s[i] == sep {
        i
    } else {
        find_byte_from(s, sep, i + 1)
    }
}

/// The position where a separator scan stops is the first position whose
/// byte is the separator.
proof fn lemma_find_byte_char(s: Seq<u8>, sep: u8, j: int)
    requires
        0 <= j <= s.len(),
        forall|k: int| 0 <= k < j ==> s[k] != sep,
        j == s.len() || s[j] == sep,
    ensures
        find_byte_from(s, sep, 0) == j,
    decreases j,
{
    if j > 0 {
        lemma_find_byte_char(s.drop_first(), sep, j - 1);
        assert(find_byte_from(s, sep, 0) == 1 + find_byte_from(s.drop_first(), sep, 0)) by {
            lemma_find_byte_shift(s, sep, 1);
        }
    }
}

/// Scanning from position 1 equals scanning the dropped-head sequence.
proof fn lemma_find_byte_shift(s: Seq<u8>, sep: u8, i: int)
    requires
        1 <= i <= s.len(),
    ensures
        find_byte_from(s, sep, i) == 1 + find_byte_from(s.drop_first(), sep, i - 1),
    decreases s.len() - i,
{
    if i < s.len() {
        assert(s.drop_first()[i - 1] == s[i]);
        if s[i] != sep {
            lemma_find_byte_shift(s, sep, i + 1);
        }
    }
}

/// `s` cut at every `sep`: the pieces between separators, in order, with
/// empty pieces kept.
pub open spec fn split_bytes(s: Seq<u8>, sep: u8) -> Seq<Seq<u8>>
    decreases s.len(),
{
    let j = find_byte_from(s, sep, 0);
    if 0 <= j < s.len() {
        seq![s.take(j)] + split_bytes(s.skip(j + 1), sep)
    } else {
        seq![s]
    }
}

/// The first position of `sep` at or after `from`, or the length.
fn find_byte(s: &[u8], sep: u8, from: usize) -> (r: usize)
    requires
        from <= s@.len(),
    ensures
        from <= r <= s@.len(),
        r < s@.len() ==> s@[r as int] == sep,
        forall|k: int| from <= k < r ==> s@[k] != sep,
{
    let n: usize = s.len();
    let mut i: usize = from;
    while i < n
        invariant
            n == s@.len(),
            from <= i <= n,
            forall|k: int| from <= k < i ==> s@[k] != sep,
        decreases n - i,
    {
        if s[i] == sep {
            return i;
        }
        i += 1;
    }
    n
}

/// Cuts `s` at every `sep`.
pub fn split_bytes_exec(s: &[u8], sep: u8) -> (r: Vec<Vec<u8>>)
    requires
        s@.len() < usize::MAX,
    ensures
        vec_views(r@) == split_bytes(s@, sep),
        forall|k: int| 0 <= k < r@.len() ==> (#[trigger] r@[k])@.len() <= s@.len(),
{
    let n: usize = s.len();
    let mut pieces: Vec<Vec<u8>> = Vec::new();
    let mut start: usize = 0;
    proof {
        assert(s@.skip(0) =~= s@);
        assert(vec_views(pieces@) + split_bytes(s@, sep) =~= split_bytes(s@, sep));
    }
    while start <= n
        invariant
            n == s@.len(),
            n < usize::MAX,
            start <= n + 1,
            start <= n ==> vec_views(pieces@) + split_bytes(s@.skip(start as int), sep)
                == split_bytes(s@, sep),
            start == n + 1 ==> vec_views(pieces@) == split_bytes(s@, sep),
            forall|k: int| 0 <= k < pieces@.len() ==> (#[trigger] pieces@[k])@.len() <= n,
        decreases n + 1 - start,
    {
        let ghost pieces0 = pieces@;
        let ghost suffix = s@.skip(start as int);
        let j = find_byte(s, sep, start);
        let piece = copy_range(s, start, j);
        pieces.push(piece);
        proof {
            assert forall|k: int| 0 <= k < j - start implies suffix[k] != sep by {
                assert(suffix[k] == s@[start + k]);
            }
            if j < n {
                assert(suffix[j - start] == s@[j as int]);
            }
            lemma_find_byte_char(suffix, sep, j - start);
            assert(piece@ =~= suffix.take(j - start));
            assert(vec_views(pieces@) =~= vec_views(pieces0).push(piece@));
            if j < n {
                assert(s@.skip(j + 1) =~= suffix.skip(j - start + 1));
                assert(split_bytes(suffix, sep) == seq![suffix.take(j - start)] + split_bytes(
                    suffix.skip(j - start + 1),
                    sep,
                ));
                assert(vec_views(pieces@) + split_bytes(s@.skip(j + 1), sep) =~= vec_views(
                    pieces0,
                ) + split_bytes(suffix, sep));
            } else {
                assert(suffix.take(j - start) =~= suffix);
                assert(split_bytes(suffix, sep) == seq![suffix]);
                assert(vec_views(pieces@) =~= vec_views(pieces0) + split_bytes(suffix, sep));
            }
        }
        start = j + 1;
    }
    pieces
}

// ------------------------------------------------------------------
// Field parsing
// ------------------------------------------------------------------

/// Parses decimal digits from position `i` on, accumulating into `acc`;
/// a non-digit or a value past `u64::MAX` yields `None`.
pub open spec fn parse_u64_from(s: Seq<u8>, i: int, acc: u64) -> Option<u64>
    decreases s.len() - i,
{
    if i < 0 || i >= s.len() {
        Some(acc)
    } else {
        let d = s[i];
        if !(0x30 <= d <= 0x39) {
            None
        } else if acc * 10 + (d - 0x30) > u64::MAX {
            None
        } else {
            parse_u64_from(s, i + 1, (acc * 10 + (d - 0x30)) as u64)
        }
    }
}

/// The unsigned decimal value of `s`, or `None` when `s` is empty, holds a
/// non-digit, or does not fit 64 bits.
pub open spec fn parse_u64_dec(s: Seq<u8>) -> Option<u64> {
    if s.len() == 0 {
        None
    } else {
        parse_u64_from(s, 0, 0)
    }
}

/// The unsigned decimal value of `s` when it fits 32 bits.
pub open spec fn parse_u32_dec(s: Seq<u8>) -> Option<u32> {
    match parse_u64_dec(s) {
        Some(v) => if v <= u32::MAX {
            Some(v as u32)
        } else {
            None
        },
        None => None,
    }
}

/// Parses an unsigned decimal byte string.
pub fn parse_u64_exec(s: &[u8]) -> (r: Option<u64>)
    ensures
        r == parse_u64_dec(s@),
{
    let n: usize = s.len();
    if n == 0 {
        return None;
    }
    let mut acc: u64 = 0;
    let mut i: usize = 0;
    while i < n
        invariant
            n == s@.len(),
            i <= n,
            parse_u64_from(s@, i as int, acc) == parse_u64_dec(s@),
        decreases n - i,
    {
        let d: u8 = s[i];
        if d < 0x30 || d > 0x39 {
            return None;
        }
        let dv: u64 = (d - 0x30) as u64;
        let m = match acc.checked_mul(10) {
            Some(m) => m,
            None => {
                return None;
            },
        };
        let v = match m.checked_add(dv) {
            Some(v) => v,
            None => {
                return None;
            },
        };
        acc = v;
        i += 1;
    }
    Some(acc)
}

/// Parses an unsigned decimal byte string that must fit 32 bits.
pub fn parse_u32_exec(s: &[u8]) -> (r: Option<u32>)
    ensures
        r == parse_u32_dec(s@),
{
    match parse_u64_exec(s) {
        Some(v) => if v <= u32::MAX as u64 {
            Some(v as u32)
        } else {
            None
        },
        None => None,
    }
}

/// Whether a byte is an ASCII hexadecimal digit.
pub open spec fn is_hex_digit(b: u8) -> bool {
    (0x30 <= b <= 0x39) || (0x41 <= b <= 0x46) || (0x61 <= b <= 0x66)
}

/// The value of one hexadecimal digit.
pub open spec fn hex_val(b: u8) -> int {
    if 0x30 <= b <= 0x39 {
        b - 0x30
    } else if 0x41 <= b <= 0x46 {
        b - 0x41 + 10
    } else if 0x61 <= b <= 0x66 {
        b - 0x61 + 10
    } else {
        0
    }
}

/// The bytes a hexadecimal string denotes: two digits each, `None` on odd
/// length or any non-digit.
pub open spec fn hex_decode(s: Seq<u8>) -> Option<Seq<u8>> {
    if s.len() % 2 != 0 {
        None
    } else if exists|i: int| 0 <= i < s.len() && !is_hex_digit(s[i]) {
        None
    } else {
        Some(
            Seq::new(
                (s.len() / 2) as nat,
                |i: int| (hex_val(s[2 * i]) * 16 + hex_val(s[2 * i + 1])) as u8,
            ),
        )
    }
}

/// The value of one hexadecimal digit byte, or `None`.
fn hex_digit_exec(b: u8) -> (r: Option<u8>)
    ensures
        r is Some <==> is_hex_digit(b),
        r is Some ==> r->Some_0 == hex_val(b),
{
    if 0x30 <= b && b <= 0x39 {
        Some(b - 0x30)
    } else if 0x41 <= b && b <= 0x46 {
        Some(b - 0x41 + 10)
    } else if 0x61 <= b && b <= 0x66 {
        Some(b - 0x61 + 10)
    } else {
        None
    }
}

/// Decodes a hexadecimal byte string.
pub fn hex_decode_exec(s: &[u8]) -> (r: Option<Vec<u8>>)
    ensures
        match r {
            Some(v) => hex_decode(s@) == Some(v@),
            None => hex_decode(s@) is None,
        },
{
    let n: usize = s.len();
    if n % 2 != 0 {
        return None;
    }
    let mut out: Vec<u8> = Vec::new();
    let mut i: usize = 0;
    while i < n
        invariant
            n == s@.len(),
            n % 2 == 0,
            i <= n,
            i % 2 == 0,
            out@.len() == i / 2,
            forall|k: int| 0 <= k < i ==> is_hex_digit(s@[k]),
            forall|k: int|
                0 <= k < i / 2 ==> out@[k] == (hex_val(s@[2 * k]) * 16 + hex_val(
                    s@[2 * k + 1],
                )) as u8,
        decreases n - i,
    {
        let hi = match hex_digit_exec(s[i]) {
            Some(v) => v,
            None => {
                return None;
            },
        };
        let lo = match hex_digit_exec(s[i + 1]) {
            Some(v) => v,
            None => {
                return None;
            },
        };
        out.push(hi * 16 + lo);
        i += 2;
    }
    proof {
        let decoded = Seq::new(
            (s@.len() / 2) as nat,
            |k: int| (hex_val(s@[2 * k]) * 16 + hex_val(s@[2 * k + 1])) as u8,
        );
        assert(out@ =~= decoded);
    }
    Some(out)
}

// ------------------------------------------------------------------
// Date parsing
// ------------------------------------------------------------------

/// The epoch seconds a textual `yyyy?MM?dd?HH?mm?ss` stamp denotes, or zero
/// when the text is too short, a group is not decimal, or the fields name no
/// valid UTC instant.
pub open spec fn file_time_of(s: Seq<u8>) -> i64 {
    if s.len() < 19 {
        0
    } else {
        match parse_u64_dec(s.subrange(0, 4)) {
            None => 0,
            Some(y) => match parse_u64_dec(s.subrange(5, 7)) {
                None => 0,
                Some(mo) => match parse_u64_dec(s.subrange(8, 10)) {
                    None => 0,
                    Some(d) => match parse_u64_dec(s.subrange(11, 13)) {
                        None => 0,
                        Some(h) => match parse_u64_dec(s.subrange(14, 16)) {
                            None => 0,
                            Some(mi) => match parse_u64_dec(s.subrange(17, 19)) {
                                None => 0,
                                Some(sec) => match utc_epoch_of(
                                    y as int,
                                    mo as int,
                                    d as int,
                                    h as int,
                                    mi as int,
                                    sec as int,
                                ) {
                                    Some(t) => t,
                                    None => 0,
                                },
                            },
                        },
                    },
                },
            },
        }
    }
}

/// Converts a textual date stamp to epoch seconds, zero on any failure.
pub fn date_time_to_file_time(encoded: &[u8]) -> (r: i64)
    ensures
        r == file_time_of(encoded@),
{
    if encoded.len() < 19 {
        return 0;
    }
    let y = match parse_u64_exec(slice_subrange(encoded, 0, 4)) {
        Some(v) => v,
        None => {
            return 0;
        },
    };
    let mo = match parse_u64_exec(slice_subrange(encoded, 5, 7)) {
        Some(v) => v,
        None => {
            return 0;
        },
    };
    let d = match parse_u64_exec(slice_subrange(encoded, 8, 10)) {
        Some(v) => v,
        None => {
            return 0;
        },
    };
    let h = match parse_u64_exec(slice_subrange(encoded, 11, 13)) {
        Some(v) => v,
        None => {
            return 0;
        },
    };
    let mi = match parse_u64_exec(slice_subrange(encoded, 14, 16)) {
        Some(v) => v,
        None => {
            return 0;
        },
    };
    let sec = match parse_u64_exec(slice_subrange(encoded, 17, 19)) {
        Some(v) => v,
        None => {
            return 0;
        },
    };
    proof {
        lemma_parse_u64_digits_bound(encoded@.subrange(0, 4));
        lemma_parse_u64_digits_bound(encoded@.subrange(5, 7));
        lemma_parse_u64_digits_bound(encoded@.subrange(8, 10));
        lemma_parse_u64_digits_bound(encoded@.subrange(11, 13));
        lemma_parse_u64_digits_bound(encoded@.subrange(14, 16));
        lemma_parse_u64_digits_bound(encoded@.subrange(17, 19));
    }
    match utc_epoch_seconds(y as i32, mo as u32, d as u32, h as u32, mi as u32, sec as u32) {
        Some(t) => t,
        None => 0,
    }
}

/// A decimal group of at most four digits denotes a value of at most 9999.
proof fn lemma_parse_u64_digits_bound(s: Seq<u8>)
    requires
        s.len() <= 4,
    ensures
        match parse_u64_dec(s) {
            Some(v) => v <= 9999,
            None => true,
        },
{
    reveal_with_fuel(parse_u64_from, 6);
}


// ------------------------------------------------------------------
// The header row
// ------------------------------------------------------------------

/// An ASCII byte lowered.
pub open spec fn ascii_lower(b: u8) -> u8 {
    if 0x41 <= b <= 0x5A {
        (b + 0x20) as u8
    } else {
        b
    }
}

/// A byte string with its ASCII letters lowered.
pub open spec fn lower_bytes(s: Seq<u8>) -> Seq<u8> {
    s.map_values(|b: u8| ascii_lower(b))
}

/// The fixed ten-column header row, lowered: the ASCII bytes of
/// `name;size;offset;md5;createtime;modifytime;sizeduplicate;paddingsize;dummy1;dummy2`.
pub open spec fn csv_head_bytes() -> Seq<u8> {
    seq![0x6Eu8, 0x61u8, 0x6Du8, 0x65u8, 0x3Bu8, 0x73u8, 0x69u8, 0x7Au8, 0x65u8, 0x3Bu8, 0x6Fu8, 0x66u8, 0x66u8, 0x73u8, 0x65u8, 0x74u8, 0x3Bu8, 0x6Du8, 0x64u8, 0x35u8, 0x3Bu8, 0x63u8, 0x72u8, 0x65u8, 0x61u8, 0x74u8, 0x65u8, 0x74u8, 0x69u8, 0x6Du8, 0x65u8, 0x3Bu8, 0x6Du8, 0x6Fu8, 0x64u8, 0x69u8, 0x66u8, 0x79u8, 0x74u8, 0x69u8, 0x6Du8, 0x65u8, 0x3Bu8, 0x73u8, 0x69u8, 0x7Au8, 0x65u8, 0x64u8, 0x75u8, 0x70u8, 0x6Cu8, 0x69u8, 0x63u8, 0x61u8, 0x74u8, 0x65u8, 0x3Bu8, 0x70u8, 0x61u8, 0x64u8, 0x64u8, 0x69u8, 0x6Eu8, 0x67u8, 0x73u8, 0x69u8, 0x7Au8, 0x65u8, 0x3Bu8, 0x64u8, 0x75u8, 0x6Du8, 0x6Du8, 0x79u8, 0x31u8, 0x3Bu8, 0x64u8, 0x75u8, 0x6Du8, 0x6Du8, 0x79u8, 0x32u8]
}

/// The expected header row bytes.
fn csv_head_vec() -> (r: Vec<u8>)
    ensures
        r@ == csv_head_bytes(),
{
    let mut r: Vec<u8> = Vec::new();
    r.push(0x6E);
    r.push(0x61);
    r.push(0x6D);
    r.push(0x65);
    r.push(0x3B);
    r.push(0x73);
    r.push(0x69);
    r.push(0x7A);
    r.push(0x65);
    r.push(0x3B);
    r.push(0x6F);
    r.push(0x66);
    r.push(0x66);
    r.push(0x73);
    r.push(0x65);
    r.push(0x74);
    r.push(0x3B);
    r.push(0x6D);
    r.push(0x64);
    r.push(0x35);
    r.push(0x3B);
    r.push(0x63);
    r.push(0x72);
    r.push(0x65);
    r.push(0x61);
    r.push(0x74);
    r.push(0x65);
    r.push(0x74);
    r.push(0x69);
    r.push(0x6D);
    r.push(0x65);
    r.push(0x3B);
    r.push(0x6D);
    r.push(0x6F);
    r.push(0x64);
    r.push(0x69);
    r.push(0x66);
    r.push(0x79);
    r.push(0x74);
    r.push(0x69);
    r.push(0x6D);
    r.push(0x65);
    r.push(0x3B);
    r.push(0x73);
    r.push(0x69);
    r.push(0x7A);
    r.push(0x65);
    r.push(0x64);
    r.push(0x75);
    r.push(0x70);
    r.push(0x6C);
    r.push(0x69);
    r.push(0x63);
    r.push(0x61);
    r.push(0x74);
    r.push(0x65);
    r.push(0x3B);
    r.push(0x70);
    r.push(0x61);
    r.push(0x64);
    r.push(0x64);
    r.push(0x69);
    r.push(0x6E);
    r.push(0x67);
    r.push(0x73);
    r.push(0x69);
    r.push(0x7A);
    r.push(0x65);
    r.push(0x3B);
    r.push(0x64);
    r.push(0x75);
    r.push(0x6D);
    r.push(0x6D);
    r.push(0x79);
    r.push(0x31);
    r.push(0x3B);
    r.push(0x64);
    r.push(0x75);
    r.push(0x6D);
    r.push(0x6D);
    r.push(0x79);
    r.push(0x32);
    proof {
        assert(r@ =~= csv_head_bytes());
    }
    r
}

/// A byte string with its ASCII letters lowered.
fn lower_vec(s: &[u8]) -> (r: Vec<u8>)
    ensures
        r@ == lower_bytes(s@),
{
    let n: usize = s.len();
    let mut r: Vec<u8> = Vec::new();
    let mut i: usize = 0;
    while i < n
        invariant
            n == s@.len(),
            i <= n,
            r@.len() == i,
            forall|k: int| 0 <= k < i ==> r@[k] == ascii_lower(s@[k]),
        decreases n - i,
    {
        let b: u8 = s[i];
        if 0x41 <= b && b <= 0x5A {
            r.push(b + 0x20);
        } else {
            r.push(b);
        }
        i += 1;
    }
    proof {
        assert(r@ =~= lower_bytes(s@));
    }
    r
}

/// The first line matches the fixed header, case-insensitively.
pub open spec fn header_match(line: Seq<u8>) -> bool {
    lower_bytes(line) == csv_head_bytes()
}

// ------------------------------------------------------------------
// Rows
// ------------------------------------------------------------------

/// A line with one trailing carriage return removed.
pub open spec fn trim_cr(l: Seq<u8>) -> Seq<u8> {
    if l.len() > 0 && l[l.len() - 1] == 0x0Du8 {
        l.drop_last()
    } else {
        l
    }
}

/// The lines of a CSV text: cut at every line feed, trailing carriage
/// returns dropped.
pub open spec fn csv_lines(bytes: Seq<u8>) -> Seq<Seq<u8>> {
    split_bytes(bytes, 0x0Au8).map_values(|l: Seq<u8>| trim_cr(l))
}

/// The entry one CSV row denotes: ten semicolon-separated columns — name,
/// size, offset, hexadecimal MD5, create time, modify time, size duplicate,
/// padding, and the two opaque fields — or `None` when any column is
/// malformed.
pub open spec fn row_view(line: Seq<u8>) -> Option<AAPakFileInfoView> {
    let fs = split_bytes(line, 0x3Bu8);
    if fs.len() != 10 {
        None
    } else if !valid_new_name(fs[0]) {
        None
    } else {
        match parse_u64_dec(fs[1]) {
            None => None,
            Some(size) => match parse_u64_dec(fs[2]) {
                None => None,
                Some(offset) => match hex_decode(fs[3]) {
                    None => None,
                    Some(md5v) => if md5v.len() != 16 {
                        None
                    } else {
                        match parse_u64_dec(fs[6]) {
                            None => None,
                            Some(size_duplicate) => match parse_u32_dec(fs[7]) {
                                None => None,
                                Some(padding_size) => match parse_u32_dec(fs[8]) {
                                    None => None,
                                    Some(dummy1) => match parse_u64_dec(fs[9]) {
                                        None => None,
                                        Some(dummy2) => Some(
                                            AAPakFileInfoView {
                                                name: fs[0],
                                                offset,
                                                size,
                                                size_duplicate,
                                                padding_size,
                                                md5: md5v,
                                                dummy1,
                                                dummy2,
                                                create_time: file_time_of(fs[4]),
                                                modify_time: file_time_of(fs[5]),
                                                entry_index_number: 0,
                                                deleted_index_number: 0,
                                            },
                                        ),
                                    },
                                },
                            },
                        }
                    },
                },
            },
        }
    }
}

/// The entries of the rows from line `i` on; empty lines are passed over,
/// and one malformed row invalidates the whole text.
pub open spec fn csv_rows_from(lines: Seq<Seq<u8>>, i: int) -> Option<Seq<AAPakFileInfoView>>
    decreases lines.len() - i,
{
    if i < 0 || i >= lines.len() {
        Some(Seq::empty())
    } else if lines[i].len() == 0 {
        csv_rows_from(lines, i + 1)
    } else {
        match row_view(lines[i]) {
            None => None,
            Some(v) => match csv_rows_from(lines, i + 1) {
                None => None,
                Some(rest) => Some(seq![v] + rest),
            },
        }
    }
}

/// The entries a CSV text denotes: the fixed header row, then one used
/// entry per row; `None` when the header or any row is malformed.
pub open spec fn csv_parse(bytes: Seq<u8>) -> Option<Seq<AAPakFileInfoView>> {
    let lines = csv_lines(bytes);
    if lines.len() == 0 {
        None
    } else if !header_match(lines[0]) {
        None
    } else {
        csv_rows_from(lines, 1)
    }
}

/// Parses one CSV row.
fn parse_row(line: &[u8]) -> (r: Option<AAPakFileInfo>)
    requires
        line@.len() < usize::MAX,
    ensures
        match r {
            Some(e) => row_view(line@) == Some(e@) && e@.name_wf(),
            None => row_view(line@) is None,
        },
{
    let fields = split_bytes_exec(line, 0x3B);
    if fields.len() != 10 {
        return None;
    }
    proof {
        assert forall|k: int| 0 <= k < 10 implies fields@[k]@ == split_bytes(line@, 0x3Bu8)[k] by {
            assert(vec_views(fields@)[k] == fields@[k]@);
        }
    }
    if !crate::pak::check_new_name(fields[0].as_slice()) {
        return None;
    }
    let size = match parse_u64_exec(fields[1].as_slice()) {
        Some(v) => v,
        None => {
            return None;
        },
    };
    let offset = match parse_u64_exec(fields[2].as_slice()) {
        Some(v) => v,
        None => {
            return None;
        },
    };
    let md5vec = match hex_decode_exec(fields[3].as_slice()) {
        Some(v) => v,
        None => {
            return None;
        },
    };
    if md5vec.len() != 16 {
        return None;
    }
    let size_duplicate = match parse_u64_exec(fields[6].as_slice()) {
        Some(v) => v,
        None => {
            return None;
        },
    };
    let padding_size = match parse_u32_exec(fields[7].as_slice()) {
        Some(v) => v,
        None => {
            return None;
        },
    };
    let dummy1 = match parse_u32_exec(fields[8].as_slice()) {
        Some(v) => v,
        None => {
            return None;
        },
    };
    let dummy2 = match parse_u64_exec(fields[9].as_slice()) {
        Some(v) => v,
        None => {
            return None;
        },
    };
    let create_time = date_time_to_file_time(fields[4].as_slice());
    let modify_time = date_time_to_file_time(fields[5].as_slice());
    let mut md5: [u8; 16] = [0u8; 16];
    let mut t: usize = 0;
    while t < 16
        invariant
            t <= 16,
            md5vec@.len() == 16,
            forall|u: int| 0 <= u < t ==> md5@[u] == md5vec@[u],
        decreases 16 - t,
    {
        md5[t] = md5vec[t];
        t += 1;
    }
    proof {
        broadcast use vstd::array::group_array_axioms;

        assert(md5@ =~= md5vec@);
    }
    let name = crate::codec::copy_range(fields[0].as_slice(), 0, fields[0].len());
    proof {
        assert(name@ =~= fields@[0]@);
    }
    Some(
        AAPakFileInfo::new(
            create_time,
            0,
            dummy1,
            dummy2,
            0,
            md5,
            modify_time,
            name,
            offset,
            padding_size,
            size,
            size_duplicate,
        ),
    )
}

/// Parses a whole CSV text into used entries, or refuses it as malformed.
pub fn parse_csv(data: &[u8]) -> (r: Result<Vec<AAPakFileInfo>, PakError>)
    requires
        data@.len() < usize::MAX,
    ensures
        match r {
            Ok(v) => {
                &&& csv_parse(data@) == Some(entry_views(v@))
                &&& forall|i: int| 0 <= i < v@.len() ==> (#[trigger] v@[i])@.name_wf()
            },
            Err(e) => e == PakError::CsvMalformed && csv_parse(data@) is None,
        },
{
    let raw_lines = split_bytes_exec(data, 0x0A);
    let mut lines: Vec<Vec<u8>> = Vec::new();
    let rn: usize = raw_lines.len();
    let mut i: usize = 0;
    while i < rn
        invariant
            rn == raw_lines@.len(),
            i <= rn,
            vec_views(raw_lines@) == split_bytes(data@, 0x0Au8),
            lines@.len() == i,
            forall|k: int| 0 <= k < i ==> lines@[k]@ == trim_cr(raw_lines@[k]@),
            forall|k: int| 0 <= k < i ==> lines@[k]@.len() <= raw_lines@[k]@.len(),
        decreases rn - i,
    {
        let rl = &raw_lines[i];
        let mut l = crate::codec::copy_range(rl.as_slice(), 0, rl.len());
        proof {
            assert(l@ =~= raw_lines@[i as int]@);
        }
        if l.len() > 0 {
            let last: u8 = l[l.len() - 1];
            if last == 0x0D {
                let _ = l.pop();
                proof {
                    assert(l@ =~= raw_lines@[i as int]@.drop_last());
                }
            }
        }
        lines.push(l);
        i += 1;
    }
    proof {
        assert(vec_views(lines@) =~= csv_lines(data@));
        assert forall|k: int| 0 <= k < lines@.len() implies (#[trigger] lines@[k])@.len()
            < usize::MAX by {
            assert(lines@[k]@.len() <= raw_lines@[k]@.len());
            assert(raw_lines@[k]@.len() <= data@.len());
        }
    }
    if lines.len() == 0 {
        return Err(PakError::CsvMalformed);
    }
    let lowered = lower_vec(lines[0].as_slice());
    let expected = csv_head_vec();
    if !crate::codec::bytes_eq(lowered.as_slice(), expected.as_slice()) {
        proof {
            assert(vec_views(lines@)[0] == lines@[0]@);
        }
        return Err(PakError::CsvMalformed);
    }
    proof {
        assert(vec_views(lines@)[0] == lines@[0]@);
        assert(header_match(csv_lines(data@)[0]));
    }
    let mut out: Vec<AAPakFileInfo> = Vec::new();
    let n: usize = lines.len();
    let mut j: usize = 1;
    while j < n
        invariant
            n == lines@.len(),
            1 <= j <= n,
            vec_views(lines@) == csv_lines(data@),
            forall|k: int| 0 <= k < n ==> lines@[k]@.len() < usize::MAX,
            forall|i2: int| 0 <= i2 < out@.len() ==> (#[trigger] out@[i2])@.name_wf(),
            match csv_rows_from(vec_views(lines@), j as int) {
                Some(rest) => csv_rows_from(vec_views(lines@), 1) == Some(
                    entry_views(out@) + rest,
                ),
                None => csv_rows_from(vec_views(lines@), 1) is None,
            },
        decreases n - j,
    {
        let line = &lines[j];
        if line.len() > 0 {
            let ghost out0 = out@;
            match parse_row(line.as_slice()) {
                Some(e) => {
                    let ghost ev = e@;
                    out.push(e);
                    proof {
                        assert(vec_views(lines@)[j as int] == lines@[j as int]@);
                        assert(entry_views(out@) =~= entry_views(out0).push(ev));
                    }
                },
                None => {
                    proof {
                        assert(vec_views(lines@)[j as int] == lines@[j as int]@);
                    }
                    return Err(PakError::CsvMalformed);
                },
            }
        } else {
            proof {
                assert(vec_views(lines@)[j as int] == lines@[j as int]@);
            }
        }
        j += 1;
    }
    proof {
        assert(csv_rows_from(vec_views(lines@), n as int) == Some(
            Seq::<AAPakFileInfoView>::empty(),
        ));
        assert(entry_views(out@) + Seq::<AAPakFileInfoView>::empty() =~= entry_views(out@));
    }
    Ok(out)
}

} // verus!
