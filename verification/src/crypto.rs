//! The outside calls the engine depends on: AES-128-CBC for the header and
//! file table, MD5 for content digests, and the calendar-to-epoch conversion
//! of the CSV backend.  Each call sits behind one trusted wrapper whose
//! contract names its result; everything around the calls is verified.

use vstd::prelude::*;
use aes::Aes128;
use block_modes::BlockMode;
use block_modes::Cbc;
use block_padding::NoPadding;
use chrono::TimeZone;

verus! {

/// The AES-128-CBC ciphertext (all-zero IV) of `plain` under `key`.
pub uninterp spec fn aes_cipher_of(key: Seq<u8>, plain: Seq<u8>) -> Seq<u8>;

/// The AES-128-CBC decryption (all-zero IV) of `cipher` under `key`.
pub uninterp spec fn aes_plain_of(key: Seq<u8>, cipher: Seq<u8>) -> Seq<u8>;

/// The 16-byte MD5 digest of `data`.
pub uninterp spec fn md5_of(data: Seq<u8>) -> Seq<u8>;

/// The UTC epoch seconds of the calendar instant `year-month-day
/// hour:minute:second`, or `None` when the six fields name no valid instant.
pub uninterp spec fn utc_epoch_of(
    year: int,
    month: int,
    day: int,
    hour: int,
    minute: int,
    second: int,
) -> Option<i64>;

/// Relies on block_modes' `Cbc::<Aes128, NoPadding>::encrypt_vec` with an
/// all-zero IV: on block-aligned input it returns a ciphertext of the same
/// length that depends on the key and the message alone, and `decrypt_vec`
/// under the same key inverts it exactly.
#[verifier::external_body]
pub(crate) fn aes_encrypt(data: &[u8], key: &[u8; 16]) -> (r: Vec<u8>)
    requires
        data@.len() % 16 == 0,
    ensures
        r@ == aes_cipher_of(key@, data@),
        r@.len() == data@.len(),
        aes_plain_of(key@, r@) == data@,
{
    let cipher = Cbc::<Aes128, NoPadding>::new_from_slices(key, &[0u8; 16]).unwrap();
    cipher.encrypt_vec(data)
}

/// Relies on block_modes' `Cbc::<Aes128, NoPadding>::decrypt_vec` with an
/// all-zero IV: on block-aligned input it returns a plaintext of the same
/// length that depends on the key and the ciphertext alone.
#[verifier::external_body]
pub(crate) fn aes_decrypt(data: &[u8], key: &[u8; 16]) -> (r: Vec<u8>)
    requires
        data@.len() % 16 == 0,
    ensures
        r@ == aes_plain_of(key@, data@),
        r@.len() == data@.len(),
{
    let cipher = Cbc::<Aes128, NoPadding>::new_from_slices(key, &[0u8; 16]).unwrap();
    cipher.decrypt_vec(data).unwrap()
}

/// Relies on `chksum_md5::hash`: the 16-byte digest of the input bytes alone.
#[verifier::external_body]
pub(crate) fn md5_digest(data: &[u8]) -> (r: [u8; 16])
    ensures
        r@ == md5_of(data@),
{
    chksum_md5::hash(data).into_inner()
}

/// Relies on chrono's `Utc.with_ymd_and_hms(..).single()` and
/// `DateTime::timestamp`: the UTC epoch seconds of a calendar instant depend
/// on the six fields alone, and `None` comes back when they name no valid
/// instant.
#[verifier::external_body]
pub(crate) fn utc_epoch_seconds(
    year: i32,
    month: u32,
    day: u32,
    hour: u32,
    minute: u32,
    second: u32,
) -> (r: Option<i64>)
    ensures
        r == utc_epoch_of(
            year as int,
            month as int,
            day as int,
            hour as int,
            minute as int,
            second as int,
        ),
{
    match chrono::Utc.with_ymd_and_hms(year, month, day, hour, minute, second).single() {
        Some(dt) => Some(dt.timestamp()),
        None => None,
    }
}

} // verus!
