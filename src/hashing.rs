use vstd::prelude::*;
use vstd::string::StringSliceAdditionalSpecFns;

use crate::state::{ErrorCode, MAX_ID_LEN};

verus! {

/// The SHA-256 digest of a byte sequence.
pub uninterp spec fn sha256_of(data: Seq<u8>) -> Seq<u8>;

/// Relies on sha2::Sha256::digest: the 32-byte SHA-256 digest of `data`,
/// which depends on the bytes alone.
#[verifier::external_body]
pub(crate) fn sha256(data: &[u8]) -> (r: [u8; 32])
    ensures
        r@ == sha256_of(data@),
{
    <sha2::Sha256 as sha2::Digest>::digest(data).into()
}

/// The key of the record that `external_id` owns in the namespace `tag`:
/// the digest of the tag followed by the digest of the identifier.
pub open spec fn derived_key(tag: Seq<u8>, external_id: Seq<u8>) -> Seq<u8> {
    sha256_of(tag + sha256_of(external_id))
}

/// Compares two keys byte by byte.
pub fn keys_equal(a: &[u8; 32], b: &[u8; 32]) -> (r: bool)
    ensures
        r == (a@ == b@),
{
    let mut i: usize = 0;
    while i < 32
        invariant
            0 <= i <= 32,
            a@.len() == 32,
            b@.len() == 32,
            forall|j: int| 0 <= j < i ==> a@[j] == b@[j],
        decreases 32 - i,
    {
        if a[i] != b[i] {
            assert(a@[i as int] != b@[i as int]);
            return false;
        }
        i = i + 1;
    }
    assert(a@ =~= b@);
    true
}

/// Derives the key of the record that `external_id` owns in the namespace
/// `tag`, so that the same identifier always finds the same record.
/// Identifiers longer than `MAX_ID_LEN` bytes are refused.
pub fn derive_account_key(tag: &[u8], external_id: &str) -> (r: Result<[u8; 32], ErrorCode>)
    ensures
        external_id.spec_bytes().len() > MAX_ID_LEN ==> r == Err::<[u8; 32], ErrorCode>(
            ErrorCode::UserIdTooLong,
        ),
        external_id.spec_bytes().len() <= MAX_ID_LEN ==> (r matches Ok(k) && k@ == derived_key(
            tag@,
            external_id.spec_bytes(),
        )),
{
    let id_bytes = external_id.as_bytes();
    if id_bytes.len() > MAX_ID_LEN {
        return Err(ErrorCode::UserIdTooLong);
    }
    let id_hash = sha256(id_bytes);
    let mut seed: Vec<u8> = Vec::new();
    let mut i: usize = 0;
    assert(seed@ =~= tag@.subrange(0, 0));
    while i < tag.len()
        invariant
            0 <= i <= tag@.len(),
            seed@ == tag@.subrange(0, i as int),
        decreases tag@.len() - i,
    {
        seed.push(tag[i]);
        i = i + 1;
        assert(seed@ =~= tag@.subrange(0, i as int));
    }
    let mut j: usize = 0;
    assert(tag@.subrange(0, tag@.len() as int) =~= tag@);
    assert(seed@ =~= tag@ + id_hash@.subrange(0, 0));
    while j < 32
        invariant
            0 <= j <= 32,
            id_hash@.len() == 32,
            seed@ == tag@ + id_hash@.subrange(0, j as int),
        decreases 32 - j,
    {
        seed.push(id_hash[j]);
        j = j + 1;
        assert(seed@ =~= tag@ + id_hash@.subrange(0, j as int));
    }
    assert(id_hash@.subrange(0, 32) =~= id_hash@);
    let key = sha256(seed.as_slice());
    Ok(key)
}

} // verus!
