//! Canonical associated data of a sealed record. It is recomputed when the record is opened and
//! never stored: a ciphertext moved to another table, row, version or key generation no longer
//! authenticates.
use vstd::prelude::*;
use crate::codec::push_be_i64;

verus! {

/// The table that a sealed record belongs to.
#[derive(Clone, Copy, Debug, PartialEq, Eq, Structural)]
pub enum TableTag {
    SecretVersion,
    CaKey,
    Cert,
    HmacKey,
}

impl TableTag {
    /// The number that stands for the table.
    pub open spec fn code(self) -> u8 {
        match self {
            TableTag::SecretVersion => 1,
            TableTag::CaKey => 2,
            TableTag::Cert => 3,
            TableTag::HmacKey => 4,
        }
    }

    fn byte(self) -> (b: u8)
        ensures
            b == self.code(),
    {
        match self {
            TableTag::SecretVersion => 1,
            TableTag::CaKey => 2,
            TableTag::Cert => 3,
            TableTag::HmacKey => 4,
        }
    }
}

/// The table tag, then row id, version and key generation as eight big-endian bytes each.
pub open spec fn record_aad_bytes(
    tag: TableTag,
    row_id: i64,
    version: i64,
    dek_generation: i64,
) -> Seq<u8> {
    seq![tag.code()] + (crate::codec::be_i64(row_id) + (crate::codec::be_i64(version)
        + crate::codec::be_i64(dek_generation)))
}

/// Canonical associated data for one record. Fixed-width, big-endian, tag-prefixed.
pub fn record_aad(tag: TableTag, row_id: i64, version: i64, dek_generation: i64) -> (aad: Vec<u8>)
    ensures
        aad@ == record_aad_bytes(tag, row_id, version, dek_generation),
        aad@.len() == 25,
{
    let mut aad: Vec<u8> = Vec::new();
    aad.push(tag.byte());
    push_be_i64(&mut aad, row_id);
    push_be_i64(&mut aad, version);
    push_be_i64(&mut aad, dek_generation);
    assert(aad@ =~= record_aad_bytes(tag, row_id, version, dek_generation));
    aad
}

/// No two records share their associated data: it determines the table, the row, the version and
/// the key generation.
pub proof fn law_record_aad_is_unique(
    tag1: TableTag,
    row1: i64,
    version1: i64,
    generation1: i64,
    tag2: TableTag,
    row2: i64,
    version2: i64,
    generation2: i64,
)
    requires
        record_aad_bytes(tag1, row1, version1, generation1) == record_aad_bytes(
            tag2,
            row2,
            version2,
            generation2,
        ),
    ensures
        tag1 == tag2,
        row1 == row2,
        version1 == version2,
        generation1 == generation2,
{
    let r1 = crate::codec::be_i64(row1);
    let r2 = crate::codec::be_i64(row2);
    let v1 = crate::codec::be_i64(version1);
    let v2 = crate::codec::be_i64(version2);
    let g1 = crate::codec::be_i64(generation1);
    let g2 = crate::codec::be_i64(generation2);
    crate::codec::lemma_split(
        seq![tag1.code()],
        r1 + (v1 + g1),
        seq![tag2.code()],
        r2 + (v2 + g2),
    );
    assert(seq![tag1.code()][0] == seq![tag2.code()][0]);
    crate::codec::lemma_split(r1, v1 + g1, r2, v2 + g2);
    crate::codec::lemma_split(v1, g1, v2, g2);
    crate::codec::lemma_be_i64_injective(row1, row2);
    crate::codec::lemma_be_i64_injective(version1, version2);
    crate::codec::lemma_be_i64_injective(generation1, generation2);
}

} // verus!
