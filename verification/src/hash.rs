use vstd::prelude::*;

verus! {

/// The Meow hash of the bytes under a seed of 128 bytes, folded into 128
/// bits.
pub uninterp spec fn meow_hash_of(seed: Seq<u8>, bytes: Seq<u8>) -> u128;

/// The seed that is taken where none is given.
pub open spec fn default_seed() -> Seq<u8> {
    seq![
        0x32u8, 0x43u8, 0xf6u8, 0xa8u8, 0x88u8, 0x5au8, 0x30u8, 0x8du8,
        0x31u8, 0x31u8, 0x98u8, 0xa2u8, 0xe0u8, 0x37u8, 0x07u8, 0x34u8,
        0x4au8, 0x40u8, 0x93u8, 0x82u8, 0x22u8, 0x99u8, 0xf3u8, 0x1du8,
        0x00u8, 0x82u8, 0xefu8, 0xa9u8, 0x8eu8, 0xc4u8, 0xe6u8, 0xc8u8,
        0x94u8, 0x52u8, 0x82u8, 0x1eu8, 0x63u8, 0x8du8, 0x01u8, 0x37u8,
        0x7bu8, 0xe5u8, 0x46u8, 0x6cu8, 0xf3u8, 0x4eu8, 0x90u8, 0xc6u8,
        0xccu8, 0x0au8, 0xc2u8, 0x9bu8, 0x7cu8, 0x97u8, 0xc5u8, 0x0du8,
        0xd3u8, 0xf8u8, 0x4du8, 0x5bu8, 0x5bu8, 0x54u8, 0x70u8, 0x91u8,
        0x79u8, 0x21u8, 0x6du8, 0x5du8, 0x98u8, 0x97u8, 0x9fu8, 0xb1u8,
        0xbdu8, 0x13u8, 0x10u8, 0xbau8, 0x69u8, 0x8du8, 0xfbu8, 0x5au8,
        0xc2u8, 0xffu8, 0xd7u8, 0x2du8, 0xbdu8, 0x01u8, 0xadu8, 0xfbu8,
        0x7bu8, 0x8eu8, 0x1au8, 0xfeu8, 0xd6u8, 0xa2u8, 0x67u8, 0xe9u8,
        0x6bu8, 0xa7u8, 0xc9u8, 0x04u8, 0x5fu8, 0x12u8, 0xc7u8, 0xf9u8,
        0x92u8, 0x4au8, 0x19u8, 0x94u8, 0x7bu8, 0x39u8, 0x16u8, 0xcfu8,
        0x70u8, 0x80u8, 0x1fu8, 0x2eu8, 0x28u8, 0x58u8, 0xefu8, 0xc1u8,
        0x66u8, 0x36u8, 0x92u8, 0x0du8, 0x87u8, 0x15u8, 0x74u8, 0xe6u8,
    ]
}

/// The seed that a hash is made under: the one given, or the default one.
pub open spec fn seed_or_default(seed: Option<[u8; 128]>) -> Seq<u8> {
    match seed {
        Some(given) => given@,
        None => default_seed(),
    }
}

/// `meowhash::MeowHash::default_seed` as bytes, by `MeowHash::into_bytes`:
/// the 128 bytes that the crate holds as its default seed.
#[verifier::external_body]
fn default_seed_bytes() -> (seed: [u8; 128])
    ensures
        seed@ == default_seed(),
{
    meowhash::MeowHash::default_seed().into_bytes()
}

/// Hashes the bytes with `meowhash::MeowHasher`, seeded by `with_seed` with
/// the seed that `MeowHash::from_bytes` makes of the 128 bytes, fed through
/// `digest::Digest::update`, closed by `finalise` and folded by
/// `MeowHash::as_u128`. What comes out depends on the seed and the bytes
/// alone.
#[verifier::external_body]
fn hash_under_seed(seed: [u8; 128], bytes: &[u8]) -> (hash: u128)
    ensures
        hash == meow_hash_of(seed@, bytes@),
{
    let mut hasher = meowhash::MeowHasher::with_seed(meowhash::MeowHash::from_bytes(seed));
    digest::Digest::update(&mut hasher, bytes);
    hasher.finalise().as_u128()
}

/// The Meow hash of the bytes under the given seed, or under the default
/// seed where none is given.
pub fn meow_hash(seed: Option<[u8; 128]>, bytes: &[u8]) -> (hash: u128)
    ensures
        hash == meow_hash_of(seed_or_default(seed), bytes@),
{
    match seed {
        Some(given) => hash_under_seed(given, bytes),
        None => hash_under_seed(default_seed_bytes(), bytes),
    }
}

/// No seed is the default seed: where no seed is given, the hash is the one
/// under the default seed.
pub proof fn lemma_no_seed_is_the_default_seed(seed: [u8; 128], bytes: Seq<u8>)
    requires
        seed@ == default_seed(),
    ensures
        meow_hash_of(seed_or_default(Some(seed)), bytes) == meow_hash_of(
            seed_or_default(None),
            bytes,
        ),
{
}

} // verus!
