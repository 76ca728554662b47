//! The calls this library makes into other crates, each with the contract
//! that the proofs rely on.
use vstd::prelude::*;
use rand::{Rng, SeedableRng};
use rand::seq::{IteratorRandom, SliceRandom};
use dryoc::types::NewByteArray;

verus! {

/// `rand::rngs::StdRng`, a generator seeded from the operating system; its
/// state is not modelled.
#[verifier::external_type_specification]
#[verifier::external_body]
pub struct ExStdRng(rand::rngs::StdRng);

/// `lru::LruCache`; what it holds is given by `lru_keys` and
/// `lru_capacity`.
#[verifier::external_type_specification]
#[verifier::external_body]
#[verifier::reject_recursive_types(K)]
#[verifier::reject_recursive_types(V)]
#[verifier::reject_recursive_types(S)]
pub struct ExLruCache<K, V, S>(lru::LruCache<K, V, S>);

/// `lru::DefaultHasher`, the cache's default hasher.
#[verifier::external_type_specification]
#[verifier::external_body]
pub struct ExLruHasher(lru::DefaultHasher);

/// Keys of an LRU cache, most recently used first.
pub uninterp spec fn lru_keys(c: lru::LruCache<u128, ()>) -> Seq<u128>;

/// The capacity an LRU cache was made with.
pub uninterp spec fn lru_capacity(c: lru::LruCache<u128, ()>) -> nat;

/// `lru::LruCache::new`: an empty cache holding at most `cap` keys.
#[verifier::external_body]
pub(crate) fn lru_new(cap: usize) -> (r: lru::LruCache<u128, ()>)
    ensures
        lru_keys(r) == Seq::<u128>::empty(),
        lru_capacity(r) == cap,
{
    lru::LruCache::new(cap)
}

} // verus!

verus! {

/// `lru::LruCache::put` for a key with the unit value: the key moves to the
/// front; a new key is dropped by a cache of capacity zero and otherwise
/// goes to the front, evicting the least recently used key when full.
pub open spec fn lru_after_put(keys: Seq<u128>, cap: nat, k: u128) -> Seq<u128> {
    if keys.contains(k) {
        seq![k] + keys.remove(keys.index_of(k))
    } else if cap == 0 {
        keys
    } else if keys.len() >= cap {
        seq![k] + keys.drop_last()
    } else {
        seq![k] + keys
    }
}

/// `lru::LruCache::put`: the cache's keys change as `lru_after_put` says;
/// its capacity stays.
#[verifier::external_body]
pub(crate) fn lru_put(c: &mut lru::LruCache<u128, ()>, k: u128)
    ensures
        lru_keys(*final(c)) == lru_after_put(lru_keys(*old(c)), lru_capacity(*old(c)), k),
        lru_capacity(*final(c)) == lru_capacity(*old(c)),
{
    c.put(k, ());
}

/// `lru::LruCache::contains`: whether `k` is among the cache's keys. It does
/// not change the recency order.
#[verifier::external_body]
pub(crate) fn lru_contains(c: &lru::LruCache<u128, ()>, k: u128) -> (r: bool)
    ensures
        r == lru_keys(*c).contains(k),
{
    c.contains(&k)
}

/// `uuid::Uuid::new_v4`, as its 128-bit big-endian value: random, with the
/// version nibble set to 4 and the variant bits set to `10`.
#[verifier::external_body]
pub(crate) fn new_uuid() -> (r: u128)
    ensures
        (r >> 76u128) & 0xfu128 == 4u128,
        (r >> 62u128) & 0x3u128 == 2u128,
{
    uuid::Uuid::new_v4().as_u128()
}

/// `dryoc::rng::randombytes_buf`: `len` bytes from the operating system's
/// random source (it panics if that source fails; nothing else is said of
/// the bytes).
#[verifier::external_body]
pub(crate) fn random_bytes(len: usize) -> (r: Vec<u8>)
    ensures
        r.len() == len,
{
    dryoc::rng::randombytes_buf(len)
}

/// `dryoc::types::NewByteArray::generate` for a 24-byte array: a nonce of
/// random bytes. Nothing is stated of its bytes.
#[verifier::external_body]
pub(crate) fn new_nonce() -> (r: [u8; 24]) {
    <[u8; 24] as NewByteArray<24>>::generate()
}

/// The curve25519 public key of a secret key: the scalar multiplication of
/// the base point by it.
pub uninterp spec fn x25519_public(secret_key: Seq<u8>) -> Seq<u8>;

/// `dryoc::keypair::KeyPair::generate`: a fresh key pair of random secret
/// key, whose public key is computed from the secret key
/// (`crypto_scalarmult_curve25519_base`). Nothing else is stated of its bytes.
#[verifier::external_body]
pub(crate) fn generate_keypair() -> (r: crate::peer::KeyPair)
    ensures
        r.public_key@ == x25519_public(r.secret_key@),
{
    let kp = dryoc::keypair::KeyPair::<[u8; 32], [u8; 32]>::generate();
    crate::peer::KeyPair { public_key: kp.public_key, secret_key: kp.secret_key }
}

/// The 64-byte BLAKE2b digest of `data`, keyed with `key` when one is given.
pub uninterp spec fn blake2b_512(key: Option<Seq<u8>>, data: Seq<u8>) -> Seq<u8>;

/// The key argument of `generic_hash` as a plain value.
pub open spec fn key_view(key: Option<&[u8; 64]>) -> Option<Seq<u8>> {
    match key {
        Some(k) => Some(k@),
        None => None,
    }
}

/// `dryoc::generichash::GenericHash::<64, 64>::hash`: BLAKE2b with a 64-byte
/// output and an optional 64-byte key. Both lengths are within the ranges the
/// function accepts, so it does not fail.
#[verifier::external_body]
pub(crate) fn generic_hash(data: &[u8], key: Option<&[u8; 64]>) -> (r: [u8; 64])
    ensures
        r@ == blake2b_512(key_view(key), data@),
{
    dryoc::generichash::GenericHash::<64, 64>::hash::<[u8; 64], [u8], [u8; 64]>(data, key).expect(
        "hash failed",
    )
}

/// The box (tag followed by ciphertext) that authenticated public-key
/// encryption makes of `message`, or `None` where it refuses the inputs.
pub uninterp spec fn box_seal(
    message: Seq<u8>,
    nonce: Seq<u8>,
    recipient_public_key: Seq<u8>,
    sender_secret_key: Seq<u8>,
) -> Option<Seq<u8>>;

/// The message that a box opens to, or `None` where it does not open.
pub uninterp spec fn box_open(
    boxed: Seq<u8>,
    nonce: Seq<u8>,
    sender_public_key: Seq<u8>,
    recipient_secret_key: Seq<u8>,
) -> Option<Seq<u8>>;

/// `dryoc::dryocbox::VecBox::encrypt_to_vecbox` followed by `to_vec`: the
/// box as bytes, or `None` where encryption returns an error.
#[verifier::external_body]
pub(crate) fn seal_box(
    message: &[u8],
    nonce: &[u8; 24],
    recipient_public_key: &[u8; 32],
    sender_secret_key: &[u8; 32],
) -> (r: Option<Vec<u8>>)
    ensures
        match r {
            Some(c) => box_seal(message@, nonce@, recipient_public_key@, sender_secret_key@) == Some(
                c@,
            ),
            None => box_seal(message@, nonce@, recipient_public_key@, sender_secret_key@) is None,
        },
{
    match dryoc::dryocbox::VecBox::encrypt_to_vecbox(
        message,
        nonce,
        recipient_public_key,
        sender_secret_key,
    ) {
        Ok(b) => Some(b.to_vec()),
        Err(_) => None,
    }
}

/// `dryoc::dryocbox::VecBox::from_bytes` followed by `decrypt_to_vec`: the
/// opened message, or `None` where either returns an error. A box that the
/// holder of the sender's key pair sealed for the recipient's public key
/// opens to the sealed message: both sides derive the same shared key
/// (curve25519 Diffie-Hellman), and authenticated decryption inverts
/// encryption.
#[verifier::external_body]
pub(crate) fn open_box(
    boxed: &[u8],
    nonce: &[u8; 24],
    sender_public_key: &[u8; 32],
    recipient_secret_key: &[u8; 32],
) -> (r: Option<Vec<u8>>)
    ensures
        match r {
            Some(m) => box_open(boxed@, nonce@, sender_public_key@, recipient_secret_key@) == Some(
                m@,
            ),
            None => box_open(boxed@, nonce@, sender_public_key@, recipient_secret_key@) is None,
        },
        match r {
            Some(opened) => forall|m: Seq<u8>, sender_secret_key: Seq<u8>|
                x25519_public(sender_secret_key) == sender_public_key@ && #[trigger] box_seal(
                    m,
                    nonce@,
                    x25519_public(recipient_secret_key@),
                    sender_secret_key,
                ) == Some(boxed@) ==> opened@ == m,
            None => forall|m: Seq<u8>, sender_secret_key: Seq<u8>|
                !(x25519_public(sender_secret_key) == sender_public_key@ && #[trigger] box_seal(
                    m,
                    nonce@,
                    x25519_public(recipient_secret_key@),
                    sender_secret_key,
                ) == Some(boxed@)),
        },
{
    match dryoc::dryocbox::VecBox::from_bytes(boxed) {
        Ok(b) => match b.decrypt_to_vec(nonce, sender_public_key, recipient_secret_key) {
            Ok(m) => Some(m),
            Err(_) => None,
        },
        Err(_) => None,
    }
}

/// `chrono::Utc::now` as nanoseconds since the Unix epoch. The clock is read;
/// nothing is stated of the value (chrono panics past the year 2262).
#[verifier::external_body]
#[allow(deprecated)]
pub(crate) fn now_nanos() -> (r: i64) {
    chrono::Utc::now().timestamp_nanos()
}

/// `rand::SeedableRng::from_entropy` for `StdRng`: a generator seeded from the
/// operating system.
#[verifier::external_body]
pub(crate) fn new_std_rng() -> (r: rand::rngs::StdRng) {
    rand::rngs::StdRng::from_entropy()
}

/// `rand::Rng::gen_range` on `low..high`: a value in that range (the call
/// panics on an empty range, which `requires` excludes).
#[verifier::external_body]
pub(crate) fn gen_range_u64(rng: &mut rand::rngs::StdRng, low: u64, high: u64) -> (r: u64)
    requires
        low < high,
    ensures
        low <= r < high,
{
    rng.gen_range(low..high)
}

/// `r` lists items of `items` taken from pairwise different positions.
pub open spec fn picks_distinct_positions(r: Seq<u128>, items: Seq<u128>) -> bool {
    exists|pos: Seq<int>|
        {
            &&& pos.len() == r.len()
            &&& pos.no_duplicates()
            &&& forall|i: int|
                0 <= i < r.len() ==> 0 <= #[trigger] pos[i] < items.len() && r[i] == items[pos[i]]
        }
}

pub open spec fn min_len(a: nat, b: nat) -> nat {
    if a < b { a } else { b }
}

/// The items that `rand::seq::IteratorRandom::choose_multiple` picks from
/// `items`, for `amount`, with a `rand_chacha::ChaCha8Rng` freshly seeded
/// with `seed`.
pub uninterp spec fn chacha_choose(seed: u64, items: Seq<u128>, amount: nat) -> Seq<u128>;

/// `rand_chacha::ChaCha8Rng::seed_from_u64(seed)`, then
/// `rand::seq::IteratorRandom::choose_multiple` over the items with that
/// generator: reservoir sampling of `min(amount, items.len())` items from
/// distinct positions; when there are no more items than `amount`, all of
/// them in their order. The same seed, items and amount give the same
/// choice.
#[verifier::external_body]
pub(crate) fn choose_seeded(seed: u64, items: &Vec<u128>, amount: usize) -> (r: Vec<u128>)
    ensures
        r@ == chacha_choose(seed, items@, amount as nat),
        r.len() == min_len(amount as nat, items@.len()),
        picks_distinct_positions(r@, items@),
        items.len() <= amount ==> r@ == items@,
{
    let mut rng = rand_chacha::ChaCha8Rng::seed_from_u64(seed);
    items.iter().cloned().choose_multiple(&mut rng, amount)
}

/// The ids of weighted items.
pub open spec fn weighted_ids(items: Seq<(u128, u32)>) -> Seq<u128> {
    items.map_values(|p: (u128, u32)| p.0)
}

/// The ids that `rand::seq::SliceRandom::choose_multiple_weighted` picks from
/// `items` (each weighted by its second component), for `amount`, with a
/// `rand_chacha::ChaCha8Rng` freshly seeded with `seed`.
pub uninterp spec fn chacha_choose_weighted(seed: u64, items: Seq<(u128, u32)>, amount: nat) -> Seq<
    u128,
>;

/// `rand_chacha::ChaCha8Rng::seed_from_u64(seed)`, then
/// `rand::seq::SliceRandom::choose_multiple_weighted` with that generator and
/// each item's weight its second component: the ids of
/// `min(amount, items.len())` items from distinct positions. Weights are
/// non-negative, so the call does not fail. The same seed, items and amount
/// give the same choice.
#[verifier::external_body]
pub(crate) fn choose_weighted_seeded(seed: u64, items: &Vec<(u128, u32)>, amount: usize) -> (r: Vec<
    u128,
>)
    ensures
        r@ == chacha_choose_weighted(seed, items@, amount as nat),
        r.len() == min_len(amount as nat, items@.len()),
        picks_distinct_positions(r@, weighted_ids(items@)),
{
    let mut rng = rand_chacha::ChaCha8Rng::seed_from_u64(seed);
    items.as_slice().choose_multiple_weighted(&mut rng, amount, |p| p.1).expect(
        "weighted choose failed",
    ).map(|p| p.0).collect()
}

} // verus!
