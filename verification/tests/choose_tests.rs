use rand::seq::SliceRandom;
use rand::SeedableRng;
use rand_chacha::ChaCha8Rng;

#[test]
fn test_choose() {
    let mut rng = ChaCha8Rng::seed_from_u64(69);
    let sample = "Hello, audience!".as_bytes();

    // collect the results into a vector:
    let v: Vec<u8> = sample.choose_multiple(&mut rng, 4).cloned().collect();

    assert_eq!(v, &[101, 99, 33, 32]);
}
