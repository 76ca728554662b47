//! Byte-string helpers: comparison, concatenation and decimal formatting.
use vstd::prelude::*;

verus! {

/// Whether two byte strings are equal.
pub fn bytes_eq(a: &[u8], b: &[u8]) -> (r: bool)
    ensures
        r == (a@ == b@),
{
    if a.len() != b.len() {
        return false;
    }
    let mut i: usize = 0;
    while i < a.len()
        invariant
            a@.len() == b@.len(),
            i <= a@.len(),
            forall|j: int| 0 <= j < i ==> a@[j] == b@[j],
        decreases a@.len() - i,
    {
        if a[i] != b[i] {
            return false;
        }
        i = i + 1;
    }
    assert(a@ =~= b@);
    true
}

/// Appends `src` to `dst`.
pub fn append_bytes(dst: &mut Vec<u8>, src: &[u8])
    ensures
        final(dst)@ == old(dst)@ + src@,
{
    let mut i: usize = 0;
    let ghost start = dst@;
    while i < src.len()
        invariant
            i <= src@.len(),
            dst@ == start + src@.subrange(0, i as int),
        decreases src@.len() - i,
    {
        dst.push(src[i]);
        i = i + 1;
        assert(dst@ =~= start + src@.subrange(0, i as int));
    }
    assert(src@.subrange(0, src@.len() as int) =~= src@);
}

/// A copy of `src`.
pub fn copy_bytes(src: &[u8]) -> (r: Vec<u8>)
    ensures
        r@ == src@,
{
    let mut r: Vec<u8> = Vec::new();
    append_bytes(&mut r, src);
    assert(r@ =~= src@);
    r
}

/// A copy of a list of byte strings.
pub fn copy_byte_lists(src: &Vec<Vec<u8>>) -> (r: Vec<Vec<u8>>)
    ensures
        r.len() == src.len(),
        forall|i: int| 0 <= i < src.len() ==> #[trigger] r[i]@ == src[i]@,
{
    let mut r: Vec<Vec<u8>> = Vec::new();
    let mut i: usize = 0;
    while i < src.len()
        invariant
            i <= src.len(),
            r.len() == i,
            forall|j: int| 0 <= j < i ==> #[trigger] r[j]@ == src[j]@,
        decreases src.len() - i,
    {
        r.push(copy_bytes(src[i].as_slice()));
        i = i + 1;
    }
    r
}

/// The ASCII decimal digits of `n`, most significant first.
pub open spec fn decimal_digits(n: nat) -> Seq<u8>
    decreases n,
{
    if n < 10 {
        seq![(48 + n) as u8]
    } else {
        decimal_digits(n / 10).push((48 + n % 10) as u8)
    }
}

/// The decimal text of `v` (a leading `-` for negative values), as ASCII
/// bytes.
pub open spec fn decimal_i64(v: i64) -> Seq<u8> {
    if v < 0 {
        seq![45u8] + decimal_digits((-v) as nat)
    } else {
        decimal_digits(v as nat)
    }
}

/// Appends the decimal digits of `n`.
fn push_digits(n: u64, out: &mut Vec<u8>)
    ensures
        final(out)@ == old(out)@ + decimal_digits(n as nat),
    decreases n,
{
    if n >= 10 {
        push_digits(n / 10, out);
    }
    out.push((48 + n % 10) as u8);
    proof {
        if n >= 10 {
            assert(final(out)@ =~= old(out)@ + decimal_digits(n as nat));
        } else {
            assert(final(out)@ =~= old(out)@ + decimal_digits(n as nat));
        }
    }
}

/// The decimal text of `v`, as `i64::to_string` writes it.
pub fn decimal_bytes(v: i64) -> (r: Vec<u8>)
    ensures
        r@ == decimal_i64(v),
{
    let mut out: Vec<u8> = Vec::new();
    if v < 0 {
        out.push(45u8);
        let m: u64 = (-(v as i128)) as u64;
        push_digits(m, &mut out);
        assert(out@ =~= decimal_i64(v));
    } else {
        push_digits(v as u64, &mut out);
        assert(out@ =~= decimal_i64(v));
    }
    out
}

} // verus!

verus! {

/// The decimal text of a number has at least one digit, starts with a
/// digit, and has more than one digit exactly from ten on.
proof fn lemma_decimal_digits_shape(n: nat)
    ensures
        decimal_digits(n).len() >= 1,
        n >= 10 ==> decimal_digits(n).len() >= 2,
        48 <= decimal_digits(n)[0] <= 57,
    decreases n,
{
    if n >= 10 {
        lemma_decimal_digits_shape(n / 10);
        assert(decimal_digits(n)[0] == decimal_digits(n / 10)[0]);
    }
}

/// Different numbers have different decimal texts.
pub proof fn lemma_decimal_digits_injective(a: nat, b: nat)
    requires
        decimal_digits(a) == decimal_digits(b),
    ensures
        a == b,
    decreases a,
{
    lemma_decimal_digits_shape(a);
    lemma_decimal_digits_shape(b);
    let da = decimal_digits(a);
    if a < 10 {
        assert(b < 10);
        assert(da[0] == (48 + a) as u8);
    } else {
        assert(b >= 10);
        assert(da.last() == (48 + a % 10) as u8);
        assert(decimal_digits(b).last() == (48 + b % 10) as u8);
        assert(da.drop_last() == decimal_digits(a / 10));
        assert(decimal_digits(b).drop_last() == decimal_digits(b / 10));
        lemma_decimal_digits_injective(a / 10, b / 10);
    }
}

/// Different `i64` values have different decimal texts.
pub proof fn lemma_decimal_i64_injective(v: i64, w: i64)
    requires
        decimal_i64(v) == decimal_i64(w),
    ensures
        v == w,
{
    if v < 0 {
        lemma_decimal_digits_shape((-w) as nat);
        lemma_decimal_digits_shape((-v) as nat);
        assert(decimal_i64(v)[0] == 45u8);
        if w >= 0 {
            lemma_decimal_digits_shape(w as nat);
            assert(decimal_i64(w)[0] == decimal_digits(w as nat)[0]);
        } else {
            assert(decimal_i64(v).drop_first() =~= decimal_digits((-v) as nat));
            assert(decimal_i64(w).drop_first() =~= decimal_digits((-w) as nat));
            lemma_decimal_digits_injective((-v) as nat, (-w) as nat);
        }
    } else {
        lemma_decimal_digits_shape(v as nat);
        if w < 0 {
            assert(decimal_i64(w)[0] == 45u8);
            assert(decimal_i64(v)[0] == decimal_digits(v as nat)[0]);
        } else {
            lemma_decimal_digits_injective(v as nat, w as nat);
        }
    }
}

} // verus!
