//! Packed validity bitmasks: bit `i` (least significant bit first within
//! each byte) tells whether row `i` holds a value (1) or is null (0).

use vstd::prelude::*;

verus! {

/// Bit `k` (0 = least significant) of byte `b`.
pub open spec fn byte_bit(b: u8, k: u8) -> bool {
    (b >> k) & 1u8 == 1u8
}

/// Bit `i` of a packed mask; rows past the end of the mask read as 0.
pub open spec fn mask_bit(m: Seq<u8>, i: int) -> bool {
    0 <= i && i / 8 < m.len() && byte_bit(m[i / 8], (i % 8) as u8)
}

/// Validity of row `i` under an optional mask: no mask means every row is valid.
pub open spec fn mask_valid(mask: Option<Vec<u8>>, i: int) -> bool {
    match mask {
        None => true,
        Some(bits) => mask_bit(bits@, i),
    }
}

/// Number of bytes needed to hold `n` bits.
pub open spec fn bytes_for(n: int) -> int {
    (n + 7) / 8
}

pub proof fn lemma_set_bit(b: u8, k: u8, j: u8)
    requires
        k < 8,
        j < 8,
    ensures
        byte_bit(b | (1u8 << k), j) <==> (j == k || byte_bit(b, j)),
{
    assert(((b | (1u8 << k)) >> j) & 1u8 == 1u8 <==> (j == k || (b >> j) & 1u8 == 1u8))
        by (bit_vector)
        requires
            k < 8,
            j < 8,
    ;
}

pub proof fn lemma_zero_bit(j: u8)
    requires
        j < 8,
    ensures
        !byte_bit(0u8, j),
{
    assert((0u8 >> j) & 1u8 != 1u8) by (bit_vector);
}

pub proof fn lemma_test_bit(b: u8, k: u8)
    requires
        k < 8,
    ensures
        (b & (1u8 << k) != 0u8) <==> byte_bit(b, k),
{
    assert((b & (1u8 << k) != 0u8) <==> ((b >> k) & 1u8 == 1u8))
        by (bit_vector)
        requires
            k < 8,
    ;
}

/// A mask of `n` zero bytes: every row null.
fn zero_mask(n: usize) -> (m: Vec<u8>)
    ensures
        m@.len() == n,
        forall|i: int| 0 <= i < n ==> m@[i] == 0u8,
{
    let mut m: Vec<u8> = Vec::new();
    let mut k: usize = 0;
    while k < n
        invariant
            k <= n,
            m@.len() == k,
            forall|i: int| 0 <= i < k ==> m@[i] == 0u8,
        decreases n - k,
    {
        m.push(0u8);
        k = k + 1;
    }
    m
}

/// Sets bit `row` of `m` to 1, leaving every other bit unchanged.
pub(crate) fn set_mask_bit(m: &mut Vec<u8>, row: usize)
    requires
        row / 8 < old(m)@.len(),
    ensures
        final(m)@.len() == old(m)@.len(),
        forall|i: int| mask_bit(final(m)@, i) <==> (i == row || mask_bit(old(m)@, i)),
{
    let byte_idx = row / 8;
    let bit_idx = (row % 8) as u8;
    let old_byte = m[byte_idx];
    m.set(byte_idx, old_byte | (1u8 << bit_idx));
    proof {
        assert forall|i: int| mask_bit(m@, i) <==> (i == row || mask_bit(old(m)@, i)) by {
            if 0 <= i && i / 8 < m@.len() {
                lemma_set_bit(old_byte, bit_idx, (i % 8) as u8);
                if i / 8 == byte_idx as int {
                    assert(i == row <==> (i % 8) as u8 == bit_idx);
                }
            }
        }
    }
}

/// A mask of `n` rows, all null.
pub(crate) fn empty_mask(n: usize) -> (m: Vec<u8>)
    ensures
        m@.len() == bytes_for(n as int),
        forall|i: int| !mask_bit(m@, i),
{
    let m = zero_mask(n / 8 + if n % 8 == 0 { 0 } else { 1 });
    proof {
        assert forall|i: int| !mask_bit(m@, i) by {
            if 0 <= i && i / 8 < m@.len() {
                lemma_zero_bit((i % 8) as u8);
            }
        }
    }
    m
}

/// Splits a sequence of optional values into a dense data vector and a
/// validity mask. Null slots are filled with a clone of `default`. When no
/// value is null the mask is dropped (`None`), since a missing mask already
/// means every row is valid.
pub fn collect_with_validity<T: Clone>(items: Vec<Option<T>>, default: T) -> (res: (Vec<T>, Option<Vec<u8>>))
    ensures
        res.0@.len() == items@.len(),
        forall|i: int| #![trigger res.0@[i]] 0 <= i < items@.len() ==> (items@[i] matches Some(v) ==> res.0@[i] == v),
        forall|i: int| 0 <= i < items@.len() ==> (items@[i] is None ==> cloned(default, res.0@[i])),
        res.1 is Some <==> exists|i: int| 0 <= i < items@.len() && items@[i] is None,
        res.1 matches Some(m) ==> m@.len() == bytes_for(items@.len() as int),
        forall|i: int| 0 <= i < items@.len() ==> (mask_valid(res.1, i) <==> items@[i] is Some),
        res.1 matches Some(m) ==> forall|i: int| #[trigger] mask_bit(m@, i) <==> (0 <= i < items@.len() && items@[i] is Some),
{
    let ghost src = items@;
    let n = items.len();
    let mut data: Vec<T> = Vec::new();
    let mut validity = empty_mask(n);
    let mut has_nulls = false;
    let mut k: usize = 0;
    for opt in it: items
        invariant
            n == src.len(),
            it.seq() == src,
            k == it.index(),
            k <= n,
            data@.len() == k,
            validity@.len() == bytes_for(n as int),
            forall|i: int| #![trigger data@[i]] 0 <= i < k ==> (src[i] matches Some(v) ==> data@[i] == v),
            forall|i: int| 0 <= i < k ==> (src[i] is None ==> cloned(default, data@[i])),
            has_nulls <==> exists|i: int| 0 <= i < k && src[i] is None,
            forall|i: int| mask_bit(validity@, i) <==> (0 <= i < k && src[i] is Some),
    {
        let ghost before = validity@;
        match opt {
            Some(v) => {
                data.push(v);
                set_mask_bit(&mut validity, k);
            },
            None => {
                data.push(default.clone());
                has_nulls = true;
            },
        }
        k = k + 1;
    }
    if has_nulls {
        (data, Some(validity))
    } else {
        (data, None)
    }
}

pub proof fn lemma_and_bit(a: u8, b: u8, j: u8)
    requires
        j < 8,
    ensures
        byte_bit(a & b, j) <==> (byte_bit(a, j) && byte_bit(b, j)),
{
    assert(((a & b) >> j) & 1u8 == 1u8 <==> ((a >> j) & 1u8 == 1u8 && (b >> j) & 1u8 == 1u8)) by (bit_vector)
        requires
            j < 8,
    ;
}

pub proof fn lemma_full_bit(j: u8)
    requires
        j < 8,
    ensures
        byte_bit(0xFFu8, j),
{
    assert((0xFFu8 >> j) & 1u8 == 1u8) by (bit_vector)
        requires
            j < 8,
    ;
}

pub proof fn lemma_clear_bit(b: u8, k: u8, j: u8)
    requires
        k < 8,
        j < 8,
    ensures
        byte_bit(b & !(1u8 << k), j) <==> (j != k && byte_bit(b, j)),
{
    assert(((b & !(1u8 << k)) >> j) & 1u8 == 1u8 <==> (j != k && (b >> j) & 1u8 == 1u8)) by (bit_vector)
        requires
            k < 8,
            j < 8,
    ;
}

pub proof fn lemma_low_bits(b: u8, r: u8, j: u8)
    requires
        0 < r < 8,
        j < 8,
    ensures
        (1u8 << r) >= 1u8,
        byte_bit(b & (((1u8 << r) - 1u8) as u8), j) <==> (j < r && byte_bit(b, j)),
{
    assert((1u8 << r) >= 1u8) by (bit_vector)
        requires
            0 < r < 8,
    ;
    assert(((b & (((1u8 << r) - 1u8) as u8)) >> j) & 1u8 == 1u8 <==> (j < r && (b >> j) & 1u8 == 1u8)) by (bit_vector)
        requires
            0 < r < 8,
            j < 8,
    ;
}

/// A mask of `n` bytes with every bit set.
pub(crate) fn full_mask(n: usize) -> (m: Vec<u8>)
    ensures
        m@.len() == n,
        forall|i: int| #[trigger] mask_bit(m@, i) <==> 0 <= i < 8 * n,
{
    let mut m: Vec<u8> = Vec::new();
    let mut k: usize = 0;
    while k < n
        invariant
            k <= n,
            m@.len() == k,
            forall|i: int| 0 <= i < k ==> m@[i] == 0xFFu8,
        decreases n - k,
    {
        m.push(0xFFu8);
        k = k + 1;
    }
    proof {
        assert forall|i: int| #[trigger] mask_bit(m@, i) <==> 0 <= i < 8 * n by {
            if 0 <= i < 8 * n {
                lemma_full_bit((i % 8) as u8);
            }
        }
    }
    m
}

/// ANDs `v` into the first bytes of `m`; bytes of `m` past the end of `v` are kept.
pub(crate) fn and_mask(m: &mut Vec<u8>, v: &Vec<u8>)
    requires
        v@.len() <= old(m)@.len(),
    ensures
        final(m)@.len() == old(m)@.len(),
        forall|i: int| #[trigger] mask_bit(final(m)@, i) <==> (mask_bit(old(m)@, i) && (i / 8 >= v@.len() || mask_bit(v@, i))),
{
    let ghost m0 = m@;
    let mut k: usize = 0;
    while k < v.len()
        invariant
            k <= v@.len(),
            v@.len() <= m0.len(),
            m@.len() == m0.len(),
            forall|b: int| 0 <= b < k ==> #[trigger] m@[b] == m0[b] & v@[b],
            forall|b: int| k <= b < m0.len() ==> #[trigger] m@[b] == m0[b],
        decreases v@.len() - k,
    {
        let byte = m[k] & v[k];
        m.set(k, byte);
        k = k + 1;
    }
    proof {
        assert forall|i: int| #[trigger] mask_bit(m@, i) <==> (mask_bit(m0, i) && (i / 8 >= v@.len() || mask_bit(v@, i))) by {
            if 0 <= i && i / 8 < v@.len() {
                lemma_and_bit(m0[i / 8], v@[i / 8], (i % 8) as u8);
            }
        }
    }
}

/// Clears bit `row`.
pub(crate) fn clear_mask_bit(m: &mut Vec<u8>, row: usize)
    requires
        row / 8 < old(m)@.len(),
    ensures
        final(m)@.len() == old(m)@.len(),
        forall|i: int| #[trigger] mask_bit(final(m)@, i) <==> (i != row && mask_bit(old(m)@, i)),
{
    let byte_idx = row / 8;
    let bit_idx = (row % 8) as u8;
    let old_byte = m[byte_idx];
    m.set(byte_idx, old_byte & !(1u8 << bit_idx));
    proof {
        assert forall|i: int| #[trigger] mask_bit(m@, i) <==> (i != row && mask_bit(old(m)@, i)) by {
            if 0 <= i && i / 8 < m@.len() {
                lemma_clear_bit(old_byte, bit_idx, (i % 8) as u8);
                if i / 8 == byte_idx as int {
                    assert(i == row <==> (i % 8) as u8 == bit_idx);
                }
            }
        }
    }
}

/// Clears every bit at or past `n` in a mask of exactly `bytes_for(n)` bytes.
pub(crate) fn keep_first_bits(m: &mut Vec<u8>, n: usize)
    requires
        n > 0,
        old(m)@.len() == bytes_for(n as int),
    ensures
        final(m)@.len() == old(m)@.len(),
        forall|i: int| #[trigger] mask_bit(final(m)@, i) <==> (mask_bit(old(m)@, i) && i < n),
{
    if n % 8 != 0 {
        let last_idx = m.len() - 1;
        let r = (n % 8) as u8;
        let old_byte = m[last_idx];
        proof {
            lemma_low_bits(old_byte, r, 0);
        }
        m.set(last_idx, old_byte & ((1u8 << r) - 1u8));
        proof {
            assert forall|i: int| #[trigger] mask_bit(m@, i) <==> (mask_bit(old(m)@, i) && i < n) by {
                if 0 <= i && i / 8 < m@.len() && i / 8 == last_idx as int {
                    lemma_low_bits(old_byte, r, (i % 8) as u8);
                }
            }
        }
    }
}

} // verus!
