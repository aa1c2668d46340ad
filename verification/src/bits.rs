//! Facts about the bits of a `u64`, on which the card set rests.
use vstd::prelude::*;

verus! {

/// Whether bit `i` of `x` is set.
pub open spec fn bit_of(x: u64, i: u64) -> bool {
    (x >> i) & 1u64 == 1u64
}

pub proof fn lemma_bit_or(x: u64, y: u64, i: u64)
    requires
        i < 64,
    ensures
        bit_of(x | y, i) == (bit_of(x, i) || bit_of(y, i)),
{
    assert(((x | y) >> i) & 1u64 == 1u64 <==> (((x >> i) & 1u64 == 1u64) || ((y >> i) & 1u64
        == 1u64))) by (bit_vector)
        requires
            i < 64,
    ;
}

pub proof fn lemma_bit_and(x: u64, y: u64, i: u64)
    requires
        i < 64,
    ensures
        bit_of(x & y, i) == (bit_of(x, i) && bit_of(y, i)),
{
    assert(((x & y) >> i) & 1u64 == 1u64 <==> (((x >> i) & 1u64 == 1u64) && ((y >> i) & 1u64
        == 1u64))) by (bit_vector)
        requires
            i < 64,
    ;
}

pub proof fn lemma_bit_xor(x: u64, y: u64, i: u64)
    requires
        i < 64,
    ensures
        bit_of(x ^ y, i) == (bit_of(x, i) != bit_of(y, i)),
{
    assert(((x ^ y) >> i) & 1u64 == 1u64 <==> (((x >> i) & 1u64 == 1u64) != ((y >> i) & 1u64
        == 1u64))) by (bit_vector)
        requires
            i < 64,
    ;
}

pub proof fn lemma_bit_not(x: u64, i: u64)
    requires
        i < 64,
    ensures
        bit_of(!x, i) == !bit_of(x, i),
{
    assert(((!x) >> i) & 1u64 == 1u64 <==> !((x >> i) & 1u64 == 1u64)) by (bit_vector)
        requires
            i < 64,
    ;
}

pub proof fn lemma_bit_zero(i: u64)
    ensures
        !bit_of(0u64, i),
{
    assert(!((0u64 >> i) & 1u64 == 1u64)) by (bit_vector);
}

/// Bit `i` of `m << s` is bit `i - s` of `m`.
pub proof fn lemma_bit_shl(m: u64, s: u64, i: u64)
    requires
        s < 64,
        i < 64,
    ensures
        bit_of(m << s, i) == (s <= i && bit_of(m, (i - s) as u64)),
{
    if s <= i {
        let d: u64 = (i - s) as u64;
        assert(((m << s) >> i) & 1u64 == 1u64 <==> (m >> d) & 1u64 == 1u64) by (bit_vector)
            requires
                s < 64,
                i < 64,
                d == i - s,
        ;
    } else {
        assert(!(((m << s) >> i) & 1u64 == 1u64)) by (bit_vector)
            requires
                s < 64,
                i < s,
        ;
    }
}

/// Bit `i` of `m >> 1` is bit `i + 1` of `m`.
pub proof fn lemma_bit_shr1(m: u64, i: u64)
    requires
        i < 64,
    ensures
        bit_of(m >> 1u64, i) == (i < 63 && bit_of(m, (i + 1) as u64)),
{
    if i < 63 {
        let j: u64 = (i + 1) as u64;
        assert(((m >> 1u64) >> i) & 1u64 == 1u64 <==> (m >> j) & 1u64 == 1u64) by (bit_vector)
            requires
                i < 63,
                j == i + 1,
        ;
    } else {
        assert(!(((m >> 1u64) >> i) & 1u64 == 1u64)) by (bit_vector)
            requires
                i == 63,
        ;
    }
}

/// The single bit of `1 << n` is bit `n`.
pub proof fn lemma_bit_one_shl(n: u64, i: u64)
    requires
        n < 64,
        i < 64,
    ensures
        bit_of(1u64 << n, i) == (i == n),
{
    assert(((1u64 << n) >> i) & 1u64 == 1u64 <==> i == n) by (bit_vector)
        requires
            n < 64,
            i < 64,
    ;
}

/// A nonzero word has a set bit.
pub proof fn lemma_nonzero_has_bit(y: u64) -> (i: u64)
    requires
        y != 0,
    ensures
        i < 64,
        bit_of(y, i),
    decreases y,
{
    if y & 1u64 == 1u64 {
        assert((y >> 0u64) & 1u64 == 1u64) by (bit_vector)
            requires
                y & 1u64 == 1u64,
        ;
        0
    } else {
        let z: u64 = y >> 1u64;
        assert(z != 0 && z < y) by (bit_vector)
            requires
                y != 0,
                y & 1u64 != 1u64,
                z == y >> 1u64,
        ;
        let j = lemma_nonzero_has_bit(z);
        assert(j < 63 && (y >> ((j + 1) as u64)) & 1u64 == 1u64) by (bit_vector)
            requires
                j < 64,
                (z >> j) & 1u64 == 1u64,
                z == y >> 1u64,
        ;
        (j + 1) as u64
    }
}

/// Two words with the same bits are equal.
pub proof fn lemma_bits_ext(x: u64, y: u64)
    requires
        forall|i: u64| i < 64 ==> bit_of(x, i) == bit_of(y, i),
    ensures
        x == y,
{
    if x != y {
        assert(x ^ y != 0) by (bit_vector)
            requires
                x != y,
        ;
        let i = lemma_nonzero_has_bit(x ^ y);
        lemma_bit_xor(x, y, i);
        assert(bit_of(x, i) == bit_of(y, i));
    }
}

/// The positions of the set bits of `x`.
pub open spec fn set_of_bits(x: u64) -> Set<int> {
    Set::new(|i: int| 0 <= i < 64 && bit_of(x, i as u64))
}

/// The positions `lo .. hi` that a word can hold.
pub open spec fn positions(lo: int, hi: int) -> Set<int> {
    Set::new(|i: int| 0 <= i < 64 && lo <= i < hi)
}

pub proof fn lemma_set_of_bits_finite(x: u64)
    ensures
        set_of_bits(x).finite(),
        set_of_bits(x).subset_of(positions(0, 64)),
{
    vstd::set_lib::lemma_int_range(0, 64);
    assert(set_of_bits(x).subset_of(vstd::set_lib::set_int_range(0, 64)));
    vstd::set_lib::lemma_len_subset(set_of_bits(x), vstd::set_lib::set_int_range(0, 64));
}

pub proof fn lemma_set_of_bits_or(x: u64, y: u64)
    ensures
        set_of_bits(x | y) == set_of_bits(x).union(set_of_bits(y)),
{
    assert forall|i: int| 0 <= i < 64 implies set_of_bits(x | y).contains(i) == set_of_bits(
        x,
    ).union(set_of_bits(y)).contains(i) by {
        lemma_bit_or(x, y, i as u64);
    }
    assert(set_of_bits(x | y) =~= set_of_bits(x).union(set_of_bits(y)));
}

pub proof fn lemma_set_of_bits_and(x: u64, y: u64)
    ensures
        set_of_bits(x & y) == set_of_bits(x).intersect(set_of_bits(y)),
{
    assert forall|i: int| 0 <= i < 64 implies set_of_bits(x & y).contains(i) == set_of_bits(
        x,
    ).intersect(set_of_bits(y)).contains(i) by {
        lemma_bit_and(x, y, i as u64);
    }
    assert(set_of_bits(x & y) =~= set_of_bits(x).intersect(set_of_bits(y)));
}

pub proof fn lemma_set_of_bits_and_not(x: u64, y: u64)
    ensures
        set_of_bits(x & !y) == set_of_bits(x).difference(set_of_bits(y)),
{
    assert forall|i: int| 0 <= i < 64 implies set_of_bits(x & !y).contains(i) == set_of_bits(
        x,
    ).difference(set_of_bits(y)).contains(i) by {
        lemma_bit_and(x, !y, i as u64);
        lemma_bit_not(y, i as u64);
    }
    assert(set_of_bits(x & !y) =~= set_of_bits(x).difference(set_of_bits(y)));
}

pub proof fn lemma_set_of_bits_xor(x: u64, y: u64)
    ensures
        forall|i: int| #[trigger]
            set_of_bits(x ^ y).contains(i) == (set_of_bits(x).contains(i) != set_of_bits(
                y,
            ).contains(i)),
{
    assert forall|i: int| #[trigger]
        set_of_bits(x ^ y).contains(i) == (set_of_bits(x).contains(i) != set_of_bits(y).contains(
            i,
        )) by {
        if 0 <= i < 64 {
            lemma_bit_xor(x, y, i as u64);
        }
    }
}

pub proof fn lemma_set_of_bits_zero()
    ensures
        set_of_bits(0u64) == Set::<int>::empty(),
{
    assert forall|i: int| 0 <= i < 64 implies !set_of_bits(0u64).contains(i) by {
        lemma_bit_zero(i as u64);
    }
    assert(set_of_bits(0u64) =~= Set::<int>::empty());
}

pub proof fn lemma_set_of_bits_one_shl(n: u64)
    requires
        n < 64,
    ensures
        set_of_bits(1u64 << n) == Set::<int>::empty().insert(n as int),
{
    assert forall|i: int| 0 <= i < 64 implies set_of_bits(1u64 << n).contains(i) == (i
        == n) by {
        lemma_bit_one_shl(n, i as u64);
    }
    assert(set_of_bits(1u64 << n) =~= Set::<int>::empty().insert(n as int));
}

/// Shifting left by `s` moves every position up by `s`; what passes bit 63 is lost.
pub proof fn lemma_set_of_bits_shl(m: u64, s: u64)
    requires
        s < 64,
    ensures
        forall|i: int| #[trigger]
            set_of_bits(m << s).contains(i) == (0 <= i < 64 && s <= i && set_of_bits(m).contains(
                i - s,
            )),
{
    assert forall|i: int| #[trigger]
        set_of_bits(m << s).contains(i) == (0 <= i < 64 && s <= i && set_of_bits(m).contains(
            i - s,
        )) by {
        if 0 <= i < 64 {
            lemma_bit_shl(m, s, i as u64);
        }
    }
}

/// Shifting right by one moves every position down by one.
pub proof fn lemma_set_of_bits_shr1(m: u64)
    ensures
        forall|i: int| #[trigger]
            set_of_bits(m >> 1u64).contains(i) == (0 <= i < 63 && set_of_bits(m).contains(i + 1)),
{
    assert forall|i: int| #[trigger]
        set_of_bits(m >> 1u64).contains(i) == (0 <= i < 63 && set_of_bits(m).contains(i + 1)) by {
        if 0 <= i < 64 {
            lemma_bit_shr1(m, i as u64);
        }
    }
}

/// Words are equal exactly when their sets of bits are.
pub proof fn lemma_set_of_bits_injective(x: u64, y: u64)
    ensures
        (x == y) == (set_of_bits(x) == set_of_bits(y)),
{
    if set_of_bits(x) == set_of_bits(y) {
        assert forall|i: u64| i < 64 implies bit_of(x, i) == bit_of(y, i) by {
            assert(set_of_bits(x).contains(i as int) == set_of_bits(y).contains(i as int));
        }
        lemma_bits_ext(x, y);
    }
}

/// A word is zero exactly when its set of bits is empty.
pub proof fn lemma_set_of_bits_nonzero(y: u64)
    ensures
        (y == 0) == (set_of_bits(y) == Set::<int>::empty()),
{
    lemma_set_of_bits_zero();
    lemma_set_of_bits_injective(y, 0);
}

/// The mask `(1 << p << r) - (1 << p)` holds positions `p .. p + r`.
pub proof fn lemma_set_of_bits_run(p: u64, r: u64)
    requires
        p + r < 64,
    ensures
        set_of_bits((((1u64 << p) << r) - (1u64 << p)) as u64) == positions(p as int, p + r),
        (1u64 << p) <= ((1u64 << p) << r),
{
    assert((1u64 << p) <= ((1u64 << p) << r)) by (bit_vector)
        requires
            p + r < 64,
    ;
    let mask: u64 = (((1u64 << p) << r) - (1u64 << p)) as u64;
    assert forall|i: int| 0 <= i < 64 implies set_of_bits(mask).contains(i) == (p <= i < p
        + r) by {
        let j: u64 = i as u64;
        assert(bit_of(mask, j) == (p <= j && j < p + r)) by (bit_vector)
            requires
                p + r < 64,
                j < 64,
                mask == ((1u64 << p) << r) - (1u64 << p),
        ;
    }
    assert(set_of_bits(mask) =~= positions(p as int, p + r));
}

} // verus!
