use std::cmp::Ordering;
use vstd::prelude::*;

verus! {

/// Width of a key in bits.
pub const KEY_SIZE_BITS: usize = 128;

/// Width of a key in bytes.
pub const KEY_SIZE_BYTES: usize = KEY_SIZE_BITS / 8;

/// A key of the key space, stored big endian: byte 0 is the most significant.
pub type Key = [u8; KEY_SIZE_BYTES];

/// Why a byte buffer could not be turned into a key.
#[derive(Debug, Clone, Copy, PartialEq, Eq, Structural)]
pub enum KeyError {
    /// The buffer did not hold exactly `KEY_SIZE_BYTES` bytes.
    LengthMismatch,
}

/// Builds a key from a byte buffer, which must hold exactly `KEY_SIZE_BYTES`
/// bytes, most significant first.
pub fn key_from_bytes(bytes: &[u8]) -> (r: Result<Key, KeyError>)
    ensures
        bytes@.len() == KEY_SIZE_BYTES <==> r is Ok,
        r matches Ok(k) ==> k@ == bytes@,
        r matches Err(e) ==> e == KeyError::LengthMismatch,
{
    if bytes.len() != KEY_SIZE_BYTES {
        return Err(KeyError::LengthMismatch);
    }
    let mut key: Key = [0; KEY_SIZE_BYTES];
    let mut i: usize = 0;
    while i < KEY_SIZE_BYTES
        invariant
            i <= KEY_SIZE_BYTES,
            bytes@.len() == KEY_SIZE_BYTES,
            forall|j: int| 0 <= j < i ==> key@[j] == bytes@[j],
        decreases KEY_SIZE_BYTES - i,
    {
        key[i] = bytes[i];
        i = i + 1;
    }
    assert(key@ =~= bytes@);
    Ok(key)
}

/// `256` raised to the power `n`.
pub open spec fn pow256(n: nat) -> nat
    decreases n,
{
    if n == 0 {
        1
    } else {
        256 * pow256((n - 1) as nat)
    }
}

/// Value of a byte sequence read as a big-endian unsigned integer.
pub open spec fn be_value(s: Seq<u8>) -> nat
    decreases s.len(),
{
    if s.len() == 0 {
        0
    } else {
        s[0] as nat * pow256((s.len() - 1) as nat) + be_value(s.drop_first())
    }
}

/// Three-way comparison of two natural numbers.
pub open spec fn compare_nat(x: nat, y: nat) -> Ordering {
    if x < y {
        Ordering::Less
    } else if x == y {
        Ordering::Equal
    } else {
        Ordering::Greater
    }
}

/// Lexicographic comparison of two byte sequences: the first position at
/// which they differ decides, and sequences that never differ are equal.
pub open spec fn lex_cmp(a: Seq<u8>, b: Seq<u8>) -> Ordering
    decreases a.len(),
{
    if a.len() == 0 || b.len() == 0 {
        Ordering::Equal
    } else if a[0] > b[0] {
        Ordering::Greater
    } else if a[0] < b[0] {
        Ordering::Less
    } else {
        lex_cmp(a.drop_first(), b.drop_first())
    }
}

proof fn lemma_be_value_bound(s: Seq<u8>)
    ensures
        be_value(s) < pow256(s.len()),
    decreases s.len(),
{
    if s.len() > 0 {
        let p = pow256((s.len() - 1) as nat);
        let rest = be_value(s.drop_first());
        let d = s[0] as nat;
        lemma_be_value_bound(s.drop_first());
        assert(d * p + rest < 256 * p) by (nonlinear_arith)
            requires
                d <= 255,
                rest < p,
        ;
    }
}

/// Lexicographic order on equal-length byte sequences is the order of their
/// big-endian values.
pub proof fn lemma_lex_cmp_is_value_order(a: Seq<u8>, b: Seq<u8>)
    requires
        a.len() == b.len(),
    ensures
        lex_cmp(a, b) == compare_nat(be_value(a), be_value(b)),
    decreases a.len(),
{
    if a.len() > 0 {
        let p = pow256((a.len() - 1) as nat);
        let ra = be_value(a.drop_first());
        let rb = be_value(b.drop_first());
        let da = a[0] as nat;
        let db = b[0] as nat;
        lemma_be_value_bound(a.drop_first());
        lemma_be_value_bound(b.drop_first());
        lemma_lex_cmp_is_value_order(a.drop_first(), b.drop_first());
        if da > db {
            assert(db * p + rb < da * p + ra) by (nonlinear_arith)
                requires
                    db < da,
                    rb < p,
            ;
        } else if da < db {
            assert(da * p + ra < db * p + rb) by (nonlinear_arith)
                requires
                    da < db,
                    ra < p,
            ;
        }
    }
}

/// Lexicographic comparison of equal-length sequences says `Equal` exactly
/// when the sequences are the same.
pub proof fn lemma_lex_cmp_equal_iff_same(a: Seq<u8>, b: Seq<u8>)
    requires
        a.len() == b.len(),
    ensures
        lex_cmp(a, b) == Ordering::Equal <==> a == b,
    decreases a.len(),
{
    if a.len() > 0 {
        lemma_lex_cmp_equal_iff_same(a.drop_first(), b.drop_first());
        if a[0] == b[0] && a.drop_first() == b.drop_first() {
            assert(a =~= b) by {
                assert forall|i: int| 0 <= i < a.len() implies a[i] == b[i] by {
                    if i > 0 {
                        assert(a[i] == a.drop_first()[i - 1]);
                        assert(b[i] == b.drop_first()[i - 1]);
                    }
                }
            }
        }
        if a == b {
            assert(a.drop_first() == b.drop_first());
        }
    } else {
        assert(a =~= b);
    }
}

/// Compares two keys as 128-bit big-endian unsigned integers, scanning from
/// the most significant byte; the first differing byte decides.
pub fn key_cmp(k1: &Key, k2: &Key) -> (r: Ordering)
    ensures
        r == lex_cmp(k1@, k2@),
        r == compare_nat(be_value(k1@), be_value(k2@)),
{
    proof {
        lemma_lex_cmp_is_value_order(k1@, k2@);
        assert(k1@.subrange(0, KEY_SIZE_BYTES as int) =~= k1@);
        assert(k2@.subrange(0, KEY_SIZE_BYTES as int) =~= k2@);
    }
    let mut i: usize = 0;
    while i < KEY_SIZE_BYTES
        invariant
            i <= KEY_SIZE_BYTES,
            lex_cmp(k1@, k2@) == compare_nat(be_value(k1@), be_value(k2@)),
            lex_cmp(k1@, k2@) == lex_cmp(
                k1@.subrange(i as int, KEY_SIZE_BYTES as int),
                k2@.subrange(i as int, KEY_SIZE_BYTES as int),
            ),
        decreases KEY_SIZE_BYTES - i,
    {
        let ghost s1 = k1@.subrange(i as int, KEY_SIZE_BYTES as int);
        let ghost s2 = k2@.subrange(i as int, KEY_SIZE_BYTES as int);
        assert(s1[0] == k1[i as int] && s2[0] == k2[i as int]);
        if k1[i] > k2[i] {
            return Ordering::Greater;
        } else if k1[i] < k2[i] {
            return Ordering::Less;
        }
        assert(s1.drop_first() =~= k1@.subrange(i + 1, KEY_SIZE_BYTES as int));
        assert(s2.drop_first() =~= k2@.subrange(i + 1, KEY_SIZE_BYTES as int));
        i = i + 1;
    }
    Ordering::Equal
}

/// Byte-wise exclusive or of two byte sequences, position by position.
pub open spec fn xor_bytes(a: Seq<u8>, b: Seq<u8>) -> Seq<u8> {
    Seq::new(a.len(), |i: int| a[i] ^ b[i])
}

/// XOR distance between two keys: byte `i` of the result is `k1[i] ^ k2[i]`.
pub fn key_dist(k1: &Key, k2: &Key) -> (r: Key)
    ensures
        r@ == xor_bytes(k1@, k2@),
{
    let mut dist: Key = [0; KEY_SIZE_BYTES];
    let mut i: usize = 0;
    while i < KEY_SIZE_BYTES
        invariant
            i <= KEY_SIZE_BYTES,
            forall|j: int| 0 <= j < i ==> dist@[j] == k1@[j] ^ k2@[j],
        decreases KEY_SIZE_BYTES - i,
    {
        dist[i] = k1[i] ^ k2[i];
        i = i + 1;
    }
    assert(dist@ =~= xor_bytes(k1@, k2@));
    dist
}

/// The all-zero key, as a byte sequence.
pub open spec fn zero_bytes() -> Seq<u8> {
    Seq::new(KEY_SIZE_BYTES as nat, |_i: int| 0u8)
}

/// Key comparison is a strict total order: swapping the keys swaps `Less`
/// and `Greater`, `Equal` holds only of identical keys, and `Less` and
/// `Greater` are transitive.
pub proof fn lemma_key_cmp_strict_total_order(a: Key, b: Key, c: Key)
    ensures
        lex_cmp(a@, b@) == Ordering::Less <==> lex_cmp(b@, a@) == Ordering::Greater,
        lex_cmp(a@, b@) == Ordering::Equal <==> a == b,
        lex_cmp(a@, b@) == Ordering::Less && lex_cmp(b@, c@) == Ordering::Less ==> lex_cmp(
            a@,
            c@,
        ) == Ordering::Less,
        lex_cmp(a@, b@) == Ordering::Greater && lex_cmp(b@, c@) == Ordering::Greater
            ==> lex_cmp(a@, c@) == Ordering::Greater,
{
    lemma_lex_cmp_is_value_order(a@, b@);
    lemma_lex_cmp_is_value_order(b@, a@);
    lemma_lex_cmp_is_value_order(b@, c@);
    lemma_lex_cmp_is_value_order(a@, c@);
    lemma_lex_cmp_equal_iff_same(a@, b@);
    if a@ == b@ {
        assert(a =~= b);
    }
}

/// Every key compares `Equal` to itself.
pub proof fn lemma_key_cmp_reflexive(a: Key)
    ensures
        lex_cmp(a@, a@) == Ordering::Equal,
{
    lemma_lex_cmp_equal_iff_same(a@, a@);
}

/// The distance from `a` to `b` is the distance from `b` to `a`.
pub proof fn lemma_key_dist_symmetric(a: Key, b: Key)
    ensures
        xor_bytes(a@, b@) == xor_bytes(b@, a@),
{
    assert forall|i: int| 0 <= i < KEY_SIZE_BYTES implies #[trigger] a@[i] ^ b@[i] == b@[i]
        ^ a@[i] by {
        let x = a@[i];
        let y = b@[i];
        assert(x ^ y == y ^ x) by (bit_vector);
    }
    assert(xor_bytes(a@, b@) =~= xor_bytes(b@, a@));
}

/// The distance from a key to itself is the all-zero key.
pub proof fn lemma_key_dist_self_zero(a: Key)
    ensures
        xor_bytes(a@, a@) == zero_bytes(),
{
    assert forall|i: int| 0 <= i < KEY_SIZE_BYTES implies #[trigger] (a@[i] ^ a@[i]) == 0u8 by {
        let x = a@[i];
        assert(x ^ x == 0u8) by (bit_vector);
    }
    assert(xor_bytes(a@, a@) =~= zero_bytes());
}

/// The distance between two keys is all zero exactly when the keys are equal.
pub proof fn lemma_key_dist_zero_iff_equal(a: Key, b: Key)
    ensures
        xor_bytes(a@, b@) == zero_bytes() <==> a == b,
{
    if xor_bytes(a@, b@) == zero_bytes() {
        assert forall|i: int| 0 <= i < KEY_SIZE_BYTES implies a@[i] == b@[i] by {
            let x = a@[i];
            let y = b@[i];
            assert(xor_bytes(a@, b@)[i] == zero_bytes()[i]);
            assert(x ^ y == 0u8 ==> x == y) by (bit_vector);
        }
        assert(a =~= b);
    }
    if a == b {
        lemma_key_dist_self_zero(a);
    }
}

/// XOR identity of the metric: combining the distance from `a` to `b` with
/// the distance from `b` to `c`, byte by byte, gives the distance from `a`
/// to `c`.
pub proof fn lemma_key_dist_xor_identity(a: Key, b: Key, c: Key)
    ensures
        xor_bytes(xor_bytes(a@, b@), xor_bytes(b@, c@)) == xor_bytes(a@, c@),
{
    assert forall|i: int| 0 <= i < KEY_SIZE_BYTES implies #[trigger] xor_bytes(
        xor_bytes(a@, b@),
        xor_bytes(b@, c@),
    )[i] == a@[i] ^ c@[i] by {
        let x = a@[i];
        let y = b@[i];
        let z = c@[i];
        assert((x ^ y) ^ (y ^ z) == x ^ z) by (bit_vector);
    }
    assert(xor_bytes(xor_bytes(a@, b@), xor_bytes(b@, c@)) =~= xor_bytes(a@, c@));
}

} // verus!
