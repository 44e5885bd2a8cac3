//! Little-endian byte-sequence arithmetic: the mathematical meaning of a
//! byte run read as an unsigned integer, and the inverse (an integer laid
//! out over a fixed number of bytes), with the lemmas that relate them.

use vstd::prelude::*;

verus! {

/// 256 raised to the power `n`: the number of values `n` bytes can hold.
pub open spec fn pow256(n: nat) -> nat
    decreases n,
{
    if n == 0 {
        1
    } else {
        256 * pow256((n - 1) as nat)
    }
}

/// The unsigned integer denoted by `s` read in little-endian order
/// (the first byte is the least significant).
pub open spec fn le_value(s: Seq<u8>) -> nat
    decreases s.len(),
{
    if s.len() == 0 {
        0
    } else {
        s[0] as nat + 256 * le_value(s.drop_first())
    }
}

/// The integer `v` laid out over `w` bytes in little-endian order
/// (truncated to its `w` low bytes if it does not fit).
pub open spec fn le_bytes(v: nat, w: nat) -> Seq<u8>
    decreases w,
{
    if w == 0 {
        Seq::empty()
    } else {
        seq![(v % 256) as u8] + le_bytes(v / 256, (w - 1) as nat)
    }
}

pub proof fn lemma_pow256_positive(n: nat)
    ensures
        pow256(n) >= 1,
    decreases n,
{
    if n > 0 {
        lemma_pow256_positive((n - 1) as nat);
    }
}

pub proof fn lemma_pow256_monotonic(a: nat, b: nat)
    requires
        a <= b,
    ensures
        pow256(a) <= pow256(b),
    decreases b,
{
    if a < b {
        lemma_pow256_monotonic(a, (b - 1) as nat);
        lemma_pow256_positive((b - 1) as nat);
    }
}

/// A sequence of `n` bytes denotes a value below `pow256(n)`.
pub proof fn lemma_le_value_bound(s: Seq<u8>)
    ensures
        le_value(s) < pow256(s.len()),
    decreases s.len(),
{
    if s.len() > 0 {
        lemma_le_value_bound(s.drop_first());
    }
}

/// Appending one byte adds its value scaled by the weight of its position.
pub proof fn lemma_le_value_push(s: Seq<u8>, b: u8)
    ensures
        le_value(s.push(b)) == le_value(s) + (b as nat) * pow256(s.len()),
    decreases s.len(),
{
    if s.len() == 0 {
        assert(s.push(b).drop_first() =~= Seq::<u8>::empty());
        assert(s.push(b)[0] == b);
        assert(le_value(s.push(b)) == b as nat + 256 * le_value(s.push(b).drop_first()));
        assert(le_value(s.push(b)) == b as nat);
        assert(le_value(s) == 0);
        assert(pow256(s.len()) == 1);
        assert((b as nat) * 1 == b as nat) by (nonlinear_arith);
    } else {
        assert(s.push(b).drop_first() =~= s.drop_first().push(b));
        lemma_le_value_push(s.drop_first(), b);
        let x = le_value(s.drop_first());
        let p = pow256(s.drop_first().len());
        assert(s.push(b)[0] == s[0]);
        assert(le_value(s.push(b)) == s[0] as nat + 256 * le_value(s.drop_first().push(b)));
        assert(le_value(s.drop_first().push(b)) == x + (b as nat) * p);
        assert(pow256(s.len()) == 256 * p);
        assert(le_value(s) == s[0] as nat + 256 * x);
        assert(le_value(s.push(b)) == le_value(s) + (b as nat) * pow256(s.len()))
            by (nonlinear_arith)
            requires
                le_value(s.push(b)) == s[0] as nat + 256 * (x + (b as nat) * p),
                le_value(s) == s[0] as nat + 256 * x,
                pow256(s.len()) == 256 * p,
        ;
    }
}

/// Concatenation splits the value: the tail is scaled by the head's width.
pub proof fn lemma_le_value_append(a: Seq<u8>, b: Seq<u8>)
    ensures
        le_value(a + b) == le_value(a) + pow256(a.len()) * le_value(b),
    decreases a.len(),
{
    if a.len() == 0 {
        assert(a + b =~= b);
        assert(le_value(a) == 0);
        assert(pow256(a.len()) == 1);
        assert(1 * le_value(b) == le_value(b)) by (nonlinear_arith);
    } else {
        assert((a + b).drop_first() =~= a.drop_first() + b);
        lemma_le_value_append(a.drop_first(), b);
        let x = le_value(a.drop_first());
        let p = pow256(a.drop_first().len());
        let y = le_value(b);
        assert((a + b)[0] == a[0]);
        assert((a + b).len() > 0);
        assert(le_value(a + b) == a[0] as nat + 256 * le_value(a.drop_first() + b));
        assert(le_value(a.drop_first() + b) == x + p * y);
        assert(pow256(a.len()) == 256 * p);
        assert(le_value(a) == a[0] as nat + 256 * x);
        assert(le_value(a + b) == le_value(a) + pow256(a.len()) * le_value(b))
            by (nonlinear_arith)
            requires
                le_value(a + b) == a[0] as nat + 256 * (x + p * y),
                le_value(a) == a[0] as nat + 256 * x,
                pow256(a.len()) == 256 * p,
                le_value(b) == y,
        ;
    }
}

/// A byte sequence denotes zero exactly when every byte is zero.
pub proof fn lemma_le_value_zero(s: Seq<u8>)
    ensures
        le_value(s) == 0 <==> (forall|i: int| 0 <= i < s.len() ==> s[i] == 0),
    decreases s.len(),
{
    if s.len() > 0 {
        lemma_le_value_zero(s.drop_first());
        if le_value(s) == 0 {
            assert(le_value(s.drop_first()) == 0);
            assert forall|i: int| 0 <= i < s.len() implies s[i] == 0 by {
                if i >= 1 {
                    assert(s[i] == s.drop_first()[i - 1]);
                }
            }
        } else {
            if forall|i: int| 0 <= i < s.len() ==> s[i] == 0 {
                assert forall|i: int|
                    0 <= i < s.drop_first().len() implies #[trigger] s.drop_first()[i] == 0 by {
                    assert(s.drop_first()[i] == s[i + 1]);
                    assert(s[i + 1] == 0);
                }
                assert(le_value(s.drop_first()) == 0);
                assert(s[0] == 0);
            }
        }
    }
}

pub proof fn lemma_le_bytes_len(v: nat, w: nat)
    ensures
        le_bytes(v, w).len() == w,
    decreases w,
{
    if w > 0 {
        lemma_le_bytes_len(v / 256, (w - 1) as nat);
    }
}

/// Reading back the little-endian layout of `v` over `w` bytes yields `v`,
/// provided `v` fits in `w` bytes.
pub proof fn lemma_le_value_le_bytes(v: nat, w: nat)
    requires
        v < pow256(w),
    ensures
        le_value(le_bytes(v, w)) == v,
    decreases w,
{
    if w > 0 {
        assert(le_bytes(v, w).drop_first() =~= le_bytes(v / 256, (w - 1) as nat));
        assert(v / 256 < pow256((w - 1) as nat)) by {
            lemma_pow256_positive((w - 1) as nat);
        }
        lemma_le_value_le_bytes(v / 256, (w - 1) as nat);
        assert(v == 256 * (v / 256) + v % 256) by {
            assert(v == 256 * (v / 256) + v % 256) by (nonlinear_arith);
        }
    }
}

} // verus!
