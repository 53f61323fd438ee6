//! The candidate space: 32-byte entropy buffers enumerated as one big
//! unsigned big-endian integer.
//!
//! Advancing a buffer adds a delta to its integer value and re-encodes
//! the low-order bytes back into the fixed width, wrapping modulo
//! `2^256` and zero-padding on the left.

use vstd::arithmetic::div_mod::{
    lemma_small_mod,
    lemma_add_mod_noop_right, lemma_fundamental_div_mod, lemma_fundamental_div_mod_converse,
};
use vstd::prelude::*;

verus! {

/// `256^n`, the number of values of an `n`-byte buffer.
pub open spec fn pow256(n: nat) -> nat
    decreases n,
{
    if n == 0 {
        1
    } else {
        256 * pow256((n - 1) as nat)
    }
}

/// The value of a byte buffer read as an unsigned big-endian integer.
pub open spec fn be_value(s: Seq<u8>) -> nat
    decreases s.len(),
{
    if s.len() == 0 {
        0
    } else {
        be_value(s.drop_last()) * 256 + s.last() as nat
    }
}

/// The `n`-byte big-endian encoding of `v`'s low-order bytes.
pub open spec fn be_encode(v: nat, n: nat) -> Seq<u8>
    decreases n,
{
    if n == 0 {
        Seq::empty()
    } else {
        be_encode(v / 256, (n - 1) as nat).push((v % 256) as u8)
    }
}

/// The buffer that follows `s` at distance `delta`: the value of `s`
/// plus `delta`, wrapped modulo the buffer's width and re-encoded.
pub open spec fn entropy_next(s: Seq<u8>, delta: nat) -> Seq<u8> {
    be_encode((be_value(s) + delta) % pow256(s.len()), s.len())
}

pub proof fn lemma_pow256_pos(n: nat)
    ensures
        pow256(n) >= 1,
    decreases n,
{
    if n > 0 {
        lemma_pow256_pos((n - 1) as nat);
    }
}

pub proof fn lemma_be_encode_len(v: nat, n: nat)
    ensures
        be_encode(v, n).len() == n,
    decreases n,
{
    if n > 0 {
        lemma_be_encode_len(v / 256, (n - 1) as nat);
    }
}

/// A buffer's value is below the width's bound.
pub proof fn lemma_be_value_bound(s: Seq<u8>)
    ensures
        be_value(s) < pow256(s.len()),
    decreases s.len(),
{
    if s.len() > 0 {
        lemma_be_value_bound(s.drop_last());
        let h = be_value(s.drop_last());
        let p = pow256((s.len() - 1) as nat);
        assert(h * 256 + s.last() < 256 * p) by (nonlinear_arith)
            requires
                h < p,
                s.last() < 256,
        ;
    }
}

/// Decoding an encoding gives the value back, provided it fits.
pub proof fn lemma_be_value_encode(v: nat, n: nat)
    requires
        v < pow256(n),
    ensures
        be_value(be_encode(v, n)) == v,
    decreases n,
{
    if n > 0 {
        let q = v / 256;
        let r = v % 256;
        lemma_fundamental_div_mod(v as int, 256);
        assert(q < pow256((n - 1) as nat)) by (nonlinear_arith)
            requires
                v < 256 * pow256((n - 1) as nat),
                v == 256 * q + r,
                0 <= r < 256,
                q >= 0,
        ;
        lemma_be_value_encode(q, (n - 1) as nat);
        let e = be_encode(v, n);
        assert(e.drop_last() =~= be_encode(q, (n - 1) as nat));
        assert(be_value(e) == q * 256 + r);
    }
}

/// Encoding a buffer's value at the buffer's own length gives the
/// buffer back: the encoding is a bijection on fixed-width buffers.
pub proof fn lemma_be_encode_value(s: Seq<u8>)
    ensures
        be_encode(be_value(s), s.len()) == s,
    decreases s.len(),
{
    if s.len() == 0 {
        assert(be_encode(be_value(s), s.len()) =~= s);
    } else {
        let h = be_value(s.drop_last());
        let v = h * 256 + s.last();
        lemma_fundamental_div_mod_converse(v as int, 256, h as int, s.last() as int);
        lemma_be_encode_value(s.drop_last());
        assert(be_encode(v as nat, s.len()) =~= s);
    }
}

/// Splitting off the most significant byte: the buffer's value is the
/// first byte weighted by the width of the rest, plus the rest's value.
pub proof fn lemma_be_value_split_first(s: Seq<u8>)
    requires
        s.len() > 0,
    ensures
        be_value(s) == s[0] * pow256((s.len() - 1) as nat) + be_value(s.drop_first()),
    decreases s.len(),
{
    if s.len() == 1 {
        assert(s.drop_last() =~= Seq::<u8>::empty());
        assert(s.drop_first() =~= Seq::<u8>::empty());
        assert(be_value(Seq::<u8>::empty()) == 0);
        assert(pow256(0) == 1);
        assert(s.last() == s[0]);
        assert(be_value(s) == s[0] as nat);
        assert(s[0] * pow256(0) + be_value(s.drop_first()) == s[0] as nat);
    } else {
        let d = s.drop_last();
        lemma_be_value_split_first(d);
        assert(d.drop_first() =~= s.drop_first().drop_last());
        let p = pow256((s.len() - 2) as nat);
        assert(be_value(d) == s[0] * p + be_value(s.drop_first().drop_last()));
        assert((s[0] * p + be_value(s.drop_first().drop_last())) * 256 == s[0] * (256 * p)
            + be_value(s.drop_first().drop_last()) * 256) by (nonlinear_arith);
        assert(s.drop_first().last() == s.last());
        assert(be_value(s.drop_first()) == be_value(s.drop_first().drop_last()) * 256
            + s.last() as nat);
        assert(pow256((s.len() - 1) as nat) == 256 * p);
        assert(be_value(s) == be_value(d) * 256 + s.last() as nat);
        assert(be_value(d) * 256 == (s[0] * p + be_value(s.drop_first().drop_last())) * 256);
        assert(s[0] * (256 * p) == s[0] * pow256((s.len() - 1) as nat));
    }
}

/// Sequencing is additive: advancing by `d1` and then by `d2` reaches
/// the same buffer as advancing once by `d1 + d2`.
pub proof fn lemma_entropy_next_additive(s: Seq<u8>, d1: nat, d2: nat)
    ensures
        entropy_next(entropy_next(s, d1), d2) == entropy_next(s, d1 + d2),
{
    let n = s.len();
    let m = pow256(n);
    lemma_pow256_pos(n);
    let x = be_value(s);
    let inner = entropy_next(s, d1);
    lemma_be_encode_len((x + d1) % m, n);
    assert(inner.len() == n);
    lemma_be_value_encode((x + d1) % m, n);
    assert(be_value(inner) == (x + d1) % m);
    lemma_add_mod_noop_right(d2 as int, (x + d1) as int, m as int);
    assert((d2 + (x + d1) % m) % m == (d2 + (x + d1)) % m);
    assert(((x + d1) % m + d2) % m == (x + (d1 + d2)) % m);
}

/// Advancing by zero changes nothing.
pub proof fn lemma_entropy_next_zero(s: Seq<u8>)
    ensures
        entropy_next(s, 0) == s,
{
    lemma_pow256_pos(s.len());
    lemma_be_value_bound(s);
    lemma_small_mod(be_value(s), pow256(s.len()));
    lemma_be_encode_value(s);
}

/// Advancing the all-ones buffer by one wraps around to the all-zero
/// buffer of the same length.
pub proof fn lemma_entropy_next_wraps(s: Seq<u8>)
    requires
        forall|i: int| 0 <= i < s.len() ==> s[i] == 0xffu8,
    ensures
        entropy_next(s, 1) == Seq::new(s.len(), |i: int| 0u8),
{
    lemma_be_value_all_ones(s);
    lemma_pow256_pos(s.len());
    let m = pow256(s.len());
    assert((be_value(s) + 1) % m == 0) by {
        assert(be_value(s) + 1 == m);
        lemma_fundamental_div_mod_converse(m as int, m as int, 1, 0);
    }
    lemma_be_encode_zero(s.len());
}

proof fn lemma_be_value_all_ones(s: Seq<u8>)
    requires
        forall|i: int| 0 <= i < s.len() ==> s[i] == 0xffu8,
    ensures
        be_value(s) + 1 == pow256(s.len()),
    decreases s.len(),
{
    if s.len() > 0 {
        lemma_be_value_all_ones(s.drop_last());
        let h = be_value(s.drop_last());
        let p = pow256((s.len() - 1) as nat);
        assert(s.last() == 0xffu8);
        assert(h * 256 + 255 + 1 == 256 * p) by (nonlinear_arith)
            requires
                h + 1 == p,
        ;
    }
}

proof fn lemma_be_encode_zero(n: nat)
    ensures
        be_encode(0, n) == Seq::new(n, |i: int| 0u8),
    decreases n,
{
    if n == 0 {
        assert(be_encode(0, n) =~= Seq::new(n, |i: int| 0u8));
    } else {
        lemma_be_encode_zero((n - 1) as nat);
        assert(be_encode(0, n) =~= Seq::new(n, |i: int| 0u8));
    }
}

/// A 32-byte entropy buffer: the seed material of one candidate.
pub struct Entropy {
    bytes: Vec<u8>,
}

impl View for Entropy {
    type V = Seq<u8>;

    closed spec fn view(&self) -> Seq<u8> {
        self.bytes@
    }
}

impl Entropy {
    /// A well-formed entropy buffer holds exactly 32 bytes.
    pub open spec fn wf(&self) -> bool {
        self@.len() == 32
    }

    /// Wraps a byte vector; rejects any length other than 32.
    pub fn from_bytes(bytes: Vec<u8>) -> (r: Option<Entropy>)
        ensures
            match r {
                Some(e) => e@ == bytes@ && e.wf(),
                None => bytes@.len() != 32,
            },
    {
        if bytes.len() == 32 {
            Some(Entropy { bytes })
        } else {
            None
        }
    }

    /// The raw bytes of the buffer.
    pub fn as_bytes(&self) -> (r: &[u8])
        ensures
            r@ == self@,
    {
        self.bytes.as_slice()
    }

    /// An independent copy of the buffer.
    pub fn duplicate(&self) -> (r: Entropy)
        ensures
            r@ == self@,
    {
        let mut bytes: Vec<u8> = Vec::new();
        let mut i: usize = 0;
        while i < self.bytes.len()
            invariant
                i <= self.bytes@.len(),
                bytes@ =~= self.bytes@.subrange(0, i as int),
            decreases self.bytes@.len() - i,
        {
            bytes.push(self.bytes[i]);
            proof {
                assert(bytes@ =~= self.bytes@.subrange(0, i + 1));
            }
            i = i + 1;
        }
        proof {
            assert(bytes@ =~= self.bytes@);
        }
        Entropy { bytes }
    }
}

/// Advances the buffer by `value`: byte-by-byte add-with-carry from the
/// least significant end, wrapping modulo `2^256` and keeping the full
/// 32-byte width.
pub fn add_to_entropy(entropy: &Entropy, value: u64) -> (r: Entropy)
    requires
        entropy.wf(),
    ensures
        r.wf(),
        r@ == entropy_next(entropy@, value as nat),
{
    let mut copy = entropy.duplicate();
    let e: Ghost<Seq<u8>> = Ghost(entropy@);
    let mut carry: u128 = value as u128;
    let mut i: usize = 32;
    proof {
        assert(copy.bytes@.subrange(32, 32) =~= Seq::<u8>::empty());
        assert(e@.subrange(32, 32) =~= Seq::<u8>::empty());
        assert(be_value(Seq::<u8>::empty()) == 0);
        assert((32 - i) as nat == 0);
        assert(pow256((32 - i) as nat) == 1);
        assert((carry as nat) * pow256((32 - i) as nat) == value as nat);
    }
    while i > 0
        invariant
            i <= 32,
            copy.bytes@.len() == 32,
            e@ == entropy@,
            e@.len() == 32,
            carry <= u64::MAX as u128,
            copy.bytes@.subrange(0, i as int) == e@.subrange(0, i as int),
            be_value(copy.bytes@.subrange(i as int, 32)) + (carry as nat) * pow256((32 - i) as nat)
                == be_value(e@.subrange(i as int, 32)) + value as nat,
        decreases i,
    {
        let ghost old_bytes = copy.bytes@;
        let ghost old_carry = carry as nat;
        i = i - 1;
        proof {
            assert(old_bytes.subrange(0, i + 1)[i as int] == e@.subrange(0, i + 1)[i as int]);
            assert(old_bytes[i as int] == e@[i as int]);
        }
        let t: u128 = copy.bytes[i] as u128 + carry;
        let b: u8 = (t % 256) as u8;
        copy.bytes.set(i, b);
        carry = t / 256;
        proof {
            lemma_step(e@, old_bytes, copy.bytes@, i as int, old_carry, t as nat, value as nat);
            lemma_div_upper(t as nat);
        }
    }
    proof {
        assert(copy.bytes@.subrange(0, 32) =~= copy.bytes@);
        assert(e@.subrange(0, 32) =~= e@);
        lemma_final(copy.bytes@, e@, carry as nat, value as nat);
    }
    copy
}

/// The carry after one add-with-carry step still fits in 64 bits.
proof fn lemma_div_upper(t: nat)
    requires
        t <= 255 + u64::MAX as nat,
    ensures
        t / 256 <= u64::MAX as nat,
{
    lemma_fundamental_div_mod(t as int, 256);
    assert(t / 256 <= u64::MAX as nat) by (nonlinear_arith)
        requires
            t == 256 * (t / 256) + t % 256,
            0 <= t % 256,
            t <= 255 + u64::MAX as nat,
    ;
}

/// One step of the carry loop preserves the loop's accounting: the value
/// of the processed suffix plus the weighted carry equals the original
/// suffix value plus the delta.
proof fn lemma_step(
    e: Seq<u8>,
    old_bytes: Seq<u8>,
    new_bytes: Seq<u8>,
    i: int,
    old_carry: nat,
    t: nat,
    value: nat,
)
    requires
        e.len() == 32,
        old_bytes.len() == 32,
        0 <= i < 32,
        old_bytes.subrange(0, i + 1) == e.subrange(0, i + 1),
        be_value(old_bytes.subrange(i + 1, 32)) + old_carry * pow256((31 - i) as nat) == be_value(
            e.subrange(i + 1, 32),
        ) + value,
        t == e[i] + old_carry,
        new_bytes == old_bytes.update(i, ((t % 256) as u8)),
    ensures
        new_bytes.subrange(0, i) == e.subrange(0, i),
        be_value(new_bytes.subrange(i, 32)) + (t / 256) * pow256((32 - i) as nat) == be_value(
            e.subrange(i, 32),
        ) + value,
{
    assert(new_bytes.subrange(0, i) =~= e.subrange(0, i));
    let p = pow256((31 - i) as nat);
    let ns = new_bytes.subrange(i, 32);
    let os = old_bytes.subrange(i + 1, 32);
    let es = e.subrange(i, 32);
    assert(ns.drop_first() =~= os);
    assert(es.drop_first() =~= e.subrange(i + 1, 32));
    lemma_be_value_split_first(ns);
    lemma_be_value_split_first(es);
    assert(ns[0] == (t % 256) as u8);
    assert(es[0] == e[i]);
    lemma_fundamental_div_mod(t as int, 256);
    // be_value(ns) == (t % 256) * p + be_value(os)
    // goal LHS == (t % 256) * p + be_value(os) + (t / 256) * (256 * p)
    assert((t % 256) * p + (t / 256) * (256 * p) == t * p) by (nonlinear_arith)
        requires
            t == 256 * (t / 256) + t % 256,
    ;
    assert(t * p == e[i] * p + old_carry * p) by (nonlinear_arith)
        requires
            t == e[i] + old_carry,
    ;
    assert(pow256((32 - i) as nat) == 256 * p);
    assert(be_value(ns) + (t / 256) * pow256((32 - i) as nat) == e[i] * p + be_value(os) + old_carry
        * p);
    assert(be_value(os) + old_carry * p == be_value(e.subrange(i + 1, 32)) + value);
    assert(be_value(es) == e[i] * p + be_value(e.subrange(i + 1, 32)));
}

/// At the end of the carry loop the processed buffer is exactly the
/// wrapped sum, re-encoded.
proof fn lemma_final(new_bytes: Seq<u8>, e: Seq<u8>, carry: nat, value: nat)
    requires
        new_bytes.len() == 32,
        e.len() == 32,
        be_value(new_bytes) + carry * pow256(32) == be_value(e) + value,
    ensures
        new_bytes == entropy_next(e, value),
{
    let m = pow256(32);
    lemma_pow256_pos(32);
    lemma_be_value_bound(new_bytes);
    lemma_fundamental_div_mod_converse(
        (be_value(e) + value) as int,
        m as int,
        carry as int,
        be_value(new_bytes) as int,
    );
    assert(be_value(new_bytes) == (be_value(e) + value) % m);
    lemma_be_encode_value(new_bytes);
}

} // verus!
