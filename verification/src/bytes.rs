use vstd::prelude::*;
use crate::arena::BumpBytes;

verus! {

/// The `n` low-order base-256 digits of `v`, most significant first.
pub open spec fn be_bytes(v: nat, n: nat) -> Seq<u8>
    decreases n,
{
    if n == 0 {
        Seq::empty()
    } else {
        be_bytes(v / 256, (n - 1) as nat).push((v % 256) as u8)
    }
}

/// The `n` low-order base-256 digits of `v`, least significant first.
pub open spec fn le_bytes(v: nat, n: nat) -> Seq<u8>
    decreases n,
{
    if n == 0 {
        Seq::empty()
    } else {
        seq![(v % 256) as u8] + le_bytes(v / 256, (n - 1) as nat)
    }
}

/// The number whose base-256 digits, least significant first, are `s`.
pub open spec fn le_value(s: Seq<u8>) -> nat
    decreases s.len(),
{
    if s.len() == 0 {
        0
    } else {
        (s[0] as nat) + 256 * le_value(s.subrange(1, s.len() as int))
    }
}

/// 256 to the power `n`.
pub open spec fn pow256(n: nat) -> nat
    decreases n,
{
    if n == 0 {
        1
    } else {
        256 * pow256((n - 1) as nat)
    }
}

/// `a` and `b` agree on their first `k` bytes, and there `a` ends while `b`
/// goes on, or `a` holds the smaller byte.
pub open spec fn bytes_lt_at(a: Seq<u8>, b: Seq<u8>, k: int) -> bool {
    &&& 0 <= k <= a.len()
    &&& k < b.len()
    &&& a.subrange(0, k) == b.subrange(0, k)
    &&& (k < a.len() ==> a[k] < b[k])
}

/// Lexicographic order on byte strings: `a` sorts strictly before `b`.
pub open spec fn bytes_lt(a: Seq<u8>, b: Seq<u8>) -> bool {
    exists|k: int| bytes_lt_at(a, b, k)
}

pub proof fn lemma_be_len(v: nat, n: nat)
    ensures
        be_bytes(v, n).len() == n,
    decreases n,
{
    if n > 0 {
        lemma_be_len(v / 256, (n - 1) as nat);
    }
}

pub proof fn lemma_le_len(v: nat, n: nat)
    ensures
        le_bytes(v, n).len() == n,
    decreases n,
{
    if n > 0 {
        lemma_le_len(v / 256, (n - 1) as nat);
    }
}

/// Reading back what was written little-endian gives the number again.
pub proof fn lemma_le_round_trip(v: nat, n: nat)
    requires
        v < pow256(n),
    ensures
        le_value(le_bytes(v, n)) == v,
        le_bytes(v, n).len() == n,
    decreases n,
{
    lemma_le_len(v, n);
    if n > 0 {
        let rest = le_bytes(v / 256, (n - 1) as nat);
        let s = le_bytes(v, n);
        assert(s.subrange(1, s.len() as int) =~= rest);
        assert(v / 256 < pow256((n - 1) as nat)) by (nonlinear_arith)
            requires
                v < 256 * pow256((n - 1) as nat),
        ;
        lemma_le_round_trip(v / 256, (n - 1) as nat);
        lemma_le_len(v / 256, (n - 1) as nat);
        assert(v == (v % 256) + 256 * (v / 256)) by (nonlinear_arith);
    } else {
        assert(v == 0);
    }
}

/// Big-endian digits of equal width order as the numbers do.
pub proof fn lemma_be_monotone(a: nat, b: nat, n: nat)
    requires
        a < b,
        b < pow256(n),
    ensures
        bytes_lt(be_bytes(a, n), be_bytes(b, n)),
    decreases n,
{
    lemma_be_len(a, n);
    lemma_be_len(b, n);
    if n == 0 {
        assert(false);
    } else {
        let m = (n - 1) as nat;
        let ea = be_bytes(a, n);
        let eb = be_bytes(b, n);
        lemma_be_len(a / 256, m);
        lemma_be_len(b / 256, m);
        assert(b / 256 < pow256(m)) by (nonlinear_arith)
            requires
                b < 256 * pow256(m),
        ;
        assert(a / 256 <= b / 256) by (nonlinear_arith)
            requires
                a < b,
        ;
        if a / 256 < b / 256 {
            lemma_be_monotone(a / 256, b / 256, m);
            let sa = be_bytes(a / 256, m);
            let sb = be_bytes(b / 256, m);
            let k = choose|k: int| bytes_lt_at(sa, sb, k);
            assert(ea.subrange(0, k) =~= sa.subrange(0, k));
            assert(eb.subrange(0, k) =~= sb.subrange(0, k));
            assert(bytes_lt_at(ea, eb, k));
        } else {
            assert(a % 256 < b % 256) by (nonlinear_arith)
                requires
                    a < b,
                    a / 256 == b / 256,
            ;
            assert(ea.subrange(0, m as int) =~= be_bytes(a / 256, m));
            assert(eb.subrange(0, m as int) =~= be_bytes(b / 256, m));
            assert(bytes_lt_at(ea, eb, m as int));
        }
    }
}

/// Where `a` already sorts before `b` at a byte that both hold, whatever
/// follows them does not change that.
pub proof fn lemma_lt_at_extend(a: Seq<u8>, b: Seq<u8>, k: int, ta: Seq<u8>, tb: Seq<u8>)
    requires
        bytes_lt_at(a, b, k),
        k < a.len(),
    ensures
        bytes_lt(a + ta, b + tb),
{
    assert((a + ta).subrange(0, k) =~= a.subrange(0, k));
    assert((b + tb).subrange(0, k) =~= b.subrange(0, k));
    assert(bytes_lt_at(a + ta, b + tb, k));
}

/// Appends the `n` low-order bytes of `v`, most significant first.
pub fn push_be(out: &mut BumpBytes, v: u64, n: usize)
    requires
        n <= 8,
    ensures
        final(out)@ == old(out)@ + be_bytes(v as nat, n as nat),
    decreases n,
{
    if n > 0 {
        push_be(out, v / 256, n - 1);
        out.push((v % 256) as u8);
        assert(out@ =~= old(out)@ + be_bytes(v as nat, n as nat));
    } else {
        assert(out@ =~= old(out)@ + be_bytes(v as nat, n as nat));
    }
}

/// Appends the `n` low-order bytes of `v`, least significant first.
pub fn push_le(out: &mut BumpBytes, v: u64, n: usize)
    requires
        n <= 8,
    ensures
        final(out)@ == old(out)@ + le_bytes(v as nat, n as nat),
{
    let mut x: u64 = v;
    let mut i: usize = 0;
    proof {
        assert(le_bytes(v as nat, n as nat) =~= le_bytes(v as nat, n as nat).subrange(0, 0) + le_bytes(
            x as nat,
            n as nat,
        ));
    }
    let ghost start = out@;
    let ghost done: Seq<u8> = Seq::empty();
    while i < n
        invariant
            i <= n <= 8,
            out@ == start + done,
            done.len() == i,
            done + le_bytes(x as nat, (n - i) as nat) == le_bytes(v as nat, n as nat),
        decreases n - i,
    {
        let byte: u8 = (x % 256) as u8;
        out.push(byte);
        proof {
            let rest = le_bytes((x / 256) as nat, (n - i - 1) as nat);
            assert(le_bytes(x as nat, (n - i) as nat) == seq![byte] + rest);
            assert(done.push(byte) + rest =~= done + (seq![byte] + rest));
            assert(out@ =~= start + done.push(byte));
            done = done.push(byte);
        }
        x = x / 256;
        i += 1;
    }
    proof {
        assert(le_bytes(x as nat, 0) =~= Seq::<u8>::empty());
        assert(done + Seq::<u8>::empty() =~= done);
    }
}

/// The number that `n` bytes of `s` from position `at` spell, least
/// significant first.
pub fn read_le(s: &[u8], at: usize, n: usize) -> (v: u64)
    requires
        n <= 8,
        at + n <= s@.len(),
    ensures
        v as nat == le_value(s@.subrange(at as int, at + n)),
        (v as nat) < pow256(n as nat),
    decreases n,
{
    if n == 0 {
        assert(s@.subrange(at as int, at + n).len() == 0);
        0
    } else {
        let len: usize = s.len();
        assert(at + n <= len);
        let rest: u64 = read_le(s, at + 1, n - 1);
        let first: u8 = s[at];
        proof {
            let whole = s@.subrange(at as int, at + n);
            assert(whole.subrange(1, whole.len() as int) =~= s@.subrange(at + 1, at + n));
            assert(whole[0] == first);
            lemma_pow256_bound((n - 1) as nat);
            assert((rest as nat) * 256 + 255 < pow256(n as nat)) by (nonlinear_arith)
                requires
                    (rest as nat) < pow256((n - 1) as nat),
                    pow256(n as nat) == 256 * pow256((n - 1) as nat),
            ;
            lemma_pow256_bound(n as nat);
        }
        rest * 256 + first as u64
    }
}

/// Up to eight bytes, the powers of 256 stay inside 64 bits.
pub proof fn lemma_pow256_bound(n: nat)
    requires
        n <= 8,
    ensures
        pow256(n) <= 0x1_0000_0000_0000_0000,
        n == 1 ==> pow256(n) == 0x100,
        n == 2 ==> pow256(n) == 0x1_0000,
        n == 4 ==> pow256(n) == 0x1_0000_0000,
        n == 8 ==> pow256(n) == 0x1_0000_0000_0000_0000,
{
    reveal_with_fuel(pow256, 10);
}

} // verus!
