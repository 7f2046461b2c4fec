//! Little-endian integers inside byte buffers.
use vstd::prelude::*;

verus! {

/// `256` raised to the power `n`: the number of values that `n` bytes hold.
pub open spec fn byte_power(n: nat) -> nat
    decreases n,
{
    if n == 0 {
        1
    } else {
        256 * byte_power((n - 1) as nat)
    }
}

/// The unsigned value of `s` read as a little-endian number.
pub open spec fn le_value(s: Seq<u8>) -> nat
    decreases s.len(),
{
    if s.len() == 0 {
        0
    } else {
        s[0] as nat + 256 * le_value(s.drop_first())
    }
}

/// The `n` low bytes of `v`, least significant first.
pub open spec fn le_bytes(v: nat, n: nat) -> Seq<u8>
    decreases n,
{
    if n == 0 {
        Seq::empty()
    } else {
        seq![(v % 256) as u8] + le_bytes(v / 256, (n - 1) as nat)
    }
}

pub proof fn lemma_byte_power_positive(n: nat)
    ensures
        byte_power(n) >= 1,
    decreases n,
{
    if n > 0 {
        lemma_byte_power_positive((n - 1) as nat);
    }
}

pub proof fn lemma_byte_power_monotone(a: nat, b: nat)
    requires
        a <= b,
    ensures
        byte_power(a) <= byte_power(b),
    decreases b,
{
    if a < b {
        lemma_byte_power_monotone(a, (b - 1) as nat);
        lemma_byte_power_positive((b - 1) as nat);
    }
}

pub proof fn lemma_byte_power_values()
    ensures
        byte_power(2) == 0x1_0000,
        byte_power(4) == 0x1_0000_0000,
        byte_power(16) == 0x1_0000_0000_0000_0000_0000_0000_0000_0000,
{
    reveal_with_fuel(byte_power, 17);
}

pub proof fn lemma_le_value_bound(s: Seq<u8>)
    ensures
        le_value(s) < byte_power(s.len()),
    decreases s.len(),
{
    if s.len() > 0 {
        lemma_le_value_bound(s.drop_first());
    }
}

pub proof fn lemma_le_bytes_len(v: nat, n: nat)
    ensures
        le_bytes(v, n).len() == n,
    decreases n,
{
    if n > 0 {
        lemma_le_bytes_len(v / 256, (n - 1) as nat);
    }
}

proof fn lemma_split_byte(x: nat)
    ensures
        x == x % 256 + 256 * (x / 256),
        x % 256 < 256,
{
    assert(x == x % 256 + 256 * (x / 256) && x % 256 < 256) by (nonlinear_arith);
}

proof fn lemma_join_byte(a: nat, b: nat)
    requires
        a < 256,
    ensures
        (a + 256 * b) % 256 == a,
        (a + 256 * b) / 256 == b,
{
    assert((a + 256 * b) % 256 == a && (a + 256 * b) / 256 == b) by (nonlinear_arith)
        requires
            a < 256,
    ;
}

/// Reading back the bytes of a value that fits gives the value.
pub proof fn lemma_le_value_of_bytes(v: nat, n: nat)
    requires
        v < byte_power(n),
    ensures
        le_value(le_bytes(v, n)) == v,
    decreases n,
{
    if n == 0 {
    } else {
        let rest = le_bytes(v / 256, (n - 1) as nat);
        lemma_split_byte(v);
        assert(v / 256 < byte_power((n - 1) as nat)) by (nonlinear_arith)
            requires
                v < 256 * byte_power((n - 1) as nat),
                v == v % 256 + 256 * (v / 256),
                v % 256 >= 0,
        ;
        lemma_le_value_of_bytes(v / 256, (n - 1) as nat);
        assert(le_bytes(v, n).drop_first() =~= rest);
    }
}

/// Writing out the value of a byte sequence gives the sequence back.
pub proof fn lemma_le_bytes_of_value(s: Seq<u8>)
    ensures
        le_bytes(le_value(s), s.len()) == s,
    decreases s.len(),
{
    if s.len() > 0 {
        let t = s.drop_first();
        lemma_le_bytes_of_value(t);
        lemma_join_byte(s[0] as nat, le_value(t));
        assert(le_bytes(le_value(s), s.len()) =~= s);
    }
}

/// One more byte of a value is appended at the high end.
pub proof fn lemma_le_bytes_push(v: nat, n: nat)
    ensures
        le_bytes(v, n + 1) == le_bytes(v, n).push(((v / byte_power(n)) % 256) as u8),
    decreases n,
{
    if n == 0 {
        assert(byte_power(0) == 1);
        assert(v / 1 == v);
        assert(le_bytes(v / 256, 0) =~= Seq::<u8>::empty());
        assert(le_bytes(v, 0) =~= Seq::<u8>::empty());
        assert(le_bytes(v, 1) =~= le_bytes(v, 0).push(((v / byte_power(0)) % 256) as u8));
    } else {
        lemma_le_bytes_push(v / 256, (n - 1) as nat);
        lemma_byte_power_positive((n - 1) as nat);
        vstd::arithmetic::div_mod::lemma_div_denominator(v as int, 256, byte_power((n - 1) as nat) as int);
        assert(le_bytes(v, n + 1) =~= le_bytes(v, n).push(((v / byte_power(n)) % 256) as u8));
    }
}

/// `le_value` of a slice taken from `at`, peeled from the low end.
pub proof fn lemma_le_value_step(s: Seq<u8>, lo: int, hi: int)
    requires
        0 <= lo < hi <= s.len(),
    ensures
        le_value(s.subrange(lo, hi)) == s[lo] as nat + 256 * le_value(s.subrange(lo + 1, hi)),
{
    assert(s.subrange(lo, hi).drop_first() =~= s.subrange(lo + 1, hi));
}

/// Reads the `n`-byte little-endian number at `at`.
pub fn read_le(s: &[u8], at: usize, n: usize) -> (r: u128)
    requires
        n <= 16,
        at + n <= s@.len(),
    ensures
        r == le_value(s@.subrange(at as int, at + n)),
{
    let mut v: u128 = 0;
    let mut i: usize = n;
    proof {
        lemma_byte_power_values();
        assert(s@.subrange(at + n, at + n).len() == 0);
    }
    while i > 0
        invariant
            i <= n <= 16,
            at + n <= s.len(),
            v == le_value(s@.subrange(at + i, at + n)),
            byte_power(16) == 0x1_0000_0000_0000_0000_0000_0000_0000_0000,
        decreases i,
    {
        i = i - 1;
        proof {
            lemma_le_value_bound(s@.subrange(at + i + 1, at + n));
            lemma_byte_power_monotone((n - i - 1) as nat, 15);
            lemma_le_value_step(s@, at + i, at + n);
            assert(byte_power(16) == 256 * byte_power(15));
        }
        v = s[at + i] as u128 + 256 * v;
    }
    v
}

/// Reads the two-byte little-endian number at `at`.
pub fn read_u16_le(s: &[u8], at: usize) -> (r: u16)
    requires
        at + 2 <= s@.len(),
    ensures
        r == le_value(s@.subrange(at as int, at + 2)),
{
    let v = read_le(s, at, 2);
    proof {
        lemma_le_value_bound(s@.subrange(at as int, at + 2));
        lemma_byte_power_values();
    }
    v as u16
}

/// Reads the four-byte little-endian number at `at`.
pub fn read_u32_le(s: &[u8], at: usize) -> (r: u32)
    requires
        at + 4 <= s@.len(),
    ensures
        r == le_value(s@.subrange(at as int, at + 4)),
{
    let v = read_le(s, at, 4);
    proof {
        lemma_le_value_bound(s@.subrange(at as int, at + 4));
        lemma_byte_power_values();
    }
    v as u32
}

/// Reads the sixteen-byte little-endian number at `at`.
pub fn read_u128_le(s: &[u8], at: usize) -> (r: u128)
    requires
        at + 16 <= s@.len(),
    ensures
        r == le_value(s@.subrange(at as int, at + 16)),
{
    read_le(s, at, 16)
}

/// Appends the `n` low bytes of `v`, least significant first.
pub fn push_le(out: &mut Vec<u8>, v: u128, n: usize)
    requires
        n <= 16,
    ensures
        final(out)@ == old(out)@ + le_bytes(v as nat, n as nat),
{
    let mut w: u128 = v;
    let mut i: usize = 0;
    proof {
        assert(old(out)@ + le_bytes(v as nat, 0) =~= old(out)@);
        assert(byte_power(0) == 1);
        assert(v as nat / byte_power(0) == v);
    }
    while i < n
        invariant
            i <= n <= 16,
            out@ == old(out)@ + le_bytes(v as nat, i as nat),
            w as nat == v as nat / byte_power(i as nat),
        decreases n - i,
    {
        proof {
            lemma_le_bytes_push(v as nat, i as nat);
            lemma_byte_power_positive(i as nat);
            vstd::arithmetic::div_mod::lemma_div_denominator(v as int, byte_power(i as nat) as int, 256);
            assert(byte_power((i + 1) as nat) == 256 * byte_power(i as nat));
        }
        out.push((w % 256) as u8);
        w = w / 256;
        i = i + 1;
        proof {
            assert(out@ =~= old(out)@ + le_bytes(v as nat, i as nat));
        }
    }
}

/// Overwrites the sixteen bytes at `at` with `v`, least significant first.
pub fn write_u128_le(s: &mut [u8], at: usize, v: u128)
    requires
        at + 16 <= old(s)@.len(),
    ensures
        final(s)@ == old(s)@.subrange(0, at as int) + le_bytes(v as nat, 16) + old(s)@.subrange(
            at + 16,
            old(s)@.len() as int,
        ),
{
    let mut w: u128 = v;
    let mut i: usize = 0;
    let ghost s0 = s@;
    proof {
        lemma_le_bytes_len(v as nat, 0);
        assert(byte_power(0) == 1);
        assert(v as nat / byte_power(0) == v);
    }
    while i < 16
        invariant
            i <= 16,
            at + 16 <= s0.len(),
            s@.len() == s0.len(),
            s0.len() == old(s).len(),
            s.len() == old(s).len(),
            forall|k: int| 0 <= k < at ==> s@[k] == s0[k],
            forall|k: int| at + 16 <= k < s0.len() ==> s@[k] == s0[k],
            le_bytes(v as nat, i as nat).len() == i,
            forall|k: int| 0 <= k < i ==> s@[at + k] == le_bytes(v as nat, i as nat)[k],
            w as nat == v as nat / byte_power(i as nat),
        decreases 16 - i,
    {
        proof {
            lemma_le_bytes_push(v as nat, i as nat);
            lemma_le_bytes_len(v as nat, i as nat);
            lemma_byte_power_positive(i as nat);
            vstd::arithmetic::div_mod::lemma_div_denominator(v as int, byte_power(i as nat) as int, 256);
            assert(byte_power((i + 1) as nat) == 256 * byte_power(i as nat));
        }
        s[at + i] = (w % 256) as u8;
        w = w / 256;
        i = i + 1;
    }
    proof {
        lemma_le_bytes_len(v as nat, 16);
        assert(s@ =~= s0.subrange(0, at as int) + le_bytes(v as nat, 16) + s0.subrange(
            at + 16,
            s0.len() as int,
        ));
    }
}

/// The bytes of four 32-bit words laid one after another, each
/// little-endian.
pub open spec fn words_le_bytes(words: [u32; 4]) -> Seq<u8> {
    le_bytes(words[0] as nat, 4) + le_bytes(words[1] as nat, 4) + le_bytes(words[2] as nat, 4)
        + le_bytes(words[3] as nat, 4)
}

/// The checksum held in a digest of four 32-bit words, as the little-endian
/// number of the digest's bytes.
pub fn digest_from_words(words: [u32; 4]) -> (r: u128)
    ensures
        r == le_value(words_le_bytes(words)),
{
    let mut bytes: Vec<u8> = Vec::new();
    push_le(&mut bytes, words[0] as u128, 4);
    push_le(&mut bytes, words[1] as u128, 4);
    push_le(&mut bytes, words[2] as u128, 4);
    push_le(&mut bytes, words[3] as u128, 4);
    proof {
        lemma_le_bytes_len(words[0] as nat, 4);
        lemma_le_bytes_len(words[1] as nat, 4);
        lemma_le_bytes_len(words[2] as nat, 4);
        lemma_le_bytes_len(words[3] as nat, 4);
        assert(bytes@ =~= words_le_bytes(words));
        assert(bytes@.subrange(0, 16) =~= bytes@);
    }
    read_u128_le(bytes.as_slice(), 0)
}

} // verus!
