use vstd::prelude::*;

verus! {

/// The number a little-endian byte string stands for.
pub open spec fn le_value(b: Seq<u8>) -> nat
    decreases b.len(),
{
    if b.len() == 0 {
        0
    } else {
        b[0] as nat + 256 * le_value(b.drop_first())
    }
}

/// 256 to the power `k`.
pub open spec fn pow256(k: nat) -> nat
    decreases k,
{
    if k == 0 {
        1
    } else {
        256 * pow256((k - 1) as nat)
    }
}

pub proof fn lemma_le_bound(b: Seq<u8>)
    ensures
        le_value(b) < pow256(b.len()),
    decreases b.len(),
{
    if b.len() > 0 {
        let rest = b.drop_first();
        lemma_le_bound(rest);
        let x = le_value(rest);
        let p = pow256(rest.len());
        let b0 = b[0] as nat;
        assert(b0 + 256 * x < 256 * p) by (nonlinear_arith)
            requires
                x < p,
                b0 < 256,
        ;
    }
}

proof fn lemma_pow_mono(a: nat, b: nat)
    requires
        a <= b,
    ensures
        pow256(a) <= pow256(b),
    decreases b,
{
    if a < b {
        lemma_pow_mono(a, (b - 1) as nat);
    }
}

/// Reads the `n` bytes of `bytes` at `pos` as a little-endian number.
pub fn read_le(bytes: &[u8], pos: usize, n: usize) -> (r: u64)
    requires
        n <= 8,
        pos + n <= bytes@.len(),
    ensures
        r == le_value(bytes@.subrange(pos as int, pos + n)),
{
    proof {
        reveal_with_fuel(pow256, 9);
        assert(pow256(7) == 72057594037927936);
        assert(pow256(8) == 18446744073709551616);
    }
    let mut acc: u64 = 0;
    let mut i: usize = n;
    let len = bytes.len();
    assert(pos + n <= len);
    let end = pos + n;
    assert(bytes@.subrange(end as int, end as int) =~= Seq::<u8>::empty());
    while i > 0
        invariant
            i <= n,
            n <= 8,
            end == pos + n,
            end <= bytes@.len(),
            pow256(7) == 72057594037927936,
            acc == le_value(bytes@.subrange(pos + i, end as int)),
        decreases i,
    {
        let ghost s = bytes@.subrange(pos + i - 1, end as int);
        proof {
            assert(s.drop_first() =~= bytes@.subrange(pos + i, end as int));
            lemma_le_bound(bytes@.subrange(pos + i, end as int));
            lemma_pow_mono((n - i) as nat, 7);
        }
        acc = acc * 256 + bytes[pos + i - 1] as u64;
        i = i - 1;
    }
    acc
}

/// The `k` bytes that write `n` in little-endian order.
pub open spec fn le_bytes(n: nat, k: nat) -> Seq<u8>
    decreases k,
{
    if k == 0 {
        Seq::empty()
    } else {
        seq![(n % 256) as u8] + le_bytes(n / 256, (k - 1) as nat)
    }
}

/// Appends the eight little-endian bytes of `n`.
pub fn push_u64(out: &mut Vec<u8>, n: u64)
    ensures
        final(out)@ == old(out)@ + le_bytes(n as nat, 8),
{
    let ghost start = out@;
    let mut x: u64 = n;
    let mut i: usize = 0;
    while i < 8
        invariant
            i <= 8,
            out@ + le_bytes(x as nat, (8 - i) as nat) == start + le_bytes(n as nat, 8),
        decreases 8 - i,
    {
        let ghost before = out@;
        let ghost x0 = x;
        proof {
            assert(le_bytes(x0 as nat, (8 - i) as nat) == seq![(x0 % 256) as u8] + le_bytes((x0 / 256) as nat, (8 - i - 1) as nat));
        }
        out.push((x % 256) as u8);
        x = x / 256;
        i = i + 1;
        assert(out@ + le_bytes(x as nat, (8 - i) as nat) =~= before + (seq![(x0 % 256) as u8] + le_bytes(x as nat, (8 - i) as nat)));
    }
    assert(le_bytes(x as nat, 0) =~= Seq::<u8>::empty());
    assert(out@ =~= out@ + le_bytes(x as nat, 0));
}

/// Writing out the number that a byte string stands for gives the string back.
pub proof fn lemma_le_bytes_of_value(b: Seq<u8>)
    ensures
        le_bytes(le_value(b), b.len()) == b,
    decreases b.len(),
{
    if b.len() > 0 {
        let rest = b.drop_first();
        lemma_le_bytes_of_value(rest);
        let v = le_value(rest);
        let b0 = b[0] as nat;
        assert((b0 + 256 * v) % 256 == b0 && (b0 + 256 * v) / 256 == v) by (nonlinear_arith)
            requires
                b0 < 256,
        ;
        assert(b =~= seq![b[0]] + rest);
    }
}

/// The number written by `le_bytes(n, k)` is `n`, when `n` fits in `k` bytes.
pub proof fn lemma_value_of_le_bytes(n: nat, k: nat)
    requires
        n < pow256(k),
    ensures
        le_value(le_bytes(n, k)) == n,
    decreases k,
{
    if k > 0 {
        let p = pow256((k - 1) as nat);
        assert(n / 256 < p) by (nonlinear_arith)
            requires
                n < 256 * p,
        ;
        lemma_value_of_le_bytes(n / 256, (k - 1) as nat);
        let b = le_bytes(n, k);
        assert(b.drop_first() =~= le_bytes(n / 256, (k - 1) as nat));
        assert((n % 256) + 256 * (n / 256) == n) by (nonlinear_arith);
    }
}

pub proof fn lemma_le_bytes_len(n: nat, k: nat)
    ensures
        #[trigger] le_bytes(n, k).len() == k,
    decreases k,
{
    if k > 0 {
        lemma_le_bytes_len(n / 256, (k - 1) as nat);
    }
}

pub proof fn lemma_pow256_8()
    ensures
        pow256(8) == 18446744073709551616,
{
    reveal_with_fuel(pow256, 9);
}

/// Reads the eight little-endian bytes at `pos`, or `None` if fewer remain.
pub fn read_u64_at(bytes: &[u8], pos: usize) -> (r: Option<u64>)
    ensures
        r is Some <==> pos + 8 <= bytes@.len(),
        r matches Some(v) ==> bytes@.subrange(pos as int, pos + 8) == le_bytes(v as nat, 8),
        forall|x: nat| x < pow256(8) && pos + 8 <= bytes@.len() && bytes@.subrange(pos as int, pos + 8) == #[trigger] le_bytes(x, 8)
            ==> r == Some(x as u64),
{
    let len = bytes.len();
    if pos > len || len - pos < 8 {
        return None;
    }
    let v = read_le(bytes, pos, 8);
    proof {
        lemma_le_bytes_of_value(bytes@.subrange(pos as int, pos + 8));
        lemma_pow256_8();
        assert forall|x: nat| x < pow256(8) && bytes@.subrange(pos as int, pos + 8) == #[trigger] le_bytes(x, 8) implies v == x by {
            lemma_value_of_le_bytes(x, 8);
        }
    }
    Some(v)
}

/// Appends the bytes of `b`.
pub fn append_bytes(out: &mut Vec<u8>, b: &[u8])
    ensures
        final(out)@ == old(out)@ + b@,
{
    let ghost start = out@;
    let mut i: usize = 0;
    while i < b.len()
        invariant
            i <= b@.len(),
            out@ == start + b@.subrange(0, i as int),
        decreases b@.len() - i,
    {
        out.push(b[i]);
        i = i + 1;
        assert(out@ =~= start + b@.subrange(0, i as int));
    }
    assert(b@.subrange(0, i as int) =~= b@);
}

/// A length-prefixed byte string: its length as eight little-endian bytes,
/// then its bytes.
pub open spec fn enc_field(b: Seq<u8>) -> Seq<u8> {
    le_bytes(b.len(), 8) + b
}

/// Appends `b` as a length-prefixed field.
pub fn push_field(out: &mut Vec<u8>, b: &[u8])
    ensures
        final(out)@ == old(out)@ + enc_field(b@),
{
    let ghost start = out@;
    push_u64(out, b.len() as u64);
    append_bytes(out, b);
    assert(out@ =~= start + enc_field(b@));
}

/// The bytes at `pos` begin with the field holding `b`.
pub open spec fn field_at(bytes: Seq<u8>, pos: int, b: Seq<u8>) -> bool {
    &&& 0 <= pos
    &&& pos + 8 + b.len() <= bytes.len()
    &&& bytes.subrange(pos, pos + 8 + b.len()) == enc_field(b)
}

/// Reads the length-prefixed field at `pos`, returning it with the position
/// after it, or `None` if the bytes end first.
pub fn read_field(bytes: &[u8], pos: usize) -> (r: Option<(Vec<u8>, usize)>)
    ensures
        r matches Some((v, next)) ==> pos <= next <= bytes@.len() && bytes@.subrange(pos as int, next as int) == enc_field(v@),
        forall|b: Seq<u8>| #[trigger] field_at(bytes@, pos as int, b) ==> (r matches Some((v, next)) && v@ == b && next == pos + 8 + b.len()),
{
    let len = bytes.len();
    proof {
        lemma_pow256_8();
        assert forall|b: Seq<u8>| #[trigger] field_at(bytes@, pos as int, b) implies bytes@.subrange(pos as int, pos + 8) == le_bytes(b.len(), 8)
            && b.len() < pow256(8) by {
            lemma_le_bytes_len(b.len(), 8);
            assert(bytes@.subrange(pos as int, pos + 8) =~= enc_field(b).subrange(0, 8));
            assert(enc_field(b).subrange(0, 8) =~= le_bytes(b.len(), 8));
        }
    }
    let n = match read_u64_at(bytes, pos) {
        Some(n) => n,
        None => { return None; },
    };
    let start = pos + 8;
    if n as u128 > (len - start) as u128 {
        return None;
    }
    let n = n as usize;
    let mut v: Vec<u8> = Vec::with_capacity(n);
    let mut i: usize = 0;
    while i < n
        invariant
            start + n <= bytes@.len(),
            bytes@.len() <= usize::MAX,
            i <= n,
            v@ == bytes@.subrange(start as int, start + i),
        decreases n - i,
    {
        v.push(bytes[start + i]);
        i = i + 1;
        assert(v@ =~= bytes@.subrange(start as int, start + i));
    }
    let next = start + n;
    assert(bytes@.subrange(pos as int, next as int) =~= bytes@.subrange(pos as int, pos + 8) + v@);
    proof {
        assert forall|b: Seq<u8>| #[trigger] field_at(bytes@, pos as int, b) implies v@ == b && next == pos + 8 + b.len() by {
            assert(b.len() == n);
            assert(v@ =~= enc_field(b).subrange(8, 8 + b.len() as int));
        }
    }
    Some((v, next))
}

} // verus!
