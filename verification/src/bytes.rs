//! Little-endian integers in byte sequences.

use vstd::prelude::*;

verus! {

/// The `n` low bytes of `x`, lowest first.
pub open spec fn le(x: nat, n: nat) -> Seq<u8>
    decreases n,
{
    if n == 0 {
        Seq::empty()
    } else {
        seq![(x % 256) as u8] + le(x / 256, (n - 1) as nat)
    }
}

/// The number a byte sequence spells, lowest byte first.
pub open spec fn from_le(s: Seq<u8>) -> nat
    decreases s.len(),
{
    if s.len() == 0 {
        0
    } else {
        s[0] as nat + 256 * from_le(s.skip(1))
    }
}

/// How many numbers `n` bytes can spell.
pub open spec fn span(n: nat) -> nat
    decreases n,
{
    if n == 0 {
        1
    } else {
        256 * span((n - 1) as nat)
    }
}

/// `n` bytes spell a number under `span(n)`.
pub proof fn lemma_from_le_bound(s: Seq<u8>)
    ensures
        from_le(s) < span(s.len()),
    decreases s.len(),
{
    if s.len() > 0 {
        lemma_from_le_bound(s.skip(1));
    }
}

/// `le` writes exactly as many bytes as it was asked for.
pub broadcast proof fn lemma_le_len(x: nat, n: nat)
    ensures
        #[trigger] le(x, n).len() == n,
    decreases n,
{
    if n > 0 {
        lemma_le_len(x / 256, (n - 1) as nat);
    }
}

/// Writing a number that fits and reading it gives the number back.
pub proof fn lemma_le_round_trip(x: nat, n: nat)
    requires
        x < span(n),
    ensures
        from_le(le(x, n)) == x,
    decreases n,
{
    broadcast use lemma_le_len;

    if n > 0 {
        let rest = le(x / 256, (n - 1) as nat);
        assert(le(x, n).skip(1) =~= rest);
        lemma_le_round_trip(x / 256, (n - 1) as nat);
    }
}

/// Reading bytes and writing the number gives the bytes back.
pub proof fn lemma_from_le_round_trip(s: Seq<u8>)
    ensures
        le(from_le(s), s.len()) =~= s,
    decreases s.len(),
{
    if s.len() > 0 {
        lemma_from_le_round_trip(s.skip(1));
        let x = from_le(s);
        assert(x % 256 == s[0] as nat);
        assert(x / 256 == from_le(s.skip(1)));
        assert(s =~= seq![s[0]] + s.skip(1));
    }
}

/// What one, two, four and eight bytes span.
pub proof fn lemma_spans()
    ensures
        span(1) == 0x100,
        span(2) == 0x1_0000,
        span(4) == 0x1_0000_0000,
        span(8) == 0x1_0000_0000_0000_0000,
{
    reveal_with_fuel(span, 9);
}

/// Append the `n` low bytes of `x` to `out`, lowest first.
pub fn push_le(out: &mut Vec<u8>, x: u64, n: usize)
    ensures
        final(out)@ == old(out)@ + le(x as nat, n as nat),
{
    let mut rest: u64 = x;
    let mut left: usize = n;
    proof {
        assert(old(out)@ + le(x as nat, n as nat) =~= out@ + le(rest as nat, left as nat));
    }
    while left > 0
        invariant
            old(out)@ + le(x as nat, n as nat) =~= out@ + le(rest as nat, left as nat),
        decreases left,
    {
        let ghost before = out@;
        let low = (rest % 256) as u8;
        out.push(low);
        proof {
            assert(le(rest as nat, left as nat) == seq![low] + le(
                (rest / 256) as nat,
                (left - 1) as nat,
            ));
            assert(before + (seq![low] + le((rest / 256) as nat, (left - 1) as nat))
                =~= before.push(low) + le((rest / 256) as nat, (left - 1) as nat));
        }
        rest = rest / 256;
        left = left - 1;
    }
    proof {
        assert(out@ + le(rest as nat, 0) =~= out@);
    }
}

/// Read the number `s` spells, lowest byte first.
pub fn read_le(s: &[u8]) -> (x: u64)
    requires
        s@.len() <= 8,
    ensures
        x == from_le(s@),
{
    let mut i: usize = s.len();
    let mut x: u64 = 0;
    proof {
        assert(s@.skip(i as int) =~= Seq::<u8>::empty());
        lemma_spans();
    }
    while i > 0
        invariant
            i <= s@.len() <= 8,
            x == from_le(s@.skip(i as int)),
        decreases i,
    {
        proof {
            let tail = s@.skip(i as int - 1);
            assert(tail.skip(1) =~= s@.skip(i as int));
            lemma_from_le_bound(tail);
            lemma_span_grows(tail.len(), 8);
            lemma_spans();
        }
        i = i - 1;
        x = s[i] as u64 + 256 * x;
    }
    proof {
        assert(s@.skip(0) =~= s@);
    }
    x
}

/// More bytes span more numbers.
pub proof fn lemma_span_grows(a: nat, b: nat)
    requires
        a <= b,
    ensures
        0 < span(a) <= span(b),
    decreases b,
{
    if a < b {
        lemma_span_grows(a, (b - 1) as nat);
    } else if b > 0 {
        lemma_span_grows((a - 1) as nat, (b - 1) as nat);
    }
}

/// Whether two byte slices hold the same bytes.
pub fn same(a: &[u8], b: &[u8]) -> (r: bool)
    ensures
        r == (a@ == b@),
{
    if a.len() != b.len() {
        return false;
    }
    let mut i: usize = 0;
    while i < a.len()
        invariant
            i <= a@.len() == b@.len(),
            forall|j: int| 0 <= j < i ==> a@[j] == b@[j],
        decreases a@.len() - i,
    {
        if a[i] != b[i] {
            return false;
        }
        i = i + 1;
    }
    proof {
        assert(a@ =~= b@);
    }
    true
}

/// Whether every byte of a slice is `byte`.
pub fn all_are(s: &[u8], byte: u8) -> (r: bool)
    ensures
        r == (forall|i: int| 0 <= i < s@.len() ==> s@[i] == byte),
{
    let mut i: usize = 0;
    while i < s.len()
        invariant
            i <= s@.len(),
            forall|j: int| 0 <= j < i ==> s@[j] == byte,
        decreases s@.len() - i,
    {
        if s[i] != byte {
            return false;
        }
        i = i + 1;
    }
    true
}

/// Copy `from` over the bytes of `to` that start at `at`.
pub fn copy_at(to: &mut [u8], at: usize, from: &[u8])
    requires
        at + from@.len() <= old(to)@.len(),
    ensures
        final(to)@ == spliced(old(to)@, at as int, from@),
{
    let end: usize = to.len();
    let mut i: usize = 0;
    while i < from.len()
        invariant
            i <= from@.len(),
            at + from@.len() <= end == old(to)@.len(),
            to@.len() == old(to)@.len(),
            forall|j: int|
                0 <= j < to@.len() ==> #[trigger] to@[j] == (if at <= j < at + i {
                    from@[j - at]
                } else {
                    old(to)@[j]
                }),
        decreases from@.len() - i,
    {
        to[at + i] = from[i];
        i = i + 1;
    }
    proof {
        assert(to@ =~= spliced(old(to)@, at as int, from@));
    }
}

/// `base` with the bytes from `at` on replaced by `over`, as far as it goes.
pub open spec fn spliced(base: Seq<u8>, at: int, over: Seq<u8>) -> Seq<u8> {
    Seq::new(
        base.len(),
        |i: int|
            if at <= i < at + over.len() {
                over[i - at]
            } else {
                base[i]
            },
    )
}

/// A copy of some bytes.
pub fn copy_of(from: &[u8]) -> (r: Vec<u8>)
    ensures
        r@ == from@,
{
    let mut out: Vec<u8> = Vec::new();
    let mut i: usize = 0;
    while i < from.len()
        invariant
            i <= from@.len(),
            out@ == from@.take(i as int),
        decreases from@.len() - i,
    {
        out.push(from[i]);
        i = i + 1;
        proof {
            assert(out@ =~= from@.take(i as int));
        }
    }
    proof {
        assert(out@ =~= from@);
    }
    out
}

} // verus!
