//! One length-prefixed frame: the payload's length as an unsigned LEB128
//! varint (seven bits per byte, least significant group first, high bit set
//! on every byte but the last; at most ten bytes), then the payload.
use vstd::prelude::*;

verus! {

/// The longest prefix accepted.
pub const MAX_PREFIX_LEN: usize = 10;

/// Why no frame could be read.
#[derive(Debug, Clone, Copy, PartialEq, Eq, Structural)]
pub enum FrameError {
    /// The input ends inside the length prefix, or the prefix is longer than
    /// ten bytes.
    BadPrefix,
    /// The advertised length exceeds the cap.
    TooLarge,
    /// The input ends before the advertised payload does.
    Incomplete,
}

pub open spec fn pow128(n: nat) -> nat
    decreases n,
{
    if n == 0 {
        1
    } else {
        128 * pow128((n - 1) as nat)
    }
}

/// Index of the last prefix byte, searching from `i`.
pub open spec fn prefix_end(s: Seq<u8>, i: nat) -> Option<nat>
    decreases 10 - i,
{
    if i >= 10 || i >= s.len() {
        None
    } else if s[i as int] < 128 {
        Some(i)
    } else {
        prefix_end(s, i + 1)
    }
}

/// The number carried by the low seven bits of the first `n` bytes.
pub open spec fn varint_value(s: Seq<u8>, n: nat) -> nat
    decreases n,
{
    if n == 0 {
        0
    } else {
        varint_value(s, (n - 1) as nat) + (s[n - 1] % 128) as nat * pow128((n - 1) as nat)
    }
}

/// The frame at the start of `s`, with a cap of `max` payload bytes.
pub open spec fn spec_read_frame(s: Seq<u8>, max: nat) -> Result<Seq<u8>, FrameError> {
    match prefix_end(s, 0) {
        None => Err(FrameError::BadPrefix),
        Some(e) => {
            let len = varint_value(s, e + 1);
            if len > max {
                Err(FrameError::TooLarge)
            } else if s.len() < e + 1 + len {
                Err(FrameError::Incomplete)
            } else {
                Ok(s.subrange((e + 1) as int, (e + 1 + len) as int))
            }
        },
    }
}

/// The LEB128 bytes of `n`.
pub open spec fn varint_bytes(n: nat) -> Seq<u8>
    decreases n,
{
    if n < 128 {
        seq![n as u8]
    } else {
        seq![(n % 128 + 128) as u8] + varint_bytes(n / 128)
    }
}

pub open spec fn spec_write_frame(payload: Seq<u8>) -> Seq<u8> {
    varint_bytes(payload.len()) + payload
}

proof fn lemma_varint_bound(s: Seq<u8>, n: nat)
    ensures
        varint_value(s, n) < pow128(n),
    decreases n,
{
    if n > 0 {
        lemma_varint_bound(s, (n - 1) as nat);
        let p = pow128((n - 1) as nat);
        let d = (s[n - 1] % 128) as nat;
        assert(d * p <= 127 * p) by (nonlinear_arith)
            requires
                d <= 127,
        ;
    }
}

/// Reads the frame at the start of `b`, refusing a payload over `max` bytes
/// before looking at it.
pub fn read_length_prefixed(b: &[u8], max: usize) -> (r: Result<Vec<u8>, FrameError>)
    ensures
        match r {
            Ok(p) => spec_read_frame(b@, max as nat) == Ok::<Seq<u8>, FrameError>(p@),
            Err(e) => spec_read_frame(b@, max as nat) == Err::<Seq<u8>, FrameError>(e),
        },
{
    let mut i: usize = 0;
    let mut acc: u128 = 0;
    let mut w: u128 = 1;
    let mut end: Option<usize> = None;
    while i < MAX_PREFIX_LEN && i < b.len() && end.is_none()
        invariant
            i <= 10,
            i <= b@.len(),
            acc == varint_value(b@, i as nat),
            w == pow128(i as nat),
            end is None ==> prefix_end(b@, 0) == prefix_end(b@, i as nat),
            end is Some ==> end->Some_0 == i && i >= 1 && prefix_end(b@, 0) == Some(
                (i - 1) as nat,
            ),
        decreases 10 - i,
    {
        proof {
            lemma_varint_bound(b@, i as nat);
            reveal_with_fuel(pow128, 11);
            lemma_pow_mono(i as nat, 9);
            assert(pow128(9) == 9223372036854775808nat);
        }
        let d = b[i] % 128;
        proof {
            let dd = d as nat;
            let ww = w as nat;
            let aa = acc as nat;
            assert(aa + dd * ww < 128 * ww) by (nonlinear_arith)
                requires
                    aa < ww,
                    dd <= 127,
            ;
        }
        acc = acc + (d as u128) * w;
        w = w * 128;
        i = i + 1;
        if b[i - 1] < 128 {
            end = Some(i);
        }
    }
    let h = match end {
        None => {
            return Err(FrameError::BadPrefix);
        },
        Some(h) => h,
    };
    assert(prefix_end(b@, 0) == Some((h - 1) as nat));
    if acc > max as u128 {
        return Err(FrameError::TooLarge);
    }
    let len = acc as usize;
    if b.len() - h < len {
        return Err(FrameError::Incomplete);
    }
    let mut out: Vec<u8> = Vec::new();
    let stop: usize = h + len;
    let mut j: usize = h;
    while j < stop
        invariant
            stop == h + len,
            h <= j <= h + len <= b@.len(),
            out@ == b@.subrange(h as int, j as int),
        decreases stop - j,
    {
        out.push(b[j]);
        j = j + 1;
        assert(out@ =~= b@.subrange(h as int, j as int));
    }
    Ok(out)
}

proof fn lemma_pow_mono(i: nat, j: nat)
    requires
        i <= j,
    ensures
        pow128(i) <= pow128(j),
    decreases j - i,
{
    if i < j {
        lemma_pow_mono(i, (j - 1) as nat);
    }
}

/// The frame carrying `payload`.
pub fn write_length_prefixed(payload: &[u8]) -> (r: Vec<u8>)
    ensures
        r@ == spec_write_frame(payload@),
{
    let mut out: Vec<u8> = Vec::new();
    let mut n: usize = payload.len();
    while n >= 128
        invariant
            out@ + varint_bytes(n as nat) == varint_bytes(payload@.len()),
        decreases n,
    {
        assert(varint_bytes(n as nat) == seq![(n % 128 + 128) as u8] + varint_bytes(
            (n / 128) as nat,
        ));
        out.push((n % 128 + 128) as u8);
        n = n / 128;
        assert(out@ + varint_bytes(n as nat) =~= varint_bytes(payload@.len()));
    }
    out.push(n as u8);
    assert(out@ =~= varint_bytes(payload@.len()));
    let mut i: usize = 0;
    let ghost pre = out@;
    while i < payload.len()
        invariant
            i <= payload@.len(),
            out@ == pre + payload@.subrange(0, i as int),
        decreases payload.len() - i,
    {
        out.push(payload[i]);
        i = i + 1;
        assert(out@ =~= pre + payload@.subrange(0, i as int));
    }
    assert(payload@.subrange(0, i as int) =~= payload@);
    out
}

proof fn lemma_varint_bytes_len(n: nat, k: nat)
    requires
        1 <= k,
        n < pow128(k),
    ensures
        1 <= varint_bytes(n).len() <= k,
    decreases n,
{
    if n >= 128 {
        assert(k >= 2) by {
            if k == 1 {
                assert(pow128(1) == 128 * pow128(0));
            }
        }
        assert(n / 128 < pow128((k - 1) as nat));
        lemma_varint_bytes_len(n / 128, (k - 1) as nat);
    }
}

/// The varint of `n` written at offset `i` of `s` is read back from there.
proof fn lemma_varint_read_back(s: Seq<u8>, i: nat, n: nat)
    requires
        i + varint_bytes(n).len() <= 10,
        i + varint_bytes(n).len() <= s.len(),
        s.subrange(i as int, (i + varint_bytes(n).len()) as int) == varint_bytes(n),
    ensures
        prefix_end(s, i) == Some((i + varint_bytes(n).len() - 1) as nat),
        varint_value(s, i + varint_bytes(n).len()) == varint_value(s, i) + n * pow128(i),
    decreases n,
{
    let e = varint_bytes(n);
    assert(s[i as int] == e[0]);
    if n < 128 {
        assert(s[i as int] == n as u8);
    } else {
        let rest = varint_bytes(n / 128);
        assert(e == seq![(n % 128 + 128) as u8] + rest);
        assert(s.subrange((i + 1) as int, (i + 1 + rest.len()) as int) =~= rest) by {
            assert forall|j: int| 0 <= j < rest.len() implies s.subrange(
                (i + 1) as int,
                (i + 1 + rest.len()) as int,
            )[j] == rest[j] by {
                assert(s.subrange(i as int, (i + e.len()) as int)[j + 1] == e[j + 1]);
            }
        }
        lemma_varint_read_back(s, i + 1, n / 128);
        assert(varint_value(s, i + 1) == varint_value(s, i) + (n % 128) * pow128(i));
        let p = pow128(i);
        assert(pow128(i + 1) == 128 * p);
        assert((n % 128) * p + (n / 128) * (128 * p) == n * p) by (nonlinear_arith)
            requires
                n == 128 * (n / 128) + n % 128,
        ;
    }
}

/// Reading the frame written for `payload`, with a cap it fits under, gives
/// `payload` back.
pub proof fn lemma_frame_round_trip(payload: Seq<u8>, max: nat)
    requires
        payload.len() <= max,
        payload.len() <= u64::MAX,
    ensures
        spec_read_frame(spec_write_frame(payload), max) == Ok::<Seq<u8>, FrameError>(payload),
{
    let n = payload.len();
    let s = spec_write_frame(payload);
    reveal_with_fuel(pow128, 11);
    assert(pow128(10) == 1180591620717411303424nat);
    lemma_varint_bytes_len(n, 10);
    let h = varint_bytes(n).len();
    assert(s.subrange(0, h as int) =~= varint_bytes(n));
    lemma_varint_read_back(s, 0, n);
    assert(varint_value(s, 0) == 0);
    assert(pow128(0) == 1);
    assert(varint_value(s, 0 + h) == varint_value(s, 0) + n * pow128(0));
    let p0 = pow128(0);
    assert(n * p0 == n) by (nonlinear_arith)
        requires
            p0 == 1,
    ;
    assert(varint_value(s, h) == n);
    assert(prefix_end(s, 0) == Some((h - 1) as nat));
    assert(s.len() == h + n);
    assert(s.subrange(h as int, (h + n) as int) =~= payload);
}

} // verus!
