use vstd::prelude::*;
use vstd::string::StringSliceAdditionalSpecFns;

verus! {

/// An array of `N` zero bytes, each element written and accounted for.
pub fn zero_bytes<const N: usize>() -> (b: [u8; N])
    ensures
        b@ == Seq::new(N as nat, |j: int| 0u8),
{
    let mut b = [0u8; N];
    let mut i: usize = 0;
    while i < N
        invariant
            i <= N,
            b@.len() == N,
            forall|j: int| 0 <= j < i ==> b@[j] == 0,
        decreases N - i,
    {
        b[i] = 0;
        i += 1;
    }
    assert(b@ =~= Seq::new(N as nat, |j: int| 0u8));
    b
}

/// An array of `N` zero words, each element written and accounted for.
pub fn zero_words<const N: usize>() -> (b: [u32; N])
    ensures
        b@ == Seq::new(N as nat, |j: int| 0u32),
{
    let mut b = [0u32; N];
    let mut i: usize = 0;
    while i < N
        invariant
            i <= N,
            b@.len() == N,
            forall|j: int| 0 <= j < i ==> b@[j] == 0,
        decreases N - i,
    {
        b[i] = 0;
        i += 1;
    }
    assert(b@ =~= Seq::new(N as nat, |j: int| 0u32));
    b
}

/// Length of the C string at the start of `buf`: the index of the first NUL
/// byte, looking at no more than `max` bytes (and no further than the buffer).
pub open spec fn c_str_len_spec(buf: Seq<u8>, max: int) -> int
    decreases max,
{
    if max <= 0 || buf.len() == 0 || buf[0] == 0 {
        0
    } else {
        1 + c_str_len_spec(buf.drop_first(), max - 1)
    }
}

pub proof fn lemma_c_str_len_bounds(buf: Seq<u8>, max: int)
    ensures
        0 <= c_str_len_spec(buf, max),
        c_str_len_spec(buf, max) <= buf.len(),
        max >= 0 ==> c_str_len_spec(buf, max) <= max,
        forall|j: int| 0 <= j < c_str_len_spec(buf, max) ==> buf[j] != 0,
    decreases max,
{
    if max <= 0 || buf.len() == 0 || buf[0] == 0 {
    } else {
        lemma_c_str_len_bounds(buf.drop_first(), max - 1);
        let n = c_str_len_spec(buf, max);
        assert forall|j: int| 0 <= j < n implies buf[j] != 0 by {
            if j > 0 {
                assert(buf.drop_first()[j - 1] == buf[j]);
            }
        }
    }
}

pub proof fn lemma_c_str_len_exact(buf: Seq<u8>, max: int, i: int)
    requires
        0 <= i <= max,
        i <= buf.len(),
        i == max || i == buf.len() || buf[i] == 0,
        forall|j: int| 0 <= j < i ==> buf[j] != 0,
    ensures
        c_str_len_spec(buf, max) == i,
    decreases i,
{
    if i > 0 {
        assert forall|j: int| 0 <= j < i - 1 implies buf.drop_first()[j] != 0 by {
            assert(buf.drop_first()[j] == buf[j + 1]);
        }
        if i < buf.len() {
            assert(buf.drop_first()[i - 1] == buf[i]);
        }
        lemma_c_str_len_exact(buf.drop_first(), max - 1, i - 1);
    }
}

/// Counts the bytes of a C string that starts at `buf[0]`: stops at the
/// first NUL, at `max` bytes, or at the end of the buffer, whichever comes
/// first.
pub fn c_str_len(buf: &[u8], max: usize) -> (n: usize)
    ensures
        n == c_str_len_spec(buf@, max as int),
        n <= max,
        n <= buf@.len(),
        forall|j: int| 0 <= j < n ==> buf@[j] != 0,
        n < max && n < buf@.len() ==> buf@[n as int] == 0,
{
    let mut len: usize = 0;
    while len < max && len < buf.len() && buf[len] != 0
        invariant
            len <= max,
            len <= buf@.len(),
            forall|j: int| 0 <= j < len ==> buf@[j] != 0,
        decreases max - len,
    {
        len += 1;
    }
    proof {
        lemma_c_str_len_exact(buf@, max as int, len as int);
    }
    len
}

/// `core::hint::spin_loop`: tells the processor that the caller is in a busy
/// wait. It has no effect that the program can observe, so nothing is stated.
#[verifier::external_body]
pub(crate) fn cpu_relax() {
    core::hint::spin_loop();
}

/// Busy-waits for `rounds` iterations of the processor's spin hint.
pub fn spin_wait(rounds: u64) {
    let mut i: u64 = 0;
    while i < rounds
        invariant
            i <= rounds,
        decreases rounds - i,
    {
        cpu_relax();
        i += 1;
    }
}

/// Whether two byte strings are equal.
pub fn bytes_eq(a: &[u8], b: &[u8]) -> (r: bool)
    ensures
        r == (a@ == b@),
{
    if a.len() != b.len() {
        return false;
    }
    let mut i: usize = 0;
    while i < a.len()
        invariant
            a@.len() == b@.len(),
            i <= a@.len(),
            forall|j: int| 0 <= j < i ==> a@[j] == b@[j],
        decreases a@.len() - i,
    {
        if a[i] != b[i] {
            return false;
        }
        i += 1;
    }
    proof {
        assert(a@ =~= b@);
    }
    true
}

/// Whether two strings are equal, byte for byte.
pub fn str_eq(a: &str, b: &str) -> (r: bool)
    ensures
        r == (a.spec_bytes() == b.spec_bytes()),
{
    bytes_eq(a.as_bytes(), b.as_bytes())
}

} // verus!
