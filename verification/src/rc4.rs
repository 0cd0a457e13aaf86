//! The RC4 stream cipher.
use vstd::prelude::*;

verus! {

/// `s` with two of its elements exchanged.
pub open spec fn swapped(s: Seq<u8>, i: int, j: int) -> Seq<u8> {
    s.update(i, s[j]).update(j, s[i])
}

/// The permutation that RC4 starts from.
pub open spec fn identity() -> Seq<u8> {
    Seq::new(256, |i: int| i as u8)
}

/// Permutation and index after `n` steps of key scheduling.
pub open spec fn scheduled(key: Seq<u8>, n: int) -> (Seq<u8>, int)
    decreases n,
{
    if n <= 0 {
        (identity(), 0)
    } else {
        let (s, j) = scheduled(key, n - 1);
        let k = (j + s[n - 1] + key[(n - 1) % key.len() as int]) % 256;
        (swapped(s, n - 1, k), k)
    }
}

/// Permutation and index after `n` bytes of key stream.
pub open spec fn streamed(key: Seq<u8>, n: int) -> (Seq<u8>, int)
    decreases n,
{
    if n <= 0 {
        (scheduled(key, 256).0, 0)
    } else {
        let (s, j) = streamed(key, n - 1);
        let i = n % 256;
        let k = (j + s[i]) % 256;
        (swapped(s, i, k), k)
    }
}

/// Byte `n` of the key stream, counted from one.
pub open spec fn stream_byte(key: Seq<u8>, n: int) -> u8 {
    let (s, j) = streamed(key, n);
    s[(s[n % 256] + s[j]) % 256]
}

/// RC4: the data combined with the key stream.
pub open spec fn rc4_spec(key: Seq<u8>, data: Seq<u8>) -> Seq<u8> {
    Seq::new(data.len(), |i: int| data[i] ^ stream_byte(key, i + 1))
}

fn swap_at(s: &mut Vec<u8>, i: usize, j: usize)
    requires
        i < old(s)@.len(),
        j < old(s)@.len(),
    ensures
        final(s)@ == swapped(old(s)@, i as int, j as int),
{
    let a: u8 = s[i];
    let b: u8 = s[j];
    s.set(i, b);
    s.set(j, a);
}

fn schedule(key: &[u8]) -> (s: Vec<u8>)
    requires
        key@.len() > 0,
    ensures
        s@ == scheduled(key@, 256).0,
        s@.len() == 256,
{
    let mut s: Vec<u8> = Vec::new();
    let mut i: usize = 0;
    while i < 256
        invariant
            i <= 256,
            s@.len() == i,
            forall|k: int| 0 <= k < i ==> s@[k] == k,
        decreases 256 - i,
    {
        s.push(i as u8);
        i += 1;
    }
    assert(s@ =~= identity());
    let mut j: usize = 0;
    i = 0;
    while i < 256
        invariant
            i <= 256,
            j < 256,
            key@.len() > 0,
            s@.len() == 256,
            (s@, j as int) == scheduled(key@, i as int),
        decreases 256 - i,
    {
        let k: u8 = key[i % key.len()];
        j = (j + s[i] as usize + k as usize) % 256;
        swap_at(&mut s, i, j);
        i += 1;
    }
    s
}

/// Encrypts or decrypts `data` with RC4.
pub fn rc4(key: &[u8], data: &[u8]) -> (out: Vec<u8>)
    requires
        key@.len() > 0,
    ensures
        out@ == rc4_spec(key@, data@),
{
    let mut s = schedule(key);
    let mut out: Vec<u8> = Vec::new();
    let mut i: usize = 0;
    let mut j: usize = 0;
    let mut n: usize = 0;
    while n < data.len()
        invariant
            n <= data@.len(),
            key@.len() > 0,
            i == n as int % 256,
            j < 256,
            s@.len() == 256,
            (s@, j as int) == streamed(key@, n as int),
            out@.len() == n,
            forall|k: int| 0 <= k < n ==> out@[k] == data@[k] ^ stream_byte(key@, k + 1),
        decreases data@.len() - n,
    {
        i = (i + 1) % 256;
        j = (j + s[i] as usize) % 256;
        swap_at(&mut s, i, j);
        let k: u8 = s[(s[i] as usize + s[j] as usize) % 256];
        out.push(data[n] ^ k);
        n += 1;
        assert((s@, j as int) == streamed(key@, n as int));
    }
    assert(out@ =~= rc4_spec(key@, data@));
    out
}

/// RC4 undoes itself.
pub proof fn law_rc4_involution(key: Seq<u8>, data: Seq<u8>)
    ensures
        rc4_spec(key, rc4_spec(key, data)) == data,
{
    let twice = rc4_spec(key, rc4_spec(key, data));
    assert forall|i: int| 0 <= i < data.len() implies twice[i] == data[i] by {
        let d = data[i];
        let k = stream_byte(key, i + 1);
        assert((d ^ k) ^ k == d) by (bit_vector);
    }
    assert(twice =~= data);
}

} // verus!
