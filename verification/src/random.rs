//! Random bytes, and what stands in for them where the system has none to give.
use vstd::prelude::*;

verus! {

/// Byte `k` of a number, lowest first.
pub open spec fn byte_of(n: nat, k: nat) -> u8
    decreases k,
{
    if k == 0 {
        (n % 256) as u8
    } else {
        byte_of(n / 256, (k - 1) as nat)
    }
}

/// The sixteen bytes of a number, lowest first, over and over.
pub open spec fn clock_bytes(nanos: u128, n: int) -> Seq<u8> {
    Seq::new(n as nat, |i: int| byte_of(nanos as nat, (i % 16) as nat))
}

fn get_byte(n: u128, k: usize) -> (b: u8)
    ensures
        b == byte_of(n as nat, k as nat),
{
    let mut v: u128 = n;
    let mut i: usize = k;
    while i > 0
        invariant
            i <= k,
            byte_of(v as nat, i as nat) == byte_of(n as nat, k as nat),
        decreases i,
    {
        v = v / 256;
        i -= 1;
    }
    (v % 256) as u8
}

/// Random bytes: those the system gave, or else bytes of the clock, `nanos` being the
/// nanoseconds since 1970.
pub fn rand_bytes(given: Option<Vec<u8>>, n: usize, nanos: u128) -> (b: Vec<u8>)
    ensures
        match given {
            Some(g) => b == g,
            None => b@ == clock_bytes(nanos, n as int),
        },
{
    match given {
        Some(g) => g,
        None => {
            let mut b: Vec<u8> = Vec::new();
            let mut i: usize = 0;
            while i < n
                invariant
                    i <= n,
                    b@ == clock_bytes(nanos, i as int),
                decreases n - i,
            {
                b.push(get_byte(nanos, i % 16));
                i += 1;
                assert(b@ =~= clock_bytes(nanos, i as int));
            }
            b
        },
    }
}

/// The challenge of a connection: random bytes that the system gave, or else the low
/// bytes of the clock.
pub fn rand_challenge_pub(given: Option<[u8; 8]>, nanos: u128) -> (c: [u8; 8])
    ensures
        match given {
            Some(g) => c == g,
            None => c@ == clock_bytes(nanos, 8),
        },
{
    match given {
        Some(g) => g,
        None => {
            let c: [u8; 8] = [
                get_byte(nanos, 0),
                get_byte(nanos, 1),
                get_byte(nanos, 2),
                get_byte(nanos, 3),
                get_byte(nanos, 4),
                get_byte(nanos, 5),
                get_byte(nanos, 6),
                get_byte(nanos, 7),
            ];
            assert(c@ =~= clock_bytes(nanos, 8));
            c
        },
    }
}

} // verus!
