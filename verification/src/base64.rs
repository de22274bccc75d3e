//! Standard base64 (RFC 4648 alphabet, `=` padding) for images shown in the UI.
use vstd::prelude::*;

verus! {

/// The base64 digit for a value below 64.
pub open spec fn digit(v: int) -> char {
    if v < 26 {
        (('A' as int) + v) as char
    } else if v < 52 {
        (('a' as int) + v - 26) as char
    } else if v < 62 {
        (('0' as int) + v - 52) as char
    } else if v == 62 {
        '+'
    } else {
        '/'
    }
}

/// The four characters for a group of one to three bytes (`k` of them real;
/// missing bytes count as zero and their places as `=`).
pub open spec fn quad(b0: u8, b1: u8, b2: u8, k: int) -> Seq<char> {
    seq![
        digit((b0 / 4) as int),
        digit((b0 % 4) * 16 + b1 / 16),
        if k > 1 { digit((b1 % 16) * 4 + b2 / 64) } else { '=' },
        if k > 2 { digit((b2 % 64) as int) } else { '=' },
    ]
}

/// The base64 encoding of `data`, three bytes at a time.
pub open spec fn base64(data: Seq<u8>) -> Seq<char>
    decreases data.len(),
{
    if data.len() == 0 {
        seq![]
    } else if data.len() == 1 {
        quad(data[0], 0, 0, 1)
    } else if data.len() == 2 {
        quad(data[0], data[1], 0, 2)
    } else {
        quad(data[0], data[1], data[2], 3) + base64(data.skip(3))
    }
}

/// An encoding has four characters for every started group of three bytes.
pub proof fn law_base64_length(data: Seq<u8>)
    ensures
        base64(data).len() == 4 * ((data.len() + 2) / 3),
    decreases data.len(),
{
    if data.len() > 2 {
        law_base64_length(data.skip(3));
    }
}

fn digit_exec(v: u8) -> (c: char)
    requires
        v < 64,
    ensures
        c == digit(v as int),
{
    if v < 26 {
        (65u8 + v) as char
    } else if v < 52 {
        (97u8 + (v - 26)) as char
    } else if v < 62 {
        (48u8 + (v - 52)) as char
    } else if v == 62 {
        '+'
    } else {
        '/'
    }
}

/// Base64 of `data` as characters.
pub fn encode(data: &[u8]) -> (r: Vec<char>)
    ensures
        r@ == base64(data@),
{
    let mut out: Vec<char> = Vec::new();
    let mut i: usize = 0;
    let n = data.len();
    assert(data@.skip(0) =~= data@);
    while i < n
        invariant
            i <= n == data@.len(),
            base64(data@) == out@ + base64(data@.skip(i as int)),
        decreases n - i,
    {
        let ghost rest = data@.skip(i as int);
        let k: usize = if n - i >= 3 { 3 } else { n - i };
        let b0 = data[i];
        let b1 = if k > 1 { data[i + 1] } else { 0 };
        let b2 = if k > 2 { data[i + 2] } else { 0 };
        let ghost before = out@;
        out.push(digit_exec(b0 / 4));
        out.push(digit_exec((b0 % 4) * 16 + b1 / 16));
        out.push(if k > 1 { digit_exec((b1 % 16) * 4 + b2 / 64) } else { '=' });
        out.push(if k > 2 { digit_exec(b2 % 64) } else { '=' });
        assert(out@ =~= before + quad(b0, b1, b2, k as int));
        proof {
            assert(rest[0] == b0);
            if k > 1 {
                assert(rest[1] == b1);
            }
            if k > 2 {
                assert(rest[2] == b2);
                assert(rest.skip(3) =~= data@.skip(i + 3));
            } else {
                assert(data@.skip(i + k) =~= Seq::<u8>::empty());
            }
        }
        i = i + k;
    }
    out
}

} // verus!
