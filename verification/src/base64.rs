//! Base64 with padding, for bytes that travel inside text.

use vstd::prelude::*;

verus! {

/// The character for a value below 64.
pub open spec fn spec_base64_char(v: int) -> char {
    if v < 26 {
        (v + 65) as u8 as char
    } else if v < 52 {
        (v - 26 + 97) as u8 as char
    } else if v < 62 {
        (v - 52 + 48) as u8 as char
    } else if v == 62 {
        '+'
    } else {
        '/'
    }
}

/// The four characters for up to three bytes: six bits each, `=` where there are no bits.
pub open spec fn spec_base64_group(bytes: Seq<u8>) -> Seq<char> {
    let b1: int = if bytes.len() > 1 {
        bytes[1] as int
    } else {
        0
    };
    let b2: int = if bytes.len() > 2 {
        bytes[2] as int
    } else {
        0
    };
    let n = bytes[0] * 65536 + b1 * 256 + b2;
    seq![
        spec_base64_char(n / 262144),
        spec_base64_char(n / 4096 % 64),
        if bytes.len() > 1 {
            spec_base64_char(n / 64 % 64)
        } else {
            '='
        },
        if bytes.len() > 2 {
            spec_base64_char(n % 64)
        } else {
            '='
        },
    ]
}

pub open spec fn spec_base64(bytes: Seq<u8>) -> Seq<char>
    decreases bytes.len(),
{
    if bytes.len() == 0 {
        Seq::empty()
    } else if bytes.len() <= 3 {
        spec_base64_group(bytes)
    } else {
        spec_base64_group(bytes.take(3)) + spec_base64(bytes.skip(3))
    }
}

fn base64_char(v: u32) -> (r: char)
    requires
        v < 64,
    ensures
        r == spec_base64_char(v as int),
{
    if v < 26 {
        (v + 65) as u8 as char
    } else if v < 52 {
        (v - 26 + 97) as u8 as char
    } else if v < 62 {
        (v - 52 + 48) as u8 as char
    } else if v == 62 {
        '+'
    } else {
        '/'
    }
}

pub fn base64_encode(data: &[u8]) -> (r: String)
    ensures
        r@ == spec_base64(data@),
{
    let mut out = String::new();
    let mut i: usize = 0;
    assert(data@.skip(0) =~= data@);
    assert(out@ + spec_base64(data@) =~= spec_base64(data@));
    while i < data.len()
        invariant
            i <= data@.len(),
            out@ + spec_base64(data@.skip(i as int)) == spec_base64(data@),
        decreases data@.len() - i,
    {
        let left: usize = data.len() - i;
        let b0: u32 = data[i] as u32;
        let b1: u32 = if left > 1 {
            data[i + 1] as u32
        } else {
            0
        };
        let b2: u32 = if left > 2 {
            data[i + 2] as u32
        } else {
            0
        };
        let n: u32 = b0 * 65536 + b1 * 256 + b2;
        let ghost so_far = out@;
        let ghost rest = data@.skip(i as int);
        let ghost chunk = if left <= 3 {
            rest
        } else {
            rest.take(3)
        };
        out.push(base64_char(n / 262144));
        out.push(base64_char(n / 4096 % 64));
        if left > 1 {
            out.push(base64_char(n / 64 % 64));
        } else {
            out.push('=');
        }
        if left > 2 {
            out.push(base64_char(n % 64));
        } else {
            out.push('=');
        }
        assert(out@ =~= so_far + spec_base64_group(chunk));
        if left <= 3 {
            i = data.len();
            assert(data@.skip(i as int) =~= Seq::<u8>::empty());
            assert(out@ + spec_base64(data@.skip(i as int)) =~= so_far + spec_base64(rest));
        } else {
            i = i + 3;
            assert(rest.skip(3) =~= data@.skip(i as int));
            assert(out@ + spec_base64(data@.skip(i as int)) =~= so_far + spec_base64(rest));
        }
    }
    assert(data@.skip(i as int) =~= Seq::<u8>::empty());
    assert(out@ + Seq::<char>::empty() =~= out@);
    out
}

// ---------------------------------------------------------------------------
// Laws
// ---------------------------------------------------------------------------

/// The value of a character.
pub open spec fn spec_base64_value(c: char) -> int {
    if 'A' <= c <= 'Z' {
        c as int - 65
    } else if 'a' <= c <= 'z' {
        c as int - 97 + 26
    } else if '0' <= c <= '9' {
        c as int - 48 + 52
    } else if c == '+' {
        62
    } else {
        63
    }
}

/// The bytes in a group of four characters.
pub open spec fn spec_unbase64_group(s: Seq<char>) -> Seq<u8> {
    let n = spec_base64_value(s[0]) * 262144 + spec_base64_value(s[1]) * 4096 + (if s[2] == '=' {
        0
    } else {
        spec_base64_value(s[2])
    }) * 64 + (if s[3] == '=' {
        0
    } else {
        spec_base64_value(s[3])
    });
    let all = seq![(n / 65536) as u8, (n / 256 % 256) as u8, (n % 256) as u8];
    if s[2] == '=' {
        all.take(1)
    } else if s[3] == '=' {
        all.take(2)
    } else {
        all
    }
}

/// The bytes in groups of four characters.
pub open spec fn spec_unbase64(s: Seq<char>) -> Seq<u8>
    decreases s.len(),
{
    if s.len() < 4 {
        Seq::empty()
    } else {
        spec_unbase64_group(s.take(4)) + spec_unbase64(s.skip(4))
    }
}

proof fn lemma_base64_char(v: int)
    requires
        0 <= v < 64,
    ensures
        spec_base64_value(spec_base64_char(v)) == v,
        spec_base64_char(v) != '=',
{
}

/// Three bytes and the four groups of six bits they are cut into.
proof fn lemma_sextets(b0: int, b1: int, b2: int)
    requires
        0 <= b0 < 256,
        0 <= b1 < 256,
        0 <= b2 < 256,
    ensures
        ({
            let n = b0 * 65536 + b1 * 256 + b2;
            &&& n / 262144 == b0 / 4
            &&& n / 4096 % 64 == b0 % 4 * 16 + b1 / 16
            &&& n / 64 % 64 == b1 % 16 * 4 + b2 / 64
            &&& n % 64 == b2 % 64
            &&& n / 65536 == b0
            &&& n / 256 % 256 == b1
            &&& n % 256 == b2
            &&& b0 / 4 * 262144 + (b0 % 4 * 16 + b1 / 16) * 4096 + (b1 % 16 * 4 + b2 / 64) * 64 + b2
                % 64 == n
        }),
{
    let n = b0 * 65536 + b1 * 256 + b2;
    assert(n / 65536 == b0);
    assert(n / 256 == b0 * 256 + b1);
    assert(n / 4096 == b0 * 16 + b1 / 16);
    assert(n / 64 == b0 * 1024 + b1 * 4 + b2 / 64);
}

proof fn lemma_group(bytes: Seq<u8>)
    requires
        1 <= bytes.len() <= 3,
    ensures
        spec_base64_group(bytes).len() == 4,
        spec_unbase64_group(spec_base64_group(bytes)) == bytes,
{
    let b0 = bytes[0] as int;
    let b1: int = if bytes.len() > 1 {
        bytes[1] as int
    } else {
        0
    };
    let b2: int = if bytes.len() > 2 {
        bytes[2] as int
    } else {
        0
    };
    lemma_sextets(b0, b1, b2);
    lemma_base64_char(b0 / 4);
    lemma_base64_char(b0 % 4 * 16 + b1 / 16);
    lemma_base64_char(b1 % 16 * 4 + b2 / 64);
    lemma_base64_char(b2 % 64);
    let back = spec_unbase64_group(spec_base64_group(bytes));
    assert(back.len() == bytes.len());
    assert(back[0] == bytes[0]);
    assert(bytes.len() > 1 ==> back[1] == bytes[1]);
    assert(bytes.len() > 2 ==> back[2] == bytes[2]);
    assert(back =~= bytes);
}

proof fn lemma_base64_len(bytes: Seq<u8>)
    ensures
        spec_base64(bytes).len() == (bytes.len() + 2) / 3 * 4,
    decreases bytes.len(),
{
    if bytes.len() > 3 {
        lemma_base64_len(bytes.skip(3));
    }
}

proof fn lemma_unbase64(bytes: Seq<u8>)
    ensures
        spec_unbase64(spec_base64(bytes)) == bytes,
    decreases bytes.len(),
{
    let s = spec_base64(bytes);
    if bytes.len() == 0 {
        assert(spec_unbase64(s) =~= bytes);
    } else {
        let chunk = if bytes.len() <= 3 {
            bytes
        } else {
            bytes.take(3)
        };
        let rest = if bytes.len() <= 3 {
            Seq::<u8>::empty()
        } else {
            bytes.skip(3)
        };
        let group = spec_base64_group(chunk);
        lemma_group(chunk);
        lemma_unbase64(rest);
        assert(s =~= group + spec_base64(rest));
        assert(s.take(4) =~= group);
        assert(s.skip(4) =~= spec_base64(rest));
        assert(chunk + rest =~= bytes);
    }
}

/// The encoding has four characters for every three bytes begun, and the bytes can be had back
/// from it.
pub proof fn law_base64_keeps_the_bytes(bytes: Seq<u8>)
    ensures
        spec_base64(bytes).len() == (bytes.len() + 2) / 3 * 4,
        spec_unbase64(spec_base64(bytes)) == bytes,
{
    lemma_base64_len(bytes);
    lemma_unbase64(bytes);
}

/// The alphabet: capital letters, small letters, digits, plus and slash.
pub open spec fn spec_alphabet() -> Seq<char> {
    "ABCDEFGHIJKLMNOPQRSTUVWXYZabcdefghijklmnopqrstuvwxyz0123456789+/"@
}

/// Each three bytes are four characters of the alphabet, six bits each, the first byte first; where
/// one or two bytes are left at the end, `=` takes the places of the characters that are missing.
pub proof fn law_base64_is_six_bits_each(a: u8, b: u8, c: u8, rest: Seq<u8>)
    ensures
        ({
            let d = spec_alphabet();
            &&& spec_base64(seq![]) == Seq::<char>::empty()
            &&& spec_base64(seq![a]) == seq![d[a as int / 4], d[a as int % 4 * 16], '=', '=']
            &&& spec_base64(seq![a, b]) == seq![
                d[a as int / 4],
                d[a as int % 4 * 16 + b as int / 16],
                d[b as int % 16 * 4],
                '=',
            ]
            &&& spec_base64(seq![a, b, c] + rest) == seq![
                d[a as int / 4],
                d[a as int % 4 * 16 + b as int / 16],
                d[b as int % 16 * 4 + c as int / 64],
                d[c as int % 64],
            ] + spec_base64(rest)
        }),
{
    lemma_group_bits(a, b, c);
    lemma_group_bits(a, b, 0);
    lemma_group_bits(a, 0, 0);
    let (x, y, z) = (a as int, b as int, c as int);
    lemma_alphabet(x / 4);
    lemma_alphabet(x % 4 * 16);
    lemma_alphabet(x % 4 * 16 + y / 16);
    lemma_alphabet(y % 16 * 4);
    lemma_alphabet(y % 16 * 4 + z / 64);
    lemma_alphabet(z % 64);
    lemma_first_group(a, b, c, rest);
}

/// The first three bytes make the first four characters.
proof fn lemma_first_group(a: u8, b: u8, c: u8, rest: Seq<u8>)
    ensures
        spec_base64(seq![a, b, c] + rest) == spec_base64_group(seq![a, b, c]) + spec_base64(rest),
{
    let all = seq![a, b, c] + rest;
    assert(all.take(3) =~= seq![a, b, c]);
    assert(all.skip(3) =~= rest);
    if rest.len() == 0 {
        assert(all =~= seq![a, b, c]);
        assert(spec_base64_group(all) + Seq::<char>::empty() =~= spec_base64_group(all));
    }
}

proof fn lemma_group_bits(a: u8, b: u8, c: u8)
    ensures
        ({
            let n = a * 65536 + b * 256 + c;
            &&& n / 262144 == a as int / 4
            &&& n / 4096 % 64 == a as int % 4 * 16 + b as int / 16
            &&& n / 64 % 64 == b as int % 16 * 4 + c as int / 64
            &&& n % 64 == c as int % 64
        }),
{
    let (x, y, z) = (a as u32, b as u32, c as u32);
    assert(x < 256 && y < 256 && z < 256 ==> {
        let n = (x * 65536 + y * 256 + z) as u32;
        &&& n == x * 65536 + y * 256 + z
        &&& n / 262144 == x / 4
        &&& n / 4096 % 64 == x % 4 * 16 + y / 16
        &&& n / 64 % 64 == y % 16 * 4 + z / 64
        &&& n % 64 == z % 64
    }) by (bit_vector);
}

proof fn lemma_alphabet(v: int)
    requires
        0 <= v < 64,
    ensures
        spec_base64_char(v) == spec_alphabet()[v],
{
    reveal_strlit("ABCDEFGHIJKLMNOPQRSTUVWXYZabcdefghijklmnopqrstuvwxyz0123456789+/");
}

} // verus!
