//! Fixed-width base-32 codec for the address format.
//!
//! Service addresses are the RFC 4648 base-32 form (lower case, no padding)
//! of a 35-byte string.  35 bytes are exactly seven 5-byte groups, and each
//! group encodes as eight symbols, so no partial blocks arise and the codec
//! is stated for inputs whose length is a multiple of five bytes.

use vstd::prelude::*;

verus! {

/// Symbol value of an encoded byte: 'a'..'z' are 0..25, '2'..'7' are 26..31.
pub open spec fn b32_val(c: u8) -> Option<u8> {
    if 97 <= c <= 122 {
        Some((c - 97) as u8)
    } else if 50 <= c <= 55 {
        Some((c - 50 + 26) as u8)
    } else {
        None
    }
}

/// Encoded byte of a symbol value below 32.
pub open spec fn b32_chr(v: u8) -> u8 {
    if v < 26 {
        (97 + v) as u8
    } else {
        (50 + (v - 26)) as u8
    }
}

/// The eight 5-bit symbol values of one 5-byte group.
pub open spec fn b32_group_vals(b: Seq<u8>) -> Seq<u8> {
    seq![
        (b[0] >> 3) as u8,
        (((b[0] & 7) << 2) | (b[1] >> 6)) as u8,
        ((b[1] >> 1) & 31) as u8,
        (((b[1] & 1) << 4) | (b[2] >> 4)) as u8,
        (((b[2] & 15) << 1) | (b[3] >> 7)) as u8,
        ((b[3] >> 2) & 31) as u8,
        (((b[3] & 3) << 3) | (b[4] >> 5)) as u8,
        (b[4] & 31) as u8,
    ]
}

/// The five bytes encoded by one group of eight symbol values.
pub open spec fn b32_group_bytes(c: Seq<u8>) -> Seq<u8> {
    seq![
        ((c[0] << 3) | (c[1] >> 2)) as u8,
        (((c[1] & 3) << 6) | (c[2] << 1) | (c[3] >> 4)) as u8,
        (((c[3] & 15) << 4) | (c[4] >> 1)) as u8,
        (((c[4] & 1) << 7) | (c[5] << 2) | (c[6] >> 3)) as u8,
        (((c[6] & 7) << 5) | c[7]) as u8,
    ]
}

/// Base-32 encoding of a byte string whose length is a multiple of five.
pub open spec fn b32_encode(s: Seq<u8>) -> Seq<u8>
    decreases s.len(),
{
    if s.len() < 5 {
        Seq::empty()
    } else {
        b32_group_vals(s.take(5)).map_values(|v: u8| b32_chr(v)) + b32_encode(s.skip(5))
    }
}

/// Decoding of a symbol-value string whose length is a multiple of eight.
pub open spec fn b32_decode_vals(c: Seq<u8>) -> Seq<u8>
    decreases c.len(),
{
    if c.len() < 8 {
        Seq::empty()
    } else {
        b32_group_bytes(c.take(8)) + b32_decode_vals(c.skip(8))
    }
}

/// Full decoding: every byte must be a valid symbol and the length a
/// multiple of eight; anything else is rejected.
pub open spec fn b32_decode(s: Seq<u8>) -> Option<Seq<u8>> {
    if s.len() % 8 == 0 && (forall|i: int| 0 <= i < s.len() ==> b32_val(s[i]) is Some) {
        Some(b32_decode_vals(s.map_values(|c: u8| b32_val(c).unwrap())))
    } else {
        None
    }
}

/// Each group of five bytes survives the encode/decode round trip.
proof fn lemma_group_round_trip(b: Seq<u8>)
    requires
        b.len() == 5,
    ensures
        b32_group_bytes(b32_group_vals(b)) =~= b,
{
    let b0 = b[0];
    let b1 = b[1];
    let b2 = b[2];
    let b3 = b[3];
    let b4 = b[4];
    assert(((b0 >> 3) << 3) | ((((b0 & 7) << 2) | (b1 >> 6)) >> 2) == b0) by (bit_vector);
    assert((((((b0 & 7) << 2) | (b1 >> 6)) & 3) << 6) | (((b1 >> 1) & 31) << 1) | ((((b1 & 1)
        << 4) | (b2 >> 4)) >> 4) == b1) by (bit_vector);
    assert((((((b1 & 1) << 4) | (b2 >> 4)) & 15) << 4) | ((((b2 & 15) << 1) | (b3 >> 7)) >> 1)
        == b2) by (bit_vector);
    assert(((((((b2 & 15) << 1) | (b3 >> 7)) & 1) << 7) | (((b3 >> 2) & 31) << 2) | ((((b3 & 3)
        << 3) | (b4 >> 5)) >> 3)) == b3) by (bit_vector);
    assert((((((b3 & 3) << 3) | (b4 >> 5)) & 7) << 5) | (b4 & 31) == b4) by (bit_vector);
}

/// Every symbol value of an encoded group is below 32, and mapping it
/// through the alphabet and back is the identity.
proof fn lemma_group_vals_bounded(b: Seq<u8>)
    requires
        b.len() == 5,
    ensures
        forall|i: int| 0 <= i < 8 ==> b32_group_vals(b)[i] < 32,
{
    let b0 = b[0];
    let b1 = b[1];
    let b2 = b[2];
    let b3 = b[3];
    let b4 = b[4];
    assert((b0 >> 3) < 32 && (((b0 & 7) << 2) | (b1 >> 6)) < 32 && ((b1 >> 1) & 31) < 32 && (((
    b1 & 1) << 4) | (b2 >> 4)) < 32 && ((((b2 & 15) << 1) | (b3 >> 7))) < 32 && ((b3 >> 2) & 31)
        < 32 && ((((b3 & 3) << 3) | (b4 >> 5))) < 32 && (b4 & 31) < 32) by (bit_vector);
}

proof fn lemma_val_chr(v: u8)
    requires
        v < 32,
    ensures
        b32_val(b32_chr(v)) == Some(v),
{
}

/// The encoding of a byte string of 5k bytes has 8k symbols, each in the
/// base-32 alphabet.
pub proof fn lemma_encode_len(s: Seq<u8>)
    requires
        s.len() % 5 == 0,
    ensures
        b32_encode(s).len() == s.len() / 5 * 8,
        forall|i: int| 0 <= i < b32_encode(s).len() ==> b32_val(#[trigger] b32_encode(s)[i])
            is Some,
    decreases s.len(),
{
    if s.len() < 5 {
    } else {
        let head = b32_group_vals(s.take(5)).map_values(|v: u8| b32_chr(v));
        lemma_group_vals_bounded(s.take(5));
        assert forall|i: int| 0 <= i < 8 implies b32_val(head[i]) is Some by {
            lemma_val_chr(b32_group_vals(s.take(5))[i]);
        }
        assert(s.skip(5).len() % 5 == 0) by {
            assert(s.skip(5).len() == s.len() - 5);
        }
        lemma_encode_len(s.skip(5));
        assert(b32_encode(s).len() == 8 + b32_encode(s.skip(5)).len());
    }
}

/// Decoding inverts encoding on byte strings of 5k bytes.
pub proof fn lemma_b32_round_trip(s: Seq<u8>)
    requires
        s.len() % 5 == 0,
    ensures
        b32_decode(b32_encode(s)) == Some(s),
    decreases s.len(),
{
    lemma_encode_len(s);
    let enc = b32_encode(s);
    let vals = enc.map_values(|c: u8| b32_val(c).unwrap());
    lemma_decode_vals(s);
    assert(b32_decode(enc) == Some(b32_decode_vals(vals)));
}

/// The symbol values of the encoding decode back to the input, group by
/// group.
proof fn lemma_decode_vals(s: Seq<u8>)
    requires
        s.len() % 5 == 0,
    ensures
        b32_decode_vals(b32_encode(s).map_values(|c: u8| b32_val(c).unwrap())) =~= s,
    decreases s.len(),
{
    let enc = b32_encode(s);
    let vals = enc.map_values(|c: u8| b32_val(c).unwrap());
    if s.len() < 5 {
        assert(s =~= Seq::<u8>::empty());
    } else {
        let g = b32_group_vals(s.take(5));
        let head = g.map_values(|v: u8| b32_chr(v));
        lemma_group_vals_bounded(s.take(5));
        assert forall|i: int| 0 <= i < 8 implies b32_val(head[i]).unwrap() == g[i] by {
            lemma_val_chr(g[i]);
        }
        assert(s.skip(5).len() % 5 == 0) by {
            assert(s.skip(5).len() == s.len() - 5);
        }
        lemma_decode_vals(s.skip(5));
        let tail_enc = b32_encode(s.skip(5));
        let tail_vals = tail_enc.map_values(|c: u8| b32_val(c).unwrap());
        assert(vals =~= g + tail_vals);
        assert(vals.take(8) =~= g);
        assert(vals.skip(8) =~= tail_vals);
        assert(vals.len() == 8 + tail_vals.len());
        assert(b32_decode_vals(vals) == b32_group_bytes(g) + b32_decode_vals(tail_vals));
        lemma_group_round_trip(s.take(5));
        assert(b32_decode_vals(vals) =~= s.take(5) + s.skip(5));
        assert(s.take(5) + s.skip(5) =~= s);
    }
}

/// Encode a byte string whose length is a multiple of five.
pub fn encode(data: &Vec<u8>) -> (r: Vec<u8>)
    requires
        data@.len() % 5 == 0,
    ensures
        r@ == b32_encode(data@),
{
    let mut r: Vec<u8> = Vec::new();
    let mut i: usize = 0;
    let n = data.len();
    proof {
        assert(data@.skip(0) == data@);
    }
    while i < n
        invariant
            data@.len() == n,
            n % 5 == 0,
            i % 5 == 0,
            i <= n,
            b32_encode(data@) == r@ + b32_encode(data@.skip(i as int)),
        decreases n - i,
    {
        proof {
            assert(i + 5 <= n);
        }
        let b0 = data[i];
        let b1 = data[i + 1];
        let b2 = data[i + 2];
        let b3 = data[i + 3];
        let b4 = data[i + 4];
        let v0 = b0 >> 3;
        let v1 = ((b0 & 7) << 2) | (b1 >> 6);
        let v2 = (b1 >> 1) & 31;
        let v3 = ((b1 & 1) << 4) | (b2 >> 4);
        let v4 = ((b2 & 15) << 1) | (b3 >> 7);
        let v5 = (b3 >> 2) & 31;
        let v6 = ((b3 & 3) << 3) | (b4 >> 5);
        let v7 = b4 & 31;
        proof {
            let grp = data@.skip(i as int).take(5);
            assert(grp[0] == b0 && grp[1] == b1 && grp[2] == b2 && grp[3] == b3 && grp[4] == b4);
            lemma_group_vals_bounded(grp);
        }
        r.push(chr(v0));
        r.push(chr(v1));
        r.push(chr(v2));
        r.push(chr(v3));
        r.push(chr(v4));
        r.push(chr(v5));
        r.push(chr(v6));
        r.push(chr(v7));
        proof {
            let grp = data@.skip(i as int).take(5);
            assert(b32_group_vals(grp) =~= seq![v0, v1, v2, v3, v4, v5, v6, v7]);
            assert(b32_group_vals(grp).map_values(|v: u8| b32_chr(v)) =~= seq![
                b32_chr(v0),
                b32_chr(v1),
                b32_chr(v2),
                b32_chr(v3),
                b32_chr(v4),
                b32_chr(v5),
                b32_chr(v6),
                b32_chr(v7),
            ]);
            assert(data@.skip(i as int).skip(5) =~= data@.skip(i + 5));
            assert(b32_encode(data@.skip(i as int)) == b32_group_vals(grp).map_values(
                |v: u8| b32_chr(v),
            ) + b32_encode(data@.skip(i + 5)));
        }
        i = i + 5;
    }
    proof {
        assert(i == n);
        assert(data@.skip(n as int) =~= Seq::<u8>::empty());
    }
    r
}

/// Alphabet byte of a symbol value.
fn chr(v: u8) -> (c: u8)
    requires
        v < 32,
    ensures
        c == b32_chr(v),
{
    if v < 26 {
        97 + v
    } else {
        50 + (v - 26)
    }
}

/// Symbol value of an alphabet byte, or `None` outside the alphabet.
fn val(c: u8) -> (r: Option<u8>)
    ensures
        r == b32_val(c),
        r is Some ==> r.unwrap() < 32,
{
    if 97 <= c && c <= 122 {
        Some(c - 97)
    } else if 50 <= c && c <= 55 {
        Some(c - 50 + 26)
    } else {
        None
    }
}

/// Decode a base-32 string; `None` if any byte is outside the alphabet or
/// the length is not a multiple of eight.
pub fn decode(data: &Vec<u8>) -> (r: Option<Vec<u8>>)
    ensures
        match r {
            Some(v) => b32_decode(data@) == Some(v@),
            None => b32_decode(data@) is None,
        },
{
    let n = data.len();
    if n % 8 != 0 {
        return None;
    }
    let mut vals: Vec<u8> = Vec::new();
    let mut i: usize = 0;
    while i < n
        invariant
            data@.len() == n,
            i <= n,
            vals@.len() == i,
            forall|j: int| 0 <= j < i ==> b32_val(data@[j]) is Some,
            forall|j: int| 0 <= j < i ==> vals@[j] == b32_val(data@[j]).unwrap() && vals@[j] < 32,
        decreases n - i,
    {
        match val(data[i]) {
            Some(v) => vals.push(v),
            None => {
                return None;
            },
        }
        i = i + 1;
    }
    proof {
        assert(vals@ =~= data@.map_values(|c: u8| b32_val(c).unwrap()));
    }
    let mut out: Vec<u8> = Vec::new();
    let mut g: usize = 0;
    proof {
        assert(vals@.skip(0) == vals@);
    }
    while g < n
        invariant
            vals@.len() == n,
            n % 8 == 0,
            g % 8 == 0,
            g <= n,
            forall|j: int| 0 <= j < n ==> vals@[j] < 32,
            b32_decode_vals(vals@) == out@ + b32_decode_vals(vals@.skip(g as int)),
        decreases n - g,
    {
        proof {
            assert(g + 8 <= n);
        }
        let c0 = vals[g];
        let c1 = vals[g + 1];
        let c2 = vals[g + 2];
        let c3 = vals[g + 3];
        let c4 = vals[g + 4];
        let c5 = vals[g + 5];
        let c6 = vals[g + 6];
        let c7 = vals[g + 7];
        out.push((c0 << 3) | (c1 >> 2));
        out.push(((c1 & 3) << 6) | (c2 << 1) | (c3 >> 4));
        out.push(((c3 & 15) << 4) | (c4 >> 1));
        out.push(((c4 & 1) << 7) | (c5 << 2) | (c6 >> 3));
        out.push(((c6 & 7) << 5) | c7);
        proof {
            let grp = vals@.skip(g as int).take(8);
            assert(grp[0] == c0 && grp[1] == c1 && grp[2] == c2 && grp[3] == c3 && grp[4] == c4
                && grp[5] == c5 && grp[6] == c6 && grp[7] == c7);
            assert(b32_group_bytes(grp) =~= seq![
                ((c0 << 3) | (c1 >> 2)) as u8,
                (((c1 & 3) << 6) | (c2 << 1) | (c3 >> 4)) as u8,
                (((c3 & 15) << 4) | (c4 >> 1)) as u8,
                (((c4 & 1) << 7) | (c5 << 2) | (c6 >> 3)) as u8,
                (((c6 & 7) << 5) | c7) as u8,
            ]);
            assert(vals@.skip(g as int).skip(8) =~= vals@.skip(g + 8));
            assert(b32_decode_vals(vals@.skip(g as int)) == b32_group_bytes(grp)
                + b32_decode_vals(vals@.skip(g + 8)));
        }
        g = g + 8;
    }
    proof {
        assert(g == n);
        assert(vals@.skip(n as int) =~= Seq::<u8>::empty());
    }
    Some(out)
}

} // verus!
