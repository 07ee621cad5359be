//! Service address codec.
//!
//! An address is the base-32 form of `verifying-key (32) ‖ checksum (2) ‖
//! version (1)`, 56 characters, usually written with a `.onion` suffix.  The
//! codec trims surrounding ASCII whitespace, strips the suffix,
//! lowercases, and
//! accepts exactly the strings whose decoding is 35 bytes ending in version
//! byte 3; the first 32 decoded bytes are the verifying key.  The checksum
//! bytes are carried but not inspected, as the rest of the system never
//! reads them.

use vstd::prelude::*;
use vstd::string::StrSliceExecFns;
use vstd::string::StringSliceAdditionalSpecFns;

use crate::base32;

verus! {

/// The version byte of the supported address generation.
pub const ADDRESS_VERSION: u8 = 3;

/// Rejection of a string that is no well-formed service address.
#[derive(Debug, Clone, Copy, PartialEq, Eq, Structural)]
pub struct InvalidAddress;

/// ASCII whitespace, as trimmed from the ends of an address string.
pub open spec fn is_ws(b: u8) -> bool {
    b == 9 || b == 10 || b == 11 || b == 12 || b == 13 || b == 32
}

/// ASCII lowercasing of one byte.
pub open spec fn lower_byte(b: u8) -> u8 {
    if 65 <= b <= 90 {
        (b + 32) as u8
    } else {
        b
    }
}

/// The bytes of the literal `.onion`.
pub open spec fn onion_suffix() -> Seq<u8> {
    seq![46u8, 111u8, 110u8, 105u8, 111u8, 110u8]
}

pub open spec fn spec_trim_start(s: Seq<u8>) -> Seq<u8>
    decreases s.len(),
{
    if s.len() > 0 && is_ws(s[0]) {
        spec_trim_start(s.drop_first())
    } else {
        s
    }
}

pub open spec fn spec_trim_end(s: Seq<u8>) -> Seq<u8>
    decreases s.len(),
{
    if s.len() > 0 && is_ws(s[s.len() - 1]) {
        spec_trim_end(s.drop_last())
    } else {
        s
    }
}

/// Whether `s` ends in the `.onion` suffix.
pub open spec fn has_onion_suffix(s: Seq<u8>) -> bool {
    s.len() >= 6 && s.skip(s.len() - 6) =~= onion_suffix()
}

/// Every trailing `.onion` suffix removed, as the original string functions
/// strip a repeated suffix.
pub open spec fn spec_strip_suffix(s: Seq<u8>) -> Seq<u8>
    decreases s.len(),
{
    if has_onion_suffix(s) {
        spec_strip_suffix(s.take(s.len() - 6))
    } else {
        s
    }
}

/// The normal form an address string is reduced to before decoding.
pub open spec fn spec_normalize(s: Seq<u8>) -> Seq<u8> {
    spec_strip_suffix(spec_trim_end(spec_trim_start(s))).map_values(|b: u8| lower_byte(b))
}

/// The verifying key of an address string: normalize, require 56 symbols,
/// base-32 decode, require version byte 3, take the first 32 bytes.
pub open spec fn spec_onion_decode(s: Seq<u8>) -> Option<Seq<u8>> {
    let t = spec_normalize(s);
    if t.len() == 56 {
        match base32::b32_decode(t) {
            Some(d) => if d.len() == 35 && d[34] == ADDRESS_VERSION {
                Some(d.take(32))
            } else {
                None
            },
            None => None,
        }
    } else {
        None
    }
}

/// The address bytes of a verifying key: key, two zero checksum bytes, the
/// version byte, base-32 encoded, with the `.onion` suffix.
pub open spec fn spec_onion_encode(pk: Seq<u8>) -> Seq<u8> {
    base32::b32_encode(pk + seq![0u8, 0u8, ADDRESS_VERSION]) + onion_suffix()
}

/// ASCII-whitespace test matching `is_ws`.
fn ws(b: u8) -> (r: bool)
    ensures
        r == is_ws(b),
{
    b == 9 || b == 10 || b == 11 || b == 12 || b == 13 || b == 32
}

/// Decode an address string to the 32 verifying-key bytes it carries.
pub fn onion_decode(onion: &str) -> (r: Result<Vec<u8>, InvalidAddress>)
    ensures
        match r {
            Ok(pk) => spec_onion_decode(onion.spec_bytes()) == Some(pk@) && pk@.len() == 32,
            Err(_) => spec_onion_decode(onion.spec_bytes()) is None,
        },
{
    let s: Vec<u8> = onion.as_bytes_vec();
    let n = s.len();

    // Trim leading whitespace.
    let mut lo: usize = 0;
    proof {
        assert(s@.skip(0) =~= s@);
    }
    while lo < n && ws(s[lo])
        invariant
            s@.len() == n,
            lo <= n,
            spec_trim_start(s@) == spec_trim_start(s@.skip(lo as int)),
        decreases n - lo,
    {
        proof {
            assert(s@.skip(lo as int).drop_first() =~= s@.skip(lo + 1));
        }
        lo = lo + 1;
    }
    proof {
        assert(spec_trim_start(s@) == s@.skip(lo as int));
        assert(s@.skip(lo as int) =~= s@.subrange(lo as int, n as int));
    }

    // Trim trailing whitespace.
    let mut hi: usize = n;
    while hi > lo && ws(s[hi - 1])
        invariant
            s@.len() == n,
            lo <= hi <= n,
            spec_trim_start(s@) == s@.skip(lo as int),
            spec_trim_end(s@.skip(lo as int)) == spec_trim_end(s@.subrange(lo as int, hi as int)),
        decreases hi,
    {
        proof {
            assert(s@.subrange(lo as int, hi as int).drop_last() =~= s@.subrange(
                lo as int,
                hi - 1,
            ));
        }
        hi = hi - 1;
    }
    proof {
        assert(spec_trim_end(spec_trim_start(s@)) == s@.subrange(lo as int, hi as int));
    }

    // Strip every trailing ".onion".
    while hi - lo >= 6 && s[hi - 6] == 46 && s[hi - 5] == 111 && s[hi - 4] == 110 && s[hi - 3]
        == 105 && s[hi - 2] == 111 && s[hi - 1] == 110
        invariant
            s@.len() == n,
            lo <= hi <= n,
            spec_strip_suffix(spec_trim_end(spec_trim_start(s@))) == spec_strip_suffix(
                s@.subrange(lo as int, hi as int),
            ),
        decreases hi,
    {
        proof {
            let t = s@.subrange(lo as int, hi as int);
            assert(t.skip(t.len() - 6) =~= onion_suffix());
            assert(t.take(t.len() - 6) =~= s@.subrange(lo as int, hi - 6));
        }
        hi = hi - 6;
    }
    proof {
        let t = s@.subrange(lo as int, hi as int);
        assert(!has_onion_suffix(t)) by {
            if has_onion_suffix(t) {
                assert(t.skip(t.len() - 6)[0] == 46);
            }
        }
        assert(spec_strip_suffix(spec_trim_end(spec_trim_start(s@))) == t);
    }

    // Length check on the normal form, then lowercase it.
    if hi - lo != 56 {
        return Err(InvalidAddress);
    }
    let mut norm: Vec<u8> = Vec::new();
    let mut i: usize = lo;
    while i < hi
        invariant
            s@.len() == n,
            lo <= i <= hi <= n,
            norm@.len() == i - lo,
            forall|j: int| 0 <= j < i - lo ==> norm@[j] == lower_byte(s@[lo + j]),
        decreases hi - i,
    {
        let b = s[i];
        if 65 <= b && b <= 90 {
            norm.push(b + 32);
        } else {
            norm.push(b);
        }
        i = i + 1;
    }
    proof {
        assert(norm@ =~= spec_normalize(s@));
    }

    // Base-32 decode and version check.
    match base32::decode(&norm) {
        Some(d) => {
            if d.len() == 35 && d[34] == ADDRESS_VERSION {
                let mut pk: Vec<u8> = Vec::new();
                let mut j: usize = 0;
                while j < 32
                    invariant
                        d@.len() == 35,
                        j <= 32,
                        pk@.len() == j,
                        forall|k: int| 0 <= k < j ==> pk@[k] == d@[k],
                    decreases 32 - j,
                {
                    pk.push(d[j]);
                    j = j + 1;
                }
                proof {
                    assert(pk@ =~= d@.take(32));
                }
                Ok(pk)
            } else {
                Err(InvalidAddress)
            }
        },
        None => Err(InvalidAddress),
    }
}

/// Encode a 32-byte verifying key as an address string, `.onion` suffix
/// attached.  Decoding the result returns the key: the round trip is part
/// of the contract.
pub fn onion_encode(pk: &Vec<u8>) -> (r: String)
    requires
        pk@.len() == 32,
    ensures
        vstd::utf8::encode_utf8(r@) == spec_onion_encode(pk@),
        spec_onion_decode(spec_onion_encode(pk@)) == Some(pk@),
{
    let mut data: Vec<u8> = Vec::new();
    let mut i: usize = 0;
    while i < 32
        invariant
            pk@.len() == 32,
            i <= 32,
            data@.len() == i,
            forall|j: int| 0 <= j < i ==> data@[j] == pk@[j],
        decreases 32 - i,
    {
        data.push(pk[i]);
        i = i + 1;
    }
    data.push(0);
    data.push(0);
    data.push(ADDRESS_VERSION);
    proof {
        assert(data@ =~= pk@ + seq![0u8, 0u8, ADDRESS_VERSION]);
    }
    let mut enc = base32::encode(&data);
    proof {
        base32::lemma_encode_len(data@);
    }
    enc.push(46);
    enc.push(111);
    enc.push(110);
    enc.push(105);
    enc.push(111);
    enc.push(110);
    proof {
        assert(enc@ =~= spec_onion_encode(pk@));
        lemma_address_round_trip(pk@);
        lemma_encode_bytes_ascii(pk@);
    }
    match crate::trusted::string_from_utf8(enc) {
        Some(st) => st,
        None => {
            proof {
                assert(false);
            }
            String::new()
        },
    }
}

/// The bytes of an encoded address are ASCII: base-32 symbols and the
/// suffix letters.
proof fn lemma_encode_bytes_ascii(pk: Seq<u8>)
    requires
        pk.len() == 32,
    ensures
        forall|j: int|
            0 <= j < spec_onion_encode(pk).len() ==> #[trigger] spec_onion_encode(pk)[j] < 128,
{
    let data = pk + seq![0u8, 0u8, ADDRESS_VERSION];
    base32::lemma_encode_len(data);
    let enc = base32::b32_encode(data);
    assert forall|j: int| 0 <= j < spec_onion_encode(pk).len() implies #[trigger] spec_onion_encode(
        pk,
    )[j] < 128 by {
        if j < enc.len() {
            assert(base32::b32_val(enc[j]) is Some);
            assert(spec_onion_encode(pk)[j] == enc[j]);
        } else {
            assert(spec_onion_encode(pk)[j] == onion_suffix()[j - enc.len()]);
        }
    }
}

/// Address round trip: decoding an encoded key returns the key.
pub proof fn lemma_address_round_trip(pk: Seq<u8>)
    requires
        pk.len() == 32,
    ensures
        spec_onion_decode(spec_onion_encode(pk)) == Some(pk),
{
    let data = pk + seq![0u8, 0u8, ADDRESS_VERSION];
    base32::lemma_encode_len(data);
    let enc = base32::b32_encode(data);
    let s = enc + onion_suffix();
    assert(s =~= spec_onion_encode(pk));
    // No whitespace at either end: the first byte is a base-32 symbol and
    // the last is the suffix letter `n`.
    assert(s[0] == enc[0]);
    assert(base32::b32_val(enc[0]) is Some);
    assert(spec_trim_start(s) == s);
    assert(s[s.len() - 1] == 110);
    assert(spec_trim_end(s) == s);
    // Exactly one suffix comes off, since `enc` holds no `.` byte.
    assert(s.skip(s.len() - 6) =~= onion_suffix());
    assert(has_onion_suffix(s));
    assert(s.take(s.len() - 6) =~= enc);
    assert(!has_onion_suffix(enc)) by {
        if has_onion_suffix(enc) {
            assert(enc.skip(enc.len() - 6)[0] == 46);
            assert(enc[enc.len() - 6] == 46);
            assert(base32::b32_val(enc[enc.len() - 6]) is Some);
        }
    }
    assert(spec_strip_suffix(s) == spec_strip_suffix(s.take(s.len() - 6)));
    assert(s.take(s.len() - 6) == enc);
    assert(spec_strip_suffix(enc) == enc);
    assert(spec_strip_suffix(s) == enc);
    // Already lower case: every symbol is below 65 or at least 97.
    assert forall|j: int| 0 <= j < enc.len() implies lower_byte(#[trigger] enc[j]) == enc[j] by {
        assert(base32::b32_val(enc[j]) is Some);
    }
    assert(spec_normalize(s) =~= enc);
    base32::lemma_b32_round_trip(data);
    assert(data[34] == ADDRESS_VERSION);
    assert(data.take(32) =~= pk);
}

} // verus!
