//! Digests of text: the numbers under which trees are looked up.
use vstd::prelude::*;
use vstd::string::*;
use vstd::utf8::*;

verus! {

/// The digests are kept below this prime.
pub const MODULUS: u64 = 4294967291;

/// The digest `h` carried on over `v`: both below the modulus, `h` times 33
/// plus `v`, below the modulus.
pub open spec fn mixed(h: u64, v: u64) -> u64 {
    (((h % MODULUS) * 33 + v % MODULUS) % (MODULUS as int)) as u64
}

/// The digest of `bytes`: 7 carried on over each byte in order.
pub open spec fn bytes_digest(bytes: Seq<u8>) -> u64
    decreases bytes.len(),
{
    if bytes.len() == 0 {
        7
    } else {
        mixed(bytes_digest(bytes.drop_last()), bytes.last() as u64)
    }
}

/// The digest of the text `text`: that of its bytes.
pub open spec fn text_digest(text: Seq<char>) -> u64 {
    bytes_digest(encode_utf8(text))
}

/// The digest `h` carried on over `v`.
pub fn mix(h: u64, v: u64) -> (mixed_up: u64)
    ensures
        mixed_up == mixed(h, v),
{
    ((h % MODULUS) * 33 + v % MODULUS) % MODULUS
}

/// The digest of the text `text`.
pub fn digest_text(text: &str) -> (h: u64)
    ensures
        h == text_digest(text@),
{
    let bytes = text.as_bytes();
    let mut h: u64 = 7;
    let mut i: usize = 0;
    proof {
        assert(bytes@.subrange(0, 0) =~= Seq::<u8>::empty());
    }
    while i < bytes.len()
        invariant
            i <= bytes.len(),
            bytes@ == encode_utf8(text@),
            h == bytes_digest(bytes@.subrange(0, i as int)),
        decreases bytes.len() - i,
    {
        proof {
            let upto = bytes@.subrange(0, i + 1);
            assert(upto.drop_last() =~= bytes@.subrange(0, i as int));
            assert(upto.last() == bytes@[i as int]);
        }
        h = mix(h, bytes[i] as u64);
        i += 1;
    }
    proof {
        assert(bytes@.subrange(0, i as int) =~= bytes@);
    }
    h
}

} // verus!
