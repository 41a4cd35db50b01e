//! Canonical text digests: SHA-256 over a string's UTF-8 bytes, rendered as
//! hexadecimal without zero-padding, and the decimal rendering of integers
//! used when building the canonical text of ledger records.
use vstd::prelude::*;
use sha2::Digest;

verus! {

/// The SHA-256 digest of the UTF-8 bytes of a string, as a function of its
/// characters alone.
pub uninterp spec fn sha256_of(s: Seq<char>) -> Seq<u8>;

/// Relies on sha2::Sha256: the digest of a string's UTF-8 bytes is 32 bytes
/// long and depends on the string's characters alone.
#[verifier::external_body]
fn sha256_digest(input: &str) -> (r: Vec<u8>)
    ensures
        r@ == sha256_of(input@),
        r@.len() == 32,
{
    let mut hasher = sha2::Sha256::new();
    hasher.update(input.as_bytes());
    hasher.finalize().to_vec()
}

/// The character for one hexadecimal digit: `0`-`9` then `a`-`f`.
pub open spec fn hex_char(d: u8) -> char
    recommends
        d < 16,
{
    if d < 10 {
        (48 + d) as char
    } else {
        (87 + d) as char
    }
}

/// One byte rendered as hexadecimal without a leading zero: a value below
/// sixteen takes a single character.
pub open spec fn hex_byte(b: u8) -> Seq<char> {
    if b < 16 {
        seq![hex_char(b)]
    } else {
        seq![hex_char(b / 16), hex_char(b % 16)]
    }
}

/// A byte sequence rendered as unpadded hexadecimal.
pub open spec fn hex_nopad(bytes: Seq<u8>) -> Seq<char>
    decreases bytes.len(),
{
    if bytes.len() == 0 {
        Seq::empty()
    } else {
        hex_nopad(bytes.drop_last()) + hex_byte(bytes.last())
    }
}

fn hex_str(d: u8) -> (r: &'static str)
    requires
        d < 16,
    ensures
        r@ == seq![hex_char(d)],
{
    let r: &'static str = match d {
        0 => "0",
        1 => "1",
        2 => "2",
        3 => "3",
        4 => "4",
        5 => "5",
        6 => "6",
        7 => "7",
        8 => "8",
        9 => "9",
        10 => "a",
        11 => "b",
        12 => "c",
        13 => "d",
        14 => "e",
        _ => "f",
    };
    proof {
        reveal_strlit("0");
        reveal_strlit("1");
        reveal_strlit("2");
        reveal_strlit("3");
        reveal_strlit("4");
        reveal_strlit("5");
        reveal_strlit("6");
        reveal_strlit("7");
        reveal_strlit("8");
        reveal_strlit("9");
        reveal_strlit("a");
        reveal_strlit("b");
        reveal_strlit("c");
        reveal_strlit("d");
        reveal_strlit("e");
        reveal_strlit("f");
        assert(r@ =~= seq![hex_char(d)]);
    }
    r
}

fn render_hex(bytes: &Vec<u8>) -> (r: String)
    ensures
        r@ == hex_nopad(bytes@),
{
    let mut r = String::new();
    let mut i: usize = 0;
    while i < bytes.len()
        invariant
            i <= bytes@.len(),
            r@ == hex_nopad(bytes@.take(i as int)),
        decreases bytes@.len() - i,
    {
        let b = bytes[i];
        if b < 16 {
            r.append(hex_str(b));
        } else {
            r.append(hex_str(b / 16));
            r.append(hex_str(b % 16));
        }
        proof {
            assert(bytes@.take(i + 1).drop_last() =~= bytes@.take(i as int));
            assert(bytes@.take(i + 1).last() == bytes@[i as int]);
        }
        i = i + 1;
    }
    proof {
        assert(bytes@.take(bytes@.len() as int) =~= bytes@);
    }
    r
}

/// The digest of a string: SHA-256 of its UTF-8 bytes, rendered as unpadded
/// hexadecimal.
pub open spec fn hash_text(s: Seq<char>) -> Seq<char> {
    hex_nopad(sha256_of(s))
}

/// Hash a string to its unpadded hexadecimal SHA-256 rendering.
pub fn hash_str(input: &str) -> (r: String)
    ensures
        r@ == hash_text(input@),
{
    let d = sha256_digest(input);
    render_hex(&d)
}

/// The decimal rendering of a natural number.
pub open spec fn dec_nat(n: nat) -> Seq<char>
    decreases n,
{
    if n < 10 {
        seq![hex_char(n as u8)]
    } else {
        dec_nat(n / 10) + seq![hex_char((n % 10) as u8)]
    }
}

/// The decimal rendering of an integer, with a leading minus sign when
/// negative.
pub open spec fn dec_int(n: int) -> Seq<char> {
    if n < 0 {
        seq!['-'] + dec_nat((-n) as nat)
    } else {
        dec_nat(n as nat)
    }
}

fn u64_dec(n: u64) -> (r: String)
    ensures
        r@ == dec_nat(n as nat),
    decreases n,
{
    if n < 10 {
        String::from_str(hex_str(n as u8))
    } else {
        let mut s = u64_dec(n / 10);
        s.append(hex_str((n % 10) as u8));
        s
    }
}

/// Render a signed integer in decimal.
pub fn i64_dec(n: i64) -> (r: String)
    ensures
        r@ == dec_int(n as int),
{
    if n >= 0 {
        u64_dec(n as u64)
    } else {
        let mut s = String::from_str("-");
        proof {
            reveal_strlit("-");
            assert(s@ =~= seq!['-']);
        }
        let m: u64 = if n == i64::MIN {
            9223372036854775808u64
        } else {
            (-n) as u64
        };
        let d = u64_dec(m);
        s.append(d.as_str());
        s
    }
}

} // verus!
