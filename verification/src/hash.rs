//! Content addressing of generated artifacts: lowercase hex encoding and
//! the `sha256:<hex>` value of the `X-Content-Hash` header.

use sha2::Digest;
use vstd::prelude::*;
use vstd::string::StringSliceAdditionalSpecFns;

verus! {

/// The sixteen lowercase hexadecimal digits, in order.
pub open spec fn hex_digits() -> Seq<char> {
    seq!['0', '1', '2', '3', '4', '5', '6', '7', '8', '9', 'a', 'b', 'c', 'd', 'e', 'f']
}

/// Lowercase hex encoding: each byte becomes two digits, the high nibble
/// first (what `format!("{b:02x}")` writes for a byte).
pub open spec fn hex_of(bytes: Seq<u8>) -> Seq<char> {
    Seq::new(
        2 * bytes.len(),
        |i: int|
            if i % 2 == 0 {
                hex_digits()[(bytes[i / 2] / 16) as int]
            } else {
                hex_digits()[(bytes[i / 2] % 16) as int]
            },
    )
}

/// Hex digit `n` is the character `'0' + n` below ten and `'a' + n - 10`
/// from ten on.
pub proof fn lemma_hex_digit_code(n: int)
    requires
        0 <= n < 16,
    ensures
        hex_digits()[n] as int == if n < 10 {
            48 + n
        } else {
            87 + n
        },
{
    assert(hex_digits()[0] == '0' && hex_digits()[1] == '1' && hex_digits()[2] == '2');
    assert(hex_digits()[3] == '3' && hex_digits()[4] == '4' && hex_digits()[5] == '5');
    assert(hex_digits()[6] == '6' && hex_digits()[7] == '7' && hex_digits()[8] == '8');
    assert(hex_digits()[9] == '9' && hex_digits()[10] == 'a' && hex_digits()[11] == 'b');
    assert(hex_digits()[12] == 'c' && hex_digits()[13] == 'd' && hex_digits()[14] == 'e');
    assert(hex_digits()[15] == 'f');
}

/// Hex encoding writes two characters per byte, each a lowercase hex digit.
pub proof fn law_hex_shape(bytes: Seq<u8>)
    ensures
        hex_of(bytes).len() == 2 * bytes.len(),
        forall|i: int| 0 <= i < hex_of(bytes).len() ==> hex_digits().contains(#[trigger] hex_of(bytes)[i]),
{
    assert forall|i: int| 0 <= i < hex_of(bytes).len() implies hex_digits().contains(#[trigger] hex_of(bytes)[i]) by {
        let b = bytes[i / 2];
        let n: int = if i % 2 == 0 { (b / 16) as int } else { (b % 16) as int };
        assert(hex_of(bytes)[i] == hex_digits()[n]);
    }
}

/// Hex encoding is injective: different byte strings never share an
/// encoding, so the content hash header identifies the digest.
pub proof fn law_hex_injective(a: Seq<u8>, b: Seq<u8>)
    requires
        hex_of(a) == hex_of(b),
    ensures
        a == b,
{
    assert(hex_of(a).len() == 2 * a.len());
    assert(hex_of(b).len() == 2 * b.len());
    assert forall|k: int| 0 <= k < a.len() implies a[k] == b[k] by {
        assert(hex_of(a)[2 * k] == hex_of(b)[2 * k]);
        assert(hex_of(a)[2 * k + 1] == hex_of(b)[2 * k + 1]);
        assert((2 * k) / 2 == k && (2 * k) % 2 == 0);
        assert((2 * k + 1) / 2 == k && (2 * k + 1) % 2 == 1);
        let ha = (a[k] / 16) as int;
        let hb = (b[k] / 16) as int;
        let la = (a[k] % 16) as int;
        let lb = (b[k] % 16) as int;
        assert(hex_of(a)[2 * k] == hex_digits()[ha]);
        assert(hex_of(b)[2 * k] == hex_digits()[hb]);
        assert(hex_of(a)[2 * k + 1] == hex_digits()[la]);
        assert(hex_of(b)[2 * k + 1] == hex_digits()[lb]);
        lemma_hex_digit_code((a[k] / 16) as int);
        lemma_hex_digit_code((b[k] / 16) as int);
        lemma_hex_digit_code((a[k] % 16) as int);
        lemma_hex_digit_code((b[k] % 16) as int);
        assert(ha == hb);
        assert(la == lb);
        assert(a[k] == 16 * (a[k] / 16) + a[k] % 16);
        assert(b[k] == 16 * (b[k] / 16) + b[k] % 16);
    }
    assert(a =~= b);
}

/// The value of a lowercase hex digit, as `u8::from_str_radix(_, 16)`
/// reads it.
pub open spec fn hex_digit_value(c: char) -> int {
    if '0' <= c <= '9' {
        c as int - 48
    } else {
        c as int - 87
    }
}

/// Decoding hex text pair by pair: each two digits give a byte, the high
/// nibble first.
pub open spec fn hex_decode(s: Seq<char>) -> Seq<u8> {
    Seq::new(
        s.len() / 2,
        |i: int| (16 * hex_digit_value(s[2 * i]) + hex_digit_value(s[2 * i + 1])) as u8,
    )
}

/// Decoding the hex encoding of bytes pair by pair gives the bytes back.
pub proof fn law_hex_roundtrip(bytes: Seq<u8>)
    ensures
        hex_decode(hex_of(bytes)) == bytes,
{
    let h = hex_of(bytes);
    assert(h.len() / 2 == bytes.len());
    assert forall|k: int| 0 <= k < bytes.len() implies #[trigger] hex_decode(h)[k] == bytes[k] by {
        let hi = (bytes[k] / 16) as int;
        let lo = (bytes[k] % 16) as int;
        assert((2 * k) / 2 == k && (2 * k) % 2 == 0);
        assert((2 * k + 1) / 2 == k && (2 * k + 1) % 2 == 1);
        assert(h[2 * k] == hex_digits()[hi]);
        assert(h[2 * k + 1] == hex_digits()[lo]);
        lemma_hex_digit_code(hi);
        lemma_hex_digit_code(lo);
        assert(hex_digit_value(h[2 * k]) == hi);
        assert(hex_digit_value(h[2 * k + 1]) == lo);
        assert(16 * hi + lo == bytes[k] as int);
    }
    assert(hex_decode(h) =~= bytes);
}

/// The one-character string of hex digit `n`.
fn hex_digit_str(n: u8) -> (r: &'static str)
    requires
        n < 16,
    ensures
        r@ == seq![hex_digits()[n as int]],
{
    let digits = "0123456789abcdef";
    proof {
        reveal_strlit("0123456789abcdef");
        assert(digits@ =~= hex_digits());
    }
    let r = digits.substring_char(n as usize, n as usize + 1);
    proof {
        assert(r@ =~= seq![hex_digits()[n as int]]);
    }
    r
}

/// Encodes `bytes` as lowercase hexadecimal, two digits per byte.
pub fn hex_encode(bytes: &[u8]) -> (r: String)
    ensures
        r@ == hex_of(bytes@),
{
    let mut out = String::new();
    let n = bytes.len();
    for i in 0..n
        invariant
            n == bytes@.len(),
            out@ == hex_of(bytes@.take(i as int)),
    {
        let b = bytes[i];
        let hi = hex_digit_str(b / 16);
        let lo = hex_digit_str(b % 16);
        let ghost prev = out@;
        out.append(hi);
        out.append(lo);
        proof {
            let t = bytes@.take(i + 1);
            assert(t[i as int] == b);
            assert forall|k: int| 0 <= k < 2 * i implies #[trigger] hex_of(t)[k] == prev[k] by {
                assert(t[k / 2] == bytes@.take(i as int)[k / 2]);
            }
            assert(hex_of(t) =~= prev + hi@ + lo@);
        }
    }
    proof {
        assert(bytes@.take(n as int) =~= bytes@);
    }
    out
}

/// The SHA-256 digest of a byte sequence.
pub uninterp spec fn sha256_of(data: Seq<u8>) -> Seq<u8>;

/// Calls `sha2::Sha256::digest`: the result is the digest of `data`, of
/// SHA-256's fixed output size (32 bytes). Which bytes SHA-256 computes is
/// left to the name `sha256_of`.
#[verifier::external_body]
fn sha256_digest(data: &[u8]) -> (r: Vec<u8>)
    ensures
        r@ == sha256_of(data@),
        r@.len() == 32,
{
    sha2::Sha256::digest(data).to_vec()
}

/// The prefix of a content-hash value.
pub open spec fn sha256_prefix() -> Seq<char> {
    seq!['s', 'h', 'a', '2', '5', '6', ':']
}

/// The `X-Content-Hash` value of an artifact's text: `sha256:` followed by
/// the lowercase hex SHA-256 digest of the text's UTF-8 bytes.
pub open spec fn content_hash_of(content: Seq<u8>) -> Seq<char> {
    sha256_prefix() + hex_of(sha256_of(content))
}

/// A character that may stand in an HTTP header value as written: visible
/// ASCII.
pub open spec fn is_visible_ascii(c: char) -> bool {
    0x21 <= (c as int) <= 0x7e
}

/// Computes the `X-Content-Hash` header value of an artifact's text. The
/// value is always 71 visible ASCII characters, so it is always a valid
/// header value.
pub fn content_hash_value(content: &str) -> (r: String)
    ensures
        r@ == content_hash_of(content.spec_bytes()),
        r@.len() == 71,
        forall|i: int| 0 <= i < r@.len() ==> is_visible_ascii(#[trigger] r@[i]),
{
    let digest = sha256_digest(content.as_bytes());
    let hex = hex_encode(digest.as_slice());
    let mut out = String::from_str("sha256:");
    proof {
        reveal_strlit("sha256:");
        assert("sha256:"@ =~= sha256_prefix());
    }
    out.append(hex.as_str());
    proof {
        assert forall|i: int| 0 <= i < out@.len() implies is_visible_ascii(#[trigger] out@[i]) by {
            if i >= 7 {
                let k = i - 7;
                assert(out@[i] == hex_of(digest@)[k]);
                let b = if k % 2 == 0 { digest@[k / 2] / 16 } else { digest@[k / 2] % 16 };
                assert(0 <= b < 16);
                assert(hex_of(digest@)[k] == hex_digits()[b as int]);
            }
        }
    }
    out
}

} // verus!
