//! The fingerprint of a list of tokens.
use vstd::prelude::*;

verus! {

/// Byte `j` of a token in little-endian order.
pub open spec fn token_byte(token: u32, j: int) -> u8 {
    if j == 0 {
        (token % 256) as u8
    } else if j == 1 {
        (token / 256 % 256) as u8
    } else if j == 2 {
        (token / 65536 % 256) as u8
    } else {
        (token / 16777216) as u8
    }
}

/// The little-endian bytes of all tokens, in order.
pub open spec fn tokens_as_bytes(tokens: Seq<u32>) -> Seq<u8> {
    Seq::new(4 * tokens.len(), |i: int| token_byte(tokens[i / 4], i % 4))
}

/// The character of one lower-case hexadecimal digit.
pub open spec fn hex_digit(d: int) -> char {
    if d < 10 {
        (48 + d) as char
    } else {
        (87 + d) as char
    }
}

/// Bytes as lower-case hexadecimal text, the high half of each byte first.
pub open spec fn lower_hex(bytes: Seq<u8>) -> Seq<char> {
    Seq::new(
        2 * bytes.len(),
        |i: int|
            hex_digit(
                if i % 2 == 0 {
                    bytes[i / 2] as int / 16
                } else {
                    bytes[i / 2] as int % 16
                },
            ),
    )
}

/// SHA-256 counts the bits of a message in 64 bits, so it takes fewer bytes
/// than this.
pub const MESSAGE_BYTES_END: u64 = 0x2000_0000_0000_0000;

/// A fingerprint covers fewer tokens than this.
pub const FINGERPRINT_TOKENS_END: u64 = 0x0800_0000_0000_0000;

/// What SHA-256 gives for a message.
pub uninterp spec fn sha256(data: Seq<u8>) -> Seq<u8>;

/// Calls `sha2::Sha256::digest` (by `sha2::Digest`). Claimed of it: the result
/// is a function of the message alone, named `sha256`, and has 32 bytes.
/// Messages whose bits it cannot count are left out.
#[verifier::external_body]
fn sha256_digest(data: &[u8]) -> (digest: Vec<u8>)
    requires
        data@.len() < MESSAGE_BYTES_END,
    ensures
        digest@ == sha256(data@),
        digest@.len() == 32,
{
    <sha2::Sha256 as sha2::Digest>::digest(data).to_vec()
}

/// Calls `hex::encode`. Claimed of it: the result is the data in lower-case
/// hexadecimal, two digits per byte. Data whose text no allocation can hold is
/// left out.
#[verifier::external_body]
fn hex_encode(data: &[u8]) -> (text: String)
    requires
        2 * data@.len() <= isize::MAX,
    ensures
        text@ == lower_hex(data@),
{
    hex::encode(data)
}

/// The little-endian bytes of all tokens, in order.
pub fn token_bytes(tokens: &[u32]) -> (bytes: Vec<u8>)
    ensures
        bytes@ == tokens_as_bytes(tokens@),
{
    let mut bytes: Vec<u8> = Vec::new();
    let n: usize = tokens.len();
    let mut i: usize = 0;
    while i < n
        invariant
            n == tokens@.len(),
            i <= n,
            bytes@ == tokens_as_bytes(tokens@.take(i as int)),
        decreases n - i,
    {
        let token: u32 = tokens[i];
        bytes.push((token % 256) as u8);
        bytes.push((token / 256 % 256) as u8);
        bytes.push((token / 65536 % 256) as u8);
        bytes.push((token / 16777216) as u8);
        i += 1;
        assert(bytes@ =~= tokens_as_bytes(tokens@.take(i as int)));
    }
    assert(tokens@.take(n as int) =~= tokens@);
    bytes
}

/// A digest as text.
pub fn digest_text(digest: &[u8]) -> (text: String)
    requires
        2 * digest@.len() <= isize::MAX,
    ensures
        text@ == lower_hex(digest@),
{
    hex_encode(digest)
}

/// The SHA-256 of the tokens' little-endian bytes, as text.
pub fn token_sha256(tokens: &[u32]) -> (text: String)
    requires
        tokens@.len() < FINGERPRINT_TOKENS_END,
    ensures
        text@ == lower_hex(sha256(tokens_as_bytes(tokens@))),
        text@.len() == 64,
{
    let bytes: Vec<u8> = token_bytes(tokens);
    let digest: Vec<u8> = sha256_digest(bytes.as_slice());
    digest_text(digest.as_slice())
}

/// Different token lists have different bytes, so the fingerprint tells them
/// apart wherever SHA-256 does.
pub proof fn law_token_bytes_are_injective(left: Seq<u32>, right: Seq<u32>)
    requires
        tokens_as_bytes(left) == tokens_as_bytes(right),
    ensures
        left == right,
{
    let bytes = tokens_as_bytes(left);
    assert(bytes.len() == 4 * left.len() && bytes.len() == 4 * right.len());
    assert forall|i: int| 0 <= i < left.len() implies left[i] == right[i] by {
        lemma_token_from_bytes(left[i]);
        lemma_token_from_bytes(right[i]);
        assert(bytes[4 * i] == token_byte(left[i], 0) && bytes[4 * i] == token_byte(right[i], 0));
        assert(bytes[4 * i + 1] == token_byte(left[i], 1) && bytes[4 * i + 1] == token_byte(
            right[i],
            1,
        ));
        assert(bytes[4 * i + 2] == token_byte(left[i], 2) && bytes[4 * i + 2] == token_byte(
            right[i],
            2,
        ));
        assert(bytes[4 * i + 3] == token_byte(left[i], 3) && bytes[4 * i + 3] == token_byte(
            right[i],
            3,
        ));
    }
    assert(left =~= right);
}

/// The bytes of token `i` stand four by four, and write the token with the
/// lowest byte first.
pub proof fn law_token_bytes_are_little_endian(tokens: Seq<u32>, i: int)
    requires
        0 <= i < tokens.len(),
    ensures
        tokens_as_bytes(tokens).len() == 4 * tokens.len(),
        tokens[i] == tokens_as_bytes(tokens)[4 * i] + 256 * tokens_as_bytes(tokens)[4 * i + 1]
            + 65536 * tokens_as_bytes(tokens)[4 * i + 2] + 16777216 * tokens_as_bytes(tokens)[4 * i
            + 3],
{
    lemma_token_from_bytes(tokens[i]);
}

/// Byte `i` is written with two characters, the high half first, each the
/// character of its value among the sixteen digits.
pub proof fn law_hex_digits(bytes: Seq<u8>, i: int)
    requires
        0 <= i < bytes.len(),
    ensures
        lower_hex(bytes).len() == 2 * bytes.len(),
        lower_hex(bytes)[2 * i] == "0123456789abcdef"@[bytes[i] as int / 16],
        lower_hex(bytes)[2 * i + 1] == "0123456789abcdef"@[bytes[i] as int % 16],
{
    reveal_strlit("0123456789abcdef");
    assert((2 * i) / 2 == i && (2 * i) % 2 == 0);
    assert((2 * i + 1) / 2 == i && (2 * i + 1) % 2 == 1);
}

/// A token is the number that its bytes write.
proof fn lemma_token_from_bytes(token: u32)
    ensures
        token == token_byte(token, 0) + 256 * token_byte(token, 1) + 65536 * token_byte(token, 2)
            + 16777216 * token_byte(token, 3),
{
}

} // verus!
