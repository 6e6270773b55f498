//! SHA-256 digests, and how they are written.
use sha2::{Digest, Sha256};
use vstd::prelude::*;

verus! {

/// The SHA-256 digest of a message.
pub uninterp spec fn sha256(message: Seq<u8>) -> Seq<u8>;

/// Calls `sha2::Sha256::digest`, which feeds the whole message to a new hasher and returns what it
/// comes to. Trusted: the digest depends on the message alone and has 32 bytes.
#[verifier::external_body]
pub(crate) fn sha256_digest(message: &[u8]) -> (digest: Vec<u8>)
    ensures
        digest@ == sha256(message@),
        digest@.len() == 32,
{
    Sha256::digest(message).as_slice().to_vec()
}

/// The hexadecimal digit of a number below sixteen, in lower case.
pub open spec fn hex_digit(value: int) -> char {
    if value < 10 {
        ('0' as int + value) as char
    } else {
        ('a' as int + value - 10) as char
    }
}

/// Two hexadecimal digits for each byte, the high one first.
pub open spec fn hex_of(bytes: Seq<u8>) -> Seq<char> {
    Seq::new(
        2 * bytes.len(),
        |i: int|
            hex_digit(
                if i % 2 == 0 {
                    bytes[i / 2] as int / 16
                } else {
                    bytes[i / 2] as int % 16
                },
            ),
    )
}

/// The digit of a number below sixteen.
fn digit(value: u8) -> (text: &'static str)
    requires
        value < 16,
    ensures
        text@ == seq![hex_digit(value as int)],
{
    proof {
        reveal_strlit("0");
        reveal_strlit("1");
        reveal_strlit("2");
        reveal_strlit("3");
        reveal_strlit("4");
        reveal_strlit("5");
        reveal_strlit("6");
        reveal_strlit("7");
        reveal_strlit("8");
        reveal_strlit("9");
        reveal_strlit("a");
        reveal_strlit("b");
        reveal_strlit("c");
        reveal_strlit("d");
        reveal_strlit("e");
        reveal_strlit("f");
    }
    let text = match value {
        0 => "0",
        1 => "1",
        2 => "2",
        3 => "3",
        4 => "4",
        5 => "5",
        6 => "6",
        7 => "7",
        8 => "8",
        9 => "9",
        10 => "a",
        11 => "b",
        12 => "c",
        13 => "d",
        14 => "e",
        _ => "f",
    };
    assert(text@ =~= seq![hex_digit(value as int)]);
    text
}

/// Writes a digest in hexadecimal digits.
pub fn hexify_hash(hash: &[u8]) -> (text: String)
    ensures
        text@ == hex_of(hash@),
{
    let mut text = String::new();
    let mut i: usize = 0;
    assert(text@ =~= hex_of(hash@.take(0)));
    while i < hash.len()
        invariant
            i <= hash.len(),
            text@ == hex_of(hash@.take(i as int)),
        decreases hash.len() - i,
    {
        let byte = hash[i];
        let ghost before = text@;
        text.append(digit(byte / 16));
        text.append(digit(byte % 16));
        i = i + 1;
        proof {
            let whole = hex_of(hash@.take(i as int));
            assert(text@ =~= before.push(hex_digit(byte as int / 16)).push(
                hex_digit(byte as int % 16),
            ));
            assert forall|k: int| 0 <= k < whole.len() implies text@[k] == whole[k] by {
                if k < before.len() {
                    assert(before[k] == hex_of(hash@.take(i - 1))[k]);
                    assert(hash@.take(i - 1)[k / 2] == hash@.take(i as int)[k / 2]);
                } else {
                    assert(k / 2 == i - 1);
                }
            }
            assert(text@ =~= whole);
        }
    }
    assert(hash@.take(i as int) =~= hash@);
    text
}

/// The hexadecimal SHA-256 digest of a message.
pub open spec fn hex_digest_of(message: Seq<u8>) -> Seq<char> {
    hex_of(sha256(message))
}

/// Whether a character is a hexadecimal digit in lower case.
pub open spec fn is_hex_digit(digit: char) -> bool {
    '0' <= digit <= '9' || 'a' <= digit <= 'f'
}

/// Whether a text is one that a SHA-256 digest is written as.
pub open spec fn is_digest(text: Seq<char>) -> bool {
    text.len() == 64 && forall|i: int| 0 <= i < text.len() ==> is_hex_digit(#[trigger] text[i])
}

/// Whether two messages are different and have the same SHA-256 digest.
pub open spec fn is_collision(left: Seq<u8>, right: Seq<u8>) -> bool {
    left != right && sha256(left) == sha256(right)
}

/// The hexadecimal SHA-256 digest of a message: always 64 digits.
pub fn hex_digest(message: &[u8]) -> (text: String)
    ensures
        text@ == hex_digest_of(message@),
        is_digest(text@),
{
    let digest = sha256_digest(message);
    proof {
        law_hex_is_plain(digest@);
    }
    hexify_hash(&digest)
}

/// Where the hexadecimal digests of two messages are the same, the messages are, or SHA-256 does
/// not tell them apart.
pub proof fn law_digests_tell_apart(left: Seq<u8>, right: Seq<u8>)
    requires
        hex_digest_of(left) == hex_digest_of(right),
    ensures
        left == right || is_collision(left, right),
{
    law_hex_is_injective(sha256(left), sha256(right));
}

/// A digest is written in ASCII, with one byte for each digit.
pub(crate) proof fn lemma_digest_bytes(text: Seq<char>)
    requires
        is_digest(text),
    ensures
        vstd::utf8::encode_utf8(text).len() == 64,
        forall|i: int|
            0 <= i < 64 ==> #[trigger] vstd::utf8::encode_utf8(text)[i] == text[i] as u8,
{
    assert forall|i: int| 0 <= i < text.len() implies '\0' <= #[trigger] text[i] <= '\u{7f}' by {
        assert(is_hex_digit(text[i]));
    }
    vstd::utf8::is_ascii_chars_encode_utf8(text);
}

/// Different digests are written differently.
pub proof fn law_hex_is_injective(left: Seq<u8>, right: Seq<u8>)
    requires
        hex_of(left) == hex_of(right),
    ensures
        left == right,
{
    assert(hex_of(left).len() == 2 * left.len());
    assert(hex_of(right).len() == 2 * right.len());
    assert forall|i: int| 0 <= i < left.len() implies left[i] == right[i] by {
        assert((2 * i) / 2 == i && (2 * i) % 2 == 0);
        assert((2 * i + 1) / 2 == i && (2 * i + 1) % 2 == 1);
        assert(hex_of(left)[2 * i] == hex_digit(left[i] as int / 16));
        assert(hex_of(right)[2 * i] == hex_digit(right[i] as int / 16));
        assert(hex_of(left)[2 * i + 1] == hex_digit(left[i] as int % 16));
        assert(hex_of(right)[2 * i + 1] == hex_digit(right[i] as int % 16));
        lemma_hex_digit(left[i] as int / 16, right[i] as int / 16);
        lemma_hex_digit(left[i] as int % 16, right[i] as int % 16);
    }
    assert(left =~= right);
}

/// Different numbers below sixteen have different digits.
proof fn lemma_hex_digit(left: int, right: int)
    requires
        0 <= left < 16,
        0 <= right < 16,
        hex_digit(left) == hex_digit(right),
    ensures
        left == right,
{
}

/// What is written of a digest holds digits alone: in particular, neither a dot nor a separator.
pub proof fn law_hex_is_plain(bytes: Seq<u8>)
    ensures
        forall|i: int| 0 <= i < hex_of(bytes).len() ==> is_hex_digit(#[trigger] hex_of(bytes)[i]),
{
}

/// Each byte is written as two digits, the high one first: the digit for a number is the character
/// at that place among the sixteen, and nothing else is written.
pub proof fn law_bytes_are_written_in_digits(bytes: Seq<u8>, i: int)
    ensures
        hex_of(bytes).len() == 2 * bytes.len(),
        0 <= i < bytes.len() ==> hex_of(bytes)[2 * i] == "0123456789abcdef"@[bytes[i] as int / 16],
        0 <= i < bytes.len() ==> hex_of(bytes)[2 * i + 1] == "0123456789abcdef"@[bytes[i] as int
            % 16],
{
    reveal_strlit("0123456789abcdef");
    if 0 <= i < bytes.len() {
        assert((2 * i) / 2 == i && (2 * i) % 2 == 0);
        assert((2 * i + 1) / 2 == i && (2 * i + 1) % 2 == 1);
    }
}

/// The hexadecimal digest of a message is written from the digest of all its bytes.
pub proof fn law_digest_is_that_of_the_message(message: Seq<u8>, i: int)
    ensures
        hex_digest_of(message).len() == 2 * sha256(message).len(),
        0 <= i < sha256(message).len() ==> hex_digest_of(message)[2 * i]
            == "0123456789abcdef"@[sha256(message)[i] as int / 16],
        0 <= i < sha256(message).len() ==> hex_digest_of(message)[2 * i + 1]
            == "0123456789abcdef"@[sha256(message)[i] as int % 16],
{
    law_bytes_are_written_in_digits(sha256(message), i);
}

} // verus!
