//! The schema identifier: eight bytes of a digest of namespace and message name, written in
//! hexadecimal.

use crypto::digest::Digest;
use vstd::prelude::*;
use vstd::string::StringExecFns;

verus! {

/// The MD5 digest of `data`.
pub uninterp spec fn md5_of(data: Seq<u8>) -> Seq<u8>;

/// Feeds `data` to a fresh `crypto::md5::Md5` through `Digest::input` and reads the digest
/// with `Digest::result`. The contract names the digest and claims that it has the sixteen
/// bytes that `result` writes; nothing about MD5 itself is proved here.
#[verifier::external_body]
fn md5_digest(data: &[u8]) -> (digest: Vec<u8>)
    ensures
        digest@ == md5_of(data@),
        digest@.len() == 16,
{
    let mut md5 = crypto::md5::Md5::new();
    md5.input(data);
    let mut digest = vec![0u8; 16];
    md5.result(&mut digest);
    digest
}

/// The lowercase hexadecimal digit that stands for `n`, for `n` below sixteen.
pub open spec fn hex_digit(n: int) -> char {
    "0123456789abcdef"@[n]
}

/// The two hexadecimal digits of a byte, the high half first.
pub open spec fn hex_of_byte(b: u8) -> Seq<char> {
    seq![hex_digit(b as int / 16), hex_digit(b as int % 16)]
}

/// The hexadecimal digits of a sequence of bytes, two for each byte, in order.
pub open spec fn hex_of(bytes: Seq<u8>) -> Seq<char>
    decreases bytes.len(),
{
    if bytes.len() == 0 {
        Seq::empty()
    } else {
        hex_of(bytes.drop_last()) + hex_of_byte(bytes.last())
    }
}

/// The eight bytes that an identifier keeps of a digest: its first eight, with the top bit
/// of the first one set.
pub open spec fn id_bytes(digest: Seq<u8>) -> Seq<u8> {
    digest.take(8).update(0, digest[0] | 0x80u8)
}

/// The identifier that a digest gives: `0x` and the sixteen digits of its eight bytes.
pub open spec fn id_of_digest(digest: Seq<u8>) -> Seq<char> {
    "0x"@ + hex_of(id_bytes(digest))
}

/// The identifier of a message: that of the MD5 digest of the namespace, `::` and the
/// message name, encoded as UTF-8.
pub open spec fn schema_identifier_of(namespace: Seq<char>, msg_name: Seq<char>) -> Seq<char> {
    id_of_digest(md5_of(vstd::utf8::encode_utf8(namespace + "::"@ + msg_name)))
}

/// The hexadecimal digit of a half byte.
fn hex_digit_of(n: u8) -> (c: char)
    requires
        n < 16,
    ensures
        c == hex_digit(n as int),
{
    proof {
        reveal_strlit("0123456789abcdef");
    }
    if n < 10 {
        (48 + n) as char
    } else {
        (87 + n) as char
    }
}

/// Writes the identifier that `digest` gives.
pub fn schema_id_from_digest(digest: &[u8]) -> (id: String)
    requires
        digest@.len() >= 8,
    ensures
        id@ == id_of_digest(digest@),
        id@.len() == 18,
{
    proof {
        lemma_identifier_shape(digest@);
    }
    let mut id = String::from_str("0x");
    let mut i: usize = 0;
    while i < 8
        invariant
            i <= 8 <= digest@.len(),
            id@ == "0x"@ + hex_of(id_bytes(digest@).take(i as int)),
        decreases 8 - i,
    {
        let b: u8 = if i == 0 {
            digest[0] | 0x80u8
        } else {
            digest[i]
        };
        proof {
            let kept = id_bytes(digest@);
            assert(kept[i as int] == b);
            assert(kept.take(i + 1).drop_last() == kept.take(i as int));
            assert(kept.take(i + 1).last() == b);
        }
        id.push(hex_digit_of(b / 16));
        id.push(hex_digit_of(b % 16));
        i += 1;
    }
    assert(id_bytes(digest@).take(8) == id_bytes(digest@));
    id
}

/// Computes the identifier of the message `msg_name` in `namespace`.
pub fn schema_identifier(namespace: &str, msg_name: &str) -> (id: String)
    ensures
        id@ == schema_identifier_of(namespace@, msg_name@),
        id@.len() == 18,
{
    let mut text = String::from_str(namespace);
    text.append("::");
    text.append(msg_name);
    let digest = md5_digest(text.as_str().as_bytes());
    schema_id_from_digest(digest.as_slice())
}

/// Whether `c` is a lowercase hexadecimal digit.
pub open spec fn is_hex_digit(c: char) -> bool {
    '0' <= c <= '9' || 'a' <= c <= 'f'
}

/// The identifier is a function of the namespace and the message name: the same pair
/// gives the same identifier, character for character, however often it is asked for.
pub proof fn lemma_identifier_is_stable(
    namespace: Seq<char>,
    msg_name: Seq<char>,
    other_namespace: Seq<char>,
    other_name: Seq<char>,
)
    requires
        namespace == other_namespace,
        msg_name == other_name,
    ensures
        schema_identifier_of(namespace, msg_name) == schema_identifier_of(
            other_namespace,
            other_name,
        ),
{
}

/// The digit at the place `k` of the hexadecimal digits of `bytes`: that of the high half
/// of a byte at the even places, that of its low half at the odd ones.
pub open spec fn digit_at(bytes: Seq<u8>, k: int) -> char {
    if k % 2 == 0 {
        hex_digit(bytes[k / 2] as int / 16)
    } else {
        hex_digit(bytes[k / 2] as int % 16)
    }
}

/// Each byte gives two hexadecimal digits, in the order of the bytes.
pub proof fn lemma_hex_of(bytes: Seq<u8>)
    ensures
        hex_of(bytes).len() == 2 * bytes.len(),
        forall|k: int| 0 <= k < 2 * bytes.len() ==> #[trigger] hex_of(bytes)[k] == digit_at(bytes, k),
    decreases bytes.len(),
{
    if bytes.len() > 0 {
        let front = bytes.drop_last();
        lemma_hex_of(front);
        assert forall|k: int| 0 <= k < 2 * bytes.len() implies #[trigger] hex_of(bytes)[k]
            == digit_at(bytes, k) by {
            if k < 2 * front.len() {
                assert(hex_of(bytes)[k] == hex_of(front)[k]);
                assert(front[k / 2] == bytes[k / 2]);
            } else {
                assert(k / 2 == bytes.len() - 1);
                assert(hex_of(bytes)[k] == hex_of_byte(bytes.last())[k - 2 * front.len()]);
            }
        }
    }
}

/// An identifier is `0x` and sixteen lowercase hexadecimal digits, and the first digit is 8
/// or more: the top bit of the number is set.
pub proof fn lemma_identifier_shape(digest: Seq<u8>)
    requires
        digest.len() >= 8,
    ensures
        id_of_digest(digest).len() == 18,
        id_of_digest(digest)[0] == '0',
        id_of_digest(digest)[1] == 'x',
        forall|i: int| 2 <= i < 18 ==> is_hex_digit(#[trigger] id_of_digest(digest)[i]),
        '8' <= id_of_digest(digest)[2],
{
    reveal_strlit("0x");
    reveal_strlit("0123456789abcdef");
    let kept = id_bytes(digest);
    let id = id_of_digest(digest);
    lemma_hex_of(kept);
    assert forall|i: int| 2 <= i < 18 implies is_hex_digit(#[trigger] id[i]) by {
        assert(id[i] == hex_of(kept)[i - 2]);
        let b = kept[(i - 2) / 2];
        assert(0 <= b as int / 16 < 16 && 0 <= b as int % 16 < 16);
    }
    let first = digest[0];
    assert((first | 0x80u8) / 16 >= 8) by (bit_vector);
    assert(id[2] == hex_of(kept)[0]);
    assert(kept[0] == first | 0x80u8);
    assert(8 <= kept[0] as int / 16 < 16);
}

} // verus!
