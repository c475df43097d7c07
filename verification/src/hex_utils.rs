//! Hexadecimal text for byte strings: lowercase encoding, and decoding of
//! either case.
use bitcoin::secp256k1::PublicKey;
use vstd::prelude::*;
use vstd::utf8::encode_utf8;

verus! {

/// The lowercase hex digit for a value below 16.
pub open spec fn hex_digit(n: u8) -> char {
    if n < 10 {
        (n + 48) as char
    } else {
        (n + 87) as char
    }
}

/// The lowercase hex text of `bytes`: two digits per byte, high nibble
/// first.
pub open spec fn hex_chars(bytes: Seq<u8>) -> Seq<char> {
    Seq::new(
        2 * bytes.len(),
        |i: int|
            if i % 2 == 0 {
                hex_digit(bytes[i / 2] / 16)
            } else {
                hex_digit(bytes[i / 2] % 16)
            },
    )
}

/// The value of a hex digit byte (`0`-`9`, `a`-`f`, `A`-`F`), if it is one.
pub open spec fn hex_nibble(c: u8) -> Option<u8> {
    if 48 <= c <= 57 {
        Some((c - 48) as u8)
    } else if 65 <= c <= 70 {
        Some((c - 55) as u8)
    } else if 97 <= c <= 102 {
        Some((c - 87) as u8)
    } else {
        None
    }
}

/// Hex text, as bytes, read back: `None` if any byte is not a hex digit,
/// else one byte per pair of digits, high nibble first; a last unpaired
/// digit adds nothing.
pub open spec fn hex_decode(text: Seq<u8>) -> Option<Seq<u8>> {
    if forall|i: int| 0 <= i < text.len() ==> (#[trigger] hex_nibble(text[i])) is Some {
        Some(
            Seq::new(
                text.len() / 2,
                |i: int|
                    (hex_nibble(text[2 * i])->Some_0 * 16 + hex_nibble(text[2 * i + 1])->Some_0) as u8,
            ),
        )
    } else {
        None
    }
}

/// Calls `String::push`, which appends the character to the end of the
/// string.
#[verifier::external_body]
pub(crate) fn string_push(s: &mut String, c: char)
    ensures
        final(s)@ == old(s)@.push(c),
{
    s.push(c)
}

fn hex_digit_char(n: u8) -> (c: char)
    requires
        n < 16,
    ensures
        c == hex_digit(n),
{
    if n < 10 {
        (n + 48) as char
    } else {
        (n + 87) as char
    }
}

/// The lowercase hex text of `value`.
pub fn to_string(value: &[u8]) -> (res: String)
    ensures
        res@ == hex_chars(value@),
        res@.len() == 2 * value@.len(),
        forall|i: int, k: int|
            #![trigger res@[2 * i + k]]
            0 <= i < value@.len() && 0 <= k <= 1 ==> {
                let c = res@[2 * i + k];
                let n = if k == 0 {
                    value@[i] / 16
                } else {
                    value@[i] % 16
                };
                ||| '0' <= c <= '9' && c as int - 48 == n
                ||| 'a' <= c <= 'f' && c as int - 87 == n
            },
{
    let mut res = String::new();
    let mut i: usize = 0;
    while i < value.len()
        invariant
            i <= value@.len(),
            res@ =~= hex_chars(value@.subrange(0, i as int)),
        decreases value@.len() - i,
    {
        let v = value[i];
        string_push(&mut res, hex_digit_char(v / 16));
        string_push(&mut res, hex_digit_char(v % 16));
        proof {
            let prev = hex_chars(value@.subrange(0, i as int));
            let next = hex_chars(value@.subrange(0, i + 1));
            assert forall|j: int| 0 <= j < next.len() implies #[trigger] next[j] == res@[j] by {
                if j < 2 * i {
                    assert(next[j] == prev[j]);
                }
            }
        }
        i = i + 1;
    }
    assert(value@.subrange(0, value@.len() as int) =~= value@);
    proof {
        law_hex_chars_lowercase_digits(value@);
    }
    res
}

fn hex_nibble_of(c: u8) -> (r: Option<u8>)
    ensures
        r == hex_nibble(c),
{
    if 48 <= c && c <= 57 {
        Some(c - 48)
    } else if 65 <= c && c <= 70 {
        Some(c - 55)
    } else if 97 <= c && c <= 102 {
        Some(c - 87)
    } else {
        None
    }
}

/// Reads hex text: `None` if any of its bytes is not a hex digit, else one
/// byte per pair of digits; a last unpaired digit adds nothing.
pub fn to_vec(hex: &str) -> (r: Option<Vec<u8>>)
    ensures
        r matches Some(v) ==> hex_decode(encode_utf8(hex@)) == Some(v@),
        r is None ==> hex_decode(encode_utf8(hex@)) is None,
{
    let bytes = hex.as_bytes();
    let ghost text = encode_utf8(hex@);
    assert(bytes@ == text);
    let mut out: Vec<u8> = Vec::new();
    let mut b: u8 = 0;
    let mut idx: usize = 0;
    while idx < bytes.len()
        invariant
            text == encode_utf8(hex@),
            bytes@ == text,
            idx <= text.len(),
            out@.len() == idx / 2,
            forall|j: int| 0 <= j < idx ==> (#[trigger] hex_nibble(text[j])) is Some,
            forall|j: int|
                0 <= j < idx / 2 ==> #[trigger] out@[j] == (hex_nibble(text[2 * j])->Some_0 * 16
                    + hex_nibble(text[2 * j + 1])->Some_0) as u8,
            idx % 2 == 1 ==> b == hex_nibble(text[idx - 1])->Some_0,
        decreases text.len() - idx,
    {
        let n = match hex_nibble_of(bytes[idx]) {
            Some(n) => n,
            None => {
                assert(hex_nibble(text[idx as int]) is None);
                assert(hex_decode(text) is None);
                return None;
            },
        };
        if idx % 2 == 1 {
            assert(b < 16 && n < 16);
            let byte = b * 16 + n;
            out.push(byte);
            b = 0;
        } else {
            b = n;
        }
        idx = idx + 1;
    }
    assert(out@ =~= hex_decode(text)->Some_0);
    Some(out)
}


#[verifier::external_type_specification]
#[verifier::external_body]
pub struct ExPublicKey(PublicKey);

/// The key secp256k1's `PublicKey::from_slice` reads from `data`, or `None`
/// where it refuses the bytes.
pub uninterp spec fn secp256k1_public_key_from_slice(data: Seq<u8>) -> Option<PublicKey>;

/// Calls `bitcoin::secp256k1::PublicKey::from_slice`, keeping the key where
/// it is accepted. Stated: the outcome is `secp256k1_public_key_from_slice`
/// of the bytes, and empty input is refused.
#[verifier::external_body]
fn public_key_from_slice(data: &[u8]) -> (r: Option<PublicKey>)
    ensures
        r == secp256k1_public_key_from_slice(data@),
        data@.len() == 0 ==> r is None,
{
    PublicKey::from_slice(data).ok()
}

/// The public key that 66 hex digits spell: `None` unless the text is 66
/// bytes of hex digits whose 33 bytes secp256k1 reads as a key.
pub open spec fn compressed_pubkey_from_hex(text: Seq<char>) -> Option<PublicKey> {
    let b = encode_utf8(text);
    if b.len() == 66 && hex_decode(b) is Some {
        secp256k1_public_key_from_slice(hex_decode(b)->Some_0)
    } else {
        None
    }
}

/// Reads a public key from 66 hex digits.
pub fn to_compressed_pubkey(hex: &str) -> (r: Option<PublicKey>)
    ensures
        r == compressed_pubkey_from_hex(hex@),
        encode_utf8(hex@).len() == 66 && hex_decode(encode_utf8(hex@)) is Some ==> r
            == secp256k1_public_key_from_slice(hex_decode(encode_utf8(hex@))->Some_0),
        encode_utf8(hex@).len() != 66 || hex_decode(encode_utf8(hex@)) is None ==> r is None,
{
    let bytes = hex.as_bytes();
    if bytes.len() != 66 {
        return None;
    }
    let data = match to_vec(hex) {
        Some(data) => data,
        None => return None,
    };
    public_key_from_slice(data.as_slice())
}

/// Lowercase hex text reads back as the bytes it was made from.
pub proof fn law_hex_roundtrip(bytes: Seq<u8>)
    ensures
        hex_decode(encode_utf8(hex_chars(bytes))) == Some(bytes),
{
    let chars = hex_chars(bytes);
    assert forall|i: int| 0 <= i < chars.len() implies '\0' <= #[trigger] chars[i] <= '\u{7f}' by {
        let b = bytes[i / 2];
        assert(b / 16 < 16 && b % 16 < 16);
    }
    vstd::utf8::is_ascii_chars_encode_utf8(chars);
    let text = encode_utf8(chars);
    assert forall|i: int| 0 <= i < text.len() implies (#[trigger] hex_nibble(text[i])) is Some by {
        let b = bytes[i / 2];
        assert(chars[i] as u8 == text[i]);
        if i % 2 == 0 {
            assert(b / 16 < 16);
        } else {
            assert(b % 16 < 16);
        }
    }
    let d = hex_decode(text)->Some_0;
    assert forall|i: int| 0 <= i < bytes.len() implies d[i] == bytes[i] by {
        let b = bytes[i];
        assert((2 * i) / 2 == i);
        assert((2 * i + 1) / 2 == i);
        assert((2 * i) % 2 == 0);
        assert((2 * i + 1) % 2 == 1);
        assert(chars[2 * i] as u8 == text[2 * i]);
        assert(chars[2 * i + 1] as u8 == text[2 * i + 1]);
        assert(b / 16 * 16 + b % 16 == b);
    }
    assert(d =~= bytes);
}

/// Hex text has two characters per byte, the high nibble's digit first,
/// and every character is a lowercase hex digit: `0`-`9` for the values 0
/// to 9, `a`-`f` for 10 to 15.
pub proof fn law_hex_chars_lowercase_digits(bytes: Seq<u8>)
    ensures
        hex_chars(bytes).len() == 2 * bytes.len(),
        forall|i: int, k: int|
            #![trigger hex_chars(bytes)[2 * i + k]]
            0 <= i < bytes.len() && 0 <= k <= 1 ==> {
                let c = hex_chars(bytes)[2 * i + k];
                let n = if k == 0 {
                    bytes[i] / 16
                } else {
                    bytes[i] % 16
                };
                ||| '0' <= c <= '9' && c as int - 48 == n
                ||| 'a' <= c <= 'f' && c as int - 87 == n
            },
{
    assert forall|i: int, k: int|
        #![trigger hex_chars(bytes)[2 * i + k]]
        0 <= i < bytes.len() && 0 <= k <= 1 implies {
            let c = hex_chars(bytes)[2 * i + k];
            let n = if k == 0 {
                bytes[i] / 16
            } else {
                bytes[i] % 16
            };
            ||| '0' <= c <= '9' && c as int - 48 == n
            ||| 'a' <= c <= 'f' && c as int - 87 == n
        } by {
        let j = 2 * i + k;
        assert(j / 2 == i);
        assert(j % 2 == k);
        let b = bytes[i];
        assert(b / 16 < 16 && b % 16 < 16);
    }
}

/// Hex digits read the same in either case: a digit `0`-`9` is its value,
/// `a`-`f` and `A`-`F` are 10 to 15, and any other byte is no digit.
pub proof fn law_hex_nibble_either_case(c: u8)
    ensures
        48 <= c <= 57 ==> hex_nibble(c) == Some((c - 48) as u8),
        97 <= c <= 102 ==> hex_nibble(c) == Some((c - 87) as u8) && hex_nibble((c - 32) as u8)
            == hex_nibble(c),
        !(48 <= c <= 57 || 65 <= c <= 70 || 97 <= c <= 102) ==> hex_nibble(c) is None,
{
}

/// Text of 66 bytes that are hex digits reads as the key secp256k1 reads
/// from the 33 bytes they spell, and as nothing else; other text reads as no
/// key.
pub proof fn law_compressed_pubkey_is_the_decoded_key(text: Seq<char>)
    ensures
        forall|d: Seq<u8>|
            encode_utf8(text).len() == 66 && #[trigger] hex_decode(encode_utf8(text)) == Some(d)
                ==> compressed_pubkey_from_hex(text) == secp256k1_public_key_from_slice(d) && d.len() == 33,
        encode_utf8(text).len() != 66 ==> compressed_pubkey_from_hex(text) is None,
        hex_decode(encode_utf8(text)) is None ==> compressed_pubkey_from_hex(text) is None,
{
}

/// Hex text is read pair by pair: text of an even length followed by more
/// text reads as the bytes of the first part followed by those of the
/// second, and fails where either part does.
pub proof fn law_hex_decode_concat(a: Seq<u8>, b: Seq<u8>)
    requires
        a.len() % 2 == 0,
    ensures
        hex_decode(a + b) is Some <==> hex_decode(a) is Some && hex_decode(b) is Some,
        hex_decode(a + b) is Some ==> hex_decode(a + b)->Some_0 == hex_decode(a)->Some_0 + hex_decode(b)->Some_0,
{
    let t = a + b;
    if forall|i: int| 0 <= i < t.len() ==> (#[trigger] hex_nibble(t[i])) is Some {
        assert forall|i: int| 0 <= i < a.len() implies (#[trigger] hex_nibble(a[i])) is Some by {
            assert(t[i] == a[i]);
        }
        assert forall|i: int| 0 <= i < b.len() implies (#[trigger] hex_nibble(b[i])) is Some by {
            assert(t[a.len() + i] == b[i]);
        }
        let d = hex_decode(t)->Some_0;
        let da = hex_decode(a)->Some_0;
        let db = hex_decode(b)->Some_0;
        assert(t.len() / 2 == a.len() / 2 + b.len() / 2);
        assert forall|i: int| 0 <= i < d.len() implies d[i] == (da + db)[i] by {
            if i < a.len() / 2 {
                assert(t[2 * i] == a[2 * i]);
                assert(t[2 * i + 1] == a[2 * i + 1]);
            } else {
                let j = i - a.len() / 2;
                assert(2 * i == a.len() + 2 * j);
                assert(t[2 * i] == b[2 * j]);
                assert(t[2 * i + 1] == b[2 * j + 1]);
            }
        }
        assert(d =~= da + db);
    } else {
        let k = choose|i: int| 0 <= i < t.len() && !(#[trigger] hex_nibble(t[i]) is Some);
        if k < a.len() {
            assert(t[k] == a[k]);
        } else {
            assert(t[k] == b[k - a.len()]);
        }
    }
}

/// Two hex digits read as one byte, the first digit's value times 16 plus
/// the second's; a single digit reads as no bytes.
pub proof fn law_hex_decode_pair(h: u8, l: u8)
    requires
        hex_nibble(h) is Some,
        hex_nibble(l) is Some,
    ensures
        hex_decode(seq![h, l]) == Some(seq![(hex_nibble(h)->Some_0 * 16 + hex_nibble(l)->Some_0) as u8]),
        hex_decode(seq![h]) == Some(Seq::<u8>::empty()),
{
    let t = seq![h, l];
    assert(forall|i: int| 0 <= i < t.len() ==> (#[trigger] hex_nibble(t[i])) is Some);
    assert(hex_decode(t)->Some_0 =~= seq![(hex_nibble(h)->Some_0 * 16 + hex_nibble(l)->Some_0) as u8]);
    let u = seq![h];
    assert(forall|i: int| 0 <= i < u.len() ==> (#[trigger] hex_nibble(u[i])) is Some);
    assert(hex_decode(u)->Some_0 =~= Seq::<u8>::empty());
}

} // verus!
