//! Byte-level encodings of the field types that make up a stored payment,
//! produced and consumed by lightning's `Writeable` / `Readable` impls.
use lightning::ln::msgs::DecodeError;
use lightning::ln::{PaymentHash, PaymentPreimage, PaymentSecret};
use lightning::util::ser::{Readable, Writeable};
use vstd::prelude::*;

verus! {

#[verifier::external_type_specification]
#[verifier::external_body]
pub struct ExDecodeError(DecodeError);

/// The eight big-endian bytes of `x`.
pub open spec fn u64_be_bytes(x: u64) -> Seq<u8> {
    seq![
        (x >> 56u64) as u8,
        (x >> 48u64) as u8,
        (x >> 40u64) as u8,
        (x >> 32u64) as u8,
        (x >> 24u64) as u8,
        (x >> 16u64) as u8,
        (x >> 8u64) as u8,
        x as u8,
    ]
}

/// The `u64` whose big-endian bytes are the first eight of `b`.
pub open spec fn u64_from_be_bytes(b: Seq<u8>) -> u64 {
    ((b[0] as u64) << 56u64) | ((b[1] as u64) << 48u64) | ((b[2] as u64) << 40u64) | ((
    b[3] as u64) << 32u64) | ((b[4] as u64) << 24u64) | ((b[5] as u64) << 16u64) | ((b[6] as u64)
        << 8u64) | (b[7] as u64)
}

/// An optional 32-byte value: a zero byte for `None`, else the length prefix
/// 33 (one more than the value's length) followed by the 32 bytes.
pub open spec fn option_array_bytes(v: Option<[u8; 32]>) -> Seq<u8> {
    match v {
        None => seq![0u8],
        Some(a) => seq![33u8] + a@,
    }
}

/// An optional `u64`: a zero byte for `None`, else the length prefix 9
/// followed by the eight big-endian bytes.
pub open spec fn option_u64_bytes(v: Option<u64>) -> Seq<u8> {
    match v {
        None => seq![0u8],
        Some(x) => seq![9u8] + u64_be_bytes(x),
    }
}

/// Reading a big-endian `u64` back gives the value that was written.
pub proof fn lemma_u64_be_roundtrip(x: u64)
    ensures
        u64_from_be_bytes(u64_be_bytes(x)) == x,
        u64_be_bytes(x).len() == 8,
{
    let b = u64_be_bytes(x);
    let b0 = b[0];
    let b1 = b[1];
    let b2 = b[2];
    let b3 = b[3];
    let b4 = b[4];
    let b5 = b[5];
    let b6 = b[6];
    let b7 = b[7];
    assert(((b0 as u64) << 56u64) | ((b1 as u64) << 48u64) | ((b2 as u64) << 40u64) | ((
    b3 as u64) << 32u64) | ((b4 as u64) << 24u64) | ((b5 as u64) << 16u64) | ((b6 as u64)
        << 8u64) | (b7 as u64) == x) by (bit_vector)
        requires
            b0 == (x >> 56u64) as u8,
            b1 == (x >> 48u64) as u8,
            b2 == (x >> 40u64) as u8,
            b3 == (x >> 32u64) as u8,
            b4 == (x >> 24u64) as u8,
            b5 == (x >> 16u64) as u8,
            b6 == (x >> 8u64) as u8,
            b7 == x as u8,
    ;
}

/// The variants of lightning's `DecodeError`, without their payloads.
#[derive(Clone, Copy, Debug, PartialEq, Eq, Structural)]
pub enum DecodeErrorKind {
    /// `DecodeError::UnknownVersion`
    UnknownVersion,
    /// `DecodeError::UnknownRequiredFeature`
    UnknownRequiredFeature,
    /// `DecodeError::InvalidValue`
    InvalidValue,
    /// `DecodeError::ShortRead`
    ShortRead,
    /// `DecodeError::BadLengthDescriptor`
    BadLengthDescriptor,
    /// `DecodeError::Io`
    Io,
    /// `DecodeError::UnsupportedCompression`
    UnsupportedCompression,
}

/// Which variant of `DecodeError` `e` is.
pub uninterp spec fn decode_error_kind(e: DecodeError) -> DecodeErrorKind;

/// The value of the big-endian bytes `b`.
pub open spec fn be_value(b: Seq<u8>) -> int
    decreases b.len(),
{
    if b.len() == 0 {
        0
    } else {
        be_value(b.drop_last()) * 256 + b.last()
    }
}

/// Reading lightning's BigSize from the front of `input`: a first byte
/// below 0xFD is the value itself; 0xFD, 0xFE and 0xFF are followed by the
/// value in 2, 4 or 8 big-endian bytes, which must not fit a shorter form.
/// The value and the number of bytes taken, `ShortRead` where bytes are
/// missing, `InvalidValue` for a value in too long a form.
pub open spec fn bigsize_read(input: Seq<u8>) -> Result<(int, int), DecodeErrorKind> {
    if input.len() == 0 {
        Err(DecodeErrorKind::ShortRead)
    } else if input[0] < 0xFD {
        Ok((input[0] as int, 1))
    } else {
        let (width, least): (int, int) = if input[0] == 0xFD {
            (2, 0xFD)
        } else if input[0] == 0xFE {
            (4, 0x1_0000)
        } else {
            (8, 0x1_0000_0000)
        };
        if input.len() < 1 + width {
            Err(DecodeErrorKind::ShortRead)
        } else if be_value(input.subrange(1, 1 + width)) < least {
            Err(DecodeErrorKind::InvalidValue)
        } else {
            Ok((be_value(input.subrange(1, 1 + width)), 1 + width))
        }
    }
}

/// Reading an optional value of `width` bytes from the front of `input` as
/// lightning's `Option<T>` reads one: a BigSize length, 0 for no value;
/// otherwise the value's bytes follow, and they must fit in the length less
/// one and be there (`ShortRead` if not). The value's bytes and the number
/// of bytes left, or the kind of error.
pub open spec fn option_field_read(input: Seq<u8>, width: int) -> Result<(Option<Seq<u8>>, int), DecodeErrorKind> {
    match bigsize_read(input) {
        Err(k) => Err(k),
        Ok((len, used)) => if len == 0 {
            Ok((None, input.len() - used))
        } else if len - 1 >= width && input.len() - used >= width {
            Ok((Some(input.subrange(used, used + width)), input.len() - used - width))
        } else {
            Err(DecodeErrorKind::ShortRead)
        },
    }
}

/// The bytes of an optional 32-byte value.
pub open spec fn array_option_view(v: Option<[u8; 32]>) -> Option<Seq<u8>> {
    match v {
        None => None,
        Some(a) => Some(a@),
    }
}

/// The big-endian bytes of an optional `u64`.
pub open spec fn u64_option_view(v: Option<u64>) -> Option<Seq<u8>> {
    match v {
        None => None,
        Some(x) => Some(u64_be_bytes(x)),
    }
}

/// Reading an optional `u64` from the front of `input` as lightning does:
/// the value and the number of bytes left, or the kind of error.
pub open spec fn option_u64_read(input: Seq<u8>) -> Result<(Option<u64>, int), DecodeErrorKind> {
    match option_field_read(input, 8) {
        Err(k) => Err(k),
        Ok((None, rest)) => Ok((None, rest)),
        Ok((Some(b), rest)) => Ok((Some(u64_from_be_bytes(b)), rest)),
    }
}

/// A BigSize below 0xFD is its single byte; 0xFD is followed by the value
/// in two big-endian bytes, refused when it would fit the single byte; a
/// length of zero reads as no value.
pub proof fn law_bigsize_short_forms(n: u8, hi: u8, lo: u8, rest: Seq<u8>, width: int)
    ensures
        n < 0xFD ==> bigsize_read(seq![n] + rest) == Ok::<(int, int), DecodeErrorKind>((n as int, 1)),
        bigsize_read(seq![0xFDu8, hi, lo] + rest) == (if hi * 256 + lo < 0xFD {
            Err::<(int, int), DecodeErrorKind>(DecodeErrorKind::InvalidValue)
        } else {
            Ok::<(int, int), DecodeErrorKind>((hi * 256 + lo, 3))
        }),
        option_field_read(seq![0u8] + rest, width) == Ok::<(Option<Seq<u8>>, int), DecodeErrorKind>((None, rest.len() as int)),
        bigsize_read(Seq::<u8>::empty()) == Err::<(int, int), DecodeErrorKind>(DecodeErrorKind::ShortRead),
{
    let t = seq![0xFDu8, hi, lo] + rest;
    let b = t.subrange(1, 3);
    assert(b =~= seq![hi, lo]);
    assert(b.drop_last() =~= seq![hi]);
    assert(seq![hi].drop_last() =~= Seq::<u8>::empty());
    assert(be_value(Seq::<u8>::empty()) == 0);
    assert(seq![hi].last() == hi);
    assert(be_value(seq![hi]) == hi);
    assert(be_value(b) == hi * 256 + lo);
    assert((seq![n] + rest)[0] == n);
    assert((seq![0u8] + rest)[0] == 0u8);
}

/// The stored form of an optional 32-byte value reads back as that value,
/// leaving what follows it.
pub proof fn law_option_array_reads_back(v: Option<[u8; 32]>, rest: Seq<u8>)
    ensures
        option_field_read(option_array_bytes(v) + rest, 32) == Ok::<(Option<Seq<u8>>, int), DecodeErrorKind>((array_option_view(v), rest.len() as int)),
{
    let s = option_array_bytes(v) + rest;
    if let Some(a) = v {
        assert(s[0] == 33u8);
        assert(s.subrange(1, 33) =~= a@);
    } else {
        assert(s[0] == 0u8);
    }
}

/// The stored form of an optional `u64` reads back as that value, leaving
/// what follows it.
pub proof fn law_option_u64_reads_back(v: Option<u64>, rest: Seq<u8>)
    ensures
        option_field_read(option_u64_bytes(v) + rest, 8) == Ok::<(Option<Seq<u8>>, int), DecodeErrorKind>((u64_option_view(v), rest.len() as int)),
        option_u64_read(option_u64_bytes(v) + rest) == Ok::<(Option<u64>, int), DecodeErrorKind>((v, rest.len() as int)),
{
    let s = option_u64_bytes(v) + rest;
    if let Some(x) = v {
        lemma_u64_be_roundtrip(x);
        assert(s[0] == 9u8);
        assert(s.subrange(1, 9) =~= u64_be_bytes(x));
    } else {
        assert(s[0] == 0u8);
    }
}

/// Optional 32-byte values with the same bytes are the same.
pub proof fn lemma_array_option_view_injective(a: Option<[u8; 32]>, b: Option<[u8; 32]>)
    requires
        array_option_view(a) == array_option_view(b),
    ensures
        a == b,
{
    if let (Some(x), Some(y)) = (a, b) {
        assert(x@ =~= y@);
        assert(x =~= y);
    }
}

/// Optional `u64`s with the same bytes are the same.
pub proof fn lemma_u64_option_view_injective(a: Option<u64>, b: Option<u64>)
    requires
        u64_option_view(a) == u64_option_view(b),
    ensures
        a == b,
{
    if let (Some(x), Some(y)) = (a, b) {
        lemma_u64_be_roundtrip(x);
        lemma_u64_be_roundtrip(y);
    }
}

/// Calls `<u8 as Writeable>::encode`, which writes the byte itself.
#[verifier::external_body]
pub(crate) fn write_u8(b: u8) -> (r: Vec<u8>)
    ensures
        r@ == seq![b],
{
    b.encode()
}

/// Calls `<PaymentHash as Writeable>::encode`, which writes the 32 hash bytes
/// as they are.
#[verifier::external_body]
pub(crate) fn write_payment_hash(hash: [u8; 32]) -> (r: Vec<u8>)
    ensures
        r@ == hash@,
{
    PaymentHash(hash).encode()
}

/// Calls `<Option<PaymentPreimage> as Writeable>::encode`: a zero byte for
/// `None`, else the BigSize length prefix 33 (a single byte) and the 32 bytes.
#[verifier::external_body]
pub(crate) fn write_option_preimage(v: Option<[u8; 32]>) -> (r: Vec<u8>)
    ensures
        r@ == option_array_bytes(v),
{
    v.map(PaymentPreimage).encode()
}

/// Calls `<Option<PaymentSecret> as Writeable>::encode`: a zero byte for
/// `None`, else the BigSize length prefix 33 (a single byte) and the 32 bytes.
#[verifier::external_body]
pub(crate) fn write_option_secret(v: Option<[u8; 32]>) -> (r: Vec<u8>)
    ensures
        r@ == option_array_bytes(v),
{
    v.map(PaymentSecret).encode()
}

/// Calls `<Option<u64> as Writeable>::encode`: a zero byte for `None`, else
/// the BigSize length prefix 9 (a single byte) and the big-endian value.
#[verifier::external_body]
pub(crate) fn write_option_u64(v: Option<u64>) -> (r: Vec<u8>)
    ensures
        r@ == option_u64_bytes(v),
{
    v.encode()
}

/// Calls `<u8 as Readable>::read` on `input`; on success it also hands back
/// how many bytes were left unread. The read takes the first byte and fails
/// exactly on empty input, with `ShortRead`.
#[verifier::external_body]
pub(crate) fn read_u8(input: &[u8]) -> (r: Result<(u8, usize), DecodeError>)
    ensures
        r is Ok <==> input@.len() >= 1,
        r matches Ok((b, rest)) ==> b == input@[0] && rest == input@.len() - 1,
        r is Err ==> decode_error_kind(r->Err_0) == DecodeErrorKind::ShortRead,
{
    let mut rd: &[u8] = input;
    let b: u8 = Readable::read(&mut rd)?;
    Ok((b, rd.len()))
}

/// Calls `<PaymentHash as Readable>::read` on `input`; on success it also
/// hands back how many bytes were left unread. The read takes the first 32
/// bytes and fails exactly when fewer are there, with `ShortRead`.
#[verifier::external_body]
pub(crate) fn read_payment_hash(input: &[u8]) -> (r: Result<([u8; 32], usize), DecodeError>)
    ensures
        r is Ok <==> input@.len() >= 32,
        r matches Ok((h, rest)) ==> h@ == input@.subrange(0, 32) && rest == input@.len() - 32,
        r is Err ==> decode_error_kind(r->Err_0) == DecodeErrorKind::ShortRead,
{
    let mut rd: &[u8] = input;
    let h: PaymentHash = Readable::read(&mut rd)?;
    Ok((h.0, rd.len()))
}

/// Calls `<Option<PaymentPreimage> as Readable>::read` on `input`; on success it
/// also hands back how many bytes were left unread. The outcome is
/// `option_field_read` of the input for a 32-byte value.
#[verifier::external_body]
pub(crate) fn read_option_preimage(input: &[u8]) -> (r: Result<(Option<[u8; 32]>, usize), DecodeError>)
    ensures
        r is Ok ==> option_field_read(input@, 32) == Ok::<(Option<Seq<u8>>, int), DecodeErrorKind>((array_option_view(r->Ok_0.0), r->Ok_0.1 as int)),
        r is Err ==> option_field_read(input@, 32) == Err::<(Option<Seq<u8>>, int), DecodeErrorKind>(decode_error_kind(r->Err_0)),
{
    let mut rd: &[u8] = input;
    let v: Option<PaymentPreimage> = Readable::read(&mut rd)?;
    Ok((v.map(|p| p.0), rd.len()))
}

/// Calls `<Option<PaymentSecret> as Readable>::read` on `input`; on success it
/// also hands back how many bytes were left unread. The outcome is
/// `option_field_read` of the input for a 32-byte value.
#[verifier::external_body]
pub(crate) fn read_option_secret(input: &[u8]) -> (r: Result<(Option<[u8; 32]>, usize), DecodeError>)
    ensures
        r is Ok ==> option_field_read(input@, 32) == Ok::<(Option<Seq<u8>>, int), DecodeErrorKind>((array_option_view(r->Ok_0.0), r->Ok_0.1 as int)),
        r is Err ==> option_field_read(input@, 32) == Err::<(Option<Seq<u8>>, int), DecodeErrorKind>(decode_error_kind(r->Err_0)),
{
    let mut rd: &[u8] = input;
    let v: Option<PaymentSecret> = Readable::read(&mut rd)?;
    Ok((v.map(|s| s.0), rd.len()))
}

/// Calls `<Option<u64> as Readable>::read` on `input`; on success it
/// also hands back how many bytes were left unread. The outcome is
/// `option_field_read` of the input for a 8-byte value.
#[verifier::external_body]
pub(crate) fn read_option_u64(input: &[u8]) -> (r: Result<(Option<u64>, usize), DecodeError>)
    ensures
        r is Ok ==> option_field_read(input@, 8) == Ok::<(Option<Seq<u8>>, int), DecodeErrorKind>((u64_option_view(r->Ok_0.0), r->Ok_0.1 as int)),
        r is Err ==> option_field_read(input@, 8) == Err::<(Option<Seq<u8>>, int), DecodeErrorKind>(decode_error_kind(r->Err_0)),
{
    let mut rd: &[u8] = input;
    let v: Option<u64> = Readable::read(&mut rd)?;
    Ok((v, rd.len()))
}

/// Calls lightning's `DecodeError::InvalidValue` constructor, the error a
/// read gives for a byte that names no known value.
#[verifier::external_body]
pub(crate) fn invalid_value_error() -> (r: DecodeError)
    ensures
        decode_error_kind(r) == DecodeErrorKind::InvalidValue,
{
    DecodeError::InvalidValue
}

} // verus!
