//! Payment records, their byte encoding, and the in-memory payment store.
use crate::ser::{
    array_option_view, decode_error_kind, invalid_value_error, law_option_array_reads_back,
    law_option_u64_reads_back, lemma_array_option_view_injective, lemma_u64_be_roundtrip,
    lemma_u64_option_view_injective, option_array_bytes, option_field_read, option_u64_bytes,
    option_u64_read, read_option_preimage, read_option_secret, read_option_u64,
    read_payment_hash, read_u8, u64_be_bytes, write_option_preimage, write_option_secret,
    write_option_u64, write_payment_hash, write_u8, DecodeErrorKind,
};
use lightning::ln::msgs::DecodeError;
use crate::hex_utils::{hex_chars, law_hex_roundtrip, to_string};
use vstd::prelude::*;
use vstd::slice::slice_subrange;
use vstd::string::StringExecFns;

verus! {

broadcast use vstd::array::group_array_axioms;

/// Represents the direction of a payment.
#[derive(Clone, Copy, Debug, PartialEq, Eq, Structural)]
pub enum PaymentDirection {
    /// The payment is inbound.
    Inbound,
    /// The payment is outbound.
    Outbound,
}

/// Represents the current status of a payment.
#[derive(Clone, Copy, Debug, PartialEq, Eq, Structural)]
pub enum PaymentStatus {
    /// The payment is still pending.
    Pending,
    /// The payment suceeded.
    Succeeded,
    /// The payment failed.
    Failed,
}

/// Represents a payment.
#[derive(Clone, Copy, Debug, PartialEq, Eq)]
pub struct PaymentInfo {
    /// The payment hash, i.e., the hash of the `preimage`.
    pub hash: [u8; 32],
    /// The pre-image used by the payment.
    pub preimage: Option<[u8; 32]>,
    /// The secret used by the payment.
    pub secret: Option<[u8; 32]>,
    /// The amount transferred.
    pub amount_msat: Option<u64>,
    /// The direction of the payment.
    pub direction: PaymentDirection,
    /// The status of the payment.
    pub status: PaymentStatus,
}

/// The byte a direction is stored as.
pub open spec fn direction_byte(d: PaymentDirection) -> u8 {
    match d {
        PaymentDirection::Inbound => 0u8,
        PaymentDirection::Outbound => 1u8,
    }
}

/// The direction a stored byte stands for, if any.
pub open spec fn direction_from_byte(b: u8) -> Option<PaymentDirection> {
    if b == 0 {
        Some(PaymentDirection::Inbound)
    } else if b == 1 {
        Some(PaymentDirection::Outbound)
    } else {
        None
    }
}

/// The byte a status is stored as.
pub open spec fn status_byte(s: PaymentStatus) -> u8 {
    match s {
        PaymentStatus::Pending => 0u8,
        PaymentStatus::Succeeded => 1u8,
        PaymentStatus::Failed => 2u8,
    }
}

/// The status a stored byte stands for, if any.
pub open spec fn status_from_byte(b: u8) -> Option<PaymentStatus> {
    if b == 0 {
        Some(PaymentStatus::Pending)
    } else if b == 1 {
        Some(PaymentStatus::Succeeded)
    } else if b == 2 {
        Some(PaymentStatus::Failed)
    } else {
        None
    }
}

/// The stored form of a payment's direction and status: one byte each.
pub open spec fn direction_and_status_bytes(p: PaymentInfo) -> Seq<u8> {
    seq![direction_byte(p.direction), status_byte(p.status)]
}

/// The stored form of a payment from its amount on.
pub open spec fn amount_onwards_bytes(p: PaymentInfo) -> Seq<u8> {
    option_u64_bytes(p.amount_msat) + direction_and_status_bytes(p)
}

/// The stored form of a payment from its secret on.
pub open spec fn secret_onwards_bytes(p: PaymentInfo) -> Seq<u8> {
    option_array_bytes(p.secret) + amount_onwards_bytes(p)
}

/// The stored form of a payment from its hash on.
pub open spec fn hash_onwards_bytes(p: PaymentInfo) -> Seq<u8> {
    p.hash@ + secret_onwards_bytes(p)
}

/// The stored form of a payment: preimage, hash, secret, amount, direction
/// and status, in that order.
pub open spec fn payment_info_bytes(p: PaymentInfo) -> Seq<u8> {
    option_array_bytes(p.preimage) + hash_onwards_bytes(p)
}

/// The last `rest` bytes of `s`.
pub open spec fn tail(s: Seq<u8>, rest: int) -> Seq<u8> {
    s.subrange(s.len() - rest, s.len() as int)
}

/// The fields of a payment as read from its stored form, the hash,
/// pre-image and secret as their bytes.
pub struct StoredFields {
    /// The payment hash.
    pub hash: Seq<u8>,
    /// The pre-image.
    pub preimage: Option<Seq<u8>>,
    /// The secret.
    pub secret: Option<Seq<u8>>,
    /// The amount.
    pub amount_msat: Option<u64>,
    /// The direction.
    pub direction: PaymentDirection,
    /// The status.
    pub status: PaymentStatus,
}

/// Fields not read yet.
pub open spec fn blank_fields() -> StoredFields {
    StoredFields {
        hash: Seq::empty(),
        preimage: None,
        secret: None,
        amount_msat: None,
        direction: PaymentDirection::Inbound,
        status: PaymentStatus::Pending,
    }
}

/// The fields of `p` from its amount on; the others blank.
pub open spec fn fields_from_amount(p: PaymentInfo) -> StoredFields {
    StoredFields {
        amount_msat: p.amount_msat,
        direction: p.direction,
        status: p.status,
        ..blank_fields()
    }
}

/// The fields of `p` from its secret on; the others blank.
pub open spec fn fields_from_secret(p: PaymentInfo) -> StoredFields {
    StoredFields { secret: array_option_view(p.secret), ..fields_from_amount(p) }
}

/// The fields of `p` from its hash on; the preimage blank.
pub open spec fn fields_from_hash(p: PaymentInfo) -> StoredFields {
    StoredFields { hash: p.hash@, ..fields_from_secret(p) }
}

/// All fields of `p`.
pub open spec fn stored_fields(p: PaymentInfo) -> StoredFields {
    StoredFields { preimage: array_option_view(p.preimage), ..fields_from_hash(p) }
}

/// Reading a direction byte and a status byte from the front of `input`:
/// the values and the number of bytes left, `ShortRead` where a byte is
/// missing, `InvalidValue` where a byte names no known value (the direction
/// is looked at first).
pub open spec fn direction_and_status_read(input: Seq<u8>) -> Result<(PaymentDirection, PaymentStatus, int), DecodeErrorKind> {
    if input.len() == 0 {
        Err(DecodeErrorKind::ShortRead)
    } else if direction_from_byte(input[0]) is None {
        Err(DecodeErrorKind::InvalidValue)
    } else if input.len() == 1 {
        Err(DecodeErrorKind::ShortRead)
    } else if status_from_byte(input[1]) is None {
        Err(DecodeErrorKind::InvalidValue)
    } else {
        Ok((direction_from_byte(input[0])->Some_0, status_from_byte(input[1])->Some_0, input.len() - 2))
    }
}

/// Reading the amount (as lightning reads an optional `u64`), then the
/// direction and status, from the front of `input`.
pub open spec fn amount_onwards_read(input: Seq<u8>) -> Result<(StoredFields, int), DecodeErrorKind> {
    match option_u64_read(input) {
        Err(k) => Err(k),
        Ok((amount, rest)) => match direction_and_status_read(tail(input, rest)) {
            Err(k) => Err(k),
            Ok((direction, status, left)) => Ok(
                (StoredFields { amount_msat: amount, direction, status, ..blank_fields() }, left),
            ),
        },
    }
}

/// Reading the secret (as lightning reads an optional `PaymentSecret`), then
/// the amount, direction and status, from the front of `input`.
pub open spec fn secret_onwards_read(input: Seq<u8>) -> Result<(StoredFields, int), DecodeErrorKind> {
    match option_field_read(input, 32) {
        Err(k) => Err(k),
        Ok((secret, rest)) => match amount_onwards_read(tail(input, rest)) {
            Err(k) => Err(k),
            Ok((f, left)) => Ok((StoredFields { secret, ..f }, left)),
        },
    }
}

/// Reading the 32 hash bytes (`ShortRead` where fewer are there), then the
/// secret, amount, direction and status, from the front of `input`.
pub open spec fn hash_onwards_read(input: Seq<u8>) -> Result<(StoredFields, int), DecodeErrorKind> {
    if input.len() < 32 {
        Err(DecodeErrorKind::ShortRead)
    } else {
        match secret_onwards_read(input.subrange(32, input.len() as int)) {
            Err(k) => Err(k),
            Ok((f, left)) => Ok((StoredFields { hash: input.subrange(0, 32), ..f }, left)),
        }
    }
}

/// Reading a stored payment from the front of `input`: the preimage (as
/// lightning reads an optional `PaymentPreimage`), the hash, the secret, the
/// amount, the direction and the status, each from what the previous read
/// left; the fields and the number of bytes left, or the kind of the first
/// error met.
pub open spec fn payment_info_read(input: Seq<u8>) -> Result<(StoredFields, int), DecodeErrorKind> {
    match option_field_read(input, 32) {
        Err(k) => Err(k),
        Ok((preimage, rest)) => match hash_onwards_read(tail(input, rest)) {
            Err(k) => Err(k),
            Ok((f, left)) => Ok((StoredFields { preimage, ..f }, left)),
        },
    }
}

/// Payments with the same fields are the same payment.
pub proof fn law_stored_fields_determine_payment(p: PaymentInfo, q: PaymentInfo)
    requires
        stored_fields(p) == stored_fields(q),
    ensures
        p == q,
{
    assert(p.hash =~= q.hash);
    lemma_array_option_view_injective(p.preimage, q.preimage);
    lemma_array_option_view_injective(p.secret, q.secret);
}

/// Bytes that start with `a + b` are `a` followed by bytes that start with
/// `b`.
proof fn lemma_prefix_split(a: Seq<u8>, b: Seq<u8>, s: Seq<u8>)
    requires
        (a + b).is_prefix_of(s),
    ensures
        s == a + s.subrange(a.len() as int, s.len() as int),
        b.is_prefix_of(s.subrange(a.len() as int, s.len() as int)),
{
    let ab = a + b;
    assert forall|i: int| 0 <= i < ab.len() implies s[i] == ab[i] by {
        assert(s.subrange(0, ab.len() as int)[i] == ab[i]);
    }
    let t = s.subrange(a.len() as int, s.len() as int);
    assert(s =~= a + t);
    assert(t.subrange(0, b.len() as int) =~= b);
}

/// The last bytes of `a + rest`, as many as `rest` has, are `rest`.
proof fn lemma_tail_of_concat(a: Seq<u8>, rest: Seq<u8>)
    ensures
        tail(a + rest, rest.len() as int) == rest,
{
    assert(tail(a + rest, rest.len() as int) =~= rest);
}

/// The stored form of a payment, byte by byte: the preimage (a zero byte
/// when there is none, else 33 and its 32 bytes), the 32 hash bytes, the
/// secret (the same way), the amount (a zero byte when there is none, else
/// 9 and its eight big-endian bytes), then one direction byte (0 inbound,
/// 1 outbound) and one status byte (0 pending, 1 succeeded, 2 failed).
pub proof fn law_stored_form_layout(p: PaymentInfo)
    ensures
        payment_info_bytes(p) == (match p.preimage {
            None => seq![0u8],
            Some(a) => seq![33u8] + a@,
        }) + p.hash@ + (match p.secret {
            None => seq![0u8],
            Some(a) => seq![33u8] + a@,
        }) + (match p.amount_msat {
            None => seq![0u8],
            Some(x) => seq![9u8, (x >> 56u64) as u8, (x >> 48u64) as u8, (x >> 40u64) as u8,
                (x >> 32u64) as u8, (x >> 24u64) as u8, (x >> 16u64) as u8, (x >> 8u64) as u8, x as u8],
        }) + seq![
            match p.direction {
                PaymentDirection::Inbound => 0u8,
                PaymentDirection::Outbound => 1u8,
            },
            match p.status {
                PaymentStatus::Pending => 0u8,
                PaymentStatus::Succeeded => 1u8,
                PaymentStatus::Failed => 2u8,
            },
        ],
{
    if let Some(x) = p.amount_msat {
        assert(seq![9u8] + u64_be_bytes(x) =~= seq![9u8, (x >> 56u64) as u8, (x >> 48u64) as u8, (x >> 40u64) as u8,
            (x >> 32u64) as u8, (x >> 24u64) as u8, (x >> 16u64) as u8, (x >> 8u64) as u8, x as u8]);
    }
    assert(payment_info_bytes(p) =~= (match p.preimage {
        None => seq![0u8],
        Some(a) => seq![33u8] + a@,
    }) + p.hash@ + (match p.secret {
        None => seq![0u8],
        Some(a) => seq![33u8] + a@,
    }) + option_u64_bytes(p.amount_msat) + seq![
        match p.direction {
            PaymentDirection::Inbound => 0u8,
            PaymentDirection::Outbound => 1u8,
        },
        match p.status {
            PaymentStatus::Pending => 0u8,
            PaymentStatus::Succeeded => 1u8,
            PaymentStatus::Failed => 2u8,
        },
    ]);
}

/// Two bytes, a direction (0 inbound, 1 outbound) and a status (0 pending,
/// 1 succeeded, 2 failed), read as that direction and status, leaving what
/// follows; any other direction or status byte is refused as an invalid
/// value, and a missing byte as a short read.
pub proof fn law_direction_and_status_bytes_read(input: Seq<u8>)
    ensures
        input.len() >= 2 && input[0] <= 1 && input[1] <= 2 ==> direction_and_status_read(input)
            == Ok::<(PaymentDirection, PaymentStatus, int), DecodeErrorKind>((
            if input[0] == 0 {
                PaymentDirection::Inbound
            } else {
                PaymentDirection::Outbound
            },
            if input[1] == 0 {
                PaymentStatus::Pending
            } else if input[1] == 1 {
                PaymentStatus::Succeeded
            } else {
                PaymentStatus::Failed
            },
            input.len() - 2,
        )),
        input.len() >= 1 && input[0] > 1 ==> direction_and_status_read(input)
            == Err::<(PaymentDirection, PaymentStatus, int), DecodeErrorKind>(DecodeErrorKind::InvalidValue),
        input.len() >= 2 && input[0] <= 1 && input[1] > 2 ==> direction_and_status_read(input)
            == Err::<(PaymentDirection, PaymentStatus, int), DecodeErrorKind>(DecodeErrorKind::InvalidValue),
        input.len() == 0 || (input.len() == 1 && input[0] <= 1) ==> direction_and_status_read(input)
            == Err::<(PaymentDirection, PaymentStatus, int), DecodeErrorKind>(DecodeErrorKind::ShortRead),
{
}

/// A status is stored as 0 (pending), 1 (succeeded) or 2 (failed), and a
/// direction as 0 (inbound) or 1 (outbound); exactly those bytes are read
/// back, as those values.
pub proof fn law_status_and_direction_codes(b: u8)
    ensures
        status_byte(PaymentStatus::Pending) == 0,
        status_byte(PaymentStatus::Succeeded) == 1,
        status_byte(PaymentStatus::Failed) == 2,
        direction_byte(PaymentDirection::Inbound) == 0,
        direction_byte(PaymentDirection::Outbound) == 1,
        status_from_byte(b) is Some <==> b <= 2,
        direction_from_byte(b) is Some <==> b <= 1,
        b <= 2 ==> status_byte(status_from_byte(b)->Some_0) == b,
        b <= 1 ==> direction_byte(direction_from_byte(b)->Some_0) == b,
{
}

proof fn lemma_amount_onwards_reads_back(p: PaymentInfo, rest: Seq<u8>)
    ensures
        amount_onwards_read(amount_onwards_bytes(p) + rest) == Ok::<(StoredFields, int), DecodeErrorKind>((fields_from_amount(p), rest.len() as int)),
{
    let ds = direction_and_status_bytes(p) + rest;
    assert(direction_and_status_read(ds) == Ok::<(PaymentDirection, PaymentStatus, int), DecodeErrorKind>((p.direction, p.status, rest.len() as int)));
    assert(amount_onwards_bytes(p) + rest =~= option_u64_bytes(p.amount_msat) + ds);
    law_option_u64_reads_back(p.amount_msat, ds);
    lemma_tail_of_concat(option_u64_bytes(p.amount_msat), ds);
}

proof fn lemma_secret_onwards_reads_back(p: PaymentInfo, rest: Seq<u8>)
    ensures
        secret_onwards_read(secret_onwards_bytes(p) + rest) == Ok::<(StoredFields, int), DecodeErrorKind>((fields_from_secret(p), rest.len() as int)),
{
    let z = amount_onwards_bytes(p) + rest;
    lemma_amount_onwards_reads_back(p, rest);
    assert(secret_onwards_bytes(p) + rest =~= option_array_bytes(p.secret) + z);
    law_option_array_reads_back(p.secret, z);
    lemma_tail_of_concat(option_array_bytes(p.secret), z);
}

proof fn lemma_hash_onwards_reads_back(p: PaymentInfo, rest: Seq<u8>)
    ensures
        hash_onwards_read(hash_onwards_bytes(p) + rest) == Ok::<(StoredFields, int), DecodeErrorKind>((fields_from_hash(p), rest.len() as int)),
{
    let y = secret_onwards_bytes(p) + rest;
    lemma_secret_onwards_reads_back(p, rest);
    let x = hash_onwards_bytes(p) + rest;
    assert(x.subrange(0, 32) =~= p.hash@);
    assert(x.subrange(32, x.len() as int) =~= y);
}

/// The stored form of a payment, followed by anything, reads back as that
/// payment's fields, leaving exactly what follows.
pub proof fn law_stored_form_reads_back(p: PaymentInfo, rest: Seq<u8>)
    ensures
        payment_info_read(payment_info_bytes(p) + rest) == Ok::<(StoredFields, int), DecodeErrorKind>((stored_fields(p), rest.len() as int)),
{
    let x = hash_onwards_bytes(p) + rest;
    lemma_hash_onwards_reads_back(p, rest);
    assert(payment_info_bytes(p) + rest =~= option_array_bytes(p.preimage) + x);
    law_option_array_reads_back(p.preimage, x);
    lemma_tail_of_concat(option_array_bytes(p.preimage), x);
}

/// A direction's byte reads back as that direction.
pub proof fn law_direction_byte_roundtrip(d: PaymentDirection)
    ensures
        direction_from_byte(direction_byte(d)) == Some(d),
{
}

/// A status's byte reads back as that status.
pub proof fn law_status_byte_roundtrip(s: PaymentStatus)
    ensures
        status_from_byte(status_byte(s)) == Some(s),
{
}

impl PaymentDirection {
    /// The stored form of the direction: 0 for inbound, 1 for outbound.
    pub fn write(&self) -> (r: Vec<u8>)
        ensures
            r@ == seq![direction_byte(*self)],
    {
        match self {
            PaymentDirection::Inbound => write_u8(0),
            PaymentDirection::Outbound => write_u8(1),
        }
    }

    /// Reads a direction from the front of `input`, handing back the value
    /// and how many bytes are left; a byte other than 0 or 1 is refused.
    pub fn read(input: &[u8]) -> (r: Result<(PaymentDirection, usize), DecodeError>)
        ensures
            r is Ok <==> input@.len() >= 1 && direction_from_byte(input@[0]) is Some,
            r matches Ok((d, rest)) ==> Some(d) == direction_from_byte(input@[0]) && rest
                == input@.len() - 1,
            r matches Err(e) ==> decode_error_kind(e) == if input@.len() == 0 {
                DecodeErrorKind::ShortRead
            } else {
                DecodeErrorKind::InvalidValue
            },
    {
        let (b, rest) = read_u8(input)?;
        if b == 0 {
            Ok((PaymentDirection::Inbound, rest))
        } else if b == 1 {
            Ok((PaymentDirection::Outbound, rest))
        } else {
            Err(invalid_value_error())
        }
    }
}

impl PaymentStatus {
    /// The stored form of the status: 0 for pending, 1 for succeeded, 2 for
    /// failed.
    pub fn write(&self) -> (r: Vec<u8>)
        ensures
            r@ == seq![status_byte(*self)],
    {
        match self {
            PaymentStatus::Pending => write_u8(0),
            PaymentStatus::Succeeded => write_u8(1),
            PaymentStatus::Failed => write_u8(2),
        }
    }

    /// Reads a status from the front of `input`, handing back the value and
    /// how many bytes are left; a byte other than 0, 1 or 2 is refused.
    pub fn read(input: &[u8]) -> (r: Result<(PaymentStatus, usize), DecodeError>)
        ensures
            r is Ok <==> input@.len() >= 1 && status_from_byte(input@[0]) is Some,
            r matches Ok((s, rest)) ==> Some(s) == status_from_byte(input@[0]) && rest
                == input@.len() - 1,
            r matches Err(e) ==> decode_error_kind(e) == if input@.len() == 0 {
                DecodeErrorKind::ShortRead
            } else {
                DecodeErrorKind::InvalidValue
            },
    {
        let (b, rest) = read_u8(input)?;
        if b == 0 {
            Ok((PaymentStatus::Pending, rest))
        } else if b == 1 {
            Ok((PaymentStatus::Succeeded, rest))
        } else if b == 2 {
            Ok((PaymentStatus::Failed, rest))
        } else {
            Err(invalid_value_error())
        }
    }
}

impl PaymentInfo {
    /// The stored form of the payment.
    pub fn write(&self) -> (r: Vec<u8>)
        ensures
            r@ == payment_info_bytes(*self),
    {
        let mut out = write_option_preimage(self.preimage);
        let mut hash = write_payment_hash(self.hash);
        out.append(&mut hash);
        let mut secret = write_option_secret(self.secret);
        out.append(&mut secret);
        let mut amount = write_option_u64(self.amount_msat);
        out.append(&mut amount);
        let mut direction = self.direction.write();
        out.append(&mut direction);
        let mut status = self.status.write();
        out.append(&mut status);
        assert(out@ =~= payment_info_bytes(*self));
        out
    }

    /// Reads a stored payment from the front of `input`, handing back the
    /// payment and how many bytes are left after it. What is written by
    /// `write` is read back unchanged, leaving exactly the bytes after it.
    pub fn read(input: &[u8]) -> (r: Result<(PaymentInfo, usize), DecodeError>)
        ensures
            r matches Ok((p, rest)) ==> payment_info_read(input@) == Ok::<(StoredFields, int), DecodeErrorKind>((stored_fields(p), rest as int)),
            r matches Err(e) ==> payment_info_read(input@) == Err::<(StoredFields, int), DecodeErrorKind>(decode_error_kind(e)),
            forall|p: PaymentInfo|
                #[trigger] payment_info_bytes(p).is_prefix_of(input@) ==> r == Ok::<
                    (PaymentInfo, usize),
                    DecodeError,
                >((p, (input@.len() - payment_info_bytes(p).len()) as usize)),
    {
        let (preimage, rest) = match read_option_preimage(input) {
            Ok(v) => v,
            Err(e) => {
                proof {
                    assert forall|p: PaymentInfo| !#[trigger] payment_info_bytes(p).is_prefix_of(
                        input@,
                    ) by {
                        if payment_info_bytes(p).is_prefix_of(input@) {
                            lemma_prefix_split(option_array_bytes(p.preimage), hash_onwards_bytes(p), input@);
                            let t = input@.subrange(option_array_bytes(p.preimage).len() as int, input@.len() as int);
                            law_option_array_reads_back(p.preimage, t);
                        }
                    }
                }
                return Err(e);
            },
        };
        let after = slice_subrange(input, input.len() - rest, input.len());
        let r = Self::read_hash_onwards(after, preimage);
        proof {
            assert forall|p: PaymentInfo| #[trigger] payment_info_bytes(p).is_prefix_of(input@)
                implies r == Ok::<(PaymentInfo, usize), DecodeError>((p, (input@.len() - payment_info_bytes(p).len()) as usize)) by {
                lemma_prefix_split(option_array_bytes(p.preimage), hash_onwards_bytes(p), input@);
                let t = input@.subrange(option_array_bytes(p.preimage).len() as int, input@.len() as int);
                law_option_array_reads_back(p.preimage, t);
                lemma_array_option_view_injective(preimage, p.preimage);
                lemma_tail_of_concat(option_array_bytes(p.preimage), t);
                assert(after@ == t);
            }
        }
        r
    }

    /// Reads the hash, secret, amount, direction and status from the front
    /// of `input`, into a payment with the given preimage.
    fn read_hash_onwards(input: &[u8], preimage: Option<[u8; 32]>) -> (r: Result<(PaymentInfo, usize), DecodeError>)
        ensures
            r matches Ok((q, rest)) ==> q.preimage == preimage && hash_onwards_read(input@)
                == Ok::<(StoredFields, int), DecodeErrorKind>((fields_from_hash(q), rest as int)),
            r matches Err(e) ==> hash_onwards_read(input@) == Err::<(StoredFields, int), DecodeErrorKind>(decode_error_kind(e)),
            forall|p: PaymentInfo|
                p.preimage == preimage && #[trigger] hash_onwards_bytes(p).is_prefix_of(input@)
                ==> r == Ok::<(PaymentInfo, usize), DecodeError>((p, (input@.len() - hash_onwards_bytes(p).len()) as usize)),
    {
        let (hash, rest) = match read_payment_hash(input) {
            Ok(v) => v,
            Err(e) => {
                proof {
                    assert forall|p: PaymentInfo| p.preimage == preimage implies !#[trigger] hash_onwards_bytes(p).is_prefix_of(
                        input@,
                    ) by {
                        if hash_onwards_bytes(p).is_prefix_of(input@) {
                            lemma_prefix_split(p.hash@, secret_onwards_bytes(p), input@);
                        }
                    }
                }
                return Err(e);
            },
        };
        let after = slice_subrange(input, input.len() - rest, input.len());
        let r = Self::read_secret_onwards(after, preimage, hash);
        proof {
            assert(after@ == input@.subrange(32, input@.len() as int));
            assert forall|p: PaymentInfo| p.preimage == preimage && #[trigger] hash_onwards_bytes(p).is_prefix_of(input@)
                implies r == Ok::<(PaymentInfo, usize), DecodeError>((p, (input@.len() - hash_onwards_bytes(p).len()) as usize)) by {
                lemma_prefix_split(p.hash@, secret_onwards_bytes(p), input@);
                assert(input@.subrange(0, 32) =~= p.hash@);
                assert(hash =~= p.hash);
            }
        }
        r
    }

    /// Reads the secret, amount, direction and status from the front of
    /// `input`, into a payment with the given preimage and hash.
    fn read_secret_onwards(input: &[u8], preimage: Option<[u8; 32]>, hash: [u8; 32]) -> (r: Result<(PaymentInfo, usize), DecodeError>)
        ensures
            r matches Ok((q, rest)) ==> q.preimage == preimage && q.hash == hash && secret_onwards_read(input@)
                == Ok::<(StoredFields, int), DecodeErrorKind>((fields_from_secret(q), rest as int)),
            r matches Err(e) ==> secret_onwards_read(input@) == Err::<(StoredFields, int), DecodeErrorKind>(decode_error_kind(e)),
            forall|p: PaymentInfo|
                p.preimage == preimage && p.hash == hash && #[trigger] secret_onwards_bytes(p).is_prefix_of(input@)
                ==> r == Ok::<(PaymentInfo, usize), DecodeError>((p, (input@.len() - secret_onwards_bytes(p).len()) as usize)),
    {
        let (secret, rest) = match read_option_secret(input) {
            Ok(v) => v,
            Err(e) => {
                proof {
                    assert forall|p: PaymentInfo| p.preimage == preimage && p.hash == hash implies !#[trigger] secret_onwards_bytes(p).is_prefix_of(
                        input@,
                    ) by {
                        if secret_onwards_bytes(p).is_prefix_of(input@) {
                            lemma_prefix_split(option_array_bytes(p.secret), amount_onwards_bytes(p), input@);
                            let t = input@.subrange(option_array_bytes(p.secret).len() as int, input@.len() as int);
                            law_option_array_reads_back(p.secret, t);
                        }
                    }
                }
                return Err(e);
            },
        };
        let after = slice_subrange(input, input.len() - rest, input.len());
        let r = Self::read_amount_onwards(after, preimage, hash, secret);
        proof {
            assert forall|p: PaymentInfo| p.preimage == preimage && p.hash == hash && #[trigger] secret_onwards_bytes(p).is_prefix_of(input@)
                implies r == Ok::<(PaymentInfo, usize), DecodeError>((p, (input@.len() - secret_onwards_bytes(p).len()) as usize)) by {
                lemma_prefix_split(option_array_bytes(p.secret), amount_onwards_bytes(p), input@);
                let t = input@.subrange(option_array_bytes(p.secret).len() as int, input@.len() as int);
                law_option_array_reads_back(p.secret, t);
                lemma_array_option_view_injective(secret, p.secret);
                lemma_tail_of_concat(option_array_bytes(p.secret), t);
                assert(after@ == t);
            }
        }
        r
    }

    /// Reads the amount, direction and status from the front of `input`,
    /// into a payment with the given preimage, hash and secret.
    fn read_amount_onwards(input: &[u8], preimage: Option<[u8; 32]>, hash: [u8; 32], secret: Option<[u8; 32]>) -> (r: Result<(PaymentInfo, usize), DecodeError>)
        ensures
            r matches Ok((q, rest)) ==> q.preimage == preimage && q.hash == hash && q.secret == secret
                && amount_onwards_read(input@) == Ok::<(StoredFields, int), DecodeErrorKind>((fields_from_amount(q), rest as int)),
            r matches Err(e) ==> amount_onwards_read(input@) == Err::<(StoredFields, int), DecodeErrorKind>(decode_error_kind(e)),
            forall|p: PaymentInfo|
                p.preimage == preimage && p.hash == hash && p.secret == secret
                    && #[trigger] amount_onwards_bytes(p).is_prefix_of(input@)
                ==> r == Ok::<(PaymentInfo, usize), DecodeError>((p, (input@.len() - amount_onwards_bytes(p).len()) as usize)),
    {
        let (amount_msat, rest) = match read_option_u64(input) {
            Ok(v) => v,
            Err(e) => {
                proof {
                    assert forall|p: PaymentInfo| p.preimage == preimage && p.hash == hash && p.secret == secret implies !#[trigger] amount_onwards_bytes(p).is_prefix_of(
                        input@,
                    ) by {
                        if amount_onwards_bytes(p).is_prefix_of(input@) {
                            lemma_prefix_split(option_u64_bytes(p.amount_msat), direction_and_status_bytes(p), input@);
                            let t = input@.subrange(option_u64_bytes(p.amount_msat).len() as int, input@.len() as int);
                            law_option_u64_reads_back(p.amount_msat, t);
                        }
                    }
                }
                return Err(e);
            },
        };
        let after = slice_subrange(input, input.len() - rest, input.len());
        let r = Self::read_direction_and_status(after, preimage, hash, secret, amount_msat);
        proof {
            if let Some(x) = amount_msat {
                lemma_u64_be_roundtrip(x);
            }
            assert forall|p: PaymentInfo| p.preimage == preimage && p.hash == hash && p.secret == secret
                && #[trigger] amount_onwards_bytes(p).is_prefix_of(input@)
                implies r == Ok::<(PaymentInfo, usize), DecodeError>((p, (input@.len() - amount_onwards_bytes(p).len()) as usize)) by {
                lemma_prefix_split(option_u64_bytes(p.amount_msat), direction_and_status_bytes(p), input@);
                let t = input@.subrange(option_u64_bytes(p.amount_msat).len() as int, input@.len() as int);
                law_option_u64_reads_back(p.amount_msat, t);
                lemma_u64_option_view_injective(amount_msat, p.amount_msat);
                lemma_tail_of_concat(option_u64_bytes(p.amount_msat), t);
                assert(after@ == t);
            }
        }
        r
    }

    /// Reads the direction and status from the front of `input`, into a
    /// payment with the given preimage, hash, secret and amount.
    fn read_direction_and_status(
        input: &[u8],
        preimage: Option<[u8; 32]>,
        hash: [u8; 32],
        secret: Option<[u8; 32]>,
        amount_msat: Option<u64>,
    ) -> (r: Result<(PaymentInfo, usize), DecodeError>)
        ensures
            r matches Ok((q, rest)) ==> q.preimage == preimage && q.hash == hash && q.secret == secret
                && q.amount_msat == amount_msat && direction_and_status_read(input@)
                == Ok::<(PaymentDirection, PaymentStatus, int), DecodeErrorKind>((q.direction, q.status, rest as int)),
            r matches Err(e) ==> direction_and_status_read(input@) == Err::<(PaymentDirection, PaymentStatus, int), DecodeErrorKind>(decode_error_kind(e)),
            forall|p: PaymentInfo|
                p.preimage == preimage && p.hash == hash && p.secret == secret && p.amount_msat == amount_msat
                    && #[trigger] direction_and_status_bytes(p).is_prefix_of(input@)
                ==> r == Ok::<(PaymentInfo, usize), DecodeError>((p, (input@.len() - 2) as usize)),
    {
        let (direction, rest) = PaymentDirection::read(input)?;
        let after = slice_subrange(input, input.len() - rest, input.len());
        let (status, left) = PaymentStatus::read(after)?;
        proof {
            assert(after@[0] == input@[1]);
        }
        Ok((PaymentInfo { hash, preimage, secret, amount_msat, direction, status }, left))
    }
}

/// The payment information will be persisted under this prefix.
pub const PAYMENT_INFO_PERSISTENCE_PREFIX: &'static str = "payments";

/// The key a payment with the given hash is persisted under: the prefix, a
/// slash, and the lowercase hex of the hash.
pub open spec fn payment_key(hash: Seq<u8>) -> Seq<char> {
    PAYMENT_INFO_PERSISTENCE_PREFIX@ + seq!['/'] + hex_chars(hash)
}

/// The payments of a list keyed by hash; where hashes repeat, the later
/// payment wins.
pub open spec fn payments_map(s: Seq<PaymentInfo>) -> Map<Seq<u8>, PaymentInfo>
    decreases s.len(),
{
    if s.len() == 0 {
        Map::empty()
    } else {
        payments_map(s.drop_last()).insert(s.last().hash@, s.last())
    }
}

/// No two payments of the list have the same hash.
pub open spec fn distinct_hashes(s: Seq<PaymentInfo>) -> bool {
    forall|i: int, j: int| 0 <= i < s.len() && 0 <= j < s.len() && i != j ==> s[i].hash@ != s[j].hash@
}

/// A payment to be written through the persister under `key`.
pub struct PersistRequest {
    /// The key to persist under.
    pub key: String,
    /// The payment to persist.
    pub payment: PaymentInfo,
}

/// The payments known to the node, keyed by payment hash. Writing them
/// through to the persister is left to the caller, who is handed each key
/// and payment to write.
pub struct PaymentInfoStorage {
    payments: Vec<PaymentInfo>,
}

proof fn lemma_payments_map_keys(s: Seq<PaymentInfo>, k: Seq<u8>)
    ensures
        payments_map(s).contains_key(k) <==> exists|i: int| 0 <= i < s.len() && #[trigger] s[i].hash@ == k,
    decreases s.len(),
{
    if s.len() > 0 {
        lemma_payments_map_keys(s.drop_last(), k);
        if payments_map(s).contains_key(k) && k != s.last().hash@ {
            let i = choose|i: int| 0 <= i < s.drop_last().len() && #[trigger] s.drop_last()[i].hash@ == k;
            assert(s[i].hash@ == k);
        }
        if exists|i: int| 0 <= i < s.len() && #[trigger] s[i].hash@ == k {
            let i = choose|i: int| 0 <= i < s.len() && #[trigger] s[i].hash@ == k;
            if i < s.len() - 1 {
                assert(s.drop_last()[i].hash@ == k);
            }
        }
    }
}

/// A store built from a list of payments holds exactly the hashes of the
/// list, and each hash is held with the last payment of the list that has
/// it.
pub proof fn law_last_payment_per_hash_is_kept(s: Seq<PaymentInfo>, i: int, k: Seq<u8>)
    requires
        0 <= i < s.len(),
        forall|j: int| i < j < s.len() ==> #[trigger] s[j].hash@ != s[i].hash@,
    ensures
        payments_map(s).contains_key(k) <==> exists|j: int| 0 <= j < s.len() && #[trigger] s[j].hash@ == k,
        payments_map(s).contains_key(s[i].hash@),
        payments_map(s)[s[i].hash@] == s[i],
    decreases s.len(),
{
    lemma_payments_map_keys(s, k);
    if i < s.len() - 1 {
        assert forall|j: int| i < j < s.drop_last().len() implies #[trigger] s.drop_last()[j].hash@ != s.drop_last()[i].hash@ by {
            assert(s[j].hash@ != s[i].hash@);
        }
        law_last_payment_per_hash_is_kept(s.drop_last(), i, k);
        assert(s.last().hash@ != s[i].hash@);
    }
}

proof fn lemma_payments_map_hashes(s: Seq<PaymentInfo>, k: Seq<u8>)
    ensures
        payments_map(s).contains_key(k) ==> payments_map(s)[k].hash@ == k,
    decreases s.len(),
{
    if s.len() > 0 {
        lemma_payments_map_hashes(s.drop_last(), k);
    }
}

proof fn lemma_payments_map_value(s: Seq<PaymentInfo>, i: int)
    requires
        distinct_hashes(s),
        0 <= i < s.len(),
    ensures
        payments_map(s).contains_key(s[i].hash@),
        payments_map(s)[s[i].hash@] == s[i],
    decreases s.len(),
{
    if i < s.len() - 1 {
        lemma_payments_map_value(s.drop_last(), i);
    }
}

proof fn lemma_payments_map_update(s: Seq<PaymentInfo>, i: int, p: PaymentInfo)
    requires
        distinct_hashes(s),
        0 <= i < s.len(),
        s[i].hash@ == p.hash@,
    ensures
        payments_map(s.update(i, p)) == payments_map(s).insert(p.hash@, p),
    decreases s.len(),
{
    let t = s.update(i, p);
    if i == s.len() - 1 {
        assert(t.drop_last() =~= s.drop_last());
        assert(payments_map(t) =~= payments_map(s).insert(p.hash@, p));
    } else {
        lemma_payments_map_update(s.drop_last(), i, p);
        assert(t.drop_last() =~= s.drop_last().update(i, p));
        assert(s.last().hash@ != p.hash@);
        assert(payments_map(t) =~= payments_map(s).insert(p.hash@, p));
    }
}

/// Whether two hashes are the same.
fn same_hash(a: &[u8; 32], b: &[u8; 32]) -> (r: bool)
    ensures
        r == (a@ == b@),
{
    let mut i: usize = 0;
    while i < 32
        invariant
            i <= 32,
            forall|j: int| 0 <= j < i ==> a@[j] == b@[j],
        decreases 32 - i,
    {
        if a[i] != b[i] {
            return false;
        }
        i = i + 1;
    }
    assert(a@ =~= b@);
    true
}

impl View for PaymentInfoStorage {
    type V = Map<Seq<u8>, PaymentInfo>;

    closed spec fn view(&self) -> Map<Seq<u8>, PaymentInfo> {
        payments_map(self.payments@)
    }
}

impl PaymentInfoStorage {
    #[verifier::type_invariant]
    spec fn well_formed(self) -> bool {
        distinct_hashes(self.payments@)
    }

    /// An empty store.
    pub fn new() -> (s: Self)
        ensures
            s@ == Map::<Seq<u8>, PaymentInfo>::empty(),
    {
        PaymentInfoStorage { payments: Vec::new() }
    }

    /// A store holding the given payments keyed by hash; where hashes
    /// repeat, the later payment wins.
    pub fn from_payments(payments: Vec<PaymentInfo>) -> (s: Self)
        ensures
            s@ == payments_map(payments@),
    {
        let mut store = Self::new();
        let mut i: usize = 0;
        while i < payments.len()
            invariant
                i <= payments@.len(),
                store@ == payments_map(payments@.subrange(0, i as int)),
            decreases payments@.len() - i,
        {
            let p = payments[i];
            store.insert(p);
            assert(payments@.subrange(0, i + 1).drop_last() =~= payments@.subrange(0, i as int));
            i = i + 1;
        }
        assert(payments@.subrange(0, payments@.len() as int) =~= payments@);
        store
    }

    /// Where the payment with this hash sits, if it is known.
    fn position(&self, payment_hash: &[u8; 32]) -> (r: Option<usize>)
        ensures
            r matches Some(i) ==> i < self.payments@.len() && self.payments@[i as int].hash@
                == payment_hash@,
            r is None ==> forall|i: int|
                0 <= i < self.payments@.len() ==> self.payments@[i].hash@ != payment_hash@,
    {
        let mut i: usize = 0;
        while i < self.payments.len()
            invariant
                i <= self.payments@.len(),
                forall|j: int| 0 <= j < i ==> self.payments@[j].hash@ != payment_hash@,
            decreases self.payments@.len() - i,
        {
            if same_hash(&self.payments[i].hash, payment_hash) {
                return Some(i);
            }
            i = i + 1;
        }
        None
    }

    /// Adds the payment, or replaces the one with the same hash.
    fn insert(&mut self, payment_info: PaymentInfo)
        ensures
            final(self)@ == old(self)@.insert(payment_info.hash@, payment_info),
    {
        proof {
            use_type_invariant(&*self);
        }
        match self.position(&payment_info.hash) {
            Some(i) => {
                proof {
                    lemma_payments_map_update(self.payments@, i as int, payment_info);
                }
                let mut payments: Vec<PaymentInfo> = Vec::new();
                std::mem::swap(&mut payments, &mut self.payments);
                let ghost old_payments = payments@;
                payments.set(i, payment_info);
                assert(distinct_hashes(payments@)) by {
                    assert forall|a: int, b: int|
                        0 <= a < payments@.len() && 0 <= b < payments@.len() && a != b implies payments@[a].hash@
                        != payments@[b].hash@ by {
                        assert(old_payments[a].hash@ != old_payments[b].hash@);
                    }
                }
                self.payments = payments;
            },
            None => {
                let mut payments: Vec<PaymentInfo> = Vec::new();
                std::mem::swap(&mut payments, &mut self.payments);
                let ghost old_payments = payments@;
                payments.push(payment_info);
                assert(payments@.drop_last() =~= old_payments);
                self.payments = payments;
            },
        }
    }

    /// The key under which the payment with this hash is persisted.
    fn key_for(payment_hash: &[u8; 32]) -> (key: String)
        ensures
            key@ == payment_key(payment_hash@),
    {
        let mut key = String::from_str(PAYMENT_INFO_PERSISTENCE_PREFIX);
        key.append("/");
        let hex = to_string(payment_hash);
        key.append(hex.as_str());
        proof {
            reveal_strlit("/");
        }
        assert(key@ =~= payment_key(payment_hash@));
        key
    }

    /// Records the payment, replacing any with the same hash, and hands back
    /// what to persist: the payment under its key.
    pub fn insert_payment(&mut self, payment_info: PaymentInfo) -> (req: PersistRequest)
        ensures
            final(self)@ == old(self)@.insert(payment_info.hash@, payment_info),
            req.key@ == payment_key(payment_info.hash@),
            req.payment == payment_info,
    {
        self.insert(payment_info);
        let key = Self::key_for(&payment_info.hash);
        PersistRequest { key, payment: payment_info }
    }

    /// The key to unpersist for the payment with this hash. The payment is
    /// not taken out of the store.
    pub fn remove_payment(&self, payment_hash: &[u8; 32]) -> (key: String)
        ensures
            key@ == payment_key(payment_hash@),
    {
        Self::key_for(payment_hash)
    }

    /// The payment with this hash, if known.
    pub fn payment(&self, payment_hash: &[u8; 32]) -> (r: Option<PaymentInfo>)
        ensures
            r == (if self@.contains_key(payment_hash@) {
                Some(self@[payment_hash@])
            } else {
                None
            }),
    {
        proof {
            use_type_invariant(self);
        }
        match self.position(payment_hash) {
            Some(i) => {
                proof {
                    lemma_payments_map_value(self.payments@, i as int);
                }
                Some(self.payments[i])
            },
            None => {
                proof {
                    lemma_payments_map_keys(self.payments@, payment_hash@);
                }
                None
            },
        }
    }

    /// Whether a payment with this hash is known.
    pub fn contains_payment(&self, payment_hash: &[u8; 32]) -> (r: bool)
        ensures
            r == self@.contains_key(payment_hash@),
    {
        proof {
            lemma_payments_map_keys(self.payments@, payment_hash@);
        }
        self.position(payment_hash).is_some()
    }

    /// Sets the status of the payment with this hash, if it is known, and
    /// hands back what to persist: the updated payment under its key. An
    /// unknown hash changes nothing and asks for nothing to be persisted.
    pub fn set_payment_status(&mut self, payment_hash: &[u8; 32], payment_status: PaymentStatus) -> (req: Option<PersistRequest>)
        ensures
            old(self)@.contains_key(payment_hash@) ==> {
                let updated = PaymentInfo { status: payment_status, ..old(self)@[payment_hash@] };
                &&& final(self)@ == old(self)@.insert(payment_hash@, updated)
                &&& req matches Some(q) && q.payment == updated && q.key@ == payment_key(payment_hash@)
            },
            !old(self)@.contains_key(payment_hash@) ==> final(self)@ == old(self)@ && req is None,
    {
        proof {
            lemma_payments_map_hashes(self.payments@, payment_hash@);
        }
        match self.payment(payment_hash) {
            Some(p) => {
                let updated = PaymentInfo { status: payment_status, ..p };
                self.insert(updated);
                let key = Self::key_for(payment_hash);
                Some(PersistRequest { key, payment: updated })
            },
            None => None,
        }
    }
}

/// After a payment is recorded, looking up its hash gives that payment, and
/// every other hash gives what it gave before.
pub proof fn law_recorded_payment_is_found(m: Map<Seq<u8>, PaymentInfo>, p: PaymentInfo, other: Seq<u8>)
    requires
        other != p.hash@,
    ensures
        m.insert(p.hash@, p).contains_key(p.hash@),
        m.insert(p.hash@, p)[p.hash@] == p,
        m.insert(p.hash@, p).contains_key(other) == m.contains_key(other),
        m.contains_key(other) ==> m.insert(p.hash@, p)[other] == m[other],
{
}

/// Payments with different hashes are persisted under different keys.
pub proof fn law_payment_keys_distinct(a: Seq<u8>, b: Seq<u8>)
    requires
        a != b,
    ensures
        payment_key(a) != payment_key(b),
{
    if payment_key(a) == payment_key(b) {
        let pre = PAYMENT_INFO_PERSISTENCE_PREFIX@ + seq!['/'];
        assert(hex_chars(a) =~= payment_key(a).subrange(pre.len() as int, payment_key(a).len() as int));
        assert(hex_chars(b) =~= payment_key(b).subrange(pre.len() as int, payment_key(b).len() as int));
        law_hex_roundtrip(a);
        law_hex_roundtrip(b);
    }
}

} // verus!
