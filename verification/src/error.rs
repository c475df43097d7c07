//! The error type of the library, and the message shown for each error.
use bdk::blockchain::esplora::EsploraError;
use lightning::ln::msgs::DecodeError;
use lightning::util::errors::APIError;
use lightning_invoice::payment::PaymentError;
use lightning_invoice::SignOrCreationError;
use vstd::prelude::*;
use vstd::string::{StringExecFns, to_string_from_display_ensures};

verus! {

#[verifier::external_type_specification]
#[verifier::external_body]
pub struct ExApiError(APIError);

#[verifier::external_type_specification]
#[verifier::external_body]
pub struct ExPaymentError(PaymentError);

#[verifier::external_type_specification]
#[verifier::external_body]
#[verifier::reject_recursive_types(S)]
pub struct ExSignOrCreationError<S>(SignOrCreationError<S>);

#[verifier::external_type_specification]
#[verifier::external_body]
pub struct ExBdkError(bdk::Error);

#[verifier::external_type_specification]
#[verifier::external_body]
pub struct ExSledError(bdk::sled::Error);

#[verifier::external_type_specification]
#[verifier::external_body]
pub struct ExEsploraError(EsploraError);

#[verifier::external_type_specification]
#[verifier::external_body]
pub struct ExBip32Error(bitcoin::util::bip32::Error);

#[verifier::external_type_specification]
#[verifier::external_body]
pub struct ExIoError(std::io::Error);

#[verifier::external_type_specification]
#[verifier::external_body]
pub struct ExSystemTimeError(std::time::SystemTimeError);

/// An error that possibly needs to be handled by the user.
#[derive(Debug)]
pub enum LdkLiteError {
    /// Returned when trying to start LdkLite while it is already running.
    AlreadyRunning,
    /// Returned when trying to stop LdkLite while it is not running.
    NotRunning,
    /// The funding transaction could not be created.
    FundingTxCreationFailed,
    /// A network connection has been closed.
    ConnectionFailed,
    /// Payment of the given invoice has already been intiated.
    NonUniquePaymentHash,
    /// A given peer info could not be parsed.
    PeerInfoParse(&'static str),
    /// A wrapped LDK `APIError`
    LdkApi(APIError),
    /// A wrapped LDK `DecodeError`
    LdkDecode(DecodeError),
    /// A wrapped LDK `PaymentError`
    LdkPayment(PaymentError),
    /// A wrapped LDK `SignOrCreationError`
    LdkInvoiceCreation(SignOrCreationError),
    /// A wrapped BDK error
    Bdk(bdk::Error),
    /// A wrapped `EsploraError`
    Esplora(EsploraError),
    /// A wrapped `Bip32` error
    Bip32(bitcoin::util::bip32::Error),
    /// A wrapped `std::io::Error`
    StdIo(std::io::Error),
    /// A wrapped `SystemTimeError`
    StdTime(std::time::SystemTimeError),
}

/// `text` is `prefix` followed by what the `Display` impl of `e` writes.
pub open spec fn shows_display_of<T: core::fmt::Display>(text: Seq<char>, prefix: Seq<char>, e: &T) -> bool {
    exists|d: String| #[trigger] to_string_from_display_ensures::<T>(e, d) && text == prefix + d@
}

/// The text `<APIError as Debug>::fmt` writes for `e`.
pub uninterp spec fn api_error_debug_text(e: APIError) -> Seq<char>;

/// The text `<PaymentError as Debug>::fmt` writes for `e`.
pub uninterp spec fn payment_error_debug_text(e: PaymentError) -> Seq<char>;

/// The text `<SignOrCreationError as Debug>::fmt` writes for `e`.
pub uninterp spec fn sign_or_creation_error_debug_text(e: SignOrCreationError) -> Seq<char>;

/// The BDK error that bdk's `From<sled::Error> for bdk::Error` makes of `e`
/// (it wraps it in `bdk::Error::Sled`).
pub uninterp spec fn bdk_error_from_sled_error(e: bdk::sled::Error) -> bdk::Error;

/// Calls `<APIError as Debug>::fmt` through `format!`; the text is
/// `api_error_debug_text` of the error.
#[verifier::external_body]
fn api_error_debug(e: &APIError) -> (r: String)
    ensures
        r@ == api_error_debug_text(*e),
{
    format!("{:?}", e)
}

/// Calls `<PaymentError as Debug>::fmt` through `format!`; the text is
/// `payment_error_debug_text` of the error.
#[verifier::external_body]
fn payment_error_debug(e: &PaymentError) -> (r: String)
    ensures
        r@ == payment_error_debug_text(*e),
{
    format!("{:?}", e)
}

/// Calls `<SignOrCreationError as Debug>::fmt` through `format!`; the text
/// is `sign_or_creation_error_debug_text` of the error.
#[verifier::external_body]
fn sign_or_creation_error_debug(e: &SignOrCreationError) -> (r: String)
    ensures
        r@ == sign_or_creation_error_debug_text(*e),
{
    format!("{:?}", e)
}

/// Calls bdk's `From<sled::Error> for bdk::Error`; the result is
/// `bdk_error_from_sled_error` of the sled error.
#[verifier::external_body]
fn bdk_error_from_sled(e: bdk::sled::Error) -> (r: bdk::Error)
    ensures
        r == bdk_error_from_sled_error(e),
{
    bdk::Error::from(e)
}

/// `prefix` followed by `detail`.
fn labelled(prefix: &str, detail: &str) -> (r: String)
    ensures
        r@ == prefix@ + detail@,
{
    let mut s = String::from_str(prefix);
    s.append(detail);
    s
}

impl LdkLiteError {
    /// The message shown for the error.
    pub fn to_string(&self) -> (r: String)
        ensures
            self is AlreadyRunning ==> r@ == "LDKLite is already running."@,
            self is NotRunning ==> r@ == "LDKLite is not running."@,
            self is FundingTxCreationFailed ==> r@ == "the funding transaction could not be created"@,
            self is ConnectionFailed ==> r@ == "network connection closed"@,
            self is NonUniquePaymentHash ==> r@ == "an invoice must not get payed twice."@,
            self matches LdkLiteError::PeerInfoParse(e) ==> r@ == "given peer info could not be parsed: "@ + e@,
            self matches LdkLiteError::LdkDecode(e) ==> shows_display_of(r@, "LDK decode error: "@, e),
            self matches LdkLiteError::LdkApi(e) ==> r@ == "LDK API error: "@ + api_error_debug_text(*e),
            self matches LdkLiteError::LdkPayment(e) ==> r@ == "LDK payment error: "@ + payment_error_debug_text(*e),
            self matches LdkLiteError::LdkInvoiceCreation(e) ==> r@ == "LDK invoice sign or creation error: "@
                + sign_or_creation_error_debug_text(*e),
            self matches LdkLiteError::Bdk(e) ==> shows_display_of(r@, "BDK error: "@, e),
            self matches LdkLiteError::Esplora(e) ==> shows_display_of(r@, "Esplora error: "@, e),
            self matches LdkLiteError::Bip32(e) ==> shows_display_of(r@, "Bitcoin error: "@, e),
            self matches LdkLiteError::StdIo(e) ==> shows_display_of(r@, "IO error: "@, e),
            self matches LdkLiteError::StdTime(e) ==> shows_display_of(r@, "time error: "@, e),
    {
        match self {
            LdkLiteError::AlreadyRunning => String::from_str("LDKLite is already running."),
            LdkLiteError::NotRunning => String::from_str("LDKLite is not running."),
            LdkLiteError::FundingTxCreationFailed => String::from_str("the funding transaction could not be created"),
            LdkLiteError::ConnectionFailed => String::from_str("network connection closed"),
            LdkLiteError::NonUniquePaymentHash => String::from_str("an invoice must not get payed twice."),
            LdkLiteError::PeerInfoParse(e) => labelled("given peer info could not be parsed: ", e),
            LdkLiteError::LdkDecode(e) => {
                let d = e.to_string();
                let r = labelled("LDK decode error: ", d.as_str());
                assert(shows_display_of(r@, "LDK decode error: "@, e));
                r
            },
            LdkLiteError::LdkApi(e) => {
                let d = api_error_debug(e);
                labelled("LDK API error: ", d.as_str())
            },
            LdkLiteError::LdkPayment(e) => {
                let d = payment_error_debug(e);
                labelled("LDK payment error: ", d.as_str())
            },
            LdkLiteError::LdkInvoiceCreation(e) => {
                let d = sign_or_creation_error_debug(e);
                labelled("LDK invoice sign or creation error: ", d.as_str())
            },
            LdkLiteError::Bdk(e) => {
                let d = e.to_string();
                let r = labelled("BDK error: ", d.as_str());
                assert(shows_display_of(r@, "BDK error: "@, e));
                r
            },
            LdkLiteError::Esplora(e) => {
                let d = e.to_string();
                let r = labelled("Esplora error: ", d.as_str());
                assert(shows_display_of(r@, "Esplora error: "@, e));
                r
            },
            LdkLiteError::Bip32(e) => {
                let d = e.to_string();
                let r = labelled("Bitcoin error: ", d.as_str());
                assert(shows_display_of(r@, "Bitcoin error: "@, e));
                r
            },
            LdkLiteError::StdIo(e) => {
                let d = e.to_string();
                let r = labelled("IO error: ", d.as_str());
                assert(shows_display_of(r@, "IO error: "@, e));
                r
            },
            LdkLiteError::StdTime(e) => {
                let d = e.to_string();
                let r = labelled("time error: ", d.as_str());
                assert(shows_display_of(r@, "time error: "@, e));
                r
            },
        }
    }
}

impl From<APIError> for LdkLiteError {
    fn from(e: APIError) -> (r: Self) {
        LdkLiteError::LdkApi(e)
    }
}

impl vstd::std_specs::convert::FromSpecImpl<APIError> for LdkLiteError {
    open spec fn obeys_from_spec() -> bool {
        true
    }

    open spec fn from_spec(v: APIError) -> Self {
        LdkLiteError::LdkApi(v)
    }
}

impl From<DecodeError> for LdkLiteError {
    fn from(e: DecodeError) -> (r: Self) {
        LdkLiteError::LdkDecode(e)
    }
}

impl vstd::std_specs::convert::FromSpecImpl<DecodeError> for LdkLiteError {
    open spec fn obeys_from_spec() -> bool {
        true
    }

    open spec fn from_spec(v: DecodeError) -> Self {
        LdkLiteError::LdkDecode(v)
    }
}

impl From<PaymentError> for LdkLiteError {
    fn from(e: PaymentError) -> (r: Self) {
        LdkLiteError::LdkPayment(e)
    }
}

impl vstd::std_specs::convert::FromSpecImpl<PaymentError> for LdkLiteError {
    open spec fn obeys_from_spec() -> bool {
        true
    }

    open spec fn from_spec(v: PaymentError) -> Self {
        LdkLiteError::LdkPayment(v)
    }
}

impl From<SignOrCreationError> for LdkLiteError {
    fn from(e: SignOrCreationError) -> (r: Self) {
        LdkLiteError::LdkInvoiceCreation(e)
    }
}

impl vstd::std_specs::convert::FromSpecImpl<SignOrCreationError> for LdkLiteError {
    open spec fn obeys_from_spec() -> bool {
        true
    }

    open spec fn from_spec(v: SignOrCreationError) -> Self {
        LdkLiteError::LdkInvoiceCreation(v)
    }
}

impl From<bdk::Error> for LdkLiteError {
    fn from(e: bdk::Error) -> (r: Self) {
        LdkLiteError::Bdk(e)
    }
}

impl vstd::std_specs::convert::FromSpecImpl<bdk::Error> for LdkLiteError {
    open spec fn obeys_from_spec() -> bool {
        true
    }

    open spec fn from_spec(v: bdk::Error) -> Self {
        LdkLiteError::Bdk(v)
    }
}

impl From<bitcoin::util::bip32::Error> for LdkLiteError {
    fn from(e: bitcoin::util::bip32::Error) -> (r: Self) {
        LdkLiteError::Bip32(e)
    }
}

impl vstd::std_specs::convert::FromSpecImpl<bitcoin::util::bip32::Error> for LdkLiteError {
    open spec fn obeys_from_spec() -> bool {
        true
    }

    open spec fn from_spec(v: bitcoin::util::bip32::Error) -> Self {
        LdkLiteError::Bip32(v)
    }
}

impl From<std::io::Error> for LdkLiteError {
    fn from(e: std::io::Error) -> (r: Self) {
        LdkLiteError::StdIo(e)
    }
}

impl vstd::std_specs::convert::FromSpecImpl<std::io::Error> for LdkLiteError {
    open spec fn obeys_from_spec() -> bool {
        true
    }

    open spec fn from_spec(v: std::io::Error) -> Self {
        LdkLiteError::StdIo(v)
    }
}

impl From<std::time::SystemTimeError> for LdkLiteError {
    fn from(e: std::time::SystemTimeError) -> (r: Self) {
        LdkLiteError::StdTime(e)
    }
}

impl vstd::std_specs::convert::FromSpecImpl<std::time::SystemTimeError> for LdkLiteError {
    open spec fn obeys_from_spec() -> bool {
        true
    }

    open spec fn from_spec(v: std::time::SystemTimeError) -> Self {
        LdkLiteError::StdTime(v)
    }
}

impl From<bdk::sled::Error> for LdkLiteError {
    fn from(e: bdk::sled::Error) -> (r: Self) {
        LdkLiteError::Bdk(bdk_error_from_sled(e))
    }
}

impl vstd::std_specs::convert::FromSpecImpl<bdk::sled::Error> for LdkLiteError {
    open spec fn obeys_from_spec() -> bool {
        true
    }

    open spec fn from_spec(v: bdk::sled::Error) -> Self {
        LdkLiteError::Bdk(bdk_error_from_sled_error(v))
    }
}

impl From<EsploraError> for LdkLiteError {
    fn from(e: EsploraError) -> (r: Self) {
        LdkLiteError::Esplora(e)
    }
}

impl vstd::std_specs::convert::FromSpecImpl<EsploraError> for LdkLiteError {
    open spec fn obeys_from_spec() -> bool {
        true
    }

    open spec fn from_spec(v: EsploraError) -> Self {
        LdkLiteError::Esplora(v)
    }
}

} // verus!
