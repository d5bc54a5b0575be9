//! Errors reported while decoding a C509 certificate.
use vstd::prelude::*;
use minicbor::decode::Error as CborError;

verus! {

/// Errors that can occur while decoding a C509 certificate.
#[derive(Debug)]
pub enum Error {
    /// A low-level CBOR decoding error (malformed CBOR, truncated input,
    /// unexpected major type, ...).
    Cbor(CborError),
    /// The CBOR was well-formed but did not match the C509 grammar.
    Malformed(&'static str),
    /// An X.509 certificate could not be converted.
    X509(String),
    /// A JSON description could not be turned into a certificate.
    Json(String),
}

/// The class of a decoding failure, as the specifications state it: a CBOR
/// level failure, or a violation of the C509 grammar with its message.
#[derive(Debug)]
pub enum Fault {
    Cbor,
    Malformed(&'static str),
}

impl Error {
    /// The class of this error.
    pub open spec fn fault(self) -> Fault {
        match self {
            Error::Malformed(m) => Fault::Malformed(m),
            _ => Fault::Cbor,
        }
    }

    /// The message of this error, as it is shown to a user: the kind of
    /// failure, then its details.
    pub fn to_string(&self) -> (r: String)
        ensures
            match self {
                Error::Cbor(_) => r@.len() >= 19 && r@.subrange(0, 19) == "CBOR decode error: "@,
                Error::Malformed(m) => r@ == "malformed C509 certificate: "@ + m@,
                Error::X509(m) => r@ == "X.509 conversion error: "@ + m@,
                Error::Json(m) => r@ == "JSON conversion error: "@ + m@,
            },
    {
        proof {
            reveal_strlit("CBOR decode error: ");
        }
        match self {
            Error::Cbor(e) => {
                let mut s = String::from_str("CBOR decode error: ");
                let ghost prefix = s@;
                let d = cbor_error_text(e);
                s.append(d.as_str());
                assert(s@.subrange(0, 19) =~= prefix);
                s
            },
            Error::Malformed(m) => {
                let mut s = String::from_str("malformed C509 certificate: ");
                s.append(m);
                s
            },
            Error::X509(m) => {
                let mut s = String::from_str("X.509 conversion error: ");
                s.append(m.as_str());
                s
            },
            Error::Json(m) => {
                let mut s = String::from_str("JSON conversion error: ");
                s.append(m.as_str());
                s
            },
        }
    }

    pub(crate) fn malformed(msg: &'static str) -> (e: Error)
        ensures
            e == Error::Malformed(msg),
    {
        Error::Malformed(msg)
    }
}

impl From<CborError> for Error {
    /// A `minicbor` decoding error is a CBOR failure.
    fn from(e: CborError) -> (r: Error) {
        Error::Cbor(e)
    }
}

impl vstd::std_specs::convert::FromSpecImpl<CborError> for Error {
    open spec fn obeys_from_spec() -> bool {
        true
    }

    open spec fn from_spec(e: CborError) -> Error {
        Error::Cbor(e)
    }
}

/// `Display` of a `minicbor` decoding error: its description. Nothing is
/// stated of it.
#[verifier::external_body]
fn cbor_error_text(e: &CborError) -> (r: String) {
    e.to_string()
}

/// The model of a decoder's result: the value's model and the position after
/// it, or the class of the error.
pub open spec fn outcome<T: DeepView>(r: Result<(T, usize), Error>) -> Parsed<T::V> {
    match r {
        Ok((v, p)) => Ok((v.deep_view(), p as int)),
        Err(e) => Err(e.fault()),
    }
}

/// The result of a decoder: either the value's model and the position just
/// after it, or the class of the failure.
pub type Parsed<T> = Result<(T, int), Fault>;

} // verus!
