//! Parsing and formatting of `bitcoin:` payment URIs.
//!
//! A URI carries a mandatory address, the well-known optional fields
//! `amount`, `label` and `message`, and an open-ended set of extension
//! fields.  Extension fields are consumed through the traits in [`de`]
//! and emitted through the trait in [`ser`]; an unrecognized key that
//! starts with the `req-` marker invalidates the whole document.
//!
//! Label, message and extension values are carried as [`Param`] values,
//! which defer percent-decoding until the caller asks for the content.

use vstd::prelude::*;

pub mod address;
pub mod amount;
pub mod codec;
pub mod de;
pub mod laws;
pub mod ser;

use vstd::utf8::encode_utf8;
use vstd::utf8::valid_utf8;

verus! {

/// A parsed payment URI.
///
/// The struct holds every well-known field of a payment URI, with the
/// ability to carry more fields in `extras`.  By default there are no
/// extra fields, so the empty implementation is used.
pub struct Uri<Extras = NoExtras> {
    /// The address provided in the URI.  Mandatory.
    pub address: crate::address::Address,
    /// The requested payment, as a number of satoshis.
    pub amount: Option<u64>,
    /// The label of the address, e.g. the name of the receiver.
    pub label: Option<Param>,
    /// A message that describes the transaction to the user.
    pub message: Option<Param>,
    /// Extension fields that can occur in a payment URI.
    pub extras: Extras,
}

impl<T> Uri<T> {
    /// Creates a URI with defaults: every field but `address` empty.
    pub fn new(address: crate::address::Address) -> (r: Self) where T: Default
        ensures
            r.address == address,
            r.amount is None,
            r.label is None,
            r.message is None,
    {
        Uri { address, amount: None, label: None, message: None, extras: Default::default() }
    }

    /// Creates a URI with defaults: every field but `address` and
    /// `extras` empty.
    pub fn with_extras(address: crate::address::Address, extras: T) -> (r: Self)
        ensures
            r.address == address,
            r.amount is None,
            r.label is None,
            r.message is None,
            r.extras == extras,
    {
        Uri { address, amount: None, label: None, message: None, extras }
    }
}

/// A textual parameter value of the URI.
///
/// The value may still be percent-encoded; decoding is deferred until the
/// content is asked for.  The view of a `Param` is the decoded byte
/// content, which every representation agrees on.
pub struct Param {
    inner: ParamInner,
}

enum ParamInner {
    /// A still percent-encoded, well-formed text.
    Encoded(String),
    /// Already decoded bytes.
    Bytes(Vec<u8>),
    /// Already decoded text.
    Text(String),
}

impl View for Param {
    type V = Seq<u8>;

    /// The decoded byte content of the value.
    closed spec fn view(&self) -> Seq<u8> {
        match self.inner {
            ParamInner::Encoded(e) => crate::codec::pct_decode(e@),
            ParamInner::Bytes(b) => b@,
            ParamInner::Text(t) => encode_utf8(t@),
        }
    }
}

impl Param {
    /// An encoded representation is always well formed.
    #[verifier::type_invariant]
    pub closed spec fn wf(self) -> bool {
        match self.inner {
            ParamInner::Encoded(e) => crate::codec::pct_wf(e@),
            _ => true,
        }
    }

    /// Starts percent-decoding a text: checks that it is well formed and
    /// keeps it encoded, to be decoded when the content is asked for.
    pub fn decode(s: &str) -> (r: Result<Self, percent_encoding_rfc3986::PercentDecodeError>)
        ensures
            r is Ok <==> crate::codec::pct_wf(s@),
            r is Ok ==> r->Ok_0@ == crate::codec::pct_decode(s@),
    {
        match crate::codec::pct_validate_exec(s) {
            Ok(()) => Ok(Param { inner: ParamInner::Encoded(s.to_owned()) }),
            Err(e) => Err(e),
        }
    }

    /// Wraps an already decoded text; no decoding step is involved.
    pub fn from_text(value: String) -> (r: Self)
        ensures
            r@ == encode_utf8(value@),
    {
        Param { inner: ParamInner::Text(value) }
    }

    /// Wraps already decoded bytes; no decoding step is involved.
    pub fn from_byte_vec(value: Vec<u8>) -> (r: Self)
        ensures
            r@ == value@,
    {
        Param { inner: ParamInner::Bytes(value) }
    }

    /// The decoded bytes of the value.
    pub fn bytes(&self) -> (r: Vec<u8>)
        ensures
            r@ == self@,
    {
        proof {
            use_type_invariant(self);
        }
        match &self.inner {
            ParamInner::Encoded(e) => match crate::codec::pct_decode_exec(e.as_str()) {
                Ok(v) => v,
                Err(_) => {
                    proof {
                        assert(false);
                    }
                    Vec::new()
                },
            },
            ParamInner::Bytes(b) => b.clone(),
            ParamInner::Text(t) => t.as_str().as_bytes_vec(),
        }
    }

    /// Consumes the value into its decoded bytes.
    pub fn into_bytes(self) -> (r: Vec<u8>)
        ensures
            r@ == self@,
    {
        self.bytes()
    }

    /// Consumes the value into decoded text, if the decoded bytes are
    /// valid text.
    pub fn try_into_string(self) -> (r: Option<String>)
        ensures
            r is Some <==> valid_utf8(self@),
            r is Some ==> encode_utf8(r->0@) == self@,
    {
        proof {
            use_type_invariant(&self);
        }
        match self.inner {
            ParamInner::Text(t) => {
                proof {
                    vstd::utf8::encode_utf8_valid_utf8(t@);
                }
                Some(t)
            },
            ParamInner::Bytes(b) => {
                let r = crate::codec::string_from_utf8(b);
                proof {
                    if r is Some {
                        vstd::utf8::decode_utf8_encode_utf8(self@);
                    }
                }
                r
            },
            ParamInner::Encoded(e) => {
                match crate::codec::pct_decode_exec(e.as_str()) {
                    Ok(v) => {
                        let r = crate::codec::string_from_utf8(v);
                        proof {
                            if r is Some {
                                vstd::utf8::decode_utf8_encode_utf8(self@);
                            }
                        }
                        r
                    },
                    Err(_) => {
                        proof {
                            assert(false);
                        }
                        None
                    },
                }
            },
        }
    }

    /// Detaches the value from anything it was parsed out of by decoding
    /// it eagerly, exactly once; the content does not change.
    pub fn decode_into_owned(self) -> (r: Self)
        ensures
            r@ == self@,
    {
        proof {
            use_type_invariant(&self);
        }
        match self.inner {
            ParamInner::Encoded(e) => {
                match crate::codec::pct_decode_exec(e.as_str()) {
                    Ok(v) => Param { inner: ParamInner::Bytes(v) },
                    Err(_) => {
                        proof {
                            assert(false);
                        }
                        Param { inner: ParamInner::Bytes(Vec::new()) }
                    },
                }
            },
            other => Param { inner: other },
        }
    }
}

impl Clone for Param {
    /// The clone carries the same decoded content.
    fn clone(&self) -> (r: Self)
        ensures
            r@ == self@,
    {
        proof {
            use_type_invariant(self);
        }
        match &self.inner {
            ParamInner::Encoded(e) => Param { inner: ParamInner::Encoded(e.clone()) },
            ParamInner::Bytes(b) => Param { inner: ParamInner::Bytes(b.clone()) },
            ParamInner::Text(t) => Param { inner: ParamInner::Text(t.clone()) },
        }
    }
}

/// Cheap conversion: wraps an already decoded text.
impl From<String> for Param {
    fn from(value: String) -> (r: Self) {
        Param { inner: ParamInner::Text(value) }
    }
}

impl vstd::std_specs::convert::FromSpecImpl<String> for Param {
    open spec fn obeys_from_spec() -> bool {
        true
    }

    closed spec fn from_spec(value: String) -> Self {
        Param { inner: ParamInner::Text(value) }
    }
}

/// What converting a text into a parameter value means: the content is
/// the text's bytes.
pub broadcast proof fn lemma_param_from_text(value: String)
    ensures
        (#[trigger] <Param as vstd::std_specs::convert::FromSpec<String>>::from_spec(value))@
            == encode_utf8(value@),
{
}

/// Empty extras: the extension payload of a URI with no extension fields.
#[derive(Debug, Default, Copy, Clone, Eq, PartialEq, Ord, PartialOrd, Hash)]
pub struct NoExtras;

/// The state used to deserialize [`NoExtras`]: it expects no parameters.
#[derive(Debug, Default, Copy, Clone)]
pub struct EmptyState;

impl de::DeserializationError for NoExtras {
    type Error = core::convert::Infallible;
}

impl de::DeserializeParams for NoExtras {
    type DeserializationState = EmptyState;
}

impl de::DeserializationState for EmptyState {
    type Value = NoExtras;

    /// The empty extension set recognizes no key at all.
    open spec fn key_known(key: Seq<char>) -> bool {
        false
    }

    /// The empty extension set can never fail.
    open spec fn infallible() -> bool {
        true
    }

    fn is_param_known(&self, key: &str) -> (r: bool) {
        false
    }

    fn deserialize_temp(&mut self, key: &str, value: Param) -> (r: Result<
        de::ParamKind,
        core::convert::Infallible,
    >) {
        Ok(de::ParamKind::Unknown)
    }

    fn finalize(self) -> (r: Result<NoExtras, core::convert::Infallible>) {
        Ok(NoExtras)
    }
}

} // verus!
