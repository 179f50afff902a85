//! Deserialization (parsing) of payment URIs.
//!
//! The module holds the parse driver, the error taxonomy, and the
//! extension contract: an accumulator trait that consumes `(key, value)`
//! pairs one at a time and reports, per key, whether the key was
//! understood, with a finalize step that may reject missing fields.

use vstd::prelude::*;
use crate::Param;
use crate::Uri;
use crate::address::addr_canon;
use crate::address::addr_network_ok;
use crate::address::addr_ok;
use crate::address::network_code;
use crate::address::Network;
use crate::amount::btc_ok;
use crate::amount::btc_sats;
use crate::codec::pct_decode;
use crate::codec::pct_wf;

verus! {

/// Whether a parameter with some key is known to the extension type.
///
/// The outcome is mandatory to check: a URI with an unknown `req-`
/// parameter must be rejected.
#[must_use]
#[derive(Copy, Clone, Eq, PartialEq, Hash, Structural)]
pub enum ParamKind {
    /// The parameter is known to the type being deserialized.
    Known,
    /// The parameter is **not** known to the type being deserialized.
    ///
    /// Parsing fails when a `req-` parameter reports this.
    Unknown,
}

/// Defines the error type of deserialization.
pub trait DeserializationError {
    /// The error returned when deserialization fails.
    type Error;
}

/// The state of deserialization of the extension fields.
///
/// The accumulator starts in the type's default state, consumes one
/// `(key, value)` pair per call, any number of times, and is consumed
/// exactly once by `finalize`.
pub trait DeserializationState: Sized {
    /// The value produced when deserialization finishes.
    type Value: DeserializationError;

    /// Which keys this extension recognizes; a `req-` prefix is part of
    /// the key.
    spec fn key_known(key: Seq<char>) -> bool;

    /// Whether this extension promises never to fail, neither while
    /// consuming a pair nor in the finalize step.
    spec fn infallible() -> bool;

    /// Reports whether the key is recognized, independent of any value.
    fn is_param_known(&self, key: &str) -> (r: bool)
        ensures
            r == Self::key_known(key@),
    ;

    /// Consumes one key/value pair and reports whether the key was
    /// recognized.
    fn deserialize_temp(&mut self, key: &str, value: Param) -> (r: Result<
        ParamKind,
        <Self::Value as DeserializationError>::Error,
    >)
        ensures
            Self::infallible() ==> r is Ok,
            r is Ok ==> (r->Ok_0 == ParamKind::Known <==> Self::key_known(key@)),
    ;

    /// Consumes one key/value pair handed over by the parse driver, which
    /// an implementation may capture without copying; the default forwards
    /// to `deserialize_temp`.
    fn deserialize_borrowed(&mut self, key: &str, value: Param) -> (r: Result<
        ParamKind,
        <Self::Value as DeserializationError>::Error,
    >)
        ensures
            Self::infallible() ==> r is Ok,
            r is Ok ==> (r->Ok_0 == ParamKind::Known <==> Self::key_known(key@)),
    {
        self.deserialize_temp(key, value)
    }

    /// Consumes the accumulator once every pair has been seen, checking
    /// whatever must hold across fields, and produces the finished value.
    fn finalize(self) -> (r: Result<Self::Value, <Self::Value as DeserializationError>::Error>)
        ensures
            Self::infallible() ==> r is Ok,
    ;
}

/// A value that the extension payload of a [`Uri`] can be deserialized
/// into.
pub trait DeserializeParams: Sized + DeserializationError {
    /// The accumulator used while deserializing.
    type DeserializationState: DeserializationState<Value = Self> + Default;
}

/// Error returned when parsing a URI.
#[derive(Debug)]
pub enum Error<T> {
    /// Parsing of the URI structure failed, the address and the amount
    /// included.
    Uri(UriError),
    /// Parsing of the extension fields failed; holds the extension's own
    /// error.
    Extras(T),
}

/// Error returned when parsing the non-extension parts of a URI.
#[derive(Debug)]
pub enum UriError {
    /// The input is shorter than the scheme prefix.
    TooShort,
    /// The input does not start with the payment scheme.
    InvalidScheme,
    /// The address collaborator rejected the address segment.
    Address(bitcoin::address::ParseError),
    /// The amount collaborator rejected an `amount` value.
    Amount(bitcoin::amount::ParseAmountError),
    /// An unrecognized key carries the required marker; holds that key.
    UnknownRequiredParameter(String),
    /// A value is not well-formed percent-encoded text; holds the key it
    /// belongs to.
    PercentDecode {
        /// The key whose value failed to decode.
        parameter: String,
        /// The decode error of the codec crate.
        error: percent_encoding_rfc3986::PercentDecodeError,
    },
    /// A pair is missing the `=` separator; holds the whole pair.
    MissingEquals(String),
}

impl<T> Error<T> {
    /// What the error says.
    pub open spec fn message_spec(&self) -> Seq<char> {
        match self {
            Error::Uri(_) => "invalid BIP21 URI"@,
            Error::Extras(_) => "failed to parse extra argument(s)"@,
        }
    }

    /// Renders the error message.
    pub fn message(&self) -> (r: String)
        ensures
            r@ == self.message_spec(),
    {
        match self {
            Error::Uri(_) => String::from_str("invalid BIP21 URI"),
            Error::Extras(_) => String::from_str("failed to parse extra argument(s)"),
        }
    }
}

impl UriError {
    /// What the error says: the kind of fault, naming the offending
    /// fragment where there is one.
    pub open spec fn message_spec(&self) -> Seq<char> {
        match self {
            UriError::TooShort => "the URI is too short"@,
            UriError::InvalidScheme => "the URI has invalid scheme"@,
            UriError::Address(_) => "the address is invalid"@,
            UriError::Amount(_) => "the amount is invalid"@,
            UriError::UnknownRequiredParameter(p) => "the URI contains unknown required parameter '"@
                + p@ + "'"@,
            UriError::PercentDecode { parameter, error } => "can not percent-decode parameter "@
                + parameter@,
            UriError::MissingEquals(p) => "the parameter '"@ + p@ + "' is missing a value"@,
        }
    }

    /// Renders the error message.
    pub fn message(&self) -> (r: String)
        ensures
            r@ == self.message_spec(),
    {
        match self {
            UriError::TooShort => String::from_str("the URI is too short"),
            UriError::InvalidScheme => String::from_str("the URI has invalid scheme"),
            UriError::Address(_) => String::from_str("the address is invalid"),
            UriError::Amount(_) => String::from_str("the amount is invalid"),
            UriError::UnknownRequiredParameter(p) => {
                let mut out = String::from_str("the URI contains unknown required parameter '");
                out.append(p.as_str());
                out.append("'");
                proof {
                    assert(out@ =~= self.message_spec());
                }
                out
            },
            UriError::PercentDecode { parameter, error } => {
                let mut out = String::from_str("can not percent-decode parameter ");
                out.append(parameter.as_str());
                proof {
                    assert(out@ =~= self.message_spec());
                }
                out
            },
            UriError::MissingEquals(p) => {
                let mut out = String::from_str("the parameter '");
                out.append(p.as_str());
                out.append("' is missing a value");
                proof {
                    assert(out@ =~= self.message_spec());
                }
                out
            },
        }
    }
}

/// The index of the first occurrence of a character, or `-1`.
pub open spec fn find_char(s: Seq<char>, c: char) -> int
    decreases s.len(),
{
    if s.len() == 0 {
        -1
    } else if s[0] == c {
        0
    } else {
        let r = find_char(s.drop_first(), c);
        if r < 0 {
            -1
        } else {
            r + 1
        }
    }
}

/// What the first occurrence means: the character stands there and
/// nowhere earlier.
pub proof fn lemma_find_char(s: Seq<char>, c: char)
    ensures
        find_char(s, c) == -1 || (0 <= find_char(s, c) < s.len()),
        find_char(s, c) >= 0 ==> s[find_char(s, c)] == c,
        find_char(s, c) >= 0 ==> forall|t: int| 0 <= t < find_char(s, c) ==> s[t] != c,
        find_char(s, c) == -1 ==> forall|t: int| 0 <= t < s.len() ==> s[t] != c,
    decreases s.len(),
{
    if s.len() > 0 && s[0] != c {
        lemma_find_char(s.drop_first(), c);
        let f = find_char(s, c);
        let fr = find_char(s.drop_first(), c);
        if fr >= 0 {
            assert forall|t: int| 0 <= t < f implies s[t] != c by {
                if t > 0 {
                    assert(s.drop_first()[t - 1] == s[t]);
                    assert(s.drop_first()[t - 1] != c);
                }
            }
        } else {
            assert forall|t: int| 0 <= t < s.len() implies s[t] != c by {
                if t > 0 {
                    assert(s.drop_first()[t - 1] == s[t]);
                    assert(s.drop_first()[t - 1] != c);
                }
            }
        }
    }
}

/// The text split on a separator character: the parts between the
/// occurrences, in order, boundaries included.
pub open spec fn split_on(s: Seq<char>, c: char) -> Seq<Seq<char>>
    decreases s.len(),
    via split_on_decreases
{
    let i = find_char(s, c);
    if i < 0 {
        seq![s]
    } else {
        seq![s.subrange(0, i)] + split_on(s.subrange(i + 1, s.len() as int), c)
    }
}

#[via_fn]
proof fn split_on_decreases(s: Seq<char>, c: char) {
    lemma_find_char(s, c);
}

/// Case-insensitive match of the fixed scheme prefix `bitcoin:`.
pub open spec fn scheme_ok(s: Seq<char>) -> bool {
    &&& s.len() >= 8
    &&& (s[0] == 'b' || s[0] == 'B')
    &&& (s[1] == 'i' || s[1] == 'I')
    &&& (s[2] == 't' || s[2] == 'T')
    &&& (s[3] == 'c' || s[3] == 'C')
    &&& (s[4] == 'o' || s[4] == 'O')
    &&& (s[5] == 'i' || s[5] == 'I')
    &&& (s[6] == 'n' || s[6] == 'N')
    &&& s[7] == ':'
}

/// The key of the requested payment amount.
pub open spec fn amount_key() -> Seq<char> {
    seq!['a', 'm', 'o', 'u', 'n', 't']
}

/// The key of the address label.
pub open spec fn label_key() -> Seq<char> {
    seq!['l', 'a', 'b', 'e', 'l']
}

/// The key of the transaction message.
pub open spec fn message_key() -> Seq<char> {
    seq!['m', 'e', 's', 's', 'a', 'g', 'e']
}

/// Whether a key carries the required marker, the prefix `req-`.
pub open spec fn is_req_key(k: Seq<char>) -> bool {
    k.len() >= 4 && k[0] == 'r' && k[1] == 'e' && k[2] == 'q' && k[3] == '-'
}

/// What a well-parsed URI owes to the input: the canonical address text,
/// the amount, and the still-encoded label and message values.
pub struct SpecUri {
    /// The canonical text of the address.
    pub addr: Seq<char>,
    /// The satoshi count of the last `amount` value.
    pub amount: Option<u64>,
    /// The still-encoded text of the last `label` value.
    pub label: Option<Seq<char>>,
    /// The still-encoded text of the last `message` value.
    pub message: Option<Seq<char>>,
}

/// The structure errors a parse can owe, with what each one names.
pub enum SpecErr {
    /// The input is shorter than the scheme prefix.
    TooShort,
    /// The scheme does not match.
    BadScheme,
    /// The address collaborator rejects the address segment.
    BadAddress,
    /// The amount collaborator rejects an `amount` value.
    BadAmount,
    /// This pair has no `=` separator.
    MissingEquals(Seq<char>),
    /// The value of this key is not well-formed percent-encoded text.
    BadPercent(Seq<char>),
    /// This key carries the required marker and is not recognized.
    Required(Seq<char>),
}

/// Processes the parameter pairs left to right: later values of the
/// well-known keys win; an unrecognized key with the required marker, an
/// ill-encoded value, a rejected amount and a missing separator each stop
/// the parse with their error.
pub open spec fn process_pairs<S: DeserializationState>(
    pairs: Seq<Seq<char>>,
    acc: SpecUri,
) -> Result<SpecUri, SpecErr>
    decreases pairs.len(),
{
    if pairs.len() == 0 {
        Ok(acc)
    } else {
        let p = pairs[0];
        let e = find_char(p, '=');
        if e < 0 {
            Err(SpecErr::MissingEquals(p))
        } else {
            let k = p.subrange(0, e);
            let v = p.subrange(e + 1, p.len() as int);
            let step: Result<SpecUri, SpecErr> = if k == amount_key() {
                if btc_ok(v) {
                    Ok(
                        SpecUri {
                            addr: acc.addr,
                            amount: Some(btc_sats(v)),
                            label: acc.label,
                            message: acc.message,
                        },
                    )
                } else {
                    Err(SpecErr::BadAmount)
                }
            } else if k == label_key() {
                if pct_wf(v) {
                    Ok(
                        SpecUri {
                            addr: acc.addr,
                            amount: acc.amount,
                            label: Some(v),
                            message: acc.message,
                        },
                    )
                } else {
                    Err(SpecErr::BadPercent(k))
                }
            } else if k == message_key() {
                if pct_wf(v) {
                    Ok(
                        SpecUri {
                            addr: acc.addr,
                            amount: acc.amount,
                            label: acc.label,
                            message: Some(v),
                        },
                    )
                } else {
                    Err(SpecErr::BadPercent(k))
                }
            } else {
                if !pct_wf(v) {
                    Err(SpecErr::BadPercent(k))
                } else if is_req_key(k) && !S::key_known(k) {
                    Err(SpecErr::Required(k))
                } else {
                    Ok(acc)
                }
            };
            match step {
                Ok(acc2) => process_pairs::<S>(pairs.drop_first(), acc2),
                Err(err) => Err(err),
            }
        }
    }
}

/// The outcome a parse owes to the input text, for an extension state
/// that never fails: the document, or the structure error.
pub open spec fn parse_outcome<S: DeserializationState>(s: Seq<char>) -> Result<SpecUri, SpecErr> {
    if s.len() < 8 {
        Err(SpecErr::TooShort)
    } else if !scheme_ok(s) {
        Err(SpecErr::BadScheme)
    } else {
        let rest = s.subrange(8, s.len() as int);
        let q = find_char(rest, '?');
        let addr_seg = if q < 0 {
            rest
        } else {
            rest.subrange(0, q)
        };
        if !addr_ok(addr_seg) {
            Err(SpecErr::BadAddress)
        } else {
            let base = SpecUri {
                addr: addr_canon(addr_seg),
                amount: None,
                label: None,
                message: None,
            };
            if q < 0 {
                Ok(base)
            } else {
                process_pairs::<S>(
                    split_on(rest.subrange(q + 1, rest.len() as int), '&'),
                    base,
                )
            }
        }
    }
}

/// Whether a parsed document is the one owed: same address text, same
/// amount, and label and message whose content is what their encoded
/// values decode to.
pub open spec fn uri_matches<T>(u: Uri<T>, s: SpecUri) -> bool {
    &&& u.address@ == s.addr
    &&& u.amount == s.amount
    &&& match (u.label, s.label) {
        (None, None) => true,
        (Some(p), Some(raw)) => p@ == pct_decode(raw),
        _ => false,
    }
    &&& match (u.message, s.message) {
        (None, None) => true,
        (Some(p), Some(raw)) => p@ == pct_decode(raw),
        _ => false,
    }
}

/// A position that carries the character, with none of it earlier, is the
/// first occurrence.
pub proof fn lemma_find_char_at(s: Seq<char>, c: char, j: int)
    requires
        0 <= j < s.len(),
        s[j] == c,
        forall|t: int| 0 <= t < j ==> s[t] != c,
    ensures
        find_char(s, c) == j,
{
    lemma_find_char(s, c);
    let f = find_char(s, c);
    if f == -1 {
        assert(s[j] != c);
    } else if f < j {
        assert(s[f] != c);
    } else if f > j {
        assert(s[j] != c);
    }
}

/// A text without the character has no first occurrence.
pub proof fn lemma_find_char_absent(s: Seq<char>, c: char)
    requires
        forall|t: int| 0 <= t < s.len() ==> s[t] != c,
    ensures
        find_char(s, c) == -1,
{
    lemma_find_char(s, c);
    if find_char(s, c) >= 0 {
        assert(s[find_char(s, c)] != c);
    }
}

/// The first occurrence of a character in a text, by scanning.
fn find_char_exec(s: &str, c: char) -> (r: Option<usize>)
    ensures
        match r {
            Some(j) => j < s@.len() && s@[j as int] == c && find_char(s@, c) == j,
            None => find_char(s@, c) == -1,
        },
{
    let n = s.unicode_len();
    let mut i: usize = 0;
    while i < n
        invariant
            i <= n,
            n == s@.len(),
            forall|t: int| 0 <= t < i ==> s@[t] != c,
        decreases n - i,
    {
        if s.get_char(i) == c {
            proof {
                lemma_find_char_at(s@, c, i as int);
            }
            return Some(i);
        }
        i = i + 1;
    }
    proof {
        lemma_find_char_absent(s@, c);
    }
    None
}

/// Whether the input starts with the payment scheme, in any letter case.
fn scheme_matches(s: &str) -> (r: bool)
    requires
        s@.len() >= 8,
    ensures
        r == scheme_ok(s@),
{
    let c0 = s.get_char(0);
    let c1 = s.get_char(1);
    let c2 = s.get_char(2);
    let c3 = s.get_char(3);
    let c4 = s.get_char(4);
    let c5 = s.get_char(5);
    let c6 = s.get_char(6);
    let c7 = s.get_char(7);
    (c0 == 'b' || c0 == 'B') && (c1 == 'i' || c1 == 'I') && (c2 == 't' || c2 == 'T') && (c3 == 'c'
        || c3 == 'C') && (c4 == 'o' || c4 == 'O') && (c5 == 'i' || c5 == 'I') && (c6 == 'n' || c6
        == 'N') && c7 == ':'
}

/// Whether two texts hold the same characters.
fn str_eq_chars(a: &str, b: &str) -> (r: bool)
    ensures
        r == (a@ == b@),
{
    let na = a.unicode_len();
    let nb = b.unicode_len();
    if na != nb {
        return false;
    }
    let mut i: usize = 0;
    while i < na
        invariant
            i <= na,
            na == a@.len(),
            na == b@.len(),
            forall|t: int| 0 <= t < i ==> a@[t] == b@[t],
        decreases na - i,
    {
        if a.get_char(i) != b.get_char(i) {
            return false;
        }
        i = i + 1;
    }
    proof {
        assert(a@ =~= b@);
    }
    true
}

/// Whether the key carries the required marker.
fn has_req_prefix(k: &str) -> (r: bool)
    ensures
        r == is_req_key(k@),
{
    if k.unicode_len() < 4 {
        return false;
    }
    k.get_char(0) == 'r' && k.get_char(1) == 'e' && k.get_char(2) == 'q' && k.get_char(3) == '-'
}

/// Splits the parameter segment on `&`.
fn split_params<'a>(s: &'a str) -> (r: Vec<&'a str>)
    ensures
        r@.map_values(|t: &str| t@) == split_on(s@, '&'),
{
    let mut rest: &'a str = s;
    let mut out: Vec<&'a str> = Vec::new();
    loop
        invariant_except_break
            split_on(s@, '&') == out@.map_values(|t: &str| t@) + split_on(rest@, '&'),
        ensures
            split_on(s@, '&') == out@.map_values(|t: &str| t@),
        decreases rest@.len(),
    {
        let n = rest.unicode_len();
        let found = find_char_exec(rest, '&');
        match found {
            Some(j) => {
                let head = rest.substring_char(0, j);
                let tail = rest.substring_char(j + 1, n);
                proof {
                    assert(split_on(rest@, '&') == seq![head@] + split_on(tail@, '&'));
                    assert((out@ + seq![head]).map_values(|t: &str| t@) =~= out@.map_values(
                        |t: &str| t@,
                    ) + seq![head@]);
                    assert((out@.map_values(|t: &str| t@) + seq![head@]) + split_on(tail@, '&')
                        =~= out@.map_values(|t: &str| t@) + (seq![head@] + split_on(tail@, '&')));
                }
                out.push(head);
                rest = tail;
            },
            None => {
                proof {
                    assert(split_on(rest@, '&') == seq![rest@]);
                    assert((out@ + seq![rest]).map_values(|t: &str| t@) =~= out@.map_values(
                        |t: &str| t@,
                    ) + seq![rest@]);
                }
                out.push(rest);
                break ;
            },
        }
    }
    out
}

/// Whether a structure error is the one owed, the named fragment included.
pub open spec fn err_matches(e: UriError, s: SpecErr) -> bool {
    match s {
        SpecErr::TooShort => e is TooShort,
        SpecErr::BadScheme => e is InvalidScheme,
        SpecErr::BadAddress => e is Address,
        SpecErr::BadAmount => e is Amount,
        SpecErr::MissingEquals(p) => e matches UriError::MissingEquals(q) && q@ == p,
        SpecErr::BadPercent(k) => e matches UriError::PercentDecode { parameter, error } && parameter@ == k,
        SpecErr::Required(k) => e matches UriError::UnknownRequiredParameter(q) && q@ == k,
    }
}

/// Processing parameter pairs owes no error of the stages before it.
pub proof fn lemma_process_pairs_errs<S: DeserializationState>(pairs: Seq<Seq<char>>, acc: SpecUri)
    ensures
        process_pairs::<S>(pairs, acc) is Err ==> {
            let e = process_pairs::<S>(pairs, acc)->Err_0;
            !(e is TooShort) && !(e is BadScheme) && !(e is BadAddress)
        },
    decreases pairs.len(),
{
    if pairs.len() > 0 {
        let p = pairs[0];
        let e = find_char(p, '=');
        if e >= 0 {
            let k = p.subrange(0, e);
            let v = p.subrange(e + 1, p.len() as int);
            if k == amount_key() && btc_ok(v) {
                lemma_process_pairs_errs::<S>(
                    pairs.drop_first(),
                    SpecUri {
                        addr: acc.addr,
                        amount: Some(btc_sats(v)),
                        label: acc.label,
                        message: acc.message,
                    },
                );
            } else if k == label_key() && pct_wf(v) {
                lemma_process_pairs_errs::<S>(
                    pairs.drop_first(),
                    SpecUri {
                        addr: acc.addr,
                        amount: acc.amount,
                        label: Some(v),
                        message: acc.message,
                    },
                );
            } else if k == message_key() && pct_wf(v) {
                lemma_process_pairs_errs::<S>(
                    pairs.drop_first(),
                    SpecUri {
                        addr: acc.addr,
                        amount: acc.amount,
                        label: acc.label,
                        message: Some(v),
                    },
                );
            } else {
                lemma_process_pairs_errs::<S>(pairs.drop_first(), acc);
            }
        }
    }
}

impl<T: DeserializeParams> Uri<T> {
    /// Parses a payment URI.
    ///
    /// The outcome owed to the input is [`parse_outcome`]: whenever the
    /// extension state cannot fail, the parse returns a document exactly
    /// when that outcome is a document, and returns the structure error
    /// that outcome names otherwise.  An extension state that can fail
    /// may additionally stop the parse with its own error, wrapped in
    /// [`Error::Extras`].
    pub fn deserialize_raw(s: &str) -> (r: Result<Self, Error<<T as DeserializationError>::Error>>)
        ensures
            ({
                let out = parse_outcome::<T::DeserializationState>(s@);
                &&& (r is Ok ==> out is Ok && uri_matches(r->Ok_0, out->Ok_0))
                &&& (r matches Err(Error::Uri(e)) ==> out is Err && err_matches(e, out->Err_0))
                &&& (T::DeserializationState::infallible() ==> (r is Ok <==> out is Ok))
                &&& (T::DeserializationState::infallible() && r is Err ==> r->Err_0 is Uri)
                &&& (out is Err && (out->Err_0 is TooShort || out->Err_0 is BadScheme
                    || out->Err_0 is BadAddress) ==> r is Err && r->Err_0 is Uri)
            }),
    {
        let len = s.unicode_len();
        if len < 8 {
            return Err(Error::Uri(UriError::TooShort));
        }
        if !scheme_matches(s) {
            return Err(Error::Uri(UriError::InvalidScheme));
        }
        let rest = s.substring_char(8, len);
        let q = find_char_exec(rest, '?');
        let addr_str: &str = match q {
            Some(pos) => rest.substring_char(0, pos),
            None => rest,
        };
        let ghost addr_seg = addr_str@;
        let address = match crate::address::Address::parse(addr_str) {
            Ok(a) => a,
            Err(e) => {
                return Err(Error::Uri(UriError::Address(e)));
            },
        };
        let mut state = <<T as DeserializeParams>::DeserializationState as Default>::default();
        let mut amount: Option<u64> = None;
        let mut label: Option<Param> = None;
        let mut message: Option<Param> = None;
        let ghost base = SpecUri { addr: addr_canon(addr_seg), amount: None, label: None, message: None };
        let ghost mut g_acc = base;
        if let Some(pos) = q {
            let params = rest.substring_char(pos + 1, len - 8);
            let parts = split_params(params);
            let ghost pairs = split_on(params@, '&');
            proof {
                assert(pairs.skip(0) =~= pairs);
            }
            let mut i: usize = 0;
            while i < parts.len()
                invariant
                    i <= parts.len(),
                    parts@.map_values(|t: &str| t@) == pairs,
                    parse_outcome::<T::DeserializationState>(s@) == process_pairs::<
                        T::DeserializationState,
                    >(pairs.skip(i as int), g_acc),
                    g_acc.addr == address@,
                    g_acc.amount == amount,
                    match (label, g_acc.label) {
                        (Option::None, Option::None) => true,
                        (Option::Some(p), Option::Some(raw)) => p@ == pct_decode(raw),
                        _ => false,
                    },
                    match (message, g_acc.message) {
                        (Option::None, Option::None) => true,
                        (Option::Some(p), Option::Some(raw)) => p@ == pct_decode(raw),
                        _ => false,
                    },
                decreases parts.len() - i,
            {
                let p: &str = parts[i];
                proof {
                    assert(parts@.map_values(|t: &str| t@)[i as int] == p@);
                    assert(pairs.skip(i as int)[0] == pairs[i as int]);
                    assert(pairs.skip(i as int).drop_first() =~= pairs.skip(i as int + 1));
                }
                let n = p.unicode_len();
                match find_char_exec(p, '=') {
                    None => {
                        return Err(Error::Uri(UriError::MissingEquals(p.to_owned())));
                    },
                    Some(eq) => {
                        let key = p.substring_char(0, eq);
                        let value = p.substring_char(eq + 1, n);
                        if str_eq_chars(key, "amount") {
                            proof {
                                reveal_strlit("amount");
                                assert("amount"@ =~= amount_key());
                            }
                            match crate::amount::parse_amount(value) {
                                Ok(sats) => {
                                    amount = Some(sats);
                                    proof {
                                        g_acc = SpecUri {
                                            addr: g_acc.addr,
                                            amount: Some(btc_sats(value@)),
                                            label: g_acc.label,
                                            message: g_acc.message,
                                        };
                                    }
                                },
                                Err(e) => {
                                    return Err(Error::Uri(UriError::Amount(e)));
                                },
                            }
                        } else if str_eq_chars(key, "label") {
                            proof {
                                reveal_strlit("amount");
                                reveal_strlit("label");
                                assert("amount"@ =~= amount_key());
                                assert("label"@ =~= label_key());
                            }
                            match Param::decode(value) {
                                Ok(pv) => {
                                    label = Some(pv);
                                    proof {
                                        g_acc = SpecUri {
                                            addr: g_acc.addr,
                                            amount: g_acc.amount,
                                            label: Some(value@),
                                            message: g_acc.message,
                                        };
                                    }
                                },
                                Err(e) => {
                                    return Err(
                                        Error::Uri(
                                            UriError::PercentDecode {
                                                parameter: key.to_owned(),
                                                error: e,
                                            },
                                        ),
                                    );
                                },
                            }
                        } else if str_eq_chars(key, "message") {
                            proof {
                                reveal_strlit("amount");
                                reveal_strlit("label");
                                reveal_strlit("message");
                                assert("amount"@ =~= amount_key());
                                assert("label"@ =~= label_key());
                                assert("message"@ =~= message_key());
                            }
                            match Param::decode(value) {
                                Ok(pv) => {
                                    message = Some(pv);
                                    proof {
                                        g_acc = SpecUri {
                                            addr: g_acc.addr,
                                            amount: g_acc.amount,
                                            label: g_acc.label,
                                            message: Some(value@),
                                        };
                                    }
                                },
                                Err(e) => {
                                    return Err(
                                        Error::Uri(
                                            UriError::PercentDecode {
                                                parameter: key.to_owned(),
                                                error: e,
                                            },
                                        ),
                                    );
                                },
                            }
                        } else {
                            proof {
                                reveal_strlit("amount");
                                reveal_strlit("label");
                                reveal_strlit("message");
                                assert("amount"@ =~= amount_key());
                                assert("label"@ =~= label_key());
                                assert("message"@ =~= message_key());
                            }
                            match Param::decode(value) {
                                Ok(pv) => {
                                    match state.deserialize_borrowed(key, pv) {
                                        Ok(kind) => {
                                            let unknown = match kind {
                                                ParamKind::Unknown => true,
                                                ParamKind::Known => false,
                                            };
                                            if unknown && has_req_prefix(key) {
                                                return Err(
                                                    Error::Uri(
                                                        UriError::UnknownRequiredParameter(
                                                            key.to_owned(),
                                                        ),
                                                    ),
                                                );
                                            }
                                        },
                                        Err(e) => {
                                            proof {
                                                lemma_process_pairs_errs::<
                                                    T::DeserializationState,
                                                >(pairs.skip(i as int), g_acc);
                                            }
                                            return Err(Error::Extras(e));
                                        },
                                    }
                                },
                                Err(e) => {
                                    return Err(
                                        Error::Uri(
                                            UriError::PercentDecode {
                                                parameter: key.to_owned(),
                                                error: e,
                                            },
                                        ),
                                    );
                                },
                            }
                        }
                        i = i + 1;
                    },
                }
            }
            proof {
                assert(pairs.skip(parts@.len() as int) =~= Seq::<Seq<char>>::empty());
            }
        }
        let extras = match state.finalize() {
            Ok(v) => v,
            Err(e) => {
                return Err(Error::Extras(e));
            },
        };
        Ok(Uri { address, amount, label, message, extras })
    }

    /// Checks that the address belongs to the given network, through the
    /// address collaborator; nothing of the document changes.
    pub fn require_network(self, network: Network) -> (r: Result<
        Self,
        Error<<T as DeserializationError>::Error>,
    >)
        ensures
            r is Ok <==> addr_network_ok(self.address@, network_code(network)),
            r is Ok ==> r->Ok_0 == self,
            r is Err ==> r->Err_0 is Uri,
    {
        match self.address.require_network(network) {
            Ok(()) => Ok(self),
            Err(e) => Err(Error::Uri(UriError::Address(e))),
        }
    }

    /// Marks the document's address as accepted without any network check.
    pub fn assume_checked(self) -> (r: Self)
        ensures
            r == self,
    {
        self
    }
}

impl<T> Uri<T> {
    /// Detaches the document from whatever it was parsed out of: the label
    /// and the message are decoded eagerly, exactly once; their content
    /// does not change, and `extras` is not touched.
    pub fn into_static(self) -> (r: Self)
        ensures
            r.address == self.address,
            r.amount == self.amount,
            r.extras == self.extras,
            match (self.label, r.label) {
                (Option::None, Option::None) => true,
                (Option::Some(a), Option::Some(b)) => b@ == a@,
                _ => false,
            },
            match (self.message, r.message) {
                (Option::None, Option::None) => true,
                (Option::Some(a), Option::Some(b)) => b@ == a@,
                _ => false,
            },
    {
        Uri {
            address: self.address,
            amount: self.amount,
            label: match self.label {
                Some(l) => Some(l.decode_into_owned()),
                None => None,
            },
            message: match self.message {
                Some(m) => Some(m.decode_into_owned()),
                None => None,
            },
            extras: self.extras,
        }
    }
}

impl<T: DeserializeParams> core::str::FromStr for Uri<T> {
    type Err = Error<<T as DeserializationError>::Error>;

    fn from_str(s: &str) -> Result<Self, Self::Err> {
        Uri::deserialize_raw(s)
    }
}

} // verus!
