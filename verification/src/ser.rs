//! Serialization (formatting) of payment URIs.
//!
//! The module holds the extension contract for the format direction and
//! the format driver: it writes the scheme and the address, then the
//! well-known fields in fixed order, then the extension pairs in the
//! order the extension produces them, percent-encoding every value.

use vstd::prelude::*;
use vstd::utf8::encode_utf8;
use crate::Uri;
use crate::address::addr_alt;
use crate::amount::btc_text;
use crate::amount::render_amount;
use crate::codec::pct_encode;
use crate::codec::pct_encode_exec;
use crate::codec::push_char;
use crate::de::amount_key;
use crate::de::label_key;
use crate::de::message_key;

verus! {

/// A value whose fields can be written into the parameter part of a URI.
///
/// The extension exposes an ordered, finite sequence of `(key, value)`
/// pairs to emit, both rendered as text.  A key must never contain `=`:
/// that is a programming error in the extension, not a data error, and
/// the format driver requires its absence.
pub trait SerializeParams {
    /// The pairs this value owes to the output, in emission order.
    spec fn params_spec(&self) -> Seq<(Seq<char>, Seq<char>)>;

    /// The key/value pairs to emit, in order.
    fn serialize_params(&self) -> (r: Vec<(String, String)>)
        ensures
            r@.len() == self.params_spec().len(),
            forall|i: int|
                0 <= i < r@.len() ==> (#[trigger] r@[i]).0@ == self.params_spec()[i].0
                    && r@[i].1@ == self.params_spec()[i].1,
    ;
}

impl SerializeParams for crate::NoExtras {
    /// The empty extension set emits nothing.
    open spec fn params_spec(&self) -> Seq<(Seq<char>, Seq<char>)> {
        Seq::empty()
    }

    fn serialize_params(&self) -> (r: Vec<(String, String)>) {
        Vec::new()
    }
}

/// The scheme prefix as written: lower case, or upper case in the
/// alternate form meant for dense visual encodings.
pub open spec fn scheme_chars(alt: bool) -> Seq<char> {
    if alt {
        seq!['B', 'I', 'T', 'C', 'O', 'I', 'N', ':']
    } else {
        seq!['b', 'i', 't', 'c', 'o', 'i', 'n', ':']
    }
}

/// No key of the list holds the `=` separator.
pub open spec fn keys_eq_free(l: Seq<(Seq<char>, Seq<char>)>) -> bool {
    forall|i: int, j: int|
        0 <= i < l.len() && 0 <= j < l[i].0.len() ==> #[trigger] l[i].0[j] != '='
}

/// The key/value texts a document owes to its parameter part, in emission
/// order: amount, label and message when present, then the extension
/// pairs; every value percent-encoded.
pub open spec fn emit_pairs<T: SerializeParams>(u: Uri<T>) -> Seq<(Seq<char>, Seq<char>)> {
    let a: Seq<(Seq<char>, Seq<char>)> = match u.amount {
        Some(n) => seq![(amount_key(), pct_encode(encode_utf8(btc_text(n))))],
        None => Seq::empty(),
    };
    let l: Seq<(Seq<char>, Seq<char>)> = match u.label {
        Some(p) => seq![(label_key(), pct_encode(p@))],
        None => Seq::empty(),
    };
    let m: Seq<(Seq<char>, Seq<char>)> = match u.message {
        Some(p) => seq![(message_key(), pct_encode(p@))],
        None => Seq::empty(),
    };
    a + l + m + ext_pairs_enc(u.extras.params_spec())
}

/// The extension pairs with their values percent-encoded.
pub open spec fn ext_pairs_enc(l: Seq<(Seq<char>, Seq<char>)>) -> Seq<(Seq<char>, Seq<char>)> {
    l.map_values(|kv: (Seq<char>, Seq<char>)| (kv.0, pct_encode(encode_utf8(kv.1))))
}

/// The text of the parameter list from position `i` on: each pair as
/// `key=value`, the first preceded by `?`, the others by `&`.
pub open spec fn params_text(l: Seq<(Seq<char>, Seq<char>)>, i: int) -> Seq<char>
    decreases l.len() - i,
{
    if i < 0 || i >= l.len() {
        Seq::empty()
    } else {
        seq![
            if i == 0 {
                '?'
            } else {
                '&'
            },
        ] + l[i].0 + seq!['='] + l[i].1 + params_text(l, i + 1)
    }
}

/// The whole text of a document: scheme, address, parameters.
pub open spec fn uri_text<T: SerializeParams>(u: Uri<T>, alt: bool) -> Seq<char> {
    scheme_chars(alt) + (if alt {
        addr_alt(u.address@)
    } else {
        u.address@
    }) + params_text(emit_pairs(u), 0)
}

impl<T: SerializeParams> Uri<T> {
    /// The textual form of the document.
    pub fn to_string(&self) -> (r: String)
        requires
            keys_eq_free(self.extras.params_spec()),
        ensures
            r@ == uri_text(*self, false),
            match self.amount {
                Some(n) => crate::amount::btc_ok(btc_text(n)) && crate::amount::btc_sats(
                    btc_text(n),
                ) == n,
                None => true,
            },
    {
        self.format_uri(false)
    }

    /// The alternate textual form of the document: scheme and bech32
    /// address in upper case, for dense visual encodings.
    pub fn to_string_alternate(&self) -> (r: String)
        requires
            keys_eq_free(self.extras.params_spec()),
        ensures
            r@ == uri_text(*self, true),
            match self.amount {
                Some(n) => crate::amount::btc_ok(btc_text(n)) && crate::amount::btc_sats(
                    btc_text(n),
                ) == n,
                None => true,
            },
    {
        self.format_uri(true)
    }

    /// Writes the document: scheme and address first, then the parameter
    /// pairs, `?` before the first and `&` between the rest.
    fn format_uri(&self, alt: bool) -> (r: String)
        requires
            keys_eq_free(self.extras.params_spec()),
        ensures
            r@ == uri_text(*self, alt),
            match self.amount {
                Some(n) => crate::amount::btc_ok(btc_text(n)) && crate::amount::btc_sats(
                    btc_text(n),
                ) == n,
                None => true,
            },
    {
        let ghost target = emit_pairs(*self);
        let mut out: String;
        if alt {
            out = String::from_str("BITCOIN:");
            proof {
                reveal_strlit("BITCOIN:");
                assert(out@ =~= scheme_chars(true));
            }
            out.append(self.address.to_alternate_string().as_str());
        } else {
            out = String::from_str("bitcoin:");
            proof {
                reveal_strlit("bitcoin:");
                assert(out@ =~= scheme_chars(false));
            }
            out.append(self.address.to_string().as_str());
        }
        let ghost head = out@;

        // Materialize the pairs to write, in emission order.
        let mut list: Vec<(String, String)> = Vec::new();
        if let Some(n) = self.amount {
            let text = render_amount(n);
            let enc = pct_encode_exec(text.as_str().as_bytes());
            list.push((String::from_str("amount"), enc));
            proof {
                reveal_strlit("amount");
                assert("amount"@ =~= amount_key());
            }
        }
        if let Some(p) = &self.label {
            let bytes = p.bytes();
            let enc = pct_encode_exec(bytes.as_slice());
            list.push((String::from_str("label"), enc));
            proof {
                reveal_strlit("label");
                assert("label"@ =~= label_key());
            }
        }
        if let Some(p) = &self.message {
            let bytes = p.bytes();
            let enc = pct_encode_exec(bytes.as_slice());
            list.push((String::from_str("message"), enc));
            proof {
                reveal_strlit("message");
                assert("message"@ =~= message_key());
            }
        }
        proof {
            assert(list@.len() + self.extras.params_spec().len() == target.len());
            assert forall|i: int| 0 <= i < list@.len() implies (#[trigger] list@[i]).0@
                == target[i].0 && list@[i].1@ == target[i].1 by {}
        }
        let ext = self.extras.serialize_params();
        let mut j: usize = 0;
        while j < ext.len()
            invariant
                target == emit_pairs(*self),
                keys_eq_free(self.extras.params_spec()),
                j <= ext.len(),
                ext@.len() == self.extras.params_spec().len(),
                forall|i: int|
                    0 <= i < ext@.len() ==> (#[trigger] ext@[i]).0@ == self.extras.params_spec()[i].0
                        && ext@[i].1@ == self.extras.params_spec()[i].1,
                list@.len() == target.len() - ext@.len() + j,
                forall|i: int|
                    0 <= i < list@.len() ==> (#[trigger] list@[i]).0@ == target[i].0
                        && list@[i].1@ == target[i].1,
            decreases ext.len() - j,
        {
            let pair = &ext[j];
            let enc = pct_encode_exec(pair.1.as_str().as_bytes());
            let k = pair.0.clone();
            proof {
                let fixed = target.len() - ext@.len();
                let mapped = ext_pairs_enc(self.extras.params_spec());
                assert(target[fixed + j] == mapped[j as int]);
                assert(mapped[j as int].0 == self.extras.params_spec()[j as int].0);
                assert(mapped[j as int].1 == pct_encode(
                    encode_utf8(self.extras.params_spec()[j as int].1),
                ));
            }
            list.push((k, enc));
            j = j + 1;
        }
        proof {
            assert(list@.len() == target.len());
        }

        // Write the pairs.
        let mut i: usize = 0;
        while i < list.len()
            invariant
                target == emit_pairs(*self),
                i <= list@.len(),
                list@.len() == target.len(),
                forall|t: int|
                    0 <= t < list@.len() ==> (#[trigger] list@[t]).0@ == target[t].0
                        && list@[t].1@ == target[t].1,
                uri_text(*self, alt) == out@ + params_text(target, i as int),
            decreases list.len() - i,
        {
            let ghost before = out@;
            if i == 0 {
                push_char(&mut out, '?');
            } else {
                push_char(&mut out, '&');
            }
            let pair = &list[i];
            out.append(pair.0.as_str());
            push_char(&mut out, '=');
            out.append(pair.1.as_str());
            proof {
                let sep: Seq<char> = seq![
                    if i == 0 {
                        '?'
                    } else {
                        '&'
                    },
                ];
                assert(out@ =~= before + (sep + target[i as int].0 + seq!['=']
                    + target[i as int].1));
                assert(params_text(target, i as int) == sep + target[i as int].0 + seq!['=']
                    + target[i as int].1 + params_text(target, i as int + 1));
                assert(before + (sep + target[i as int].0 + seq!['='] + target[i as int].1
                    + params_text(target, i as int + 1)) =~= (before + (sep + target[i as int].0
                    + seq!['='] + target[i as int].1)) + params_text(target, i as int + 1));
            }
            i = i + 1;
        }
        proof {
            assert(params_text(target, list@.len() as int) =~= Seq::<char>::empty());
            assert(out@ + Seq::<char>::empty() =~= out@);
        }
        out
    }
}

} // verus!
