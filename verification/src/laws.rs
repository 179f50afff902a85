//! The laws of the library: what parsing owes for whole classes of
//! documents, proved once and for all over the same specification
//! functions that the contracts of [`crate::de`] and [`crate::ser`] use.

use vstd::prelude::*;
use crate::address::addr_canon;
use crate::address::addr_ok;
use crate::amount::btc_ok;
use crate::amount::btc_sats;
use crate::amount::btc_text;
use crate::amount::lemma_btc_text_plain;
use crate::codec::lemma_pct_encode_no_separator;
use crate::codec::lemma_pct_encode_plain;
use crate::codec::lemma_pct_round_trip;
use crate::codec::pct_decode;
use crate::codec::pct_encode;
use crate::codec::pct_wf;
use crate::de::amount_key;
use crate::de::find_char;
use crate::de::is_req_key;
use crate::de::label_key;
use crate::de::lemma_find_char;
use crate::de::lemma_find_char_absent;
use crate::de::lemma_find_char_at;
use crate::de::message_key;
use crate::de::parse_outcome;
use crate::de::process_pairs;
use crate::de::scheme_ok;
use crate::de::split_on;
use crate::de::DeserializationState;
use crate::de::SpecErr;
use crate::de::SpecUri;
use crate::ser::emit_pairs;
use crate::ser::SerializeParams;
use crate::ser::ext_pairs_enc;
use crate::ser::params_text;
use crate::ser::scheme_chars;
use crate::ser::uri_text;
use vstd::utf8::encode_utf8;

verus! {

/// A parameter pair that every stage of the dispatch accepts: it has a
/// separator, a value its handler accepts, and no unrecognized required
/// key.
pub open spec fn pair_clean<S: DeserializationState>(p: Seq<char>) -> bool {
    let e = find_char(p, '=');
    let k = p.subrange(0, e);
    let v = p.subrange(e + 1, p.len() as int);
    &&& e >= 0
    &&& (k == amount_key() ==> btc_ok(v))
    &&& (k != amount_key() ==> pct_wf(v))
    &&& (k != amount_key() && k != label_key() && k != message_key() && is_req_key(k)
        ==> S::key_known(k))
}

/// A clean pair never stops the dispatch: one step of processing it goes
/// on with the remaining pairs.
proof fn lemma_clean_pair_steps<S: DeserializationState>(pairs: Seq<Seq<char>>, acc: SpecUri)
    requires
        pairs.len() > 0,
        pair_clean::<S>(pairs[0]),
    ensures
        exists|acc2: SpecUri|
            process_pairs::<S>(pairs, acc) == process_pairs::<S>(#[trigger] pairs.drop_first(), acc2)
                && acc2.addr == acc.addr,
{
    let p = pairs[0];
    let e = find_char(p, '=');
    let k = p.subrange(0, e);
    let v = p.subrange(e + 1, p.len() as int);
    if k == amount_key() {
        let acc2 = SpecUri {
            addr: acc.addr,
            amount: Some(btc_sats(v)),
            label: acc.label,
            message: acc.message,
        };
        assert(process_pairs::<S>(pairs, acc) == process_pairs::<S>(pairs.drop_first(), acc2));
    } else if k == label_key() {
        let acc2 = SpecUri { addr: acc.addr, amount: acc.amount, label: Some(v), message: acc.message };
        assert(process_pairs::<S>(pairs, acc) == process_pairs::<S>(pairs.drop_first(), acc2));
    } else if k == message_key() {
        let acc2 = SpecUri { addr: acc.addr, amount: acc.amount, label: acc.label, message: Some(v) };
        assert(process_pairs::<S>(pairs, acc) == process_pairs::<S>(pairs.drop_first(), acc2));
    } else {
        assert(process_pairs::<S>(pairs, acc) == process_pairs::<S>(pairs.drop_first(), acc));
    }
}

/// Required-field rejection: a parameter list that anywhere holds a pair
/// whose key carries the required marker and is not recognized never
/// processes into a document.
pub proof fn lemma_required_key_rejected<S: DeserializationState>(
    pairs: Seq<Seq<char>>,
    acc: SpecUri,
    i: int,
)
    requires
        0 <= i < pairs.len(),
        ({
            let p = pairs[i];
            let e = find_char(p, '=');
            e >= 0 && is_req_key(p.subrange(0, e)) && !S::key_known(p.subrange(0, e))
        }),
    ensures
        process_pairs::<S>(pairs, acc) is Err,
    decreases i,
{
    let p = pairs[i];
    let e = find_char(p, '=');
    let k = p.subrange(0, e);
    lemma_find_char(p, '=');
    assert(k[0] == 'r');
    assert(k != amount_key() && k != label_key() && k != message_key());
    if i == 0 {
        let v = p.subrange(e + 1, p.len() as int);
        if pct_wf(v) {
            assert(process_pairs::<S>(pairs, acc) == Err::<SpecUri, SpecErr>(SpecErr::Required(k)));
        } else {
            assert(process_pairs::<S>(pairs, acc) == Err::<SpecUri, SpecErr>(SpecErr::BadPercent(k)));
        }
    } else {
        if pair_clean::<S>(pairs[0]) {
            lemma_clean_pair_steps::<S>(pairs, acc);
            let acc2 = choose|acc2: SpecUri|
                process_pairs::<S>(pairs, acc) == process_pairs::<S>(pairs.drop_first(), acc2)
                    && acc2.addr == acc.addr;
            assert(pairs.drop_first()[i - 1] == pairs[i]);
            lemma_required_key_rejected::<S>(pairs.drop_first(), acc2, i - 1);
        }
    }
}

/// Unknown non-required tolerance: a parameter list of well-formed pairs
/// whose keys are all unrecognized extension keys without the required
/// marker processes into exactly the document it started from.
pub proof fn lemma_unknown_keys_ignored<S: DeserializationState>(pairs: Seq<Seq<char>>, acc: SpecUri)
    requires
        forall|i: int|
            0 <= i < pairs.len() ==> ({
                let p = #[trigger] pairs[i];
                let e = find_char(p, '=');
                let k = p.subrange(0, e);
                &&& e >= 0
                &&& pct_wf(p.subrange(e + 1, p.len() as int))
                &&& k != amount_key()
                &&& k != label_key()
                &&& k != message_key()
                &&& !is_req_key(k)
            }),
    ensures
        process_pairs::<S>(pairs, acc) == Ok::<SpecUri, SpecErr>(acc),
    decreases pairs.len(),
{
    if pairs.len() > 0 {
        assert(process_pairs::<S>(pairs, acc) == process_pairs::<S>(pairs.drop_first(), acc));
        assert(forall|i: int|
            0 <= i < pairs.drop_first().len() ==> #[trigger] pairs.drop_first()[i] == pairs[i + 1]);
        lemma_unknown_keys_ignored::<S>(pairs.drop_first(), acc);
    }
}

/// Malformed-pair detection: when every pair before position `i` is
/// clean and the pair at `i` has no `=` separator, processing owes the
/// missing-separator error naming that pair.
pub proof fn lemma_missing_separator<S: DeserializationState>(
    pairs: Seq<Seq<char>>,
    acc: SpecUri,
    i: int,
)
    requires
        0 <= i < pairs.len(),
        find_char(pairs[i], '=') < 0,
        forall|j: int| 0 <= j < i ==> pair_clean::<S>(#[trigger] pairs[j]),
    ensures
        process_pairs::<S>(pairs, acc) == Err::<SpecUri, SpecErr>(
            SpecErr::MissingEquals(pairs[i]),
        ),
    decreases i,
{
    if i == 0 {
        assert(process_pairs::<S>(pairs, acc) == Err::<SpecUri, SpecErr>(
            SpecErr::MissingEquals(pairs[0]),
        ));
    } else {
        lemma_clean_pair_steps::<S>(pairs, acc);
        let acc2 = choose|acc2: SpecUri|
            process_pairs::<S>(pairs, acc) == process_pairs::<S>(pairs.drop_first(), acc2)
                && acc2.addr == acc.addr;
        assert(pairs.drop_first()[i - 1] == pairs[i]);
        assert(forall|j: int|
            0 <= j < i - 1 ==> #[trigger] pairs.drop_first()[j] == pairs[j + 1]);
        lemma_missing_separator::<S>(pairs.drop_first(), acc2, i - 1);
    }
}

/// Required-field rejection at the document level: a URI whose parameter
/// part anywhere holds a pair with an unrecognized required key parses to
/// an error, never to a document.
pub proof fn lemma_required_rejected<S: DeserializationState>(s: Seq<char>, i: int)
    requires
        scheme_ok(s),
        ({
            let rest = s.subrange(8, s.len() as int);
            let q = find_char(rest, '?');
            &&& q >= 0
            &&& ({
                let pairs = split_on(rest.subrange(q + 1, rest.len() as int), '&');
                &&& 0 <= i < pairs.len()
                &&& ({
                    let p = pairs[i];
                    let e = find_char(p, '=');
                    e >= 0 && is_req_key(p.subrange(0, e)) && !S::key_known(p.subrange(0, e))
                })
            })
        }),
    ensures
        parse_outcome::<S>(s) is Err,
{
    let rest = s.subrange(8, s.len() as int);
    let q = find_char(rest, '?');
    let addr_seg = rest.subrange(0, q);
    if addr_ok(addr_seg) {
        let base = SpecUri { addr: addr_canon(addr_seg), amount: None, label: None, message: None };
        lemma_required_key_rejected::<S>(
            split_on(rest.subrange(q + 1, rest.len() as int), '&'),
            base,
            i,
        );
    }
}

/// Unknown non-required tolerance at the document level: a URI with a
/// valid address whose parameter pairs all carry well-formed values under
/// unrecognized keys without the required marker parses to a document
/// that ignores them all.
pub proof fn lemma_unknown_keys_tolerated<S: DeserializationState>(s: Seq<char>)
    requires
        scheme_ok(s),
        ({
            let rest = s.subrange(8, s.len() as int);
            let q = find_char(rest, '?');
            &&& q >= 0
            &&& addr_ok(rest.subrange(0, q))
            &&& ({
                let pairs = split_on(rest.subrange(q + 1, rest.len() as int), '&');
                forall|i: int|
                    0 <= i < pairs.len() ==> ({
                        let p = #[trigger] pairs[i];
                        let e = find_char(p, '=');
                        let k = p.subrange(0, e);
                        &&& e >= 0
                        &&& pct_wf(p.subrange(e + 1, p.len() as int))
                        &&& k != amount_key()
                        &&& k != label_key()
                        &&& k != message_key()
                        &&& !is_req_key(k)
                    })
            })
        }),
    ensures
        ({
            let rest = s.subrange(8, s.len() as int);
            let q = find_char(rest, '?');
            let out = parse_outcome::<S>(s);
            &&& out is Ok
            &&& out->Ok_0.addr == addr_canon(rest.subrange(0, q))
            &&& out->Ok_0.amount is None
            &&& out->Ok_0.label is None
            &&& out->Ok_0.message is None
        }),
{
    let rest = s.subrange(8, s.len() as int);
    let q = find_char(rest, '?');
    let addr_seg = rest.subrange(0, q);
    let base = SpecUri { addr: addr_canon(addr_seg), amount: None, label: None, message: None };
    lemma_unknown_keys_ignored::<S>(
        split_on(rest.subrange(q + 1, rest.len() as int), '&'),
        base,
    );
}

/// Malformed-pair detection at the document level: when the address is
/// valid, every pair before position `i` is clean and the pair at `i`
/// has no `=` separator, the parse owes the missing-separator error
/// naming that pair.
pub proof fn lemma_missing_separator_rejected<S: DeserializationState>(s: Seq<char>, i: int)
    requires
        scheme_ok(s),
        ({
            let rest = s.subrange(8, s.len() as int);
            let q = find_char(rest, '?');
            &&& q >= 0
            &&& addr_ok(rest.subrange(0, q))
            &&& ({
                let pairs = split_on(rest.subrange(q + 1, rest.len() as int), '&');
                &&& 0 <= i < pairs.len()
                &&& find_char(pairs[i], '=') < 0
                &&& forall|j: int| 0 <= j < i ==> pair_clean::<S>(#[trigger] pairs[j])
            })
        }),
    ensures
        ({
            let rest = s.subrange(8, s.len() as int);
            let q = find_char(rest, '?');
            let pairs = split_on(rest.subrange(q + 1, rest.len() as int), '&');
            parse_outcome::<S>(s) == Err::<SpecUri, SpecErr>(SpecErr::MissingEquals(pairs[i]))
        }),
{
    let rest = s.subrange(8, s.len() as int);
    let q = find_char(rest, '?');
    let addr_seg = rest.subrange(0, q);
    let base = SpecUri { addr: addr_canon(addr_seg), amount: None, label: None, message: None };
    lemma_missing_separator::<S>(
        split_on(rest.subrange(q + 1, rest.len() as int), '&'),
        base,
        i,
    );
}

/// Case-insensitive scheme: two inputs that agree after the scheme prefix
/// and both carry the scheme, in whatever letter case, owe the same
/// outcome.
pub proof fn lemma_scheme_case_insensitive<S: DeserializationState>(s: Seq<char>, t: Seq<char>)
    requires
        s.len() == t.len(),
        s.len() >= 8,
        scheme_ok(s),
        scheme_ok(t),
        forall|i: int| 8 <= i < s.len() ==> s[i] == t[i],
    ensures
        parse_outcome::<S>(s) == parse_outcome::<S>(t),
{
    assert(s.subrange(8, s.len() as int) =~= t.subrange(8, t.len() as int));
}

/// The text of one pair as it stands in the parameter part.
pub open spec fn pair_body(kv: (Seq<char>, Seq<char>)) -> Seq<char> {
    kv.0 + seq!['='] + kv.1
}

/// The pair texts from position `i` on.
pub open spec fn bodies_from(l: Seq<(Seq<char>, Seq<char>)>, i: int) -> Seq<Seq<char>> {
    Seq::new((l.len() - i) as nat, |t: int| pair_body(l[i + t]))
}

/// The character does not occur in the text.
pub open spec fn no_char(s: Seq<char>, c: char) -> bool {
    forall|t: int| 0 <= t < s.len() ==> s[t] != c
}

/// No key or value of the list holds the pair separator.
pub open spec fn list_amp_free(l: Seq<(Seq<char>, Seq<char>)>) -> bool {
    forall|i: int|
        0 <= i < l.len() ==> no_char((#[trigger] l[i]).0, '&') && no_char(l[i].1, '&')
}

/// A pair text holds no separator when its key and value hold none.
proof fn lemma_body_amp_free(kv: (Seq<char>, Seq<char>))
    requires
        no_char(kv.0, '&'),
        no_char(kv.1, '&'),
    ensures
        no_char(pair_body(kv), '&'),
{
    let b = pair_body(kv);
    assert forall|t: int| 0 <= t < b.len() implies b[t] != '&' by {
        if t < kv.0.len() {
            assert(b[t] == kv.0[t]);
        } else if t == kv.0.len() {
            assert(b[t] == '=');
        } else {
            assert(b[t] == kv.1[t - kv.0.len() - 1]);
        }
    }
}

/// Splitting the written parameter part on `&` recovers the pair texts.
proof fn lemma_split_tail(l: Seq<(Seq<char>, Seq<char>)>, i: int)
    requires
        0 <= i < l.len(),
        list_amp_free(l),
    ensures
        split_on(pair_body(l[i]) + params_text(l, i + 1), '&') == bodies_from(l, i),
    decreases l.len() - i,
{
    let b = pair_body(l[i]);
    lemma_body_amp_free(l[i]);
    if i + 1 == l.len() {
        assert(params_text(l, i + 1) =~= Seq::<char>::empty());
        let whole = b + params_text(l, i + 1);
        assert(whole =~= b);
        lemma_find_char_absent(b, '&');
        assert(split_on(b, '&') == seq![b]);
        assert(bodies_from(l, i) =~= seq![b]);
    } else {
        let s2 = pair_body(l[i + 1]) + params_text(l, i + 2);
        assert(params_text(l, i + 1) =~= seq!['&'] + s2);
        let whole = b + params_text(l, i + 1);
        assert(whole[b.len() as int] == '&');
        assert forall|t: int| 0 <= t < b.len() implies whole[t] != '&' by {
            assert(whole[t] == b[t]);
        }
        lemma_find_char_at(whole, '&', b.len() as int);
        assert(whole.subrange(0, b.len() as int) =~= b);
        assert(whole.subrange(b.len() as int + 1, whole.len() as int) =~= s2);
        lemma_split_tail(l, i + 1);
        assert(split_on(whole, '&') == seq![b] + split_on(s2, '&'));
        assert(seq![b] + bodies_from(l, i + 1) =~= bodies_from(l, i));
    }
}

/// The well-known keys hold no separator of the URI grammar.
proof fn lemma_keys_plain()
    ensures
        no_char(amount_key(), '='),
        no_char(amount_key(), '&'),
        no_char(amount_key(), '?'),
        no_char(label_key(), '='),
        no_char(label_key(), '&'),
        no_char(label_key(), '?'),
        no_char(message_key(), '='),
        no_char(message_key(), '&'),
        no_char(message_key(), '?'),
{
    assert forall|t: int| 0 <= t < amount_key().len() implies amount_key()[t] != '='
        && amount_key()[t] != '&' && amount_key()[t] != '?' by {
        if t == 0 {
        } else if t == 1 {
        } else if t == 2 {
        } else if t == 3 {
        } else if t == 4 {
        } else {
            assert(t == 5);
        }
    }
    assert forall|t: int| 0 <= t < label_key().len() implies label_key()[t] != '=' && label_key()[t]
        != '&' && label_key()[t] != '?' by {
        if t == 0 {
        } else if t == 1 {
        } else if t == 2 {
        } else if t == 3 {
        } else {
            assert(t == 4);
        }
    }
    assert forall|t: int| 0 <= t < message_key().len() implies message_key()[t] != '='
        && message_key()[t] != '&' && message_key()[t] != '?' by {
        if t == 0 {
        } else if t == 1 {
        } else if t == 2 {
        } else if t == 3 {
        } else if t == 4 {
        } else if t == 5 {
        } else {
            assert(t == 6);
        }
    }
}

/// Processing a pair text of a well-known key with an accepted value sets
/// that field and goes on with the rest.
proof fn lemma_process_body<S: DeserializationState>(
    pairs: Seq<Seq<char>>,
    acc: SpecUri,
    k: Seq<char>,
    v: Seq<char>,
)
    requires
        pairs.len() > 0,
        pairs[0] == k + seq!['='] + v,
        no_char(k, '='),
        (k == amount_key() && btc_ok(v)) || ((k == label_key() || k == message_key()) && pct_wf(v)),
    ensures
        process_pairs::<S>(pairs, acc) == process_pairs::<S>(
            pairs.drop_first(),
            if k == amount_key() {
                SpecUri {
                    addr: acc.addr,
                    amount: Some(btc_sats(v)),
                    label: acc.label,
                    message: acc.message,
                }
            } else if k == label_key() {
                SpecUri { addr: acc.addr, amount: acc.amount, label: Some(v), message: acc.message }
            } else {
                SpecUri { addr: acc.addr, amount: acc.amount, label: acc.label, message: Some(v) }
            },
        ),
{
    let p = pairs[0];
    assert(p[k.len() as int] == '=');
    assert forall|t: int| 0 <= t < k.len() implies p[t] != '=' by {
        assert(p[t] == k[t]);
    }
    lemma_find_char_at(p, '=', k.len() as int);
    assert(p.subrange(0, k.len() as int) =~= k);
    assert(p.subrange(k.len() as int + 1, p.len() as int) =~= v);
    lemma_keys_plain();
}

/// Round-trip: the text that a document with empty extensions formats to
/// parses back with the same address and amount, and with a label and a
/// message that decode to the same content.
pub proof fn lemma_format_parse_round_trip(u: crate::Uri<crate::NoExtras>)
    requires
        u.address.wf(),
        match u.amount {
            Some(n) => btc_ok(btc_text(n)) && btc_sats(btc_text(n)) == n,
            None => true,
        },
    ensures
        ({
            let out = parse_outcome::<crate::EmptyState>(uri_text(u, false));
            &&& out is Ok
            &&& out->Ok_0.addr == u.address@
            &&& out->Ok_0.amount == u.amount
            &&& match (u.label, out->Ok_0.label) {
                (Option::None, Option::None) => true,
                (Option::Some(p), Option::Some(raw)) => pct_decode(raw) == p@,
                _ => false,
            }
            &&& match (u.message, out->Ok_0.message) {
                (Option::None, Option::None) => true,
                (Option::Some(p), Option::Some(raw)) => pct_decode(raw) == p@,
                _ => false,
            }
        }),
{
    let s = uri_text(u, false);
    let addr = u.address@;
    let pairs = emit_pairs(u);
    let pt = params_text(pairs, 0);
    u.address.lemma_wf();
    lemma_keys_plain();
    assert forall|t: int| 0 <= t < addr.len() implies addr[t] != '?' && addr[t] != '&' && addr[t]
        != '=' by {
        assert(crate::address::ascii_alnum(addr[t]));
    }
    assert(s == scheme_chars(false) + addr + pt);
    assert(s[0] == 'b' && s[1] == 'i' && s[2] == 't' && s[3] == 'c' && s[4] == 'o' && s[5] == 'i'
        && s[6] == 'n' && s[7] == ':');
    assert(scheme_ok(s));
    let rest = s.subrange(8, s.len() as int);
    assert(rest =~= addr + pt);
    let base = SpecUri { addr: addr_canon(addr), amount: None, label: None, message: None };

    // How many pairs each field contributes, and what each pair is.
    let na: int = if u.amount is Some {
        1
    } else {
        0
    };
    let nl: int = if u.label is Some {
        1
    } else {
        0
    };
    let nm: int = if u.message is Some {
        1
    } else {
        0
    };
    assert(ext_pairs_enc(u.extras.params_spec()).len() == 0);
    assert(pairs.len() == na + nl + nm);

    if pairs.len() == 0 {
        assert(pt =~= Seq::<char>::empty());
        assert(rest =~= addr);
        lemma_find_char_absent(rest, '?');
        assert(addr_ok(rest) && addr_canon(rest) == addr);
        assert(parse_outcome::<crate::EmptyState>(s) == Ok::<SpecUri, SpecErr>(base));
    } else {
        let tail0 = pair_body(pairs[0]) + params_text(pairs, 1);
        assert(pt =~= seq!['?'] + tail0);
        assert(rest[addr.len() as int] == '?');
        assert forall|t: int| 0 <= t < addr.len() implies rest[t] != '?' by {
            assert(rest[t] == addr[t]);
        }
        lemma_find_char_at(rest, '?', addr.len() as int);
        assert(rest.subrange(0, addr.len() as int) =~= addr);
        assert(rest.subrange(addr.len() as int + 1, rest.len() as int) =~= tail0);

        // Identify each emitted pair and show neither key nor value holds `&`.
        if u.amount is Some {
            let n = u.amount->0;
            lemma_btc_text_plain(n);
            lemma_pct_encode_plain(btc_text(n));
            lemma_pct_encode_no_separator(encode_utf8(btc_text(n)));
            assert(pairs[0] == (amount_key(), pct_encode(encode_utf8(btc_text(n)))));
        }
        if u.label is Some {
            let p = u.label->0;
            lemma_pct_round_trip(p@);
            lemma_pct_encode_no_separator(p@);
            assert(pairs[na] == (label_key(), pct_encode(p@)));
        }
        if u.message is Some {
            let p = u.message->0;
            lemma_pct_round_trip(p@);
            lemma_pct_encode_no_separator(p@);
            assert(pairs[na + nl] == (message_key(), pct_encode(p@)));
        }
        assert forall|i: int| 0 <= i < pairs.len() implies no_char((#[trigger] pairs[i]).0, '&')
            && no_char(pairs[i].1, '&') by {
            if i < na {
                assert(pairs[i] == pairs[0]);
            } else if i < na + nl {
                assert(pairs[i] == pairs[na]);
            } else {
                assert(pairs[i] == pairs[na + nl]);
            }
        }
        lemma_split_tail(pairs, 0);
        assert(split_on(tail0, '&') == bodies_from(pairs, 0));
        let out = parse_outcome::<crate::EmptyState>(s);
        assert(out == process_pairs::<crate::EmptyState>(bodies_from(pairs, 0), base));

        // Walk the emitted pairs: each one sets its own field.
        let acc1: SpecUri;
        if u.amount is Some {
            let n = u.amount->0;
            let v = pct_encode(encode_utf8(btc_text(n)));
            assert(v == btc_text(n));
            assert(bodies_from(pairs, 0)[0] == pair_body(pairs[0]));
            acc1 = SpecUri { addr: base.addr, amount: Some(n), label: None, message: None };
            lemma_process_body::<crate::EmptyState>(bodies_from(pairs, 0), base, amount_key(), v);
            assert(bodies_from(pairs, 0).drop_first() =~= bodies_from(pairs, 1));
            assert(process_pairs::<crate::EmptyState>(bodies_from(pairs, 0), base)
                == process_pairs::<crate::EmptyState>(bodies_from(pairs, na), acc1));
        } else {
            acc1 = base;
        }
        let acc2: SpecUri;
        if u.label is Some {
            let p = u.label->0;
            let v = pct_encode(p@);
            assert(bodies_from(pairs, na)[0] == pair_body(pairs[na]));
            assert(label_key() != amount_key());
            acc2 = SpecUri { addr: acc1.addr, amount: acc1.amount, label: Some(v), message: None };
            lemma_process_body::<crate::EmptyState>(bodies_from(pairs, na), acc1, label_key(), v);
            assert(bodies_from(pairs, na).drop_first() =~= bodies_from(pairs, na + 1));
            assert(process_pairs::<crate::EmptyState>(bodies_from(pairs, na), acc1)
                == process_pairs::<crate::EmptyState>(bodies_from(pairs, na + nl), acc2));
        } else {
            acc2 = acc1;
        }
        let acc3: SpecUri;
        if u.message is Some {
            let p = u.message->0;
            let v = pct_encode(p@);
            assert(bodies_from(pairs, na + nl)[0] == pair_body(pairs[na + nl]));
            assert(message_key() != amount_key() && message_key() != label_key());
            acc3 = SpecUri {
                addr: acc2.addr,
                amount: acc2.amount,
                label: acc2.label,
                message: Some(v),
            };
            lemma_process_body::<crate::EmptyState>(
                bodies_from(pairs, na + nl),
                acc2,
                message_key(),
                v,
            );
            assert(bodies_from(pairs, na + nl).drop_first() =~= bodies_from(pairs, na + nl + 1));
            assert(process_pairs::<crate::EmptyState>(bodies_from(pairs, na + nl), acc2)
                == process_pairs::<crate::EmptyState>(bodies_from(pairs, na + nl + nm), acc3));
        } else {
            acc3 = acc2;
        }
        assert(bodies_from(pairs, pairs.len() as int) =~= Seq::<Seq<char>>::empty());
        assert(out == Ok::<SpecUri, SpecErr>(acc3));
        if u.label is Some {
            lemma_pct_round_trip(u.label->0@);
        }
        if u.message is Some {
            lemma_pct_round_trip(u.message->0@);
        }
    }
}

} // verus!
