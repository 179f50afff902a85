//! The amount collaborator: the decimal text of a satoshi amount in the
//! whole-coin denomination, and the trusted calls into the amount crate
//! that parse and render it.

use vstd::prelude::*;
use crate::codec::hex_char;
use crate::codec::plain_char;

verus! {

/// The decimal digits of a number, most significant first.
pub open spec fn dec_digits(n: nat) -> Seq<char>
    decreases n,
{
    if n < 10 {
        seq![hex_char(n as u8)]
    } else {
        dec_digits(n / 10) + seq![hex_char((n % 10) as u8)]
    }
}

/// The decimal digits of a number, zero-padded to a fixed width.
pub open spec fn dec_pad(n: nat, width: nat) -> Seq<char>
    decreases width,
{
    if width == 0 {
        Seq::empty()
    } else {
        dec_pad(n / 10, (width - 1) as nat) + seq![hex_char((n % 10) as u8)]
    }
}

/// The full-precision decimal text of a satoshi amount in the whole-coin
/// denomination: the whole coins, a point, and eight fraction digits.
pub open spec fn btc_text(sats: u64) -> Seq<char> {
    dec_digits((sats / 100000000) as nat) + seq!['.'] + dec_pad((sats % 100000000) as nat, 8)
}

/// Whether the amount crate accepts this text as a whole-coin decimal.
pub uninterp spec fn btc_ok(s: Seq<char>) -> bool;

/// The satoshi count the amount crate reads from this text.
pub uninterp spec fn btc_sats(s: Seq<char>) -> u64;

/// The parse error of the amount crate, carried through unread.
#[verifier::external_type_specification]
#[verifier::external_body]
pub struct ExParseAmountError(bitcoin::amount::ParseAmountError);

/// Relies on `bitcoin::Amount::from_str_in` in the whole-coin denomination:
/// it is a deterministic check of the text that reads a satoshi count.
#[verifier::external_body]
pub(crate) fn parse_amount(s: &str) -> (r: Result<u64, bitcoin::amount::ParseAmountError>)
    ensures
        r is Ok <==> btc_ok(s@),
        r is Ok ==> r->Ok_0 == btc_sats(s@),
{
    bitcoin::Amount::from_str_in(s, bitcoin::amount::Denomination::Bitcoin).map(|a| a.to_sat())
}

/// Relies on `bitcoin::Amount::display_in` at fraction width eight: the
/// text is the full-precision decimal form, and `from_str_in` reads that
/// text back as the same satoshi count.
#[verifier::external_body]
pub(crate) fn render_amount(sats: u64) -> (r: String)
    ensures
        r@ == btc_text(sats),
        btc_ok(r@),
        btc_sats(r@) == sats,
{
    let amount = bitcoin::Amount::from_sat(sats);
    format!("{:.8}", amount.display_in(bitcoin::amount::Denomination::Bitcoin))
}

/// The decimal text of an amount is made of plain characters: digits and
/// the point, which percent-encoding passes through unchanged.
pub proof fn lemma_btc_text_plain(sats: u64)
    ensures
        forall|i: int| 0 <= i < btc_text(sats).len() ==> plain_char(#[trigger] btc_text(sats)[i]),
{
    lemma_dec_digits_plain((sats / 100000000) as nat);
    lemma_dec_pad_plain((sats % 100000000) as nat, 8);
    assert(plain_char('.'));
}

/// Decimal digits are plain characters.
pub proof fn lemma_dec_digits_plain(n: nat)
    ensures
        forall|i: int| 0 <= i < dec_digits(n).len() ==> plain_char(#[trigger] dec_digits(n)[i]),
    decreases n,
{
    if n < 10 {
        assert(plain_char(hex_char(n as u8)));
    } else {
        lemma_dec_digits_plain(n / 10);
        assert(plain_char(hex_char((n % 10) as u8)));
        let head = dec_digits(n / 10);
        assert forall|i: int| 0 <= i < dec_digits(n).len() implies plain_char(
            #[trigger] dec_digits(n)[i],
        ) by {
            if i < head.len() {
                assert(dec_digits(n)[i] == head[i]);
            } else {
                assert(dec_digits(n)[i] == hex_char((n % 10) as u8));
            }
        }
    }
}

/// Zero-padded decimal digits are plain characters.
pub proof fn lemma_dec_pad_plain(n: nat, width: nat)
    ensures
        forall|i: int|
            0 <= i < dec_pad(n, width).len() ==> plain_char(#[trigger] dec_pad(n, width)[i]),
    decreases width,
{
    if width > 0 {
        lemma_dec_pad_plain(n / 10, (width - 1) as nat);
        assert(plain_char(hex_char((n % 10) as u8)));
        let head = dec_pad(n / 10, (width - 1) as nat);
        assert forall|i: int| 0 <= i < dec_pad(n, width).len() implies plain_char(
            #[trigger] dec_pad(n, width)[i],
        ) by {
            if i < head.len() {
                assert(dec_pad(n, width)[i] == head[i]);
            } else {
                assert(dec_pad(n, width)[i] == hex_char((n % 10) as u8));
            }
        }
    }
}

} // verus!
