//! The address collaborator: the library's address value, held in its
//! canonical text form, and the trusted calls into the address crate
//! that validate, render and network-check it.

use vstd::prelude::*;

verus! {

/// Whether the address crate accepts this text as a payment address.
pub uninterp spec fn addr_ok(s: Seq<char>) -> bool;

/// The canonical text that the address parsed from this text displays as.
pub uninterp spec fn addr_canon(s: Seq<char>) -> Seq<char>;

/// The alternate display of the address parsed from this text: bech32
/// addresses in upper case, every other kind as its canonical text.
pub uninterp spec fn addr_alt(s: Seq<char>) -> Seq<char>;

/// Whether the address in this text belongs to the network with this code.
pub uninterp spec fn addr_network_ok(s: Seq<char>, network: int) -> bool;

/// An ASCII letter or digit.
pub open spec fn ascii_alnum(c: char) -> bool {
    (0x30 <= c as u32 && c as u32 <= 0x39) || (0x41 <= c as u32 && c as u32 <= 0x5a) || (0x61
        <= c as u32 && c as u32 <= 0x7a)
}

/// The networks an address may belong to.
#[derive(Debug, Clone, Copy, PartialEq, Eq, Hash)]
pub enum Network {
    /// The main network.
    Bitcoin,
    /// The third test network.
    Testnet,
    /// The fourth test network.
    Testnet4,
    /// The signet test network.
    Signet,
    /// The local regression-test network.
    Regtest,
}

/// A distinct code for each network, for the network predicate.
pub open spec fn network_code(n: Network) -> int {
    match n {
        Network::Bitcoin => 0,
        Network::Testnet => 1,
        Network::Testnet4 => 2,
        Network::Signet => 3,
        Network::Regtest => 4,
    }
}

/// A payment address, held as the canonical text the address crate
/// renders it to.
pub struct Address {
    text: String,
    alt: String,
}

impl View for Address {
    type V = Seq<char>;

    closed spec fn view(&self) -> Seq<char> {
        self.text@
    }
}

impl Address {
    /// The canonical text is a valid address that re-parses to itself, is
    /// made of ASCII letters and digits, and determines the alternate text.
    #[verifier::type_invariant]
    pub closed spec fn wf(self) -> bool {
        &&& addr_ok(self.text@)
        &&& addr_canon(self.text@) == self.text@
        &&& self.alt@ == addr_alt(self.text@)
        &&& addr_ok(self.alt@)
        &&& addr_canon(self.alt@) == self.text@
        &&& forall|i: int| 0 <= i < self.text@.len() ==> ascii_alnum(#[trigger] self.text@[i])
        &&& forall|i: int| 0 <= i < self.alt@.len() ==> ascii_alnum(#[trigger] self.alt@[i])
    }

    /// What always holds of an address value.
    pub proof fn lemma_wf(&self)
        requires
            self.wf(),
        ensures
            addr_ok(self@),
            addr_canon(self@) == self@,
            forall|i: int| 0 <= i < self@.len() ==> ascii_alnum(#[trigger] self@[i]),
    {
    }

    /// Parses a text as a payment address, through the address crate.
    pub fn parse(s: &str) -> (r: Result<Address, bitcoin::address::ParseError>)
        ensures
            r is Ok <==> addr_ok(s@),
            r is Ok ==> r->Ok_0@ == addr_canon(s@),
    {
        match parse_address_raw(s) {
            Ok((text, alt)) => Ok(Address { text, alt }),
            Err(e) => Err(e),
        }
    }

    /// The canonical text of the address.
    pub fn to_string(&self) -> (r: String)
        ensures
            r@ == self@,
    {
        self.text.clone()
    }

    /// The alternate text of the address: bech32 addresses in upper case,
    /// intended for dense visual encodings.
    pub fn to_alternate_string(&self) -> (r: String)
        ensures
            r@ == addr_alt(self@),
    {
        proof {
            use_type_invariant(self);
        }
        self.alt.clone()
    }

    /// Checks, through the address crate, that the address belongs to the
    /// given network.
    pub fn require_network(&self, network: Network) -> (r: Result<
        (),
        bitcoin::address::ParseError,
    >)
        ensures
            r is Ok <==> addr_network_ok(self@, network_code(network)),
    {
        proof {
            use_type_invariant(self);
        }
        check_network_raw(self.text.as_str(), network)
    }
}

/// The parse error of the address crate, carried through unread.
#[verifier::external_type_specification]
#[verifier::external_body]
pub struct ExAddressParseError(bitcoin::address::ParseError);

/// Relies on `bitcoin::Address` parsing (`FromStr`) and display: parsing
/// is a deterministic check of the text; a parsed address displays as a
/// canonical text and as an alternate text (upper-case bech32), both made
/// of ASCII letters and digits, and both parse back to the same address,
/// so re-parsing either re-renders the same two texts.
#[verifier::external_body]
fn parse_address_raw(s: &str) -> (r: Result<(String, String), bitcoin::address::ParseError>)
    ensures
        r is Ok <==> addr_ok(s@),
        r is Ok ==> {
            let text = r->Ok_0.0@;
            let alt = r->Ok_0.1@;
            &&& text == addr_canon(s@)
            &&& alt == addr_alt(s@)
            &&& addr_ok(text) && addr_canon(text) == text && addr_alt(text) == alt
            &&& addr_ok(alt) && addr_canon(alt) == text && addr_alt(alt) == alt
            &&& forall|i: int| 0 <= i < text.len() ==> ascii_alnum(#[trigger] text[i])
            &&& forall|i: int| 0 <= i < alt.len() ==> ascii_alnum(#[trigger] alt[i])
        },
{
    let a = s.parse::<bitcoin::Address<bitcoin::address::NetworkUnchecked>>()?;
    let shown = a.assume_checked_ref();
    Ok((format!("{}", shown), format!("{:#}", shown)))
}

/// Relies on `bitcoin::Address::require_network`: it succeeds exactly when
/// the address in the (already validated) text belongs to the given network.
#[verifier::external_body]
fn check_network_raw(s: &str, network: Network) -> (r: Result<
    (),
    bitcoin::address::ParseError,
>)
    requires
        addr_ok(s@),
    ensures
        r is Ok <==> addr_network_ok(s@, network_code(network)),
{
    let net = match network {
        Network::Bitcoin => bitcoin::Network::Bitcoin,
        Network::Testnet => bitcoin::Network::Testnet,
        Network::Testnet4 => bitcoin::Network::Testnet4,
        Network::Signet => bitcoin::Network::Signet,
        Network::Regtest => bitcoin::Network::Regtest,
    };
    match s.parse::<bitcoin::Address<bitcoin::address::NetworkUnchecked>>() {
        Ok(a) => a.require_network(net).map(|_| ()),
        Err(e) => Err(e),
    }
}

} // verus!
