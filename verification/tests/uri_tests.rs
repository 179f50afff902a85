use bip21::address::Address;
use bip21::address::Network;
use bip21::de::Error;
use bip21::de::ParamKind;
use bip21::de::UriError;
use bip21::de::DeserializationState;
use bip21::Param;
use bip21::Uri;

fn check_send_sync<T: Send + Sync>() {}

#[test]
fn send_sync() {
    check_send_sync::<bip21::de::UriError>();
}

// Note: the official test vectors contained an invalid address so it was
// replaced with the address of Andreas Antonopoulos.

#[test]
fn just_address() {
    let input = "bitcoin:1andreas3batLhQa2FawWjeyjCqyBzypd";
    let uri = input.parse::<Uri>().unwrap();
    assert_eq!(uri.address.to_string(), "1andreas3batLhQa2FawWjeyjCqyBzypd");
    assert!(uri.amount.is_none());
    assert!(uri.label.is_none());
    assert!(uri.message.is_none());

    assert_eq!(uri.to_string(), input);
}

#[test]
fn address_with_name() {
    let input = "bitcoin:1andreas3batLhQa2FawWjeyjCqyBzypd?label=Luke-Jr";
    let uri = input.parse::<Uri>().unwrap();
    let label: String = uri.label.clone().unwrap().try_into_string().unwrap();
    assert_eq!(uri.address.to_string(), "1andreas3batLhQa2FawWjeyjCqyBzypd");
    assert_eq!(label, "Luke-Jr");
    assert!(uri.amount.is_none());
    assert!(uri.message.is_none());

    assert_eq!(uri.to_string(), input);
}

#[test]
fn request_20_point_30_btc_to_luke_dash_jr() {
    let input = "bitcoin:1andreas3batLhQa2FawWjeyjCqyBzypd?amount=20.30000000&label=Luke-Jr";
    let uri = input.parse::<Uri>().unwrap();
    let label: String = uri.label.clone().unwrap().try_into_string().unwrap();
    assert_eq!(uri.address.to_string(), "1andreas3batLhQa2FawWjeyjCqyBzypd");
    assert_eq!(label, "Luke-Jr");
    assert_eq!(uri.amount, Some(20_30_000_000));
    assert!(uri.message.is_none());

    assert_eq!(uri.to_string(), input);
}

#[test]
fn request_50_btc_with_message() {
    let input = "bitcoin:1andreas3batLhQa2FawWjeyjCqyBzypd?amount=50.00000000&label=Luke-Jr&message=Donation%20for%20project%20xyz";
    let uri = input.parse::<Uri>().unwrap();
    let label: String = uri.label.clone().unwrap().try_into_string().unwrap();
    let message: String = uri.message.clone().unwrap().try_into_string().unwrap();
    assert_eq!(uri.address.to_string(), "1andreas3batLhQa2FawWjeyjCqyBzypd");
    assert_eq!(uri.amount, Some(50_00_000_000));
    assert_eq!(label, "Luke-Jr");
    assert_eq!(message, "Donation for project xyz");

    assert_eq!(uri.to_string(), input);
}

#[test]
fn required_not_understood() {
    let input = "bitcoin:1andreas3batLhQa2FawWjeyjCqyBzypd?req-somethingyoudontunderstand=50&req-somethingelseyoudontget=999";
    let uri = input.parse::<Uri>();
    assert!(uri.is_err());
}

#[test]
fn required_understood() {
    let input = "bitcoin:1andreas3batLhQa2FawWjeyjCqyBzypd?somethingyoudontunderstand=50&somethingelseyoudontget=999";
    let uri = input.parse::<Uri>().unwrap();
    assert_eq!(uri.address.to_string(), "1andreas3batLhQa2FawWjeyjCqyBzypd");
    assert!(uri.amount.is_none());
    assert!(uri.label.is_none());
    assert!(uri.message.is_none());
}

#[test]
fn required_error_names_the_key() {
    let input = "bitcoin:1andreas3batLhQa2FawWjeyjCqyBzypd?req-unknown=50";
    match input.parse::<Uri>() {
        Err(Error::Uri(UriError::UnknownRequiredParameter(key))) => {
            assert_eq!(key, "req-unknown");
        }
        other => panic!("expected the required-unknown error, got {:?}", other.err()),
    }
}

#[test]
fn unknown_keys_ignored() {
    let input = "bitcoin:1andreas3batLhQa2FawWjeyjCqyBzypd?unknown=50&other=999";
    let uri = input.parse::<Uri>().unwrap();
    assert!(uri.amount.is_none());
    assert!(uri.label.is_none());
    assert!(uri.message.is_none());
}

#[test]
fn scheme_case_does_not_matter() {
    let upper = "BITCOIN:1andreas3batLhQa2FawWjeyjCqyBzypd";
    let mixed = "BiTcOiN:1andreas3batLhQa2FawWjeyjCqyBzypd";
    assert!(upper.parse::<Uri>().is_ok());
    assert!(mixed.parse::<Uri>().is_ok());
}

#[test]
fn missing_equals_names_the_pair() {
    let input = "bitcoin:1andreas3batLhQa2FawWjeyjCqyBzypd?label";
    match input.parse::<Uri>() {
        Err(Error::Uri(UriError::MissingEquals(pair))) => {
            assert_eq!(pair, "label");
        }
        other => panic!("expected the missing-separator error, got {:?}", other.err()),
    }
}

#[test]
fn too_short_input() {
    match "btc".parse::<Uri>() {
        Err(Error::Uri(UriError::TooShort)) => {}
        other => panic!("expected the too-short error, got {:?}", other.err()),
    }
}

#[test]
fn wrong_scheme() {
    match "bitcoim:1andreas3batLhQa2FawWjeyjCqyBzypd".parse::<Uri>() {
        Err(Error::Uri(UriError::InvalidScheme)) => {}
        other => panic!("expected the invalid-scheme error, got {:?}", other.err()),
    }
}

#[test]
fn bad_address() {
    match "bitcoin:notanaddress!".parse::<Uri>() {
        Err(Error::Uri(UriError::Address(_))) => {}
        other => panic!("expected the address error, got {:?}", other.err()),
    }
}

#[test]
fn bad_amount() {
    match "bitcoin:1andreas3batLhQa2FawWjeyjCqyBzypd?amount=xyz".parse::<Uri>() {
        Err(Error::Uri(UriError::Amount(_))) => {}
        other => panic!("expected the amount error, got {:?}", other.err()),
    }
}

#[test]
fn bad_percent_encoding_names_the_key() {
    match "bitcoin:1andreas3batLhQa2FawWjeyjCqyBzypd?label=%zz".parse::<Uri>() {
        Err(Error::Uri(UriError::PercentDecode { parameter, .. })) => {
            assert_eq!(parameter, "label");
        }
        other => panic!("expected the percent-decode error, got {:?}", other.err()),
    }
}

#[test]
fn last_amount_wins() {
    let input = "bitcoin:1andreas3batLhQa2FawWjeyjCqyBzypd?amount=1.00000000&amount=2.00000000";
    let uri = input.parse::<Uri>().unwrap();
    assert_eq!(uri.amount, Some(2_00_000_000));
}

#[test]
fn label_round_trip_with_reserved_characters() {
    let address = Address::parse("1andreas3batLhQa2FawWjeyjCqyBzypd").unwrap();
    let mut uri: Uri = Uri::new(address);
    uri.label = Some(Param::from_text(String::from("a&b ?=c%d\u{00e9}")));
    uri.message = Some(Param::from_text(String::from("two words")));
    let text = uri.to_string();
    let parsed = text.parse::<Uri>().unwrap();
    let label: String = parsed.label.unwrap().try_into_string().unwrap();
    let message: String = parsed.message.unwrap().try_into_string().unwrap();
    assert_eq!(label, "a&b ?=c%d\u{00e9}");
    assert_eq!(message, "two words");
}

#[test]
fn format_percent_encodes_reserved_characters() {
    let address = Address::parse("1andreas3batLhQa2FawWjeyjCqyBzypd").unwrap();
    let mut uri: Uri = Uri::new(address);
    uri.message = Some(Param::from_text(String::from("Donation for project xyz")));
    let text = uri.to_string();
    assert_eq!(
        text,
        "bitcoin:1andreas3batLhQa2FawWjeyjCqyBzypd?message=Donation%20for%20project%20xyz"
    );
}

#[test]
fn amount_renders_full_precision() {
    let address = Address::parse("1andreas3batLhQa2FawWjeyjCqyBzypd").unwrap();
    let mut uri: Uri = Uri::new(address);
    uri.amount = Some(20_30_000_000);
    assert_eq!(
        uri.to_string(),
        "bitcoin:1andreas3batLhQa2FawWjeyjCqyBzypd?amount=20.30000000"
    );
}

#[test]
fn alternate_form_uses_upper_case() {
    let input = "bitcoin:bc1qw508d6qejxtdg4y5r3zarvary0c5xw7kv8f3t4";
    let uri = input.parse::<Uri>().unwrap();
    let alt = uri.to_string_alternate();
    assert_eq!(alt, "BITCOIN:BC1QW508D6QEJXTDG4Y5R3ZARVARY0C5XW7KV8F3T4");
    let back = alt.parse::<Uri>().unwrap();
    assert_eq!(back.address.to_string(), "bc1qw508d6qejxtdg4y5r3zarvary0c5xw7kv8f3t4");
}

#[test]
fn network_check() {
    let uri = "bitcoin:1andreas3batLhQa2FawWjeyjCqyBzypd".parse::<Uri>().unwrap();
    let checked = uri.require_network(Network::Bitcoin).unwrap();
    assert!(checked.require_network(Network::Testnet).is_err());
}

#[test]
fn assume_checked_changes_nothing() {
    let uri = "bitcoin:1andreas3batLhQa2FawWjeyjCqyBzypd".parse::<Uri>().unwrap();
    let same = uri.assume_checked();
    assert_eq!(same.address.to_string(), "1andreas3batLhQa2FawWjeyjCqyBzypd");
}

#[test]
fn into_static_keeps_content() {
    let input = "bitcoin:1andreas3batLhQa2FawWjeyjCqyBzypd?label=Luke-Jr";
    let uri = input.parse::<Uri>().unwrap().into_static();
    let label: String = uri.label.unwrap().try_into_string().unwrap();
    assert_eq!(label, "Luke-Jr");
}

#[test]
fn param_byte_views_agree() {
    let p = Param::decode("a%20b").unwrap();
    assert_eq!(p.bytes(), b"a b".to_vec());
    assert_eq!(p.clone().into_bytes(), b"a b".to_vec());
    let q = Param::from_byte_vec(vec![0x61, 0x20, 0x62]);
    assert_eq!(q.bytes(), b"a b".to_vec());
}

#[test]
fn param_decode_rejects_bad_escapes() {
    assert!(Param::decode("50%").is_err());
    assert!(Param::decode("%4g").is_err());
    assert!(Param::decode("%41").is_ok());
}

#[test]
fn param_non_text_bytes_are_not_text() {
    let p = Param::from_byte_vec(vec![0xff, 0xfe]);
    assert!(p.try_into_string().is_none());
}

#[test]
fn empty_state_knows_nothing() {
    let mut state = bip21::EmptyState::default();
    assert!(!state.is_param_known("anything"));
    let kind = state
        .deserialize_temp("anything", Param::from_text(String::from("v")))
        .unwrap();
    assert!(matches!(kind, ParamKind::Unknown));
    assert_eq!(state.finalize().unwrap(), bip21::NoExtras);
}

#[test]
fn error_messages_name_the_fragment() {
    let err = match "bitcoin:1andreas3batLhQa2FawWjeyjCqyBzypd?req-x=1".parse::<Uri>() {
        Err(e) => e,
        Ok(_) => panic!("expected an error"),
    };
    assert_eq!(err.message(), "invalid BIP21 URI");
    match err {
        Error::Uri(inner) => {
            assert_eq!(
                inner.message(),
                "the URI contains unknown required parameter 'req-x'"
            );
        }
        Error::Extras(_) => panic!("expected a structure error"),
    }
    let err = match "bitcoin:1andreas3batLhQa2FawWjeyjCqyBzypd?x".parse::<Uri>() {
        Err(e) => e,
        Ok(_) => panic!("expected an error"),
    };
    match err {
        Error::Uri(inner) => {
            assert_eq!(inner.message(), "the parameter 'x' is missing a value");
        }
        Error::Extras(_) => panic!("expected a structure error"),
    }
}

#[test]
fn param_from_string() {
    let address = Address::parse("1andreas3batLhQa2FawWjeyjCqyBzypd").unwrap();
    let mut uri: Uri = Uri::new(address);
    uri.label = Some(Param::from(String::from("Luke-Jr")));
    assert_eq!(uri.to_string(), "bitcoin:1andreas3batLhQa2FawWjeyjCqyBzypd?label=Luke-Jr");
}

#[test]
fn with_extras_starts_empty() {
    let address = Address::parse("1andreas3batLhQa2FawWjeyjCqyBzypd").unwrap();
    let uri = Uri::with_extras(address, bip21::NoExtras);
    assert!(uri.amount.is_none());
    assert!(uri.label.is_none());
    assert!(uri.message.is_none());
    assert_eq!(uri.to_string(), "bitcoin:1andreas3batLhQa2FawWjeyjCqyBzypd");
}
