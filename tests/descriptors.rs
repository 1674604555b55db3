use simple_wallet::{
    chain_descriptor_of_root, chain_path_steps, descriptors_from_mnemonic, encode_descriptor,
    get_descriptors, hex_digit, parse_descriptor, path_text, raw_steps, Chain, ChildStep, Network,
    WalletError,
};

const ABANDON: &str = "abandon abandon abandon abandon abandon abandon abandon abandon abandon abandon abandon about";

fn origin_and_rest(desc: &str) -> (String, String) {
    let close = desc.find(']').unwrap();
    (desc[6..close].to_string(), desc[close + 1..].to_string())
}

#[test]
fn wallet_creation_gives_two_descriptors_with_one_fingerprint() {
    let (receive, change) = get_descriptors(Some([0x5a; 32])).unwrap();
    assert!(receive.starts_with("wpkh(["));
    assert!(change.starts_with("wpkh(["));
    assert!(receive.ends_with("/*)"));
    let (r_origin, r_rest) = origin_and_rest(&receive);
    let (c_origin, c_rest) = origin_and_rest(&change);
    assert_eq!(&r_origin[8..], "/84'/1'/0'/0");
    assert_eq!(&c_origin[8..], "/84'/1'/0'/1");
    assert_eq!(r_origin[..8], c_origin[..8]);
    assert!(r_origin[..8].chars().all(|c| c.is_ascii_hexdigit() && !c.is_ascii_uppercase()));
    assert!(r_rest.starts_with("tprv"));
    assert!(c_rest.starts_with("tprv"));
    assert_ne!(r_rest, c_rest);
}

#[test]
fn fresh_wallets_differ() {
    let a = get_descriptors(Some([1; 32])).unwrap();
    let b = get_descriptors(Some([2; 32])).unwrap();
    assert_ne!(a, b);
    assert_eq!(get_descriptors(Some([1; 32])).unwrap(), a);
}

#[test]
fn generated_phrases_always_read() {
    for seed in [0u8, 1, 0x7f, 0xff] {
        let r = get_descriptors(Some([seed; 32]));
        assert!(r.is_ok());
    }
}

#[test]
fn no_entropy_no_wallet() {
    assert_eq!(get_descriptors(None), Err(WalletError::Entropy));
}

#[test]
fn zero_entropy_is_the_abandon_mnemonic() {
    let from_entropy = get_descriptors(Some([0; 32])).unwrap();
    let from_phrase = descriptors_from_mnemonic(ABANDON, "random password", Network::Regtest).unwrap();
    assert_eq!(from_entropy, from_phrase);
}

#[test]
fn derivation_is_deterministic() {
    let a = descriptors_from_mnemonic(ABANDON, "random password", Network::Regtest).unwrap();
    let b = descriptors_from_mnemonic(ABANDON, "random password", Network::Regtest).unwrap();
    assert_eq!(a, b);
}

#[test]
fn known_mnemonic_has_known_fingerprint() {
    let (receive, change) = descriptors_from_mnemonic(ABANDON, "", Network::Bitcoin).unwrap();
    assert!(receive.starts_with("wpkh([73c5da0a/84'/1'/0'/0]xprv"));
    assert!(change.starts_with("wpkh([73c5da0a/84'/1'/0'/1]xprv"));
}

#[test]
fn passphrase_changes_the_keys() {
    let a = descriptors_from_mnemonic(ABANDON, "", Network::Regtest).unwrap();
    let b = descriptors_from_mnemonic(ABANDON, "random password", Network::Regtest).unwrap();
    assert_ne!(a.0[6..14], b.0[6..14]);
    assert_ne!(a, b);
}

#[test]
fn test_networks_write_tprv() {
    let (receive, _) = descriptors_from_mnemonic(ABANDON, "", Network::Regtest).unwrap();
    assert!(receive.starts_with("wpkh([73c5da0a/84'/1'/0'/0]tprv"));
}

#[test]
fn bad_mnemonic_is_rejected() {
    let bad = "abandon abandon abandon abandon abandon abandon abandon abandon abandon abandon abandon abandon";
    assert_eq!(descriptors_from_mnemonic(bad, "", Network::Regtest), Err(WalletError::InvalidMnemonic));
    assert_eq!(descriptors_from_mnemonic("not words", "", Network::Regtest), Err(WalletError::InvalidMnemonic));
}

#[test]
fn bad_root_key_is_a_derivation_error() {
    assert_eq!(
        chain_descriptor_of_root("tprvnotakey", Chain::Change),
        Err(WalletError::Derivation { chain: Some(Chain::Change) })
    );
    assert_eq!(
        chain_descriptor_of_root("", Chain::Receive),
        Err(WalletError::Derivation { chain: Some(Chain::Receive) })
    );
}

#[test]
fn descriptor_encoding_is_exact() {
    let path = chain_path_steps(Chain::Receive);
    let d = encode_descriptor(0xdeadbeef, &path, "tprvKEY");
    assert_eq!(d, "wpkh([deadbeef/84'/1'/0'/0]tprvKEY/*)");
    let d = encode_descriptor(0x0000_00a1, &chain_path_steps(Chain::Change), "k");
    assert_eq!(d, "wpkh([000000a1/84'/1'/0'/1]k/*)");
}

#[test]
fn path_text_and_raw_steps() {
    let path = chain_path_steps(Chain::Change);
    let text: String = path_text(&path).into_iter().collect();
    assert_eq!(text, "/84'/1'/0'/1");
    assert_eq!(raw_steps(&path), vec![0x8000_0054, 0x8000_0001, 0x8000_0000, 1]);
    assert_eq!(hex_digit(11), 'b');
    assert_eq!(hex_digit(7), '7');
}

#[test]
fn descriptor_round_trip_on_generated_wallet() {
    let (receive, change) = get_descriptors(Some([0xc3; 32])).unwrap();
    for d in [receive, change] {
        let parts = parse_descriptor(&d).unwrap();
        assert_eq!(encode_descriptor(parts.fingerprint, &parts.path, &parts.key), d);
    }
}

#[test]
fn parse_reads_the_parts() {
    let parts = parse_descriptor("wpkh([deadbeef/84'/1'/0'/7]tprvKEY/*)").unwrap();
    assert_eq!(parts.fingerprint, 0xdeadbeef);
    assert_eq!(
        parts.path,
        vec![
            ChildStep { index: 84, hardened: true },
            ChildStep { index: 1, hardened: true },
            ChildStep { index: 0, hardened: true },
            ChildStep { index: 7, hardened: false },
        ]
    );
    assert_eq!(parts.key, "tprvKEY");
    let empty = parse_descriptor("wpkh([00000000]abc/*)").unwrap();
    assert!(empty.path.is_empty());
}

#[test]
fn parse_rejects_malformed_text() {
    assert!(parse_descriptor("wpkh([deadbeef/084'/1'/0'/0]tprvKEY/*)").is_none());
    assert!(parse_descriptor("wpkh([DEADBEEF/84'/1'/0'/0]tprvKEY/*)").is_none());
    assert!(parse_descriptor("wpkh([deadbeef/84'/1'/0'/0]tprvKEY)").is_none());
    assert!(parse_descriptor("pkh([deadbeef/84'/1'/0'/0]tprvKEY/*)").is_none());
    assert!(parse_descriptor("wpkh([deadbeef/84'/1'//0]tprvKEY/*)").is_none());
    assert!(parse_descriptor("wpkh([deadbeef/2147483648]tprvKEY/*)").is_none());
    assert!(parse_descriptor("wpkh([deadbeef/84'/1'/0'/0]tp-rv/*)").is_none());
    assert!(parse_descriptor("wpkh([deadbeef/84'/1'/0'/0]/*)").is_none());
    assert!(parse_descriptor("").is_none());
}

#[test]
fn namespace_is_stable_and_network_bound() {
    let (receive, change) = descriptors_from_mnemonic(ABANDON, "random password", Network::Regtest).unwrap();
    let a = simple_wallet::wallet_namespace(&receive, &change, Network::Regtest).unwrap();
    let b = simple_wallet::wallet_namespace(&receive, &change, Network::Regtest).unwrap();
    assert_eq!(a, b);
    assert_eq!(a.len(), 16);
    let swapped = simple_wallet::wallet_namespace(&change, &receive, Network::Regtest).unwrap();
    assert_eq!(swapped, format!("{}{}", &a[8..], &a[..8]));
    assert_eq!(
        simple_wallet::wallet_namespace(&receive, &change, Network::Bitcoin),
        Err(WalletError::Derivation { chain: None })
    );
    assert_eq!(
        simple_wallet::wallet_namespace("wpkh(nonsense)", &change, Network::Regtest),
        Err(WalletError::Derivation { chain: None })
    );
    let deeper = receive.replace("/*)", "/0'/*)");
    assert_eq!(
        simple_wallet::wallet_namespace(&deeper, &change, Network::Regtest),
        Err(WalletError::Derivation { chain: None })
    );
}
