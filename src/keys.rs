use std::str::FromStr;

use bdk::bitcoin::secp256k1::Secp256k1;
use bdk::bitcoin::util::bip32::{ChildNumber, ExtendedPrivKey};
use bdk::blockchain::rpc::wallet_name_from_descriptor;
use bdk::keys::bip39::{Language, Mnemonic, MnemonicType};
use bdk::keys::{DerivableKey, ExtendedKey, GeneratableKey, GeneratedKey};
use bdk::miniscript::miniscript::Segwitv0;
use vstd::prelude::*;

use crate::error::{Chain, WalletError};
use crate::parse::{descriptor_round_trip, key_ok, parse_descriptor, parse_spec};
use crate::text::{hex8, hex_width, path_text_spec, path_wf, push_hex, push_path, raw_path, ChildStep};

verus! {

/// The network a wallet's keys are bound to.
#[derive(Clone, Copy, Debug, PartialEq, Eq, Structural)]
pub enum Network {
    Bitcoin,
    Testnet,
    Signet,
    Regtest,
}

/// The twelve-word English phrase that BIP-39 gives for the first sixteen bytes of
/// `entropy`.
pub uninterp spec fn phrase_of(entropy: Seq<u8>) -> Seq<char>;

/// `phrase` reads as an English BIP-39 mnemonic: known words and a matching checksum.
pub uninterp spec fn mnemonic_ok(phrase: Seq<char>) -> bool;

/// The master key can be made from the seed of the mnemonic and passphrase.
pub uninterp spec fn root_ok(phrase: Seq<char>, passphrase: Seq<char>) -> bool;

/// Base58 text of the root extended private key for a mnemonic and passphrase
/// (mainnet or test version bytes).
pub uninterp spec fn root_key_of(phrase: Seq<char>, passphrase: Seq<char>, mainnet: bool) -> Seq<char>;

/// `key` reads as a base58 extended private key.
pub uninterp spec fn xprv_ok(key: Seq<char>) -> bool;

/// The depth byte of an extended private key.
pub uninterp spec fn depth_of(key: Seq<char>) -> u8;

/// Every step of `path` from `parent` gives a valid child key.
pub uninterp spec fn child_derivable(parent: Seq<char>, path: Seq<u32>) -> bool;

/// Base58 text of the extended private key reached from `parent` along `path`.
pub uninterp spec fn child_key_of(parent: Seq<char>, path: Seq<u32>) -> Seq<char>;

/// The fingerprint of an extended private key, its first four bytes read big-endian.
pub uninterp spec fn fingerprint_of(key: Seq<char>) -> u32;

/// Both descriptors read, and their keys belong to the network (by its `network_code`).
pub uninterp spec fn namespace_ok(receive: Seq<char>, change: Seq<char>, network: nat) -> bool;

/// The store namespace of a wallet: the checksums of its two descriptors, as read on a
/// network (by its `network_code`).
pub uninterp spec fn namespace_of(receive: Seq<char>, change: Seq<char>, network: nat) -> Seq<char>;

pub open spec fn network_code(n: Network) -> nat {
    match n {
        Network::Bitcoin => 0,
        Network::Testnet => 1,
        Network::Signet => 2,
        Network::Regtest => 3,
    }
}

pub open spec fn count_spaces(s: Seq<char>) -> nat
    decreases s.len(),
{
    if s.len() == 0 {
        0
    } else {
        count_spaces(s.drop_last()) + if s.last() == ' ' { 1nat } else { 0nat }
    }
}

/// Relies on bdk's `GeneratableKey::generate_with_entropy` for a twelve-word English
/// mnemonic: it keeps the first sixteen bytes, which tiny-bip39's `from_entropy` always
/// accepts, and the phrase is the twelve words joined by single spaces, with the
/// checksum word that `Mnemonic::from_phrase` checks.
#[verifier::external_body]
fn phrase_from_entropy(entropy: &[u8; 32]) -> (r: Option<String>)
    ensures
        r is Some,
        r matches Some(p) ==> p@ == phrase_of(entropy@) && count_spaces(p@) == 11 && mnemonic_ok(
            p@,
        ),
{
    let generated: Result<GeneratedKey<Mnemonic, Segwitv0>, _> =
        Mnemonic::generate_with_entropy((MnemonicType::Words12, Language::English), *entropy);
    generated.ok().map(|m| m.into_key().phrase().to_string())
}

/// Relies on bdk's `into_extended_key` for a mnemonic with a passphrase: the BIP-39 seed,
/// then the BIP-32 master key (depth 0), written as base58 for the network. The phrase
/// is read by tiny-bip39's `Mnemonic::from_phrase`, which refuses words or a checksum
/// that do not form an English mnemonic.
#[verifier::external_body]
fn master_key_text(phrase: &str, passphrase: &str, network: Network) -> (r: Result<String, WalletError>)
    ensures
        r is Ok <==> (mnemonic_ok(phrase@) && root_ok(phrase@, passphrase@)),
        r is Err ==> (r->Err_0 == WalletError::InvalidMnemonic) == !mnemonic_ok(phrase@),
        r is Err ==> r->Err_0 == WalletError::InvalidMnemonic || r->Err_0 == (WalletError::Derivation { chain: None }),
        r is Ok ==> r->Ok_0@ == root_key_of(phrase@, passphrase@, network == Network::Bitcoin)
            && xprv_ok(r->Ok_0@) && depth_of(r->Ok_0@) == 0,
{
    let net = match network {
        Network::Bitcoin => bdk::bitcoin::Network::Bitcoin,
        Network::Testnet => bdk::bitcoin::Network::Testnet,
        Network::Signet => bdk::bitcoin::Network::Signet,
        Network::Regtest => bdk::bitcoin::Network::Regtest,
    };
    let m = Mnemonic::from_phrase(phrase, Language::English).map_err(|_| WalletError::InvalidMnemonic)?;
    let key: ExtendedKey<Segwitv0> =
        (m, Some(passphrase.to_string())).into_extended_key().map_err(|_| WalletError::Derivation { chain: None })?;
    key.into_xprv(net).map(|x| x.to_string()).ok_or(WalletError::Derivation { chain: None })
}

/// Relies on bitcoin's `ExtendedPrivKey::from_str` (base58 check, 78 bytes, a known
/// version) and its `depth` field.
#[verifier::external_body]
fn key_depth(key: &str) -> (r: Option<u8>)
    ensures
        r is Some <==> xprv_ok(key@),
        r matches Some(d) ==> d == depth_of(key@),
{
    ExtendedPrivKey::from_str(key).ok().map(|k| k.depth)
}

/// Relies on bitcoin's `ExtendedPrivKey::derive_priv`: private child derivation along
/// the path (the top bit of a step marks it hardened), read and written as base58.
/// Each step adds one to the `u8` depth, so the path must fit below 256.
#[verifier::external_body]
fn derive_child_text(parent: &str, path: &Vec<u32>) -> (r: Option<String>)
    requires
        xprv_ok(parent@),
        depth_of(parent@) + path@.len() <= 255,
    ensures
        r is Some <==> child_derivable(parent@, path@),
        r matches Some(k) ==> k@ == child_key_of(parent@, path@) && key_ok(k@),
{
    let secp = Secp256k1::new();
    let xprv = ExtendedPrivKey::from_str(parent).ok()?;
    let steps: Vec<ChildNumber> = path.iter().map(|&i| ChildNumber::from(i)).collect();
    xprv.derive_priv(&secp, &steps).ok().map(|k| k.to_string())
}

/// Relies on bitcoin's `ExtendedPrivKey::fingerprint`: the first four bytes of the
/// key's identifier, read from base58 by `ExtendedPrivKey::from_str`.
#[verifier::external_body]
fn key_fingerprint(key: &str) -> (r: Option<u32>)
    ensures
        r is Some <==> xprv_ok(key@),
        r matches Some(f) ==> f == fingerprint_of(key@),
{
    let secp = Secp256k1::new();
    let xprv = ExtendedPrivKey::from_str(key).ok()?;
    Some(u32::from_be_bytes(xprv.fingerprint(&secp).into_bytes()))
}

/// Relies on bdk's `wallet_name_from_descriptor`: the eight-character checksum of each
/// descriptor as read for the network, receive first; it fails on a descriptor that
/// does not read or whose keys belong to another network. Only descriptors of this
/// library's form are handed on: after their key comes nothing but `/*`, so reading
/// them derives no child key (a hardened step after a key of depth 255 would overflow).
#[verifier::external_body]
fn descriptor_namespace(receive: &str, change: &str, network: Network) -> (r: Option<String>)
    requires
        parse_spec(receive@) is Some,
        parse_spec(change@) is Some,
    ensures
        r is Some <==> namespace_ok(receive@, change@, network_code(network)),
        r matches Some(name) ==> name@ == namespace_of(receive@, change@, network_code(network))
            && name@.len() == 16,
{
    let net = match network {
        Network::Bitcoin => bdk::bitcoin::Network::Bitcoin,
        Network::Testnet => bdk::bitcoin::Network::Testnet,
        Network::Signet => bdk::bitcoin::Network::Signet,
        Network::Regtest => bdk::bitcoin::Network::Regtest,
    };
    wallet_name_from_descriptor(receive, Some(change), net, &Secp256k1::new()).ok()
}

/// Relies on std's `FromIterator<char>` for `String`: the characters in order.
#[verifier::external_body]
pub(crate) fn string_of_chars(v: &Vec<char>) -> (r: String)
    ensures
        r@ == v@,
{
    v.iter().collect()
}


pub open spec fn hardened(i: u32) -> ChildStep {
    ChildStep { index: i, hardened: true }
}

pub open spec fn plain(i: u32) -> ChildStep {
    ChildStep { index: i, hardened: false }
}

/// `m/84'/1'/0'/0` for receiving, `m/84'/1'/0'/1` for change.
pub open spec fn chain_path(c: Chain) -> Seq<ChildStep> {
    seq![hardened(84), hardened(1), hardened(0), plain(if c == Chain::Receive { 0 } else { 1 })]
}

/// `wpkh([<fingerprint>/<path>]<key>/*)`: a single-key witness descriptor whose key
/// carries its origin and derives its addresses from unhardened children.
pub open spec fn descriptor_text(fingerprint: u32, path: Seq<ChildStep>, key: Seq<char>) -> Seq<char> {
    seq!['w', 'p', 'k', 'h', '(', '['] + hex8(fingerprint) + path_text_spec(path) + seq![']'] + key
        + seq!['/', '*', ')']
}

/// The descriptor of chain `c` of the wallet whose root key is `root`.
pub open spec fn chain_descriptor(root: Seq<char>, c: Chain) -> Seq<char> {
    descriptor_text(
        fingerprint_of(root),
        chain_path(c),
        child_key_of(root, raw_path(chain_path(c))),
    )
}

/// The receive and change descriptors of a mnemonic, passphrase and network.
pub open spec fn wallet_descriptors(phrase: Seq<char>, passphrase: Seq<char>, network: Network) -> (
    Seq<char>,
    Seq<char>,
) {
    let root = root_key_of(phrase, passphrase, network == Network::Bitcoin);
    (chain_descriptor(root, Chain::Receive), chain_descriptor(root, Chain::Change))
}

/// The descriptor of chain `c` can be made from the root key text `root`.
pub open spec fn chain_derivable(root: Seq<char>, c: Chain) -> bool {
    xprv_ok(root) && depth_of(root) + 4 <= 255 && child_derivable(root, raw_path(chain_path(c)))
}

/// The mnemonic reads, gives a master key, and both chains derive from it.
pub open spec fn wallet_derivable(phrase: Seq<char>, passphrase: Seq<char>, network: Network) -> bool {
    let root = root_key_of(phrase, passphrase, network == Network::Bitcoin);
    mnemonic_ok(phrase) && root_ok(phrase, passphrase) && child_derivable(
        root,
        raw_path(chain_path(Chain::Receive)),
    ) && child_derivable(root, raw_path(chain_path(Chain::Change)))
}

/// The error that deriving a wallet meets first: the mnemonic, then the master key,
/// then the receive chain, then the change chain.
pub open spec fn derivation_error(phrase: Seq<char>, passphrase: Seq<char>, network: Network) -> WalletError {
    let root = root_key_of(phrase, passphrase, network == Network::Bitcoin);
    if !mnemonic_ok(phrase) {
        WalletError::InvalidMnemonic
    } else if !root_ok(phrase, passphrase) {
        WalletError::Derivation { chain: None }
    } else if !child_derivable(root, raw_path(chain_path(Chain::Receive))) {
        WalletError::Derivation { chain: Some(Chain::Receive) }
    } else {
        WalletError::Derivation { chain: Some(Chain::Change) }
    }
}

/// `s` reads back as a descriptor whose parts write `s` again.
pub open spec fn reads_back(s: Seq<char>) -> bool {
    parse_spec(s) matches Some(d) && descriptor_text(d.0, d.1, d.2) == s
}

pub fn chain_path_steps(c: Chain) -> (r: Vec<ChildStep>)
    ensures
        r@ == chain_path(c),
        path_wf(r@),
{
    let last: u32 = match c {
        Chain::Receive => 0,
        Chain::Change => 1,
    };
    let r = vec![
        ChildStep { index: 84, hardened: true },
        ChildStep { index: 1, hardened: true },
        ChildStep { index: 0, hardened: true },
        ChildStep { index: last, hardened: false },
    ];
    assert(r@ =~= chain_path(c));
    r
}

pub fn raw_steps(p: &Vec<ChildStep>) -> (r: Vec<u32>)
    requires
        path_wf(p@),
    ensures
        r@ == raw_path(p@),
{
    let mut r: Vec<u32> = Vec::new();
    let mut i: usize = 0;
    while i < p.len()
        invariant
            i <= p@.len(),
            path_wf(p@),
            r@ =~= raw_path(p@.take(i as int)),
        decreases p@.len() - i,
    {
        r.push(p[i].raw());
        i = i + 1;
    }
    assert(p@.take(i as int) =~= p@);
    r
}

/// Deriving the descriptors of one mnemonic, passphrase and network twice gives the
/// same two strings.
pub proof fn derivation_deterministic(
    phrase: Seq<char>,
    passphrase: Seq<char>,
    network: Network,
    first: (Seq<char>, Seq<char>),
    second: (Seq<char>, Seq<char>),
)
    requires
        first == wallet_descriptors(phrase, passphrase, network),
        second == wallet_descriptors(phrase, passphrase, network),
    ensures
        first == second,
{
}

/// Both chains sit below three hardened steps (purpose, coin type, account), so their
/// keys come only from the root's private key; the descriptors of both chains carry
/// the root's fingerprint.
pub proof fn chains_below_hardened_account(root: Seq<char>)
    ensures
        forall|c: Chain|
            #![trigger chain_path(c)]
            chain_path(c).len() == 4 && chain_path(c)[0].hardened && chain_path(c)[1].hardened
                && chain_path(c)[2].hardened && chain_path(c).take(3) == chain_path(Chain::Receive).take(
                3,
            ),
        chain_descriptor(root, Chain::Receive).subrange(6, 14) == hex8(fingerprint_of(root)),
        chain_descriptor(root, Chain::Change).subrange(6, 14) == hex8(fingerprint_of(root)),
{
    assert(chain_path(Chain::Change).take(3) =~= chain_path(Chain::Receive).take(3));
    assert(hex8(fingerprint_of(root)).len() == 8) by {
        reveal_with_fuel(hex_width, 9);
    }
    assert(chain_descriptor(root, Chain::Receive).subrange(6, 14) =~= hex8(fingerprint_of(root)));
    assert(chain_descriptor(root, Chain::Change).subrange(6, 14) =~= hex8(fingerprint_of(root)));
}

/// The namespace under which the store keeps a wallet's data: the same descriptors on
/// the same network always name the same namespace. Descriptors not of the form
/// `wpkh([fp/path]key/*)`, that do not read, or whose keys belong to another network,
/// are a derivation error.
pub fn wallet_namespace(receive: &str, change: &str, network: Network) -> (r: Result<
    String,
    WalletError,
>)
    ensures
        r is Ok <==> (parse_spec(receive@) is Some && parse_spec(change@) is Some && namespace_ok(
            receive@,
            change@,
            network_code(network),
        )),
        r is Ok ==> r->Ok_0@ == namespace_of(receive@, change@, network_code(network))
            && r->Ok_0@.len() == 16,
        r is Err ==> r->Err_0 == (WalletError::Derivation { chain: None }),
{
    if parse_descriptor(receive).is_none() || parse_descriptor(change).is_none() {
        return Err(WalletError::Derivation { chain: None });
    }
    match descriptor_namespace(receive, change, network) {
        Some(name) => Ok(name),
        None => Err(WalletError::Derivation { chain: None }),
    }
}

/// Writes the descriptor of a key with its origin.
pub fn encode_descriptor(fingerprint: u32, path: &Vec<ChildStep>, key: &str) -> (r: String)
    ensures
        r@ == descriptor_text(fingerprint, path@, key@),
{
    let mut out: Vec<char> = vec!['w', 'p', 'k', 'h', '(', '['];
    push_hex(&mut out, fingerprint, 8);
    push_path(&mut out, path);
    out.push(']');
    let n = key.unicode_len();
    let mut i: usize = 0;
    let ghost head = out@;
    while i < n
        invariant
            n == key@.len(),
            i <= n,
            out@ == head + key@.take(i as int),
        decreases n - i,
    {
        out.push(key.get_char(i));
        i = i + 1;
        assert(out@ =~= head + key@.take(i as int));
    }
    out.push('/');
    out.push('*');
    out.push(')');
    assert(key@.take(i as int) =~= key@);
    assert(out@ =~= descriptor_text(fingerprint, path@, key@));
    string_of_chars(&out)
}

/// The descriptor of one chain, from the root key's text. A text that is no extended
/// private key, a key too deep for the path, or a step with no valid child is a
/// derivation error of that chain.
pub fn chain_descriptor_of_root(root: &str, c: Chain) -> (r: Result<String, WalletError>)
    ensures
        r is Ok <==> chain_derivable(root@, c),
        r is Ok ==> r->Ok_0@ == chain_descriptor(root@, c) && reads_back(r->Ok_0@),
        r is Err ==> r->Err_0 == (WalletError::Derivation { chain: Some(c) }),
{
    let depth = match key_depth(root) {
        Some(d) => d,
        None => return Err(WalletError::Derivation { chain: Some(c) }),
    };
    if depth > 251 {
        return Err(WalletError::Derivation { chain: Some(c) });
    }
    let fingerprint = match key_fingerprint(root) {
        Some(f) => f,
        None => return Err(WalletError::Derivation { chain: Some(c) }),
    };
    let path = chain_path_steps(c);
    let raw = raw_steps(&path);
    match derive_child_text(root, &raw) {
        Some(child) => {
            let d = encode_descriptor(fingerprint, &path, child.as_str());
            proof {
                descriptor_round_trip(fingerprint, path@, child@);
            }
            Ok(d)
        },
        None => Err(WalletError::Derivation { chain: Some(c) }),
    }
}

/// The receive and change descriptors of a mnemonic phrase and passphrase on a network.
pub fn descriptors_from_mnemonic(phrase: &str, passphrase: &str, network: Network) -> (r: Result<
    (String, String),
    WalletError,
>)
    ensures
        r is Ok <==> wallet_derivable(phrase@, passphrase@, network),
        r is Ok ==> (r->Ok_0.0@, r->Ok_0.1@) == wallet_descriptors(phrase@, passphrase@, network)
            && reads_back(r->Ok_0.0@) && reads_back(r->Ok_0.1@),
        r is Err ==> r->Err_0 == derivation_error(phrase@, passphrase@, network),
{
    let root = master_key_text(phrase, passphrase, network)?;
    let receive = chain_descriptor_of_root(root.as_str(), Chain::Receive)?;
    let change = chain_descriptor_of_root(root.as_str(), Chain::Change)?;
    Ok((receive, change))
}

/// The twelve-word English mnemonic of `entropy` with the passphrase `random password`,
/// and the receive and change descriptors it gives on regtest. With no entropy (the
/// random source failed) there is no wallet.
pub fn get_descriptors(entropy: Option<[u8; 32]>) -> (r: Result<(String, String), WalletError>)
    ensures
        entropy is None ==> r == Err::<(String, String), WalletError>(WalletError::Entropy),
        entropy matches Some(e) ==> {
            let phrase = phrase_of(e@);
            &&& count_spaces(phrase) == 11
            &&& r is Ok <==> wallet_derivable(phrase, "random password"@, Network::Regtest)
            &&& r is Ok ==> (r->Ok_0.0@, r->Ok_0.1@) == wallet_descriptors(
                phrase,
                "random password"@,
                Network::Regtest,
            ) && reads_back(r->Ok_0.0@) && reads_back(r->Ok_0.1@)
            &&& r is Err ==> r->Err_0 == derivation_error(phrase, "random password"@, Network::Regtest)
            &&& mnemonic_ok(phrase)
        },
        r is Err ==> r->Err_0 == WalletError::Entropy || r->Err_0 is Derivation,
{
    let e = match entropy {
        Some(e) => e,
        None => return Err(WalletError::Entropy),
    };
    let phrase = match phrase_from_entropy(&e) {
        Some(p) => p,
        None => return Err(WalletError::Entropy),
    };
    descriptors_from_mnemonic(phrase.as_str(), "random password", Network::Regtest)
}

} // verus!
