use ldk_lite::error::LdkLiteError;
use lightning::ln::msgs::DecodeError;
use ldk_lite::hex_utils::{to_compressed_pubkey, to_string, to_vec};
use ldk_lite::io::{
    channel_peer_data_path, channel_peer_record, keys_seed_path, ldk_data_dir,
    channel_peer_lines, network_graph_genesis_hash, network_graph_path, parse_channel_peer_data,
    parse_channel_peers, parse_peer_info, payment_store_path,
    read_or_generate_seed, read_payment_info, scorer_path, KeysSeed, Network,
};
use ldk_lite::io_utils::{unpersist_step, UnpersistStep};
use ldk_lite::payment_store::{
    PaymentDirection, PaymentInfo, PaymentInfoStorage, PaymentStatus,
    PAYMENT_INFO_PERSISTENCE_PREFIX,
};

// A valid compressed public key (the secp256k1 generator point).
const PUBKEY_HEX: &str = "0279be667ef9dcbbac55a06295ce870b07029bfcdb2dce28d959f2815b16f81798";

fn sample_payment() -> PaymentInfo {
    PaymentInfo {
        hash: [0xab; 32],
        preimage: Some([0x01; 32]),
        secret: None,
        amount_msat: Some(0x0102_0304_0506_0708),
        direction: PaymentDirection::Outbound,
        status: PaymentStatus::Succeeded,
    }
}

#[test]
fn hex_to_string_is_lowercase_two_digits_per_byte() {
    assert_eq!(to_string(&[0x00, 0x0f, 0xa5, 0xff]), "000fa5ff");
    assert_eq!(to_string(&[]), "");
}

#[test]
fn hex_to_vec_reads_both_cases_and_drops_unpaired_digit() {
    assert_eq!(to_vec("00ffA5"), Some(vec![0x00, 0xff, 0xa5]));
    assert_eq!(to_vec("abc"), Some(vec![0xab]));
    assert_eq!(to_vec("zz"), None);
    assert_eq!(to_vec(""), Some(vec![]));
}

#[test]
fn hex_roundtrip() {
    let bytes: Vec<u8> = (0u8..=255).collect();
    assert_eq!(to_vec(&to_string(&bytes)), Some(bytes));
}

#[test]
fn compressed_pubkey_parsing() {
    assert!(to_compressed_pubkey(PUBKEY_HEX).is_some());
    // Wrong length.
    assert!(to_compressed_pubkey(&PUBKEY_HEX[..64]).is_none());
    // Not hex.
    let mut bad = String::from(PUBKEY_HEX);
    bad.replace_range(10..11, "g");
    assert!(to_compressed_pubkey(&bad).is_none());
    // Hex of the right length but not a point on the curve.
    let not_a_key = format!("05{}", &PUBKEY_HEX[2..]);
    assert!(to_compressed_pubkey(&not_a_key).is_none());
}

#[test]
fn direction_and_status_bytes() {
    assert_eq!(PaymentDirection::Inbound.write(), vec![0]);
    assert_eq!(PaymentDirection::Outbound.write(), vec![1]);
    assert_eq!(PaymentStatus::Pending.write(), vec![0]);
    assert_eq!(PaymentStatus::Succeeded.write(), vec![1]);
    assert_eq!(PaymentStatus::Failed.write(), vec![2]);
    assert_eq!(PaymentDirection::read(&[1, 9]).unwrap(), (PaymentDirection::Outbound, 1));
    assert_eq!(PaymentStatus::read(&[2]).unwrap(), (PaymentStatus::Failed, 0));
    assert_eq!(PaymentDirection::read(&[0]).unwrap(), (PaymentDirection::Inbound, 0));
    assert_eq!(PaymentStatus::read(&[0]).unwrap(), (PaymentStatus::Pending, 0));
    assert_eq!(PaymentStatus::read(&[1]).unwrap(), (PaymentStatus::Succeeded, 0));
    assert_eq!(PaymentDirection::read(&[2]).unwrap_err(), DecodeError::InvalidValue);
    assert_eq!(PaymentDirection::read(&[255]).unwrap_err(), DecodeError::InvalidValue);
    assert_eq!(PaymentDirection::read(&[]).unwrap_err(), DecodeError::ShortRead);
    assert_eq!(PaymentStatus::read(&[3]).unwrap_err(), DecodeError::InvalidValue);
    assert_eq!(PaymentStatus::read(&[]).unwrap_err(), DecodeError::ShortRead);
}

#[test]
fn payment_info_bytes_layout() {
    let p = sample_payment();
    let bytes = p.write();
    let mut expected = vec![33u8];
    expected.extend_from_slice(&[0x01; 32]);
    expected.extend_from_slice(&[0xab; 32]);
    expected.push(0);
    expected.push(9);
    expected.extend_from_slice(&[1, 2, 3, 4, 5, 6, 7, 8]);
    expected.push(1);
    expected.push(1);
    assert_eq!(bytes, expected);
}

#[test]
fn payment_info_roundtrip() {
    let p = sample_payment();
    let mut bytes = p.write();
    assert_eq!(PaymentInfo::read(&bytes).unwrap(), (p.clone(), 0));
    bytes.extend_from_slice(&[7, 7, 7]);
    // The stored form is consumed exactly; what follows is left unread.
    assert_eq!(PaymentInfo::read(&bytes).unwrap(), (p, 3));
    let q = PaymentInfo {
        hash: [0; 32],
        preimage: None,
        secret: Some([0x55; 32]),
        amount_msat: None,
        direction: PaymentDirection::Inbound,
        status: PaymentStatus::Pending,
    };
    assert_eq!(PaymentInfo::read(&q.write()).unwrap(), (q, 0));
}

#[test]
fn payment_info_read_refuses_bad_input() {
    let p = sample_payment();
    let bytes = p.write();
    assert_eq!(PaymentInfo::read(&bytes[..bytes.len() - 1]).unwrap_err(), DecodeError::ShortRead);
    let mut bad_direction = bytes.clone();
    let n = bad_direction.len();
    bad_direction[n - 2] = 7;
    assert_eq!(PaymentInfo::read(&bad_direction).unwrap_err(), DecodeError::InvalidValue);
    let mut bad_status = bytes.clone();
    bad_status[n - 1] = 3;
    assert_eq!(PaymentInfo::read(&bad_status).unwrap_err(), DecodeError::InvalidValue);
    assert_eq!(PaymentInfo::read(&[]).unwrap_err(), DecodeError::ShortRead);
    // No preimage, a 10-byte truncated hash.
    let mut short = vec![0u8];
    short.extend_from_slice(&[0xaa; 10]);
    assert_eq!(PaymentInfo::read(&short).unwrap_err(), DecodeError::ShortRead);
    // No preimage, a hash, no secret, no amount, then direction byte 5.
    let mut bad = vec![0u8];
    bad.extend_from_slice(&[0xaa; 32]);
    bad.extend_from_slice(&[0, 0, 5, 0]);
    assert_eq!(PaymentInfo::read(&bad).unwrap_err(), DecodeError::InvalidValue);
}

#[test]
fn read_payment_info_skips_unreadable_files() {
    let p = sample_payment();
    let files = vec![vec![1, 2, 3], p.write(), vec![]];
    assert_eq!(read_payment_info(&files), vec![p]);
}

#[test]
fn storage_insert_lookup_and_status() {
    let mut store = PaymentInfoStorage::new();
    let p = sample_payment();
    assert!(!store.contains_payment(&p.hash));
    assert_eq!(store.payment(&p.hash), None);
    let req = store.insert_payment(p);
    assert_eq!(req.key, format!("payments/{}", "ab".repeat(32)));
    assert_eq!(req.payment, p);
    assert!(store.contains_payment(&p.hash));
    assert_eq!(store.payment(&p.hash), Some(p));

    let req = store.set_payment_status(&p.hash, PaymentStatus::Failed).unwrap();
    let updated = PaymentInfo { status: PaymentStatus::Failed, ..p };
    assert_eq!(req.payment, updated);
    assert_eq!(req.key, format!("payments/{}", "ab".repeat(32)));
    assert_eq!(store.payment(&p.hash), Some(updated));

    assert!(store.set_payment_status(&[0u8; 32], PaymentStatus::Failed).is_none());
    assert!(!store.contains_payment(&[0u8; 32]));
}

#[test]
fn storage_remove_only_names_the_key() {
    let mut store = PaymentInfoStorage::new();
    let p = sample_payment();
    store.insert_payment(p);
    assert_eq!(store.remove_payment(&p.hash), format!("payments/{}", "ab".repeat(32)));
    assert!(store.contains_payment(&p.hash));
}

#[test]
fn storage_from_payments_later_duplicates_win() {
    let p = sample_payment();
    let q = PaymentInfo { status: PaymentStatus::Pending, ..p };
    let r = PaymentInfo { hash: [1; 32], ..p };
    let store = PaymentInfoStorage::from_payments(vec![p, r, q]);
    assert_eq!(store.payment(&p.hash), Some(q));
    assert_eq!(store.payment(&r.hash), Some(r));
}

#[test]
fn paths() {
    assert_eq!(PAYMENT_INFO_PERSISTENCE_PREFIX, "payments");
    assert_eq!(keys_seed_path("/data"), "/data/keys_seed");
    assert_eq!(ldk_data_dir("/data"), "/data/ldk");
    assert_eq!(network_graph_path("/data"), "/data/ldk/network_graph");
    assert_eq!(scorer_path("/data"), "/data/ldk/scorer");
    assert_eq!(channel_peer_data_path("/data"), "/data/ldk/channel_peer_data");
    assert_eq!(payment_store_path("/data"), "/data/ldk/payments");
    assert_eq!(channel_peer_record("abc@1.2.3.4:9735"), "abc@1.2.3.4:9735\n");
}

#[test]
fn keys_seed_stored_or_generated() {
    let stored: Vec<u8> = (0u8..32).collect();
    match read_or_generate_seed(Some(stored.clone())) {
        KeysSeed::Stored(key) => assert_eq!(key.to_vec(), stored),
        KeysSeed::Generated(_) => panic!("expected the stored seed"),
    }
    match read_or_generate_seed(None) {
        KeysSeed::Generated(_) => {}
        KeysSeed::Stored(_) => panic!("expected a generated seed"),
    }
}

fn parse_message(r: Result<(bitcoin::secp256k1::PublicKey, String), LdkLiteError>) -> &'static str {
    match r {
        Err(LdkLiteError::PeerInfoParse(m)) => m,
        Err(e) => panic!("unexpected error {:?}", e),
        Ok(_) => panic!("unexpected success"),
    }
}

#[test]
fn parse_peer_info_cases() {
    let resolve = |a: String| if a.contains(':') { Some(a) } else { None };
    let (key, addr) = parse_peer_info(format!("{}@127.0.0.1:9735", PUBKEY_HEX), resolve).unwrap();
    assert_eq!(addr, "127.0.0.1:9735");
    assert_eq!(key.serialize().to_vec(), to_vec(PUBKEY_HEX).unwrap());
    // Only the text up to a second '@' is the address.
    let (_, addr) = parse_peer_info(format!("{}@host:1@rest", PUBKEY_HEX), resolve).unwrap();
    assert_eq!(addr, "host:1");
    assert_eq!(
        parse_message(parse_peer_info(PUBKEY_HEX.to_string(), resolve)),
        "Incorrect format. Should be formatted as: `pubkey@host:port`."
    );
    assert_eq!(
        parse_message(parse_peer_info(format!("{}@nohost", PUBKEY_HEX), resolve)),
        "Couldn't parse pubkey@host:port into a socket address."
    );
    // An unresolvable address is reported before a bad key.
    assert_eq!(
        parse_message(parse_peer_info("zz@nohost".to_string(), resolve)),
        "Couldn't parse pubkey@host:port into a socket address."
    );
    assert_eq!(
        parse_message(parse_peer_info("zz@host:1".to_string(), resolve)),
        "Unable to parse pubkey for node."
    );
}

#[test]
fn unpersist_steps() {
    assert!(matches!(unpersist_step(false, false), UnpersistStep::Finish(Ok(false))));
    assert!(matches!(unpersist_step(false, true), UnpersistStep::Remove));
    assert!(matches!(unpersist_step(true, false), UnpersistStep::Finish(Ok(true))));
    match unpersist_step(true, true) {
        UnpersistStep::Finish(Err(e)) => assert_eq!(e.to_string(), "Unpersisting key failed"),
        _ => panic!("expected a failure"),
    }
}

#[test]
fn error_messages() {
    assert_eq!(LdkLiteError::AlreadyRunning.to_string(), "LDKLite is already running.");
    assert_eq!(LdkLiteError::NotRunning.to_string(), "LDKLite is not running.");
    assert_eq!(
        LdkLiteError::FundingTxCreationFailed.to_string(),
        "the funding transaction could not be created"
    );
    assert_eq!(LdkLiteError::ConnectionFailed.to_string(), "network connection closed");
    assert_eq!(
        LdkLiteError::NonUniquePaymentHash.to_string(),
        "an invoice must not get payed twice."
    );
    assert_eq!(
        LdkLiteError::PeerInfoParse("oops").to_string(),
        "given peer info could not be parsed: oops"
    );
    let io = std::io::Error::new(std::io::ErrorKind::Other, "disk gone");
    assert_eq!(LdkLiteError::from(io).to_string(), "IO error: disk gone");
    let decode = lightning::ln::msgs::DecodeError::ShortRead;
    assert_eq!(
        LdkLiteError::from(decode).to_string(),
        "LDK decode error: Packet extended beyond the provided bytes"
    );
    let api = lightning::util::errors::APIError::MonitorUpdateFailed;
    assert!(LdkLiteError::from(api).to_string().starts_with("LDK API error: "));
}

#[test]
fn genesis_hash_of_mainnet() {
    let mut hash = network_graph_genesis_hash(Network::Bitcoin);
    hash.reverse();
    assert_eq!(
        to_string(&hash),
        "000000000019d6689c085ae165831e934ff763ae46a2a6c172b3f1b60a8ce26f"
    );
    assert_ne!(network_graph_genesis_hash(Network::Testnet), network_graph_genesis_hash(Network::Bitcoin));
}

#[test]
fn wrapped_error_messages() {
    let sled = bdk::sled::Error::Unsupported("x".to_string());
    let e = LdkLiteError::from(sled);
    assert!(matches!(e, LdkLiteError::Bdk(_)));
    assert_eq!(e.to_string(), "BDK error: Sled(Unsupported(\"x\"))");
    let bip32 = bitcoin::util::bip32::Error::InvalidChildNumberFormat;
    assert_eq!(LdkLiteError::from(bip32).to_string(), "Bitcoin error: invalid child number format");
    let payment = lightning_invoice::payment::PaymentError::Invoice("bad");
    assert_eq!(LdkLiteError::from(payment).to_string(), "LDK payment error: Invoice(\"bad\")");
    let sign: lightning_invoice::SignOrCreationError = lightning_invoice::SignOrCreationError::SignError(());
    assert_eq!(
        LdkLiteError::from(sign).to_string(),
        "LDK invoice sign or creation error: SignError(())"
    );
    let later = std::time::UNIX_EPOCH.duration_since(std::time::SystemTime::now()).unwrap_err();
    assert_eq!(
        LdkLiteError::from(later).to_string(),
        "time error: second time provided was later than self"
    );
}

#[test]
fn generated_seeds_differ() {
    let a = match read_or_generate_seed(None) {
        KeysSeed::Generated(k) => k,
        KeysSeed::Stored(_) => panic!("expected a generated seed"),
    };
    let b = match read_or_generate_seed(None) {
        KeysSeed::Generated(k) => k,
        KeysSeed::Stored(_) => panic!("expected a generated seed"),
    };
    assert_ne!(a, b);
}

#[test]
fn parse_channel_peers_stops_at_first_bad_line() {
    let resolve = |a: String| if a.contains(':') { Some(a) } else { None };
    let lines = vec![
        format!("{}@a:1", PUBKEY_HEX),
        format!("{}@b:2", PUBKEY_HEX),
    ];
    let peers = parse_channel_peers(&lines, resolve).unwrap();
    let addrs: Vec<String> = peers.into_iter().map(|(_, a)| a).collect();
    assert_eq!(addrs, vec!["a:1".to_string(), "b:2".to_string()]);

    let lines = vec![format!("{}@a:1", PUBKEY_HEX), "no at sign".to_string(), "zz@c:3".to_string()];
    match parse_channel_peers(&lines, resolve) {
        Err(LdkLiteError::PeerInfoParse(m)) => {
            assert_eq!(m, "Incorrect format. Should be formatted as: `pubkey@host:port`.")
        }
        _ => panic!("expected the format error of the second line"),
    }
    assert_eq!(parse_channel_peers(&Vec::new(), resolve).unwrap().len(), 0);
}

#[test]
fn parse_peer_info_key_is_the_hex_key() {
    let resolve = |a: String| if a.contains(':') { Some(a) } else { None };
    let (key, addr) = parse_peer_info(format!("{}@127.0.0.1:9735", PUBKEY_HEX), resolve).unwrap();
    let expected = bitcoin::secp256k1::PublicKey::from_slice(&to_vec(PUBKEY_HEX).unwrap()).unwrap();
    assert_eq!(key, expected);
    assert_eq!(addr, "127.0.0.1:9735");
    // Fields after the address are ignored.
    let extra = parse_peer_info(format!("{}@127.0.0.1:9735@whatever", PUBKEY_HEX), resolve).unwrap();
    assert_eq!(extra, (key, addr));
}

#[test]
fn channel_peer_lines_split_like_a_line_reader() {
    assert_eq!(channel_peer_lines(""), Vec::<String>::new());
    assert_eq!(channel_peer_lines("a\n"), vec!["a".to_string()]);
    assert_eq!(channel_peer_lines("a\r\nb"), vec!["a".to_string(), "b".to_string()]);
    assert_eq!(channel_peer_lines("\n\nc\r"), vec!["".to_string(), "".to_string(), "c\r".to_string()]);
}

#[test]
fn appended_channel_peer_is_read_back() {
    let resolve = |a: String| if a.contains(':') { Some(a) } else { None };
    let mut content = String::new();
    content.push_str(&channel_peer_record(&format!("{}@a:1", PUBKEY_HEX)));
    content.push_str(&channel_peer_record(&format!("{}@b:2", PUBKEY_HEX)));
    let peers = parse_channel_peer_data(&content, resolve).unwrap();
    assert_eq!(peers.len(), 2);
    assert_eq!(peers[1].1, "b:2");
    assert_eq!(channel_peer_record("x"), "x\n");
    let bad = format!("{}{}", content, "zz@c:3\n");
    match parse_channel_peer_data(&bad, resolve) {
        Err(LdkLiteError::PeerInfoParse(m)) => assert_eq!(m, "Unable to parse pubkey for node."),
        _ => panic!("expected the key error of the last line"),
    }
}

#[test]
fn genesis_hashes_of_checked_networks() {
    let mut testnet = network_graph_genesis_hash(Network::Testnet);
    testnet.reverse();
    assert_eq!(
        to_string(&testnet),
        "000000000933ea01ad0ee984209779baaec3ced90fa3f408719526f8d77f4943"
    );
    let mut signet = network_graph_genesis_hash(Network::Signet);
    signet.reverse();
    assert_eq!(
        to_string(&signet),
        "00000008819873e925422c1ff0f99f7cc9bbb232af63a077a480a3633bee1ef6"
    );
}

#[test]
fn read_payment_info_finds_a_stored_payment() {
    let p = sample_payment();
    let mut with_tail = p.write();
    with_tail.extend_from_slice(&[1, 2]);
    let files = vec![with_tail, vec![9]];
    assert!(read_payment_info(&files).contains(&p));
}

#[test]
fn payment_info_read_follows_bigsize_length_prefixes() {
    let hash = [0xab; 32];
    let tail = [0u8, 0, 1, 2];
    // A preimage length longer than the value: the 32 bytes are read and the
    // hash follows right after them.
    let mut long = vec![34u8];
    long.extend_from_slice(&[0x01; 32]);
    long.extend_from_slice(&hash);
    long.extend_from_slice(&tail);
    let (p, rest) = PaymentInfo::read(&long).unwrap();
    assert_eq!(p.preimage, Some([0x01; 32]));
    assert_eq!(p.hash, hash);
    assert_eq!(rest, 0);
    // A length too short for the value.
    let mut short = vec![5u8];
    short.extend_from_slice(&[0x01; 40]);
    assert_eq!(PaymentInfo::read(&short).unwrap_err(), DecodeError::ShortRead);
    // 33 written in the three-byte form is refused.
    let mut padded = vec![0xFDu8, 0x00, 0x21];
    padded.extend_from_slice(&[0x01; 32]);
    padded.extend_from_slice(&hash);
    padded.extend_from_slice(&tail);
    assert_eq!(PaymentInfo::read(&padded).unwrap_err(), DecodeError::InvalidValue);
    // A cut-off long form.
    assert_eq!(PaymentInfo::read(&[0xFE, 0x00]).unwrap_err(), DecodeError::ShortRead);
}

#[test]
fn generated_seed_read_back_is_the_same() {
    let first = match read_or_generate_seed(None) {
        KeysSeed::Generated(k) => k,
        KeysSeed::Stored(_) => panic!("expected a generated seed"),
    };
    match read_or_generate_seed(Some(first.to_vec())) {
        KeysSeed::Stored(k) => assert_eq!(k, first),
        KeysSeed::Generated(_) => panic!("expected the stored seed"),
    }
}
