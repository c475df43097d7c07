//! What the node keeps on disk: where each file lives, the keys seed, the
//! channel peer list and the stored payments.
use crate::error::LdkLiteError;
use crate::hex_utils::{compressed_pubkey_from_hex, string_push, to_compressed_pubkey};
use crate::hex_utils::hex_chars;
use crate::payment_store::{
    PaymentInfo, StoredFields, payment_info_bytes, payment_info_read, payment_key, stored_fields,
    PAYMENT_INFO_PERSISTENCE_PREFIX,
};
use bitcoin::secp256k1::PublicKey;
use rand::{thread_rng, RngCore};
use vstd::prelude::*;
use vstd::std_specs::iter::IteratorSpec;
use vstd::string::{StringExecFns, axiom_spec_iter, next_postcondition};

verus! {

/// `dir` followed by `suffix`.
fn join(dir: &str, suffix: &str) -> (r: String)
    ensures
        r@ == dir@ + suffix@,
{
    let mut s = String::from_str(dir);
    s.append(suffix);
    s
}

/// Where the keys seed is kept.
pub fn keys_seed_path(storage_dir_path: &str) -> (r: String)
    ensures
        r@ == storage_dir_path@ + "/keys_seed"@,
{
    join(storage_dir_path, "/keys_seed")
}

/// The directory LDK's data is kept in.
pub fn ldk_data_dir(storage_dir_path: &str) -> (r: String)
    ensures
        r@ == storage_dir_path@ + "/ldk"@,
{
    join(storage_dir_path, "/ldk")
}

/// Where the network graph is kept.
pub fn network_graph_path(storage_dir_path: &str) -> (r: String)
    ensures
        r@ == storage_dir_path@ + "/ldk"@ + "/network_graph"@,
{
    let dir = ldk_data_dir(storage_dir_path);
    join(dir.as_str(), "/network_graph")
}

/// Where the scorer is kept.
pub fn scorer_path(storage_dir_path: &str) -> (r: String)
    ensures
        r@ == storage_dir_path@ + "/ldk"@ + "/scorer"@,
{
    let dir = ldk_data_dir(storage_dir_path);
    join(dir.as_str(), "/scorer")
}

/// Where the channel peers are kept, one per line.
pub fn channel_peer_data_path(storage_dir_path: &str) -> (r: String)
    ensures
        r@ == storage_dir_path@ + "/ldk"@ + "/channel_peer_data"@,
{
    let dir = ldk_data_dir(storage_dir_path);
    join(dir.as_str(), "/channel_peer_data")
}

/// The directory the stored payments are kept in, one file each.
pub fn payment_store_path(storage_dir_path: &str) -> (r: String)
    ensures
        r@ == storage_dir_path@ + "/ldk"@ + "/"@ + PAYMENT_INFO_PERSISTENCE_PREFIX@,
{
    let dir = ldk_data_dir(storage_dir_path);
    let dir = join(dir.as_str(), "/");
    join(dir.as_str(), PAYMENT_INFO_PERSISTENCE_PREFIX)
}

/// The line appended to the channel peer file for a peer.
pub fn channel_peer_record(peer_info: &str) -> (r: String)
    ensures
        r@ == peer_info@.push('\n'),
{
    let r = join(peer_info, "\n");
    proof {
        reveal_strlit("\n");
        assert(r@ =~= peer_info@.push('\n'));
    }
    r
}

/// The keys seed, and whether it was read from disk or newly drawn (and so
/// still has to be written).
pub enum KeysSeed {
    /// The seed read from the seed file.
    Stored([u8; 32]),
    /// A freshly drawn seed, not yet on disk.
    Generated([u8; 32]),
}

/// Calls `rand::thread_rng().fill_bytes`, which overwrites the buffer with
/// random bytes. Nothing is stated of the bytes.
#[verifier::external_body]
fn fill_random(buf: &mut [u8; 32]) {
    thread_rng().fill_bytes(buf)
}

/// The bytes of the seed file's contents, where it could be read.
pub open spec fn seed_file_view(seed_file: Option<Vec<u8>>) -> Option<Seq<u8>> {
    match seed_file {
        Some(bytes) => Some(bytes@),
        None => None,
    }
}

/// The key a seed holds.
pub open spec fn seed_key(seed: KeysSeed) -> Seq<u8> {
    match seed {
        KeysSeed::Stored(key) => key@,
        KeysSeed::Generated(key) => key@,
    }
}

/// `r` is what reading the seed gives for the seed file's contents: the
/// stored bytes where the file could be read, else a generated seed.
pub open spec fn seed_outcome(seed_file: Option<Seq<u8>>, r: KeysSeed) -> bool {
    match seed_file {
        Some(bytes) => r matches KeysSeed::Stored(key) && key@ == bytes,
        None => r is Generated,
    }
}

/// The seed file's contents once `r` is handed out: a generated seed is
/// written to the file, a stored one leaves it as it was.
pub open spec fn seed_file_after(seed_file: Option<Seq<u8>>, r: KeysSeed) -> Option<Seq<u8>> {
    match r {
        KeysSeed::Generated(key) => Some(key@),
        KeysSeed::Stored(_) => seed_file,
    }
}

/// Once a seed is handed out (a generated one written to the seed file),
/// reading the seed again hands out the same key.
pub proof fn law_seed_is_stable(seed_file: Option<Seq<u8>>, first: KeysSeed, second: KeysSeed)
    requires
        seed_outcome(seed_file, first),
        seed_outcome(seed_file_after(seed_file, first), second),
    ensures
        seed_key(second) == seed_key(first),
{
}

/// The keys seed: the contents of the seed file where it could be read
/// (they must be 32 bytes), else 32 random bytes.
pub fn read_or_generate_seed(seed_file: Option<Vec<u8>>) -> (r: KeysSeed)
    requires
        seed_file matches Some(bytes) ==> bytes@.len() == 32,
    ensures
        seed_outcome(seed_file_view(seed_file), r),
{
    let mut key = [0u8; 32];
    match seed_file {
        Some(bytes) => {
            let mut i: usize = 0;
            while i < 32
                invariant
                    bytes@.len() == 32,
                    i <= 32,
                    forall|j: int| 0 <= j < i ==> key@[j] == bytes@[j],
                decreases 32 - i,
            {
                key[i] = bytes[i];
                i = i + 1;
            }
            assert(key@ =~= bytes@);
            KeysSeed::Stored(key)
        },
        None => {
            fill_random(&mut key);
            KeysSeed::Generated(key)
        },
    }
}

/// The fields of the payments that stored payment files hold, in file
/// order; files that cannot be read as a payment are passed over.
pub open spec fn stored_payments(files: Seq<Seq<u8>>) -> Seq<StoredFields>
    decreases files.len(),
{
    if files.len() == 0 {
        Seq::empty()
    } else {
        let prev = stored_payments(files.drop_last());
        match payment_info_read(files.last()) {
            Ok((f, _)) => prev.push(f),
            Err(_) => prev,
        }
    }
}

/// The payments held by the contents of the stored payment files, in
/// order, passing over files that cannot be read as a payment. A file that
/// starts with a payment's stored form yields that payment.
pub fn read_payment_info(files: &Vec<Vec<u8>>) -> (r: Vec<PaymentInfo>)
    ensures
        r@.map_values(|p: PaymentInfo| stored_fields(p)) == stored_payments(files.deep_view()),
        forall|i: int, p: PaymentInfo|
            0 <= i < files@.len() && #[trigger] payment_info_bytes(p).is_prefix_of(files@[i]@)
                ==> r@.contains(p),
{
    let mut payments: Vec<PaymentInfo> = Vec::new();
    let mut i: usize = 0;
    while i < files.len()
        invariant
            i <= files@.len(),
            payments@.map_values(|p: PaymentInfo| stored_fields(p)) == stored_payments(files.deep_view().subrange(0, i as int)),
            forall|j: int, p: PaymentInfo|
                0 <= j < i && #[trigger] payment_info_bytes(p).is_prefix_of(files@[j]@)
                    ==> payments@.contains(p),
        decreases files@.len() - i,
    {
        let ghost prefix = files.deep_view().subrange(0, i + 1);
        let ghost before = payments@;
        assert(prefix.drop_last() =~= files.deep_view().subrange(0, i as int));
        assert(prefix.last() == files@[i as int]@);
        let res = PaymentInfo::read(files[i].as_slice());
        let ghost read_result = res;
        match res {
            Ok((p, _)) => {
                payments.push(p);
                assert(payments@.map_values(|p: PaymentInfo| stored_fields(p)) =~= before.map_values(|p: PaymentInfo| stored_fields(p)).push(stored_fields(p)));
                assert forall|j: int, q: PaymentInfo|
                    0 <= j < i + 1 && #[trigger] payment_info_bytes(q).is_prefix_of(files@[j]@)
                        implies payments@.contains(q) by {
                    if j < i {
                        let k = choose|k: int| 0 <= k < before.len() && before[k] == q;
                        assert(payments@[k] == q);
                    } else {
                        assert(read_result matches Ok((q2, _)) && q2 == q);
                        assert(payments@[before.len() as int] == q);
                    }
                }
            },
            Err(_) => {
                assert forall|j: int, q: PaymentInfo|
                    0 <= j < i + 1 && #[trigger] payment_info_bytes(q).is_prefix_of(files@[j]@)
                        implies payments@.contains(q) by {
                    if j == i {
                        assert(read_result is Ok);
                    }
                }
            },
        }
        i = i + 1;
    }
    assert(files.deep_view().subrange(0, files@.len() as int) =~= files.deep_view());
    payments
}

/// The chain a node runs on.
#[derive(Clone, Copy, Debug, PartialEq, Eq, Structural)]
pub enum Network {
    /// Classic Bitcoin.
    Bitcoin,
    /// Bitcoin's testnet.
    Testnet,
    /// Bitcoin's signet.
    Signet,
    /// Bitcoin's regtest.
    Regtest,
}

/// The hash of the genesis block of `network`, as rust-bitcoin's
/// `genesis_block(network).header.block_hash()` gives it.
pub uninterp spec fn genesis_block_hash(network: Network) -> Seq<u8>;

/// The genesis block hashes that rust-bitcoin checks in its own tests, in
/// the byte order of the hash itself (the reverse of how a block hash is
/// displayed). Regtest's is not among them.
pub open spec fn checked_genesis_hash(network: Network) -> Option<Seq<u8>> {
    match network {
        Network::Bitcoin => Some(
            seq![
                0x6f, 0xe2, 0x8c, 0x0a, 0xb6, 0xf1, 0xb3, 0x72, 0xc1, 0xa6, 0xa2, 0x46, 0xae, 0x63,
                0xf7, 0x4f, 0x93, 0x1e, 0x83, 0x65, 0xe1, 0x5a, 0x08, 0x9c, 0x68, 0xd6, 0x19, 0x00,
                0x00, 0x00, 0x00, 0x00,
            ],
        ),
        Network::Testnet => Some(
            seq![
                0x43, 0x49, 0x7f, 0xd7, 0xf8, 0x26, 0x95, 0x71, 0x08, 0xf4, 0xa3, 0x0f, 0xd9, 0xce,
                0xc3, 0xae, 0xba, 0x79, 0x97, 0x20, 0x84, 0xe9, 0x0e, 0xad, 0x01, 0xea, 0x33, 0x09,
                0x00, 0x00, 0x00, 0x00,
            ],
        ),
        Network::Signet => Some(
            seq![
                0xf6, 0x1e, 0xee, 0x3b, 0x63, 0xa3, 0x80, 0xa4, 0x77, 0xa0, 0x63, 0xaf, 0x32, 0xb2,
                0xbb, 0xc9, 0x7c, 0x9f, 0xf9, 0xf0, 0x1f, 0x2c, 0x42, 0x25, 0xe9, 0x73, 0x98, 0x81,
                0x08, 0x00, 0x00, 0x00,
            ],
        ),
        Network::Regtest => None,
    }
}

/// Calls `bitcoin::blockdata::constants::genesis_block` and hashes the
/// block's header; the hash is `genesis_block_hash` of the network, and for
/// the networks that rust-bitcoin's tests check it is the hash they check.
/// Regtest's hash is left to the name: the crate computes it and shows it
/// nowhere.
#[verifier::external_body]
fn genesis_block_hash_of(network: Network) -> (r: [u8; 32])
    ensures
        r@ == genesis_block_hash(network),
        checked_genesis_hash(network) is Some ==> r@ == checked_genesis_hash(network)->Some_0,
{
    let network = match network {
        Network::Bitcoin => bitcoin::Network::Bitcoin,
        Network::Testnet => bitcoin::Network::Testnet,
        Network::Signet => bitcoin::Network::Signet,
        Network::Regtest => bitcoin::Network::Regtest,
    };
    bitcoin::hashes::Hash::into_inner(bitcoin::blockdata::constants::genesis_block(network).header.block_hash())
}

/// The chain hash a fresh network graph starts from: the hash of the
/// network's genesis block.
pub fn network_graph_genesis_hash(network: Network) -> (r: [u8; 32])
    ensures
        r@ == genesis_block_hash(network),
        checked_genesis_hash(network) is Some ==> r@ == checked_genesis_hash(network)->Some_0,
{
    genesis_block_hash_of(network)
}

/// The characters of `s` before its first `c`, or all of them if it has
/// none.
pub open spec fn before_char(s: Seq<char>, c: char) -> Seq<char>
    decreases s.len(),
{
    if s.len() == 0 || s[0] == c {
        Seq::empty()
    } else {
        seq![s[0]] + before_char(s.drop_first(), c)
    }
}

/// The public key part of `pubkey@host:port`: what comes before the first
/// `@`.
pub open spec fn peer_pubkey_part(s: Seq<char>) -> Seq<char> {
    before_char(s, '@')
}

/// Whether the text holds an `@`.
pub open spec fn has_at(s: Seq<char>) -> bool {
    before_char(s, '@').len() < s.len()
}

/// The address part of `pubkey@host:port`: what comes after the first `@`,
/// up to the next one.
pub open spec fn peer_addr_part(s: Seq<char>) -> Seq<char> {
    before_char(s.subrange(before_char(s, '@').len() + 1int, s.len() as int), '@')
}

/// The outcome of parsing a peer, given the public key text and what the
/// address resolved to: an unresolved address is refused first, then a key
/// that is not 66 hex digits of a valid public key; otherwise the result is
/// the key the hex spells and the resolved address.
pub open spec fn peer_info_outcome<A>(
    pubkey_text: Seq<char>,
    resolved: Option<A>,
    r: Result<(PublicKey, A), LdkLiteError>,
) -> bool {
    match resolved {
        None => r matches Err(LdkLiteError::PeerInfoParse(m))
            && m@ == "Couldn't parse pubkey@host:port into a socket address."@,
        Some(addr) => match compressed_pubkey_from_hex(pubkey_text) {
            Some(key) => r matches Ok((k, a)) && k == key && a == addr,
            None => r matches Err(LdkLiteError::PeerInfoParse(m)) && m@
                == "Unable to parse pubkey for node."@,
        },
    }
}

/// `r` is what parsing `text` as `pubkey@host:port` gives, where
/// `resolve_addr` resolves the address part: text without an `@` is refused
/// as badly formatted; otherwise the address part is resolved, and the
/// outcome follows `peer_info_outcome` for what it resolved to.
pub open spec fn parses_peer_info_as<A, F: Fn(String) -> Option<A>>(
    resolve_addr: F,
    text: Seq<char>,
    r: Result<(PublicKey, A), LdkLiteError>,
) -> bool {
    if !has_at(text) {
        r matches Err(LdkLiteError::PeerInfoParse(m))
            && m@ == "Incorrect format. Should be formatted as: `pubkey@host:port`."@
    } else {
        exists|a: String, o: Option<A>|
            a@ == peer_addr_part(text) && #[trigger] resolve_addr.ensures((a,), o)
                && peer_info_outcome(peer_pubkey_part(text), o, r)
    }
}

/// `text` parses as `pubkey@host:port` for some outcome of `resolve_addr`.
pub open spec fn peer_info_parses<A, F: Fn(String) -> Option<A>>(resolve_addr: F, text: Seq<char>) -> bool {
    exists|x: (PublicKey, A)|
        #[trigger] parses_peer_info_as(resolve_addr, text, Ok::<(PublicKey, A), LdkLiteError>(x))
}

proof fn lemma_before_char_unique(s: Seq<char>, c: char, k: int)
    requires
        0 <= k <= s.len(),
        forall|i: int| 0 <= i < k ==> s[i] != c,
        k < s.len() ==> s[k] == c,
    ensures
        before_char(s, c) == s.subrange(0, k),
    decreases s.len(),
{
    if s.len() > 0 && s[0] != c {
        lemma_before_char_unique(s.drop_first(), c, k - 1);
        assert(before_char(s, c) =~= s.subrange(0, k));
    } else {
        assert(s.subrange(0, k) =~= Seq::<char>::empty());
    }
}

/// `before_char` stops at the first `c`, or runs to the end.
proof fn lemma_before_char_shape(s: Seq<char>, c: char)
    ensures
        before_char(s, c).len() <= s.len(),
        before_char(s, c) == s.subrange(0, before_char(s, c).len() as int),
        forall|i: int| 0 <= i < before_char(s, c).len() ==> s[i] != c,
        before_char(s, c).len() < s.len() ==> s[before_char(s, c).len() as int] == c,
    decreases s.len(),
{
    if s.len() > 0 && s[0] != c {
        let t = s.drop_first();
        lemma_before_char_shape(t, c);
        assert(before_char(s, c) =~= s.subrange(0, before_char(s, c).len() as int));
        assert forall|i: int| 0 <= i < before_char(s, c).len() implies s[i] != c by {
            if i > 0 {
                assert(s[i] == t[i - 1]);
            }
        }
    }
}

/// The characters of `s`.
fn chars_of(s: &str) -> (v: Vec<char>)
    ensures
        v@ == s@,
{
    broadcast use {axiom_spec_iter, next_postcondition};

    let mut it = s.chars();
    let mut v: Vec<char> = Vec::new();
    loop
        invariant
            v@ + it.remaining() == s@,
            it.obeys_prophetic_iter_laws(),
            it.decrease() is Some,
        decreases it.decrease()->0,
    {
        match it.next() {
            Some(c) => {
                v.push(c);
                assert(v@ + it.remaining() =~= s@);
            },
            None => {
                assert(v@ =~= s@);
                return v;
            },
        }
    }
}

/// Where the first `c` at or after `from` stands in `chars` (or the end).
fn find_char(chars: &Vec<char>, from: usize, c: char) -> (k: usize)
    requires
        from <= chars@.len(),
    ensures
        from <= k <= chars@.len(),
        chars@.subrange(from as int, k as int) == before_char(
            chars@.subrange(from as int, chars@.len() as int),
            c,
        ),
        forall|j: int| from <= j < k ==> chars@[j] != c,
        k < chars@.len() ==> chars@[k as int] == c,
{
    let mut i = from;
    while i < chars.len() && chars[i] != c
        invariant
            from <= i <= chars@.len(),
            forall|j: int| from <= j < i ==> chars@[j] != c,
        decreases chars@.len() - i,
    {
        i = i + 1;
    }
    proof {
        let tail = chars@.subrange(from as int, chars@.len() as int);
        lemma_before_char_unique(tail, c, i - from);
        assert(tail.subrange(0, i - from) =~= chars@.subrange(from as int, i as int));
    }
    i
}

/// The characters `chars[from..to]` as a string.
fn string_of(chars: &Vec<char>, from: usize, to: usize) -> (s: String)
    requires
        from <= to <= chars@.len(),
    ensures
        s@ == chars@.subrange(from as int, to as int),
{
    let mut out = String::new();
    let mut i = from;
    while i < to
        invariant
            from <= i <= to <= chars@.len(),
            out@ == chars@.subrange(from as int, i as int),
        decreases to - i,
    {
        string_push(&mut out, chars[i]);
        assert(out@ =~= chars@.subrange(from as int, i + 1));
        i = i + 1;
    }
    out
}

/// The characters `chars[from..]` up to the first `@`, as a string, and
/// where that `@` is (or the end).
fn take_until_at(chars: &Vec<char>, from: usize) -> (r: (String, usize))
    requires
        from <= chars@.len(),
    ensures
        r.0@ == before_char(chars@.subrange(from as int, chars@.len() as int), '@'),
        r.1 == from + r.0@.len(),
{
    let at = find_char(chars, from, '@');
    (string_of(chars, from, at), at)
}

/// Parses `pubkey@host:port` into the node's public key and its address,
/// where `resolve_addr` turns the `host:port` text into an address (or
/// `None`). Only the text up to a second `@` is taken as the address.
pub fn parse_peer_info<A, F: Fn(String) -> Option<A>>(
    peer_pubkey_and_ip_addr: String,
    resolve_addr: F,
) -> (r: Result<(PublicKey, A), LdkLiteError>)
    requires
        forall|a: String| resolve_addr.requires((a,)),
    ensures
        parses_peer_info_as(resolve_addr, peer_pubkey_and_ip_addr@, r),
{
    let ghost s = peer_pubkey_and_ip_addr@;
    let chars = chars_of(peer_pubkey_and_ip_addr.as_str());
    let (pubkey, at) = take_until_at(&chars, 0);
    proof {
        assert(chars@.subrange(0, chars@.len() as int) =~= s);
    }
    if at >= chars.len() {
        return Err(
            LdkLiteError::PeerInfoParse(
                "Incorrect format. Should be formatted as: `pubkey@host:port`.",
            ),
        );
    }
    let (peer_addr_str, _) = take_until_at(&chars, at + 1);
    let ghost addr_text = peer_addr_str@;
    let peer_addr = resolve_addr(peer_addr_str);
    let ghost resolved = peer_addr;
    let addr = match peer_addr {
        Some(addr) => addr,
        None => {
            let r = Err(
                LdkLiteError::PeerInfoParse("Couldn't parse pubkey@host:port into a socket address."),
            );
            assert(peer_info_outcome(peer_pubkey_part(s), resolved, r));
            return r;
        },
    };
    match to_compressed_pubkey(pubkey.as_str()) {
        Some(key) => {
            let r = Ok((key, addr));
            assert(peer_info_outcome(peer_pubkey_part(s), resolved, r));
            r
        },
        None => {
            let r = Err(LdkLiteError::PeerInfoParse("Unable to parse pubkey for node."));
            assert(peer_info_outcome(peer_pubkey_part(s), resolved, r));
            r
        },
    }
}

/// `r` is what parsing each of `lines` as `pubkey@host:port` gives, in
/// order, stopping at the first line that cannot be parsed: either every
/// line parses and `r` holds the peers line by line, or `r` is the error of
/// a line before which every line parses.
pub open spec fn channel_peers_outcome<A, F: Fn(String) -> Option<A>>(
    resolve_addr: F,
    lines: Seq<Seq<char>>,
    r: Result<Vec<(PublicKey, A)>, LdkLiteError>,
) -> bool {
    &&& r matches Ok(peers) ==> peers@.len() == lines.len() && forall|i: int|
        0 <= i < lines.len() ==> parses_peer_info_as(
            resolve_addr,
            lines[i],
            Ok::<(PublicKey, A), LdkLiteError>(#[trigger] peers@[i]),
        )
    &&& r matches Err(e) ==> exists|k: int|
        0 <= k < lines.len() && parses_peer_info_as(
            resolve_addr,
            #[trigger] lines[k],
            Err::<(PublicKey, A), LdkLiteError>(e),
        ) && forall|i: int| 0 <= i < k ==> peer_info_parses(resolve_addr, #[trigger] lines[i])
}

/// Parses each line as `pubkey@host:port`, in order, stopping at the first
/// line that cannot be parsed and handing back its error.
pub fn parse_channel_peers<A, F: Fn(String) -> Option<A>>(
    lines: &Vec<String>,
    resolve_addr: F,
) -> (r: Result<Vec<(PublicKey, A)>, LdkLiteError>)
    requires
        forall|a: String| resolve_addr.requires((a,)),
    ensures
        channel_peers_outcome(resolve_addr, lines.deep_view(), r),
{
    let mut peers: Vec<(PublicKey, A)> = Vec::new();
    let mut i: usize = 0;
    while i < lines.len()
        invariant
            forall|a: String| resolve_addr.requires((a,)),
            i <= lines@.len(),
            lines.deep_view().len() == lines@.len(),
            peers@.len() == i,
            forall|j: int|
                0 <= j < i ==> parses_peer_info_as(
                    resolve_addr,
                    lines.deep_view()[j],
                    Ok::<(PublicKey, A), LdkLiteError>(#[trigger] peers@[j]),
                ),
        decreases lines@.len() - i,
    {
        let line = lines[i].clone();
        let res = parse_peer_info(line, &resolve_addr);
        match res {
            Ok(peer) => {
                peers.push(peer);
            },
            Err(e) => {
                assert(parses_peer_info_as(
                    resolve_addr,
                    lines.deep_view()[i as int],
                    Err::<(PublicKey, A), LdkLiteError>(e),
                ));
                assert forall|j: int| 0 <= j < i implies peer_info_parses(resolve_addr, #[trigger] lines.deep_view()[j]) by {
                    assert(parses_peer_info_as(
                        resolve_addr,
                        lines.deep_view()[j],
                        Ok::<(PublicKey, A), LdkLiteError>(peers@[j]),
                    ));
                }
                return Err(e);
            },
        }
        i = i + 1;
    }
    Ok(peers)
}

/// `line` without a `\r` that ends it.
pub open spec fn without_trailing_cr(line: Seq<char>) -> Seq<char> {
    if line.len() > 0 && line.last() == '\r' {
        line.drop_last()
    } else {
        line
    }
}

/// The lines of `text` as a line reader hands them out: `text` is cut at
/// each `\n`, a `\r` right before a `\n` is dropped with it, and what
/// follows the last `\n` is a line of its own only if it is not empty.
pub open spec fn text_lines(text: Seq<char>) -> Seq<Seq<char>>
    decreases text.len(),
{
    if text.len() == 0 {
        Seq::empty()
    } else {
        let first = before_char(text, '\n');
        if first.len() >= text.len() {
            seq![text]
        } else {
            seq![without_trailing_cr(first)] + text_lines(
                text.subrange(first.len() + 1int, text.len() as int),
            )
        }
    }
}

/// The lines of the channel peer file's contents, as a line reader hands
/// them out.
pub fn channel_peer_lines(content: &str) -> (lines: Vec<String>)
    ensures
        lines.deep_view() == text_lines(content@),
{
    let chars = chars_of(content);
    let ghost text = content@;
    let mut lines: Vec<String> = Vec::new();
    let mut i: usize = 0;
    proof {
        assert(chars@.subrange(0, chars@.len() as int) =~= text);
    }
    while i < chars.len()
        invariant
            chars@ == text,
            i <= chars@.len(),
            lines.deep_view() + text_lines(chars@.subrange(i as int, chars@.len() as int))
                == text_lines(text),
        decreases chars@.len() - i,
    {
        let ghost rest = chars@.subrange(i as int, chars@.len() as int);
        let ghost before = lines.deep_view();
        let nl = find_char(&chars, i, '\n');
        if nl >= chars.len() {
            let line = string_of(&chars, i, nl);
            lines.push(line);
            proof {
                assert(rest =~= line@);
                assert(text_lines(rest) == seq![rest]);
                assert(lines.deep_view() =~= before.push(rest));
                assert(text_lines(chars@.subrange(nl as int, chars@.len() as int)) =~= Seq::<Seq<char>>::empty()) by {
                    assert(chars@.subrange(nl as int, chars@.len() as int) =~= Seq::<char>::empty());
                }
                assert(before + text_lines(rest) =~= lines.deep_view() + Seq::<Seq<char>>::empty());
            }
            i = nl;
        } else {
            let end = if nl > i && chars[nl - 1] == '\r' {
                nl - 1
            } else {
                nl
            };
            let line = string_of(&chars, i, end);
            lines.push(line);
            proof {
                let first = chars@.subrange(i as int, nl as int);
                assert(first == before_char(rest, '\n'));
                assert(line@ =~= without_trailing_cr(first));
                assert(rest.subrange(first.len() + 1int, rest.len() as int) =~= chars@.subrange(
                    nl + 1,
                    chars@.len() as int,
                ));
                assert(lines.deep_view() =~= before.push(line@));
                assert(before + text_lines(rest) =~= lines.deep_view() + text_lines(
                    chars@.subrange(nl + 1, chars@.len() as int),
                ));
            }
            i = nl + 1;
        }
    }
    proof {
        assert(chars@.subrange(i as int, chars@.len() as int) =~= Seq::<char>::empty());
        assert(lines.deep_view() + Seq::<Seq<char>>::empty() =~= lines.deep_view());
    }
    lines
}

/// Text that reaches a `\n` before its end is cut at the same place when
/// more text follows.
proof fn lemma_before_char_of_concat(a: Seq<char>, b: Seq<char>, c: char)
    requires
        before_char(a, c).len() < a.len(),
    ensures
        before_char(a + b, c) == before_char(a, c),
{
    lemma_before_char_shape(a, c);
    let k = before_char(a, c).len() as int;
    lemma_before_char_unique(a + b, c, k);
    assert((a + b).subrange(0, k) =~= a.subrange(0, k));
}

/// Lines of text that is empty or ends with a `\n`, followed by more text,
/// are the lines of the first part followed by those of the second.
proof fn lemma_text_lines_concat(a: Seq<char>, b: Seq<char>)
    requires
        a.len() == 0 || a.last() == '\n',
    ensures
        text_lines(a + b) == text_lines(a) + text_lines(b),
    decreases a.len(),
{
    if a.len() == 0 {
        assert(a + b =~= b);
        assert(text_lines(a) + text_lines(b) =~= text_lines(b));
    } else {
        lemma_before_char_shape(a, '\n');
        let k = before_char(a, '\n').len() as int;
        if k >= a.len() {
            assert(a[a.len() - 1] != '\n');
        }
        lemma_before_char_of_concat(a, b, '\n');
        let rest = a.subrange(k + 1, a.len() as int);
        assert((a + b).subrange(k + 1, (a + b).len() as int) =~= rest + b);
        if rest.len() > 0 {
            assert(rest.last() == a.last());
        }
        lemma_text_lines_concat(rest, b);
        assert(text_lines(a + b) =~= seq![without_trailing_cr(before_char(a, '\n'))] + (
        text_lines(rest) + text_lines(b)));
        assert(text_lines(a) =~= seq![without_trailing_cr(before_char(a, '\n'))] + text_lines(
            rest,
        ));
        assert(text_lines(a + b) =~= text_lines(a) + text_lines(b));
    }
}

/// Appending a line and its `\n` to text that is empty or ends with a
/// `\n` adds exactly that line to what a line reader reads back, when the
/// line holds no `\n` and does not end with `\r`.
pub proof fn law_appended_line_reads_back(prev: Seq<char>, line: Seq<char>)
    requires
        prev.len() == 0 || prev.last() == '\n',
        forall|i: int| 0 <= i < line.len() ==> line[i] != '\n',
        line.len() == 0 || line.last() != '\r',
    ensures
        text_lines(prev + line.push('\n')) == text_lines(prev).push(line),
{
    let t = line.push('\n');
    lemma_before_char_unique(t, '\n', line.len() as int);
    assert(t.subrange(0, line.len() as int) =~= line);
    assert(t.subrange(line.len() + 1int, t.len() as int) =~= Seq::<char>::empty());
    assert(before_char(t, '\n') == line);
    assert(without_trailing_cr(line) == line);
    assert(text_lines(Seq::<char>::empty()) == Seq::<Seq<char>>::empty());
    assert(text_lines(t) =~= seq![line]);
    lemma_text_lines_concat(prev, t);
    assert(text_lines(prev) + seq![line] =~= text_lines(prev).push(line));
}

/// Only the first two `@`-separated fields of a peer's text are read:
/// `key@addr@extra` parses exactly as `key@addr` does, for every outcome.
pub proof fn law_fields_after_address_ignored<A, F: Fn(String) -> Option<A>>(
    resolve_addr: F,
    key: Seq<char>,
    addr: Seq<char>,
    extra: Seq<char>,
)
    requires
        forall|i: int| 0 <= i < key.len() ==> key[i] != '@',
        forall|i: int| 0 <= i < addr.len() ==> addr[i] != '@',
    ensures
        forall|r: Result<(PublicKey, A), LdkLiteError>|
            parses_peer_info_as(resolve_addr, key + seq!['@'] + addr + seq!['@'] + extra, r)
                == #[trigger] parses_peer_info_as(resolve_addr, key + seq!['@'] + addr, r),
{
    let long = key + seq!['@'] + addr + seq!['@'] + extra;
    let short = key + seq!['@'] + addr;
    let n = key.len() as int;
    lemma_before_char_unique(long, '@', n);
    lemma_before_char_unique(short, '@', n);
    assert(long.subrange(0, n) =~= key);
    assert(short.subrange(0, n) =~= key);
    let long_rest = long.subrange(n + 1, long.len() as int);
    let short_rest = short.subrange(n + 1, short.len() as int);
    assert(long_rest =~= addr + seq!['@'] + extra);
    assert(short_rest =~= addr);
    lemma_before_char_unique(long_rest, '@', addr.len() as int);
    lemma_before_char_unique(short_rest, '@', addr.len() as int);
    assert(long_rest.subrange(0, addr.len() as int) =~= addr);
    assert(short_rest.subrange(0, addr.len() as int) =~= addr);
    assert(peer_pubkey_part(long) == peer_pubkey_part(short));
    assert(peer_addr_part(long) == peer_addr_part(short));
    assert(has_at(long) && has_at(short));
}

/// The channel peers that the channel peer file's contents hold: each of
/// its lines parsed as `pubkey@host:port`, in order, stopping at the first
/// line that cannot be parsed and handing back its error.
pub fn parse_channel_peer_data<A, F: Fn(String) -> Option<A>>(
    content: &str,
    resolve_addr: F,
) -> (r: Result<Vec<(PublicKey, A)>, LdkLiteError>)
    requires
        forall|a: String| resolve_addr.requires((a,)),
    ensures
        channel_peers_outcome(resolve_addr, text_lines(content@), r),
{
    let lines = channel_peer_lines(content);
    parse_channel_peers(&lines, resolve_addr)
}

/// A payment persisted under its key in the LDK data directory lands in
/// the payment store directory, in the file named by the hex of its hash.
pub proof fn law_persisted_payment_lands_in_payment_store(storage_dir_path: Seq<char>, hash: Seq<u8>)
    ensures
        storage_dir_path + "/ldk"@ + "/"@ + payment_key(hash) == storage_dir_path + "/ldk"@ + "/"@
            + PAYMENT_INFO_PERSISTENCE_PREFIX@ + "/"@ + hex_chars(hash),
{
    reveal_strlit("/");
    assert(storage_dir_path + "/ldk"@ + "/"@ + payment_key(hash) =~= storage_dir_path + "/ldk"@
        + "/"@ + PAYMENT_INFO_PERSISTENCE_PREFIX@ + "/"@ + hex_chars(hash));
}

/// A peer appended to the channel peer file (a line holding no `\n` and
/// not ending with `\r`, after contents that are empty or end with a `\n`)
/// is read back last: when the file's lines all parse, the last peer is
/// what that line parses as.
pub proof fn law_appended_peer_is_read_back_last<A, F: Fn(String) -> Option<A>>(
    resolve_addr: F,
    prev: Seq<char>,
    line: Seq<char>,
    peers: Vec<(PublicKey, A)>,
)
    requires
        prev.len() == 0 || prev.last() == '\n',
        forall|i: int| 0 <= i < line.len() ==> line[i] != '\n',
        line.len() == 0 || line.last() != '\r',
        channel_peers_outcome(
            resolve_addr,
            text_lines(prev + line.push('\n')),
            Ok::<Vec<(PublicKey, A)>, LdkLiteError>(peers),
        ),
    ensures
        peers@.len() == text_lines(prev).len() + 1,
        parses_peer_info_as(
            resolve_addr,
            line,
            Ok::<(PublicKey, A), LdkLiteError>(peers@[peers@.len() - 1]),
        ),
{
    law_appended_line_reads_back(prev, line);
    let lines = text_lines(prev + line.push('\n'));
    assert(lines[lines.len() - 1] == line);
}

/// A line ended by `\r\n` reads back without either, and a last line
/// with no `\n` after it reads back as it is, when the line holds no `\n`.
pub proof fn law_line_endings(prev: Seq<char>, line: Seq<char>)
    requires
        prev.len() == 0 || prev.last() == '\n',
        forall|i: int| 0 <= i < line.len() ==> line[i] != '\n',
    ensures
        text_lines(prev + line.push('\r').push('\n')) == text_lines(prev).push(line),
        line.len() > 0 ==> text_lines(prev + line) == text_lines(prev).push(line),
{
    let t = line.push('\r').push('\n');
    let n: int = line.len() + 1int;
    lemma_before_char_unique(t, '\n', n);
    assert(t.subrange(0, n) =~= line.push('\r'));
    assert(without_trailing_cr(line.push('\r')) =~= line);
    assert(t.subrange(n + 1, t.len() as int) =~= Seq::<char>::empty());
    assert(text_lines(Seq::<char>::empty()) == Seq::<Seq<char>>::empty());
    assert(text_lines(t) =~= seq![line]);
    lemma_text_lines_concat(prev, t);
    assert(text_lines(prev) + seq![line] =~= text_lines(prev).push(line));
    if line.len() > 0 {
        lemma_before_char_unique(line, '\n', line.len() as int);
        assert(line.subrange(0, line.len() as int) =~= line);
        assert(text_lines(line) =~= seq![line]);
        lemma_text_lines_concat(prev, line);
    }
}

/// `key@addr`, where neither part holds an `@`, has `key` as its public key
/// part and `addr` as its address part; text without an `@` has no parts
/// and is refused as badly formatted.
pub proof fn law_peer_info_parts(key: Seq<char>, addr: Seq<char>)
    requires
        forall|i: int| 0 <= i < key.len() ==> key[i] != '@',
        forall|i: int| 0 <= i < addr.len() ==> addr[i] != '@',
    ensures
        has_at(key + seq!['@'] + addr),
        peer_pubkey_part(key + seq!['@'] + addr) == key,
        peer_addr_part(key + seq!['@'] + addr) == addr,
        !has_at(key),
{
    let t = key + seq!['@'] + addr;
    let n = key.len() as int;
    lemma_before_char_unique(t, '@', n);
    assert(t.subrange(0, n) =~= key);
    let r = t.subrange(n + 1, t.len() as int);
    assert(r =~= addr);
    lemma_before_char_unique(r, '@', addr.len() as int);
    assert(r.subrange(0, addr.len() as int) =~= addr);
    lemma_before_char_unique(key, '@', n);
    assert(key.subrange(0, n) =~= key);
}

} // verus!
