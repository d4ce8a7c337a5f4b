use irium_poawx::digest::sha256d;
use irium_poawx::log_text::{extract_coinbase_tag, log_field, strip_ansi, strip_nuls, worker_address};
use irium_poawx::stratum_block::{parse_address_to_pkh, parse_hex32, BlockError};
use irium_poawx::poawx_miner_client::{
    is_https_scheme_mismatch, is_loopback_host, is_tls_mismatch, poawx_decode_hash32,
    poawx_miner_interval_secs, poawx_receipt_difficulty_bits, rpc_fallback, HashDecodeError,
    RpcFallback,
};
use irium_poawx::activation::NodeEnv;
use irium_poawx::text::{chars_contain, parse_hex_u32, skip_0x};

#[test]
fn hex_and_base58_decoding() {
    let mut h = "48656c6C6f".to_string();
    h.push_str(&"00".repeat(27));
    let mut want = [0u8; 32];
    want[..5].copy_from_slice(b"Hello");
    assert_eq!(parse_hex32(&h), Ok(want));
    assert_eq!(parse_hex32("123"), Err(BlockError::HexDecode));
    assert_eq!(parse_hex32("zz"), Err(BlockError::HexDecode));
    assert_eq!(parse_hex32(""), Err(BlockError::HexLength));
    assert_eq!(parse_address_to_pkh("he11owor1d"), Err(BlockError::AddressLength));
    assert_eq!(parse_address_to_pkh("0"), Err(BlockError::Base58Decode));
}

#[test]
fn sha256_known_vectors() {
    assert_eq!(
        sha256d(b"abc").to_vec(),
        hex::decode("4f8b42c22dd3729b519ba6f68d2da7cc5b2d606d05daed5ad5128cc03e6c6358").unwrap()
    );
    assert_eq!(
        sha256d(b"").to_vec(),
        hex::decode("5df6e0e2761359d30a8275058e299fcc0381534545f55cf43e41983f5d4c9456").unwrap()
    );
}

#[test]
fn string_helpers() {
    assert!(is_tls_mismatch("ÀB INVALID HTTP VERSION"));
    let hay: Vec<char> = "hello world".chars().collect();
    let needle: Vec<char> = "o w".chars().collect();
    assert!(chars_contain(&hay, &needle));
    assert!(!chars_contain(&needle, &hay));
    assert!(chars_contain(&hay, &[]));
    let v: Vec<char> = "0x0xff".chars().collect();
    assert_eq!(skip_0x(&v), 4);
    let d: Vec<char> = "+fF".chars().collect();
    assert_eq!(parse_hex_u32(&d), Some(255));
}

#[test]
fn miner_client_decisions() {
    assert!(is_loopback_host("localhost"));
    assert!(is_loopback_host("127.0.0.1"));
    assert!(is_loopback_host("::1"));
    assert!(!is_loopback_host("10.0.0.1"));
    assert!(!is_loopback_host("LOCALHOST"));
    assert!(is_tls_mismatch("error: Invalid HTTP Version parsed"));
    assert!(!is_tls_mismatch("connection refused"));
    assert!(is_https_scheme_mismatch("SSL routines: WRONG VERSION NUMBER"));
    assert!(is_https_scheme_mismatch("unexpected EOF while reading"));
    assert!(!is_https_scheme_mismatch("timeout"));
    assert_eq!(rpc_fallback("https://127.0.0.1:38300", "tls handshake eof"), RpcFallback::ToHttp);
    assert_eq!(rpc_fallback("http://127.0.0.1:38300", "invalid HTTP version"), RpcFallback::ToHttps);
    assert_eq!(rpc_fallback("http://127.0.0.1:38300", "tls handshake eof"), RpcFallback::NoRetry);
    assert_eq!(rpc_fallback("https://x", "refused"), RpcFallback::NoRetry);
}

#[test]
fn hash_decoding_and_miner_tunables() {
    assert_eq!(poawx_decode_hash32(&format!(" {} ", "0f".repeat(32))), Ok([0x0f; 32]));
    assert_eq!(poawx_decode_hash32("0f0f"), Err(HashDecodeError::WrongLength(2)));
    assert_eq!(poawx_decode_hash32("xx"), Err(HashDecodeError::BadHex));
    let mut env = NodeEnv::unset(0);
    env.puzzle_difficulty_bits = Some(9);
    assert_eq!(poawx_receipt_difficulty_bits(&env), 20);
    env.network_id = 2;
    assert_eq!(poawx_receipt_difficulty_bits(&env), 9);
    env.puzzle_difficulty_bits = None;
    assert_eq!(poawx_receipt_difficulty_bits(&env), 4);
    assert_eq!(poawx_miner_interval_secs(&env), 2);
    env.miner_interval_secs = Some(0);
    assert_eq!(poawx_miner_interval_secs(&env), 1);
    env.miner_interval_secs = Some(30);
    assert_eq!(poawx_miner_interval_secs(&env), 30);
}

#[test]
fn log_text_helpers() {
    let c = |s: &str| -> Vec<char> { s.chars().collect() };
    assert_eq!(strip_ansi(&c("\u{1b}[32mshare\u{1b}[0m ok")), c("share ok"));
    assert_eq!(strip_ansi(&c("a\u{1b}xb")), c("ab"));
    assert_eq!(strip_ansi(&c("tail\u{1b}[12")), c("tail"));
    assert_eq!(log_field(&c("accepted worker=Qabc.rig1 diff=8"), &c("worker=")), Some(c("Qabc.rig1")));
    assert_eq!(log_field(&c("accepted diff=8"), &c("worker=")), None);
    assert_eq!(log_field(&c("x diff="), &c("diff=")), Some(c("")));
    assert_eq!(worker_address(&c("Qabc.rig1")), c("Qabc"));
    assert_eq!(worker_address(&c("Qabc")), c("Qabc"));
    assert_eq!(strip_nuls(&c("a\0b\0")), c("ab"));
    assert_eq!(extract_coinbase_tag(b"Block 12/mypool\0\0"), Some(c("mypool")));
    assert_eq!(extract_coinbase_tag(b"Block 12 solo rig7  "), Some(c("rig7")));
    assert_eq!(extract_coinbase_tag(b"Block 12/"), None);
    assert_eq!(extract_coinbase_tag(b"Block 12/this-tag-is-way-too-long-for-it"), None);
    assert_eq!(extract_coinbase_tag(&[0x03, 0xff, 0xfe]), None);
    assert_eq!(extract_coinbase_tag(b"Block 12"), None);
}
