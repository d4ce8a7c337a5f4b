//! The decisions of the PoAW-X miner's node-RPC client: which hosts count as
//! loopback, which transport errors mean the RPC URL has the wrong scheme,
//! the template query, hash decoding, and the miner's tunables. The HTTP
//! exchange itself stands outside the library.
use vstd::prelude::*;
use crate::activation::NodeEnv;
use crate::text::{char_from_ascii, chars_of, chars_equal, chars_contain, contains_seq, to_lowercase_chars,
    lowercase_of, trim_str, trimmed};
use crate::codec::{hex_decode, hex_decoded};
use crate::stratum_block::text_bytes;

verus! {

/// A transaction of a block template, its bytes in hex.
pub struct TemplateTx {
    pub hex: String,
    pub fee: Option<u64>,
    pub relay_addresses: Option<Vec<String>>,
}

/// The node's block template, with the PoAW-X fields that newer nodes add
/// (`None` from nodes that predate them).
pub struct BlockTemplate {
    pub height: u64,
    pub prev_hash: String,
    pub bits: String,
    pub time: u32,
    pub txs: Vec<TemplateTx>,
    pub poawx_mode: Option<String>,
    pub poawx_hidden_precommit_active: Option<bool>,
    pub poawx_audit_hardening_active: Option<bool>,
    pub poawx_tickets_active: Option<bool>,
    pub poawx_multisource_seed_active: Option<bool>,
    pub poawx_penalty_state_active: Option<bool>,
    pub poawx_puzzle_anchor_bits: Option<u32>,
    pub poawx_effective_sybil_bits: Option<u32>,
    pub poawx_proposer_vrf_active: Option<bool>,
    pub poawx_proposer_seed: Option<String>,
    pub poawx_proposer_eligible_count: Option<u64>,
    pub poawx_proposer_round_interval: Option<u64>,
    pub poawx_proposer_freeze_height: Option<u64>,
    pub poawx_proposer_max_allowed_round: Option<u32>,
    pub poawx_min_block_time: Option<u32>,
    pub poawx_reg_active: Option<bool>,
    pub poawx_reg_anchor_height: Option<u64>,
    pub poawx_reg_anchor_hash: Option<String>,
    pub poawx_reg_required_sybil_bits: Option<u32>,
    pub poawx_reg_activations: Option<Vec<String>>,
    pub poawx_reg_announces: Option<Vec<String>>,
}

/// Whether the host names this machine: `localhost`, `127.0.0.1` or `::1`.
pub fn is_loopback_host(host: &str) -> (b: bool)
    ensures
        b == (host@ == "localhost"@ || host@ == "127.0.0.1"@ || host@ == "::1"@),
{
    let h = chars_of(host);
    let a = chars_of("localhost");
    let b = chars_of("127.0.0.1");
    let c = chars_of("::1");
    chars_equal(h.as_slice(), a.as_slice()) || chars_equal(h.as_slice(), b.as_slice())
        || chars_equal(h.as_slice(), c.as_slice())
}

/// An error of a plain-HTTP request to an HTTPS endpoint: its lower-cased
/// text holds `invalid http version`.
pub fn is_tls_mismatch(err: &str) -> (b: bool)
    ensures
        b == contains_seq(lowercase_of(err@), "invalid http version"@),
{
    let lower = to_lowercase_chars(err);
    let n = chars_of("invalid http version");
    chars_contain(lower.as_slice(), n.as_slice())
}

/// The texts that mark an HTTPS request answered by a plain-HTTP endpoint.
pub open spec fn https_mismatch_marks() -> Seq<Seq<char>> {
    seq![
        "wrong version number"@,
        "first record does not look like a tls handshake"@,
        "received http/0.9 when not allowed"@,
        "invalid http version"@,
        "tls handshake"@,
        "unexpected eof while reading"@,
    ]
}

/// An error of an HTTPS request to a plain-HTTP endpoint: its lower-cased text
/// holds one of [`https_mismatch_marks`].
pub fn is_https_scheme_mismatch(err: &str) -> (b: bool)
    ensures
        b == exists|i: int|
            0 <= i < https_mismatch_marks().len() && contains_seq(
                lowercase_of(err@),
                #[trigger] https_mismatch_marks()[i],
            ),
{
    let lower = to_lowercase_chars(err);
    let marks = [
        chars_of("wrong version number"),
        chars_of("first record does not look like a tls handshake"),
        chars_of("received http/0.9 when not allowed"),
        chars_of("invalid http version"),
        chars_of("tls handshake"),
        chars_of("unexpected eof while reading"),
    ];
    let ghost ms = https_mismatch_marks();
    assert(forall|i: int| 0 <= i < 6 ==> (#[trigger] marks@[i])@ == ms[i]);
    let mut i: usize = 0;
    while i < 6
        invariant
            i <= 6,
            ms == https_mismatch_marks(),
            forall|k: int| 0 <= k < 6 ==> (#[trigger] marks@[k])@ == ms[k],
            lower@ == lowercase_of(err@),
            forall|k: int| 0 <= k < i ==> !contains_seq(lower@, #[trigger] ms[k]),
        decreases 6 - i,
    {
        if chars_contain(lower.as_slice(), marks[i].as_slice()) {
            return true;
        }
        i = i + 1;
    }
    false
}

/// Which base the client retries with after a scheme mismatch.
#[derive(Debug, Clone, Copy, PartialEq, Eq, Structural)]
pub enum RpcFallback {
    /// No retry: the error stands.
    NoRetry,
    /// Retry with `https://` replaced by `http://`.
    ToHttp,
    /// Retry with `http://` replaced by `https://`.
    ToHttps,
}

/// Whether `s` starts with `prefix`.
pub open spec fn starts_with(s: Seq<char>, prefix: Seq<char>) -> bool {
    prefix.len() <= s.len() && s.subrange(0, prefix.len() as int) == prefix
}

fn chars_start_with(s: &[char], prefix: &[char]) -> (b: bool)
    ensures
        b == starts_with(s@, prefix@),
{
    if prefix.len() > s.len() {
        return false;
    }
    let mut i: usize = 0;
    while i < prefix.len()
        invariant
            prefix@.len() <= s@.len(),
            i <= prefix@.len(),
            forall|k: int| 0 <= k < i ==> s@[k] == prefix@[k],
        decreases prefix@.len() - i,
    {
        if s[i] != prefix[i] {
            assert(s@.subrange(0, prefix@.len() as int)[i as int] != prefix@[i as int]);
            return false;
        }
        i = i + 1;
    }
    assert(s@.subrange(0, prefix@.len() as int) =~= prefix@);
    true
}

/// After a failed call on `base` with error `err`: an HTTPS base whose error
/// says the endpoint speaks plain HTTP is retried over HTTP, and an HTTP base
/// whose error says the endpoint speaks TLS is retried over HTTPS.
pub fn rpc_fallback(base: &str, err: &str) -> (f: RpcFallback)
    ensures
        f == if starts_with(base@, "https://"@) && exists|i: int|
            0 <= i < https_mismatch_marks().len() && contains_seq(
                lowercase_of(err@),
                #[trigger] https_mismatch_marks()[i],
            ) {
            RpcFallback::ToHttp
        } else if starts_with(base@, "http://"@) && contains_seq(
            lowercase_of(err@),
            "invalid http version"@,
        ) {
            RpcFallback::ToHttps
        } else {
            RpcFallback::NoRetry
        },
{
    let b = chars_of(base);
    let https = chars_of("https://");
    let http = chars_of("http://");
    if chars_start_with(b.as_slice(), https.as_slice()) && is_https_scheme_mismatch(err) {
        return RpcFallback::ToHttp;
    }
    if chars_start_with(b.as_slice(), http.as_slice()) && is_tls_mismatch(err) {
        return RpcFallback::ToHttps;
    }
    RpcFallback::NoRetry
}

/// Why a hash did not decode.
#[derive(Debug, Clone, Copy, PartialEq, Eq, Structural)]
pub enum HashDecodeError {
    /// Not valid hex.
    BadHex,
    /// Valid hex of another length than 32 bytes; the length.
    WrongLength(usize),
}

/// A 32-byte hash from hex, surrounding whitespace ignored.
pub fn poawx_decode_hash32(s: &str) -> (r: Result<[u8; 32], HashDecodeError>)
    ensures
        match hex_decoded(text_bytes(trimmed(s@))) {
            None => r == Err::<[u8; 32], HashDecodeError>(HashDecodeError::BadHex),
            Some(b) => if b.len() == 32 {
                r matches Ok(h) && h@ == b
            } else {
                r == Err::<[u8; 32], HashDecodeError>(HashDecodeError::WrongLength(b.len() as usize))
            },
        },
{
    let t = trim_str(s);
    let b = match hex_decode(t.as_bytes()) {
        Some(b) => b,
        None => {
            return Err(HashDecodeError::BadHex);
        },
    };
    if b.len() != 32 {
        return Err(HashDecodeError::WrongLength(b.len()));
    }
    let h = crate::wire::read_array32(b.as_slice(), 0);
    assert(h@ =~= b@);
    Ok(h)
}

/// The receipt puzzle difficulty: 20 bits on mainnet; elsewhere
/// `IRIUM_POAWX_PUZZLE_DIFFICULTY_BITS`, or 4.
pub fn poawx_receipt_difficulty_bits(env: &NodeEnv) -> (b: u32)
    ensures
        b == if env.network_id == 0 {
            20
        } else {
            match env.puzzle_difficulty_bits {
                Some(v) => v,
                None => 4,
            }
        },
{
    if env.network_id == 0 {
        return 20;
    }
    match env.puzzle_difficulty_bits {
        Some(v) => v,
        None => 4,
    }
}

/// Seconds between solo block-production attempts:
/// `IRIUM_POAWX_MINER_INTERVAL_SECS`, or 2, and at least 1.
pub fn poawx_miner_interval_secs(env: &NodeEnv) -> (s: u64)
    ensures
        s == match env.miner_interval_secs {
            Some(v) => if v >= 1 { v } else { 1 },
            None => 2,
        },
{
    match env.miner_interval_secs {
        Some(v) => if v >= 1 {
            v
        } else {
            1
        },
        None => 2,
    }
}

/// The decimal digits of `n`, most significant first.
pub open spec fn decimal_chars(n: nat) -> Seq<char>
    decreases n,
{
    if n < 10 {
        seq![(n + 48) as char]
    } else {
        decimal_chars(n / 10).push((n % 10 + 48) as char)
    }
}

fn push_decimal_chars(n: u64, out: &mut Vec<char>)
    ensures
        final(out)@ == old(out)@ + decimal_chars(n as nat),
    decreases n,
{
    if n >= 10 {
        push_decimal_chars(n / 10, out);
    }
    let c = char_from_ascii((48 + n % 10) as u8);
    out.push(c);
    assert(final(out)@ =~= old(out)@ + decimal_chars(n as nat));
}

/// How an HTTP status shows: its code, then its reason phrase where it has one.
pub open spec fn status_shown(status: u16, reason: Option<Seq<char>>) -> Seq<char> {
    decimal_chars(status as nat) + match reason {
        Some(r) => " "@ + r,
        None => seq![],
    }
}

/// The text of a failed RPC: `prefix: HTTP <status>`, and for 401 and 403 a
/// pointer at the RPC token.
pub open spec fn rpc_status_text(prefix: Seq<char>, status: u16, reason: Option<Seq<char>>) -> Seq<char> {
    prefix + ": HTTP "@ + status_shown(status, reason) + if status == 401 || status == 403 {
        " (check IRIUM_RPC_TOKEN)"@
    } else {
        seq![]
    }
}

/// The text of a failed RPC (see [`rpc_status_text`]); `reason` is the
/// status's reason phrase as the HTTP library shows it, if any.
pub fn rpc_status_error(prefix: &str, status: u16, reason: Option<&str>) -> (v: Vec<char>)
    ensures
        v@ == rpc_status_text(prefix@, status, match reason {
            Some(r) => Some(r@),
            None => None,
        }),
{
    let mut v = chars_of(prefix);
    let mut http = chars_of(": HTTP ");
    v.append(&mut http);
    push_decimal_chars(status as u64, &mut v);
    match reason {
        Some(r) => {
            let mut sp = chars_of(" ");
            v.append(&mut sp);
            let mut rc = chars_of(r);
            v.append(&mut rc);
        },
        None => {},
    }
    if status == 401 || status == 403 {
        let mut hint = chars_of(" (check IRIUM_RPC_TOKEN)");
        v.append(&mut hint);
    }
    v
}

} // verus!
