//! The NAT-PMP wire codec (RFC 6886): mapping and external-address requests
//! and responses, the test of which external addresses are worth advertising,
//! and the default gateway read from the Linux routing table. The UDP
//! exchange itself stands outside the library; an IPv4 address is its four
//! octets.
use vstd::prelude::*;
use crate::wire::{be16, be32, get_be16, get_be32};
use crate::text::{is_unicode_whitespace, is_whitespace_char};
use crate::log_text::until_whitespace;

verus! {

/// NAT-PMP always listens on this UDP port on the gateway.
pub const NAT_PMP_PORT: u16 = 5351;
/// Requested lifetime for a mapping.
pub const DEFAULT_MAPPING_LIFETIME_SECS: u32 = 3600;

pub const OP_MAP_TCP: u8 = 2;
pub const RESP_FLAG: u8 = 128;

/// A mapping the gateway confirmed.
#[derive(Debug, Clone, Copy, PartialEq, Eq, Structural)]
pub struct PortMapping {
    pub internal_port: u16,
    pub external_port: u16,
    pub lifetime_secs: u32,
}

/// Why a gateway reply was not taken as an answer.
#[derive(Debug, Clone, Copy, PartialEq, Eq, Structural)]
pub enum NatPmpError {
    /// Fewer bytes than the reply's layout; the length received.
    ShortResponse(usize),
    /// A version other than 0.
    UnsupportedVersion(u8),
    /// An opcode other than the expected response opcode.
    UnexpectedOpcode(u8),
    /// A non-zero result code from the gateway.
    GatewayResult(u16),
    /// A mapping for another internal port: (got, expected).
    PortMismatch(u16, u16),
    /// External port 0: a refusal.
    ZeroExternalPort,
    /// Lifetime 0: a refusal.
    ZeroLifetime,
    /// An external address that no peer could dial.
    NonPublicAddress(u8, u8, u8, u8),
}

/// The mapping request: version 0, opcode 2 (map TCP), two reserved zero
/// bytes, internal port, suggested external port, lifetime, big-endian.
pub open spec fn map_request(internal_port: u16, suggested_external: u16, lifetime: u32) -> Seq<u8> {
    seq![0u8, OP_MAP_TCP, 0u8, 0u8] + be16(internal_port) + be16(suggested_external) + be32(
        lifetime,
    )
}

pub fn encode_map_request(internal_port: u16, suggested_external: u16, lifetime: u32) -> (b: [u8; 12])
    ensures
        b@ == map_request(internal_port, suggested_external, lifetime),
        b[0] == 0 && b[1] == 2 && b[2] == 0 && b[3] == 0,
        b[4] * 256 + b[5] == internal_port,
        b[6] * 256 + b[7] == suggested_external,
        ((b[8] * 256 + b[9]) * 256 + b[10]) * 256 + b[11] == lifetime,
{
    let b4 = ((internal_port >> 8) & 0xff) as u8;
    let b5 = (internal_port & 0xff) as u8;
    let b6 = ((suggested_external >> 8) & 0xff) as u8;
    let b7 = (suggested_external & 0xff) as u8;
    let b8 = ((lifetime >> 24) & 0xff) as u8;
    let b9 = ((lifetime >> 16) & 0xff) as u8;
    let b10 = ((lifetime >> 8) & 0xff) as u8;
    let b11 = (lifetime & 0xff) as u8;
    let mut b = [0u8; 12];
    b[0] = 0;
    b[1] = OP_MAP_TCP;
    b[4] = b4;
    b[5] = b5;
    b[6] = b6;
    b[7] = b7;
    b[8] = b8;
    b[9] = b9;
    b[10] = b10;
    b[11] = b11;
    assert(b@ =~= map_request(internal_port, suggested_external, lifetime));
    assert(b4 * 256 + b5 == internal_port) by (bit_vector)
        requires
            b4 == ((internal_port >> 8) & 0xff) as u8,
            b5 == (internal_port & 0xff) as u8,
    ;
    assert(b6 * 256 + b7 == suggested_external) by (bit_vector)
        requires
            b6 == ((suggested_external >> 8) & 0xff) as u8,
            b7 == (suggested_external & 0xff) as u8,
    ;
    assert(((b8 * 256 + b9) * 256 + b10) * 256 + b11 == lifetime) by (bit_vector)
        requires
            b8 == ((lifetime >> 24) & 0xff) as u8,
            b9 == ((lifetime >> 16) & 0xff) as u8,
            b10 == ((lifetime >> 8) & 0xff) as u8,
            b11 == (lifetime & 0xff) as u8,
    ;
    b
}

proof fn lemma_be16_value(s: Seq<u8>, off: int)
    requires
        0 <= off,
        off + 2 <= s.len(),
    ensures
        get_be16(s, off) == s[off] * 256 + s[off + 1],
{
    let a = s[off];
    let b = s[off + 1];
    assert(((a as u16) << 8) | (b as u16) == a * 256 + b) by (bit_vector);
}

proof fn lemma_be32_value(s: Seq<u8>, off: int)
    requires
        0 <= off,
        off + 4 <= s.len(),
    ensures
        get_be32(s, off) == ((s[off] * 256 + s[off + 1]) * 256 + s[off + 2]) * 256 + s[off + 3],
{
    let a = s[off];
    let b = s[off + 1];
    let c = s[off + 2];
    let d = s[off + 3];
    assert(((a as u32) << 24) | ((b as u32) << 16) | ((c as u32) << 8) | (d as u32) == ((a * 256
        + b) * 256 + c) * 256 + d) by (bit_vector);
}

/// What a mapping response says, checked in the order the fields come: at
/// least 16 bytes, version 0, opcode 130, result 0, the internal port asked
/// for, a non-zero external port and a non-zero lifetime.
pub open spec fn map_response(buf: Seq<u8>, expect_internal: u16) -> Result<PortMapping, NatPmpError> {
    if buf.len() < 16 {
        Err(NatPmpError::ShortResponse(buf.len() as usize))
    } else if buf[0] != 0 {
        Err(NatPmpError::UnsupportedVersion(buf[0]))
    } else if buf[1] != OP_MAP_TCP + RESP_FLAG {
        Err(NatPmpError::UnexpectedOpcode(buf[1]))
    } else if get_be16(buf, 2) != 0 {
        Err(NatPmpError::GatewayResult(get_be16(buf, 2)))
    } else if get_be16(buf, 8) != expect_internal {
        Err(NatPmpError::PortMismatch(get_be16(buf, 8), expect_internal))
    } else if get_be16(buf, 10) == 0 {
        Err(NatPmpError::ZeroExternalPort)
    } else if get_be32(buf, 12) == 0 {
        Err(NatPmpError::ZeroLifetime)
    } else {
        Ok(
            PortMapping {
                internal_port: get_be16(buf, 8),
                external_port: get_be16(buf, 10),
                lifetime_secs: get_be32(buf, 12),
            },
        )
    }
}

pub fn decode_map_response(buf: &[u8], expect_internal: u16) -> (r: Result<PortMapping, NatPmpError>)
    ensures
        r == map_response(buf@, expect_internal),
        r matches Ok(m) ==> buf@.len() >= 16 && buf@[0] == 0 && buf@[1] == 130 && buf@[2] == 0
            && buf@[3] == 0 && m.internal_port == expect_internal && m.internal_port == buf@[8] * 256
            + buf@[9] && m.external_port == buf@[10] * 256 + buf@[11] && m.external_port != 0
            && m.lifetime_secs == ((buf@[12] * 256 + buf@[13]) * 256 + buf@[14]) * 256 + buf@[15]
            && m.lifetime_secs != 0,
        buf@.len() < 16 ==> r == Err::<PortMapping, NatPmpError>(NatPmpError::ShortResponse(buf@.len() as usize)),
{
    proof {
        if buf@.len() >= 16 {
            lemma_be16_value(buf@, 2);
            lemma_be16_value(buf@, 8);
            lemma_be16_value(buf@, 10);
            lemma_be32_value(buf@, 12);
        }
    }
    if buf.len() < 16 {
        return Err(NatPmpError::ShortResponse(buf.len()));
    }
    if buf[0] != 0 {
        return Err(NatPmpError::UnsupportedVersion(buf[0]));
    }
    if buf[1] != OP_MAP_TCP + RESP_FLAG {
        return Err(NatPmpError::UnexpectedOpcode(buf[1]));
    }
    let result = crate::wire::read_be16(buf, 2);
    if result != 0 {
        return Err(NatPmpError::GatewayResult(result));
    }
    let internal = crate::wire::read_be16(buf, 8);
    if internal != expect_internal {
        return Err(NatPmpError::PortMismatch(internal, expect_internal));
    }
    let external = crate::wire::read_be16(buf, 10);
    if external == 0 {
        return Err(NatPmpError::ZeroExternalPort);
    }
    let lifetime = crate::wire::read_be32(buf, 12);
    if lifetime == 0 {
        return Err(NatPmpError::ZeroLifetime);
    }
    Ok(PortMapping { internal_port: internal, external_port: external, lifetime_secs: lifetime })
}

/// The external-address request: version 0, opcode 0.
pub fn encode_external_address_request() -> (b: [u8; 2])
    ensures
        b@ == seq![0u8, 0u8],
{
    let b = [0u8, 0u8];
    assert(b@ =~= seq![0u8, 0u8]);
    b
}

/// Whether an address is worth telling other peers about: not loopback,
/// unspecified, private, link-local, broadcast, documentation, multicast, or
/// carrier-grade NAT (100.64.0.0/10), with the ranges `Ipv4Addr` uses.
pub open spec fn publicly_dialable(ip: Seq<u8>) -> bool {
    let (a, b, c, d) = (ip[0], ip[1], ip[2], ip[3]);
    !({
        ||| a == 127
        ||| (a == 0 && b == 0 && c == 0 && d == 0)
        ||| a == 10
        ||| (a == 172 && 16 <= b <= 31)
        ||| (a == 192 && b == 168)
        ||| (a == 169 && b == 254)
        ||| (a == 255 && b == 255 && c == 255 && d == 255)
        ||| (a == 192 && b == 0 && c == 2)
        ||| (a == 198 && b == 51 && c == 100)
        ||| (a == 203 && b == 0 && c == 113)
        ||| (224 <= a <= 239)
        ||| (a == 100 && 64 <= b < 128)
    })
}

/// Which IPv4 addresses are worth telling peers about, over all addresses:
/// none that is loopback (127/8), unspecified, private (10/8, 172.16/12,
/// 192.168/16), link-local (169.254/16), the broadcast address, documentation
/// (192.0.2/24, 198.51.100/24, 203.0.113/24), multicast (224/4) or carrier-grade
/// NAT (100.64/10); and every address whose first octet names none of those
/// ranges is.
pub proof fn lemma_dialable_ranges(ip: Seq<u8>)
    requires
        ip.len() == 4,
    ensures
        224 <= ip[0] <= 239 ==> !publicly_dialable(ip),
        ip[0] == 127 ==> !publicly_dialable(ip),
        ip[0] == 10 ==> !publicly_dialable(ip),
        (ip[0] == 172 && 16 <= ip[1] <= 31) ==> !publicly_dialable(ip),
        (ip[0] == 192 && ip[1] == 168) ==> !publicly_dialable(ip),
        (ip[0] == 169 && ip[1] == 254) ==> !publicly_dialable(ip),
        (ip[0] == 100 && 64 <= ip[1] <= 127) ==> !publicly_dialable(ip),
        (ip[0] == 0 && ip[1] == 0 && ip[2] == 0 && ip[3] == 0) ==> !publicly_dialable(ip),
        (ip[0] == 255 && ip[1] == 255 && ip[2] == 255 && ip[3] == 255) ==> !publicly_dialable(ip),
        (ip[0] == 192 && ip[1] == 0 && ip[2] == 2) ==> !publicly_dialable(ip),
        (ip[0] == 198 && ip[1] == 51 && ip[2] == 100) ==> !publicly_dialable(ip),
        (ip[0] == 203 && ip[1] == 0 && ip[2] == 113) ==> !publicly_dialable(ip),
        (ip[0] != 0 && ip[0] != 10 && ip[0] != 100 && ip[0] != 127 && ip[0] != 169 && ip[0] != 172
            && ip[0] != 192 && ip[0] != 198 && ip[0] != 203 && ip[0] < 224) ==> publicly_dialable(ip),
{
}

pub fn is_publicly_dialable(ip: &[u8; 4]) -> (r: bool)
    ensures
        r == publicly_dialable(ip@),
        224 <= ip[0] <= 239 ==> !r,
        ip[0] == 127 || ip[0] == 10 ==> !r,
{
    proof {
        lemma_dialable_ranges(ip@);
    }
    let (a, b, c, d) = (ip[0], ip[1], ip[2], ip[3]);
    let loopback = a == 127;
    let unspecified = a == 0 && b == 0 && c == 0 && d == 0;
    let private = a == 10 || (a == 172 && 16 <= b && b <= 31) || (a == 192 && b == 168);
    let link_local = a == 169 && b == 254;
    let broadcast = a == 255 && b == 255 && c == 255 && d == 255;
    let documentation = (a == 192 && b == 0 && c == 2) || (a == 198 && b == 51 && c == 100) || (a
        == 203 && b == 0 && c == 113);
    let multicast = 224 <= a && a <= 239;
    let cgnat = a == 100 && 64 <= b && b < 128;
    !(loopback || unspecified || private || link_local || broadcast || documentation || multicast
        || cgnat)
}

/// What an external-address response says: at least 12 bytes, version 0,
/// opcode 128, result 0, and a publicly dialable address in bytes 8..12.
pub open spec fn external_address_response(buf: Seq<u8>) -> Result<Seq<u8>, NatPmpError> {
    if buf.len() < 12 {
        Err(NatPmpError::ShortResponse(buf.len() as usize))
    } else if buf[0] != 0 {
        Err(NatPmpError::UnsupportedVersion(buf[0]))
    } else if buf[1] != RESP_FLAG {
        Err(NatPmpError::UnexpectedOpcode(buf[1]))
    } else if get_be16(buf, 2) != 0 {
        Err(NatPmpError::GatewayResult(get_be16(buf, 2)))
    } else if !publicly_dialable(buf.subrange(8, 12)) {
        Err(NatPmpError::NonPublicAddress(buf[8], buf[9], buf[10], buf[11]))
    } else {
        Ok(buf.subrange(8, 12))
    }
}

pub fn decode_external_address_response(buf: &[u8]) -> (r: Result<[u8; 4], NatPmpError>)
    ensures
        r matches Ok(ip) ==> !(224 <= ip[0] <= 239) && ip[0] != 127 && ip[0] != 10,
        r matches Ok(ip) ==> buf@.len() >= 12 && buf@[0] == 0 && buf@[1] == 128 && buf@[2] == 0
            && buf@[3] == 0 && ip@ == buf@.subrange(8, 12),
        match r {
            Ok(ip) => external_address_response(buf@) == Ok::<Seq<u8>, NatPmpError>(ip@),
            Err(e) => external_address_response(buf@) == Err::<Seq<u8>, NatPmpError>(e),
        },
{
    proof {
        if buf@.len() >= 12 {
            lemma_be16_value(buf@, 2);
            lemma_dialable_ranges(buf@.subrange(8, 12));
        }
    }
    if buf.len() < 12 {
        return Err(NatPmpError::ShortResponse(buf.len()));
    }
    if buf[0] != 0 {
        return Err(NatPmpError::UnsupportedVersion(buf[0]));
    }
    if buf[1] != RESP_FLAG {
        return Err(NatPmpError::UnexpectedOpcode(buf[1]));
    }
    let result = crate::wire::read_be16(buf, 2);
    if result != 0 {
        return Err(NatPmpError::GatewayResult(result));
    }
    let ip = [buf[8], buf[9], buf[10], buf[11]];
    assert(ip@ =~= buf@.subrange(8, 12));
    if !is_publicly_dialable(&ip) {
        return Err(NatPmpError::NonPublicAddress(ip[0], ip[1], ip[2], ip[3]));
    }
    Ok(ip)
}

// ── Default gateway from the routing table ─────────────────────────────────

/// The end of the line that starts at `i`: the next `\n`, or the end.
pub open spec fn line_end(s: Seq<char>, i: int) -> int
    decreases s.len() - i,
{
    if i >= s.len() {
        s.len() as int
    } else if s[i] == '\n' {
        i
    } else {
        line_end(s, i + 1)
    }
}

pub proof fn lemma_line_end(s: Seq<char>, i: int)
    requires
        0 <= i <= s.len(),
    ensures
        i <= line_end(s, i) <= s.len(),
        line_end(s, i) < s.len() ==> s[line_end(s, i)] == '\n',
        forall|k: int| i <= k < line_end(s, i) ==> s[k] != '\n',
    decreases s.len() - i,
{
    if i < s.len() && s[i] != '\n' {
        lemma_line_end(s, i + 1);
    }
}

/// The lines of `s` from `i` on, as `str::lines` gives them: split at `\n`, a
/// `\r` before the `\n` dropped, no empty line after a final `\n`.
pub open spec fn lines_from(s: Seq<char>, i: int) -> Seq<Seq<char>>
    decreases s.len() + 1 - i,
{
    if i < 0 || i >= s.len() {
        seq![]
    } else {
        let j = line_end(s, i);
        let raw = s.subrange(i, j);
        let line = if j < s.len() && raw.len() > 0 && raw.last() == '\r' {
            raw.drop_last()
        } else {
            raw
        };
        proof {
            lemma_line_end(s, i);
        }
        seq![line] + lines_from(s, j + 1)
    }
}

/// The whitespace-separated fields of a line, as `split_whitespace` gives them.
pub open spec fn fields_of(s: Seq<char>) -> Seq<Seq<char>>
    decreases s.len(),
{
    if s.len() == 0 {
        seq![]
    } else if is_unicode_whitespace(s[0]) {
        fields_of(s.drop_first())
    } else {
        let k = until_whitespace(s);
        proof {
            lemma_until_whitespace(s);
        }
        if 0 < k <= s.len() {
            seq![s.take(k)] + fields_of(s.skip(k))
        } else {
            seq![]
        }
    }
}

pub proof fn lemma_until_whitespace(s: Seq<char>)
    ensures
        0 <= until_whitespace(s) <= s.len(),
        s.len() > 0 && !is_unicode_whitespace(s[0]) ==> until_whitespace(s) >= 1,
        forall|k: int| 0 <= k < until_whitespace(s) ==> !is_unicode_whitespace(#[trigger] s[k]),
        until_whitespace(s) < s.len() ==> is_unicode_whitespace(s[until_whitespace(s)]),
    decreases s.len(),
{
    if s.len() > 0 && !is_unicode_whitespace(s[0]) {
        lemma_until_whitespace(s.drop_first());
        assert forall|k: int| 0 <= k < until_whitespace(s) implies !is_unicode_whitespace(#[trigger] s[k]) by {
            if k > 0 {
                assert(s[k] == s.drop_first()[k - 1]);
            }
        }
        if until_whitespace(s) < s.len() {
            assert(s[until_whitespace(s)] == s.drop_first()[until_whitespace(s) - 1]);
        }
    }
}

/// The octets of a gateway column value: the column is the address in
/// little-endian hex.
pub open spec fn gateway_octets(raw: u32) -> Seq<u8> {
    seq![(raw & 0xff) as u8, ((raw >> 8) & 0xff) as u8, ((raw >> 16) & 0xff) as u8, ((raw >> 24) & 0xff) as u8]
}

/// `00000000`.
pub open spec fn all_zero_dest() -> Seq<char> {
    seq!['0', '0', '0', '0', '0', '0', '0', '0']
}

/// The default gateway among `lines` (the header already skipped): lines are
/// read in order; a line with fewer than three fields ends the search with
/// nothing, as does a default route whose gateway is not hex for a `u32`; a
/// default route (destination `00000000`) to a non-zero gateway is the
/// answer; other lines are passed over.
pub open spec fn gateway_in(lines: Seq<Seq<char>>) -> Option<Seq<u8>>
    decreases lines.len(),
{
    if lines.len() == 0 {
        None
    } else {
        let f = fields_of(lines[0]);
        if f.len() < 3 {
            None
        } else if f[1] != all_zero_dest() {
            gateway_in(lines.drop_first())
        } else {
            match crate::text::hex_u32_of(f[2]) {
                None => None,
                Some(raw) => if raw == 0 {
                    gateway_in(lines.drop_first())
                } else {
                    Some(gateway_octets(raw))
                },
            }
        }
    }
}

/// The default gateway of a `/proc/net/route` table.
pub open spec fn default_gateway_of(table: Seq<char>) -> Option<Seq<u8>> {
    let lines = lines_from(table, 0);
    if lines.len() == 0 {
        None
    } else {
        gateway_in(lines.skip(1))
    }
}

pub(crate) fn split_lines(s: &[char]) -> (r: Vec<Vec<char>>)
    ensures
        r@.map_values(|l: Vec<char>| l@) == lines_from(s@, 0),
{
    let n = s.len();
    let mut out: Vec<Vec<char>> = Vec::new();
    let mut i: usize = 0;
    while i < n
        invariant
            n == s@.len(),
            i <= n,
            out@.map_values(|l: Vec<char>| l@) + lines_from(s@, i as int) == lines_from(s@, 0),
        decreases n - i,
    {
        proof {
            lemma_line_end(s@, i as int);
        }
        let mut j = i;
        while j < n && s[j] != '\n'
            invariant
                n == s@.len(),
                i <= j <= n,
                line_end(s@, j as int) == line_end(s@, i as int),
            decreases n - j,
        {
            j = j + 1;
        }
        let mut line: Vec<char> = Vec::new();
        let mut k = i;
        while k < j
            invariant
                i <= k <= j <= n,
                n == s@.len(),
                line@ == s@.subrange(i as int, k as int),
            decreases j - k,
        {
            line.push(s[k]);
            assert(line@ =~= s@.subrange(i as int, k + 1));
            k = k + 1;
        }
        if j < n && line.len() > 0 && line[line.len() - 1] == '\r' {
            line.pop();
        }
        let ghost before = out@.map_values(|l: Vec<char>| l@);
        let ghost lv = line@;
        out.push(line);
        assert(out@.map_values(|l: Vec<char>| l@) =~= before.push(lv));
        assert(before + lines_from(s@, i as int) =~= before.push(lv) + lines_from(s@, j + 1));
        if j < n {
            i = j + 1;
        } else {
            assert(lines_from(s@, j + 1) =~= lines_from(s@, n as int));
            i = n;
        }
    }
    assert(out@.map_values(|l: Vec<char>| l@) + Seq::<Seq<char>>::empty() =~= out@.map_values(
        |l: Vec<char>| l@,
    ));
    out
}

fn split_fields(s: &Vec<char>) -> (r: Vec<Vec<char>>)
    ensures
        r@.map_values(|l: Vec<char>| l@) == fields_of(s@),
{
    let n = s.len();
    let mut out: Vec<Vec<char>> = Vec::new();
    let mut i: usize = 0;
    assert(s@.skip(0) =~= s@);
    while i < n
        invariant
            n == s@.len(),
            i <= n,
            out@.map_values(|l: Vec<char>| l@) + fields_of(s@.skip(i as int)) == fields_of(s@),
        decreases n - i,
    {
        let ghost rest = s@.skip(i as int);
        if is_whitespace_char(s[i]) {
            assert(rest.drop_first() =~= s@.skip(i + 1));
            i = i + 1;
        } else {
            proof {
                lemma_until_whitespace(rest);
            }
            let mut j = i;
            let mut tok: Vec<char> = Vec::new();
            while j < n && !is_whitespace_char(s[j])
                invariant
                    n == s@.len(),
                    i <= j <= n,
                    rest == s@.skip(i as int),
                    rest.len() == n - i,
                    until_whitespace(rest) <= rest.len(),
                    until_whitespace(rest) < rest.len() ==> is_unicode_whitespace(
                        rest[until_whitespace(rest)],
                    ),
                    tok@ == s@.subrange(i as int, j as int),
                    j - i <= until_whitespace(rest),
                    forall|k: int| 0 <= k < j - i ==> !is_unicode_whitespace(#[trigger] rest[k]),
                decreases n - j,
            {
                tok.push(s[j]);
                assert(tok@ =~= s@.subrange(i as int, j + 1));
                proof {
                    if j - i == until_whitespace(rest) {
                        assert(rest[j - i] == s@[j as int]);
                    }
                }
                j = j + 1;
            }
            assert(j - i == until_whitespace(rest)) by {
                if j - i < until_whitespace(rest) {
                    if j < n {
                        assert(rest[j - i] == s@[j as int]);
                    }
                }
            }
            assert(tok@ =~= rest.take(j - i));
            assert(rest.skip(j - i) =~= s@.skip(j as int));
            let ghost before = out@.map_values(|l: Vec<char>| l@);
            let ghost tv = tok@;
            out.push(tok);
            assert(out@.map_values(|l: Vec<char>| l@) =~= before.push(tv));
            assert(before + fields_of(rest) =~= before.push(tv) + fields_of(s@.skip(j as int)));
            i = j;
        }
    }
    assert(s@.skip(n as int) =~= Seq::<char>::empty());
    assert(out@.map_values(|l: Vec<char>| l@) + Seq::<Seq<char>>::empty() =~= out@.map_values(
        |l: Vec<char>| l@,
    ));
    out
}

/// The IPv4 default gateway in a `/proc/net/route` table, or `None` (see
/// [`gateway_in`]).
pub fn parse_default_gateway_v4(proc_net_route: &str) -> (r: Option<[u8; 4]>)
    ensures
        match r {
            Some(ip) => default_gateway_of(proc_net_route@) == Some(ip@),
            None => default_gateway_of(proc_net_route@) is None,
        },
{
    let chars = crate::text::chars_of(proc_net_route);
    let lines = split_lines(chars.as_slice());
    let ghost lv = lines@.map_values(|l: Vec<char>| l@);
    let zero = ['0', '0', '0', '0', '0', '0', '0', '0'];
    assert(zero@ =~= all_zero_dest());
    let mut i: usize = 1;
    if lines.len() == 0 {
        return None;
    }
    while i < lines.len()
        invariant
            1 <= i <= lines@.len(),
            lv == lines@.map_values(|l: Vec<char>| l@),
            lv == lines_from(proc_net_route@, 0),
            zero@ == all_zero_dest(),
            gateway_in(lv.skip(1)) == gateway_in(lv.skip(i as int)),
        decreases lines@.len() - i,
    {
        let ghost rest = lv.skip(i as int);
        assert(rest.drop_first() =~= lv.skip(i + 1));
        assert(rest[0] == lines@[i as int]@);
        let f = split_fields(&lines[i]);
        let ghost fv = f@.map_values(|l: Vec<char>| l@);
        if f.len() < 3 {
            return None;
        }
        assert(fv[1] == f@[1]@);
        assert(fv[2] == f@[2]@);
        if !crate::text::chars_equal(f[1].as_slice(), zero.as_slice()) {
            i = i + 1;
        } else {
            match crate::text::parse_hex_u32(f[2].as_slice()) {
                None => {
                    return None;
                },
                Some(raw) => {
                    if raw == 0 {
                        i = i + 1;
                    } else {
                        let ip = [
                            (raw & 0xff) as u8,
                            ((raw >> 8) & 0xff) as u8,
                            ((raw >> 16) & 0xff) as u8,
                            ((raw >> 24) & 0xff) as u8,
                        ];
                        assert(ip@ =~= gateway_octets(raw));
                        return Some(ip);
                    }
                },
            }
        }
    }
    assert(lv.skip(i as int) =~= Seq::<Seq<char>>::empty());
    None
}

} // verus!
