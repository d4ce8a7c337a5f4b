//! The decisions of the committee miner that stand apart from block
//! building: reading a file of committee keys, finding the first round in
//! which the proposer is selected, when to register the proposer key, how
//! large a committee to field, and which pool members go with a winner.
use vstd::prelude::*;
use vstd::utf8::{encode_utf8, encode_scalar, is_ascii_chars, is_ascii_chars_encode_utf8};
use crate::codec::{hex_decode, hex_decoded, is_hex_digit};
use crate::nat_pmp::{lines_from, split_lines};
use crate::poawx_proposer::{is_selected, spec_threshold};
use crate::text::{chars_of, trim_chars, trimmed};
use crate::wire::read_array32;

verus! {

proof fn lemma_high_bits_set(x: u8)
    by (bit_vector)
    ensures
        (0xC0u8 | x) >= 0xC0u8,
        (0xE0u8 | x) >= 0xE0u8,
        (0xF0u8 | x) >= 0xF0u8,
{
}

/// The first byte of a non-ASCII character's encoding is no hex digit.
proof fn lemma_leading_byte_not_hex(c: char)
    requires
        !('\0' <= c <= '\u{7f}'),
    ensures
        encode_scalar(c as u32).len() > 0,
        !is_hex_digit(encode_scalar(c as u32)[0]),
{
    let v = c as u32;
    broadcast use vstd::utf8::char_is_scalar;
    assert(v >= 0x80);
    lemma_high_bits_set(((v >> 6) & 0x1F) as u8);
    lemma_high_bits_set(((v >> 12) & 0x0F) as u8);
    lemma_high_bits_set(((v >> 18) & 0x7) as u8);
}

/// The UTF-8 bytes of a text with a non-ASCII character are never hexadecimal.
proof fn lemma_non_ascii_not_hex(s: Seq<char>)
    requires
        !is_ascii_chars(s),
    ensures
        hex_decoded(encode_utf8(s)) is None,
    decreases s.len(),
{
    let k = choose|k: int| 0 <= k < s.len() && !('\0' <= #[trigger] s[k] <= '\u{7f}');
    lemma_some_byte_not_hex(s, k);
    let b = encode_utf8(s);
    let j = choose|j: int| 0 <= j < b.len() && !is_hex_digit(#[trigger] b[j]);
    assert(!(forall|i: int| 0 <= i < b.len() ==> is_hex_digit(#[trigger] b[i])));
}

proof fn lemma_some_byte_not_hex(s: Seq<char>, k: int)
    requires
        0 <= k < s.len(),
        !('\0' <= s[k] <= '\u{7f}'),
    ensures
        exists|j: int| 0 <= j < encode_utf8(s).len() && !is_hex_digit(#[trigger] encode_utf8(s)[j]),
    decreases s.len(),
{
    let first = encode_scalar(s[0] as u32);
    let rest = encode_utf8(s.drop_first());
    assert(encode_utf8(s) == first + rest);
    if k == 0 {
        lemma_leading_byte_not_hex(s[0]);
        assert(encode_utf8(s)[0] == first[0]);
    } else {
        lemma_some_byte_not_hex(s.drop_first(), k - 1);
        let j = choose|j: int| 0 <= j < rest.len() && !is_hex_digit(#[trigger] rest[j]);
        assert(encode_utf8(s)[first.len() + j] == rest[j]);
    }
}

proof fn lemma_ascii_char(c: char)
    requires
        (c as u32) <= 0x7f,
    ensures
        '\0' <= c <= '\u{7f}',
{
}

/// Decodes hexadecimal text given as characters, as `hex::decode` does on
/// the text's UTF-8 bytes.
fn hex_decode_chars(s: &Vec<char>) -> (r: Option<Vec<u8>>)
    ensures
        match r {
            Some(v) => hex_decoded(encode_utf8(s@)) == Some(v@),
            None => hex_decoded(encode_utf8(s@)) is None,
        },
{
    let mut bytes: Vec<u8> = Vec::new();
    let mut i: usize = 0;
    while i < s.len()
        invariant
            i <= s@.len(),
            bytes@.len() == i,
            forall|k: int| 0 <= k < i ==> (#[trigger] s@[k] as u32) <= 0x7f,
            forall|k: int| 0 <= k < i ==> bytes@[k] == s@[k] as u32 as u8,
        decreases s@.len() - i,
    {
        let c = s[i];
        if (c as u32) > 0x7f {
            proof {
                lemma_non_ascii_not_hex(s@);
            }
            return None;
        }
        bytes.push((c as u32) as u8);
        i = i + 1;
    }
    proof {
        assert forall|k: int| 0 <= k < s@.len() implies '\0' <= #[trigger] s@[k] <= '\u{7f}' by {
            lemma_ascii_char(s@[k]);
        }
        assert(is_ascii_chars(s@));
        is_ascii_chars_encode_utf8(s@);
        assert(bytes@ =~= encode_utf8(s@));
    }
    hex_decode(bytes.as_slice())
}

/// Why a keys file was refused.
#[derive(Debug, Clone, Copy, PartialEq, Eq, Structural)]
pub enum KeysFileError {
    /// A line that is not hexadecimal.
    BadHex,
    /// A key of another length than 32 bytes; the length.
    WrongLength(usize),
    /// No key at all.
    Empty,
}

/// The keys of `lines`, in order: each line trimmed, blank lines skipped,
/// every other line a 32-byte key in hexadecimal; the first bad line decides
/// the error.
pub open spec fn keys_in_lines(lines: Seq<Seq<char>>) -> Result<Seq<Seq<u8>>, KeysFileError>
    decreases lines.len(),
{
    if lines.len() == 0 {
        Ok(seq![])
    } else {
        let l = trimmed(lines[0]);
        let rest = keys_in_lines(lines.drop_first());
        if l.len() == 0 {
            rest
        } else {
            match hex_decoded(encode_utf8(l)) {
                None => Err(KeysFileError::BadHex),
                Some(b) => if b.len() != 32 {
                    Err(KeysFileError::WrongLength(b.len() as usize))
                } else {
                    match rest {
                        Ok(ks) => Ok(seq![b] + ks),
                        Err(e) => Err(e),
                    }
                },
            }
        }
    }
}

/// The keys of a keys file (one hex secret per line), refused when it holds none.
pub open spec fn keys_file(text: Seq<char>) -> Result<Seq<Seq<u8>>, KeysFileError> {
    match keys_in_lines(lines_from(text, 0)) {
        Ok(ks) => if ks.len() == 0 {
            Err(KeysFileError::Empty)
        } else {
            Ok(ks)
        },
        Err(e) => Err(e),
    }
}

/// `out` put in front of the keys of a result.
pub open spec fn keys_after(out: Seq<Seq<u8>>, r: Result<Seq<Seq<u8>>, KeysFileError>) -> Result<
    Seq<Seq<u8>>,
    KeysFileError,
> {
    match r {
        Ok(ks) => Ok(out + ks),
        Err(e) => Err(e),
    }
}

/// Reads the committee keys from the text of a keys file.
pub fn read_keys_text(text: &str) -> (r: Result<Vec<[u8; 32]>, KeysFileError>)
    ensures
        match r {
            Ok(v) => keys_file(text@) == Ok::<Seq<Seq<u8>>, KeysFileError>(
                v@.map_values(|k: [u8; 32]| k@),
            ),
            Err(e) => keys_file(text@) == Err::<Seq<Seq<u8>>, KeysFileError>(e),
        },
{
    let chars = chars_of(text);
    let lines = split_lines(chars.as_slice());
    let ghost ls = lines@.map_values(|l: Vec<char>| l@);
    assert(ls == lines_from(text@, 0));
    let mut out: Vec<[u8; 32]> = Vec::new();
    assert(ls.skip(0) =~= ls);
    assert(out@.map_values(|k: [u8; 32]| k@) =~= Seq::<Seq<u8>>::empty());
    proof {
        match keys_in_lines(ls) {
            Ok(ks) => {
                assert(Seq::<Seq<u8>>::empty() + ks =~= ks);
            },
            Err(_) => {},
        }
    }
    let mut i: usize = 0;
    while i < lines.len()
        invariant
            i <= lines@.len(),
            ls == lines@.map_values(|l: Vec<char>| l@),
            ls == lines_from(text@, 0),
            keys_in_lines(ls) == keys_after(out@.map_values(|k: [u8; 32]| k@), keys_in_lines(ls.skip(i as int))),
        decreases lines@.len() - i,
    {
        let ghost outs = out@.map_values(|k: [u8; 32]| k@);
        assert(ls.skip(i as int).drop_first() =~= ls.skip(i + 1));
        assert(ls.skip(i as int)[0] == lines@[i as int]@);
        let t = trim_chars(&lines[i]);
        assert(t@ == trimmed(ls.skip(i as int)[0]));
        if t.len() > 0 {
            match hex_decode_chars(&t) {
                None => {
                    assert(keys_in_lines(ls.skip(i as int)) == Err::<Seq<Seq<u8>>, KeysFileError>(
                        KeysFileError::BadHex,
                    ));
                    return Err(KeysFileError::BadHex);
                },
                Some(b) => {
                    if b.len() != 32 {
                        assert(keys_in_lines(ls.skip(i as int)) == Err::<Seq<Seq<u8>>, KeysFileError>(
                            KeysFileError::WrongLength(b.len()),
                        ));
                        return Err(KeysFileError::WrongLength(b.len()));
                    }
                    let k = read_array32(b.as_slice(), 0);
                    assert(k@ =~= b@);
                    out.push(k);
                    assert(out@.map_values(|k: [u8; 32]| k@) =~= outs + seq![b@]);
                    assert(outs + seq![b@] + keys_in_lines(ls.skip(i + 1))->Ok_0 =~= outs + (seq![
                        b@,
                    ] + keys_in_lines(ls.skip(i + 1))->Ok_0));
                },
            }
        }
        i = i + 1;
    }
    assert(ls.skip(lines@.len() as int) =~= Seq::<Seq<char>>::empty());
    assert(out@.map_values(|k: [u8; 32]| k@) + Seq::<Seq<u8>>::empty() =~= out@.map_values(
        |k: [u8; 32]| k@,
    ));
    if out.len() == 0 {
        return Err(KeysFileError::Empty);
    }
    Ok(out)
}

/// Whether a priority is selected in `round` among `eligible` proposers.
pub open spec fn selected_in(priority: u64, eligible: u64, round: u32) -> bool {
    priority < spec_threshold(eligible, round)
}

/// The first round up to `max_round` in which `priority` is selected, if any.
pub fn first_selected_round(priority: u64, eligible: u64, max_round: u32) -> (r: Option<u32>)
    ensures
        match r {
            Some(k) => k <= max_round && selected_in(priority, eligible, k) && forall|j: u32|
                j < k ==> !#[trigger] selected_in(priority, eligible, j),
            None => forall|j: u32| j <= max_round ==> !#[trigger] selected_in(priority, eligible, j),
        },
{
    let mut k: u32 = 0;
    loop
        invariant
            k <= max_round,
            forall|j: u32| j < k ==> !#[trigger] selected_in(priority, eligible, j),
        decreases max_round - k,
    {
        if is_selected(priority, eligible, k) {
            return Some(k);
        }
        if k == max_round {
            return None;
        }
        k = k + 1;
    }
}

/// Blocks that pass between two registrations of the proposer key.
pub const REGISTRATION_INTERVAL_BLOCKS: u64 = 20;

/// Whether the miner registers its proposer key at `height`: registration is
/// live, and the key was never registered (`last_reg` is 0) or was last
/// registered at least [`REGISTRATION_INTERVAL_BLOCKS`] blocks back.
pub fn registration_due(reg_active: bool, last_reg: u64, height: u64) -> (b: bool)
    ensures
        b == (reg_active && (last_reg == 0 || height >= last_reg + REGISTRATION_INTERVAL_BLOCKS)),
{
    reg_active && (last_reg == 0 || height.saturating_sub(last_reg) >= REGISTRATION_INTERVAL_BLOCKS)
}

/// How many committee keys go into the support pool: the requested size
/// (`IRIUM_POAWX_COMMITTEE_SIZE`), or every key when none is requested, and
/// never more keys than there are.
pub fn committee_target_size(requested: Option<u64>, keys: usize) -> (n: usize)
    ensures
        n == match requested {
            Some(v) => if v < keys {
                v as int
            } else {
                keys as int
            },
            None => keys as int,
        },
{
    match requested {
        Some(v) => if v < keys as u64 {
            v as usize
        } else {
            keys
        },
        None => keys,
    }
}

/// Whether the pools can make a block: at least two support members and at
/// least one compute and one verify member.
pub fn pools_ready(support: usize, compute: usize, verify: usize) -> (b: bool)
    ensures
        b == (support >= 2 && compute >= 1 && verify >= 1),
{
    support >= 2 && compute >= 1 && verify >= 1
}

/// Whether pool member `i` goes with the winner `win`: it is not the winner,
/// and it clears the pool sortition where that is enforced.
pub open spec fn member_kept(i: int, win: int, admitted: Seq<bool>, sortition_on: bool) -> bool {
    i != win && (!sortition_on || admitted[i])
}

/// The pool members that go with the winner `win`, in pool order: every
/// member but the winner, or, where the sortition is enforced, those of them
/// that clear it (`admitted[i]`).
pub fn kept_members(win: usize, admitted: &[bool], sortition_on: bool) -> (r: Vec<usize>)
    ensures
        forall|k: int| 0 <= k < r@.len() ==> r@[k] < admitted@.len() && member_kept(#[trigger] r@[k] as int, win as int, admitted@, sortition_on),
        forall|k: int, l: int| 0 <= k < l < r@.len() ==> #[trigger] r@[k] < #[trigger] r@[l],
        forall|i: int| 0 <= i < admitted@.len() && member_kept(i, win as int, admitted@, sortition_on) ==> #[trigger] r@.contains(i as usize),
{
    let mut r: Vec<usize> = Vec::new();
    let mut i: usize = 0;
    while i < admitted.len()
        invariant
            i <= admitted@.len(),
            forall|k: int| 0 <= k < r@.len() ==> r@[k] < i && member_kept(#[trigger] r@[k] as int, win as int, admitted@, sortition_on),
            forall|k: int, l: int| 0 <= k < l < r@.len() ==> #[trigger] r@[k] < #[trigger] r@[l],
            forall|j: int| 0 <= j < i && member_kept(j, win as int, admitted@, sortition_on) ==> #[trigger] r@.contains(j as usize),
        decreases admitted@.len() - i,
    {
        if i != win && (!sortition_on || admitted[i]) {
            let ghost before = r@;
            r.push(i);
            proof {
                assert forall|j: int| 0 <= j < i + 1 && member_kept(j, win as int, admitted@, sortition_on) implies #[trigger] r@.contains(j as usize) by {
                    if j < i {
                        assert(before.contains(j as usize));
                        let k = choose|k: int| 0 <= k < before.len() && before[k] == j as usize;
                        assert(r@[k] == j as usize);
                    } else {
                        assert(r@[r@.len() - 1] == j as usize);
                    }
                }
            }
        }
        i = i + 1;
    }
    r
}

} // verus!
