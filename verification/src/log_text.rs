//! Text handling of the pool's share sidecar and the explorer indexer:
//! stripping ANSI escapes from log lines, reading `key=value` fields, the
//! payout address of a worker name, NUL removal before storage, and the
//! miner tag of a text coinbase script. Texts are sequences of characters.
use vstd::prelude::*;
use crate::text::{is_unicode_whitespace, is_whitespace_char, occurs_at, trim_chars};

verus! {

pub const ESC: char = '\u{1b}';

pub open spec fn is_ascii_alpha(c: char) -> bool {
    ('a' <= c <= 'z') || ('A' <= c <= 'Z')
}

/// Just past the first ASCII letter at or after `k` (the end where none).
pub open spec fn alpha_end(s: Seq<char>, k: int) -> int
    decreases s.len() - k,
{
    if k >= s.len() {
        s.len() as int
    } else if is_ascii_alpha(s[k]) {
        k + 1
    } else {
        alpha_end(s, k + 1)
    }
}

pub proof fn lemma_alpha_end_bounds(s: Seq<char>, k: int)
    requires
        0 <= k,
    ensures
        k <= alpha_end(s, k) || (k > s.len() && alpha_end(s, k) == s.len()),
        alpha_end(s, k) <= if k > s.len() { k } else { s.len() as int },
    decreases s.len() - k,
{
    if k < s.len() && !is_ascii_alpha(s[k]) {
        lemma_alpha_end_bounds(s, k + 1);
    }
}

/// The escape sequence starting at `i` (`ESC`, an optional `[`, then through
/// the first ASCII letter) ends here.
pub open spec fn escape_end(s: Seq<char>, i: int) -> int {
    let k = if i + 1 < s.len() && s[i + 1] == '[' { i + 2 } else { i + 1 };
    alpha_end(s, k)
}

/// `s` from `i` on, with every ANSI escape sequence removed.
pub open spec fn strip_ansi_from(s: Seq<char>, i: int) -> Seq<char>
    decreases s.len() - i,
{
    if i < 0 || i >= s.len() {
        seq![]
    } else if s[i] == ESC {
        let j = escape_end(s, i);
        proof {
            let k = if i + 1 < s.len() && s[i + 1] == '[' { i + 2 } else { i + 1 };
            lemma_alpha_end_bounds(s, k);
        }
        if j > i {
            strip_ansi_from(s, j)
        } else {
            seq![]
        }
    } else {
        seq![s[i]] + strip_ansi_from(s, i + 1)
    }
}

/// `s` with its ANSI escape sequences removed.
pub fn strip_ansi(s: &[char]) -> (out: Vec<char>)
    ensures
        out@ == strip_ansi_from(s@, 0),
{
    let n = s.len();
    let mut out: Vec<char> = Vec::new();
    let mut i: usize = 0;
    while i < n
        invariant
            n == s@.len(),
            i <= n,
            out@ + strip_ansi_from(s@, i as int) == strip_ansi_from(s@, 0),
        decreases n - i,
    {
        if s[i] == ESC {
            let mut k: usize = if i + 1 < n && s[i + 1] == '[' {
                i + 2
            } else {
                i + 1
            };
            proof {
                lemma_alpha_end_bounds(s@, k as int);
            }
            let ghost k0 = k;
            while k < n && !(('a' <= s[k] && s[k] <= 'z') || ('A' <= s[k] && s[k] <= 'Z'))
                invariant
                    n == s@.len(),
                    k0 <= k <= n,
                    alpha_end(s@, k as int) == alpha_end(s@, k0 as int),
                decreases n - k,
            {
                k = k + 1;
            }
            let j = if k < n {
                k + 1
            } else {
                n
            };
            assert(j == escape_end(s@, i as int));
            i = j;
        } else {
            let ghost before = out@;
            out.push(s[i]);
            assert(before + strip_ansi_from(s@, i as int) =~= out@ + strip_ansi_from(s@, i + 1));
            i = i + 1;
        }
    }
    assert(out@ + Seq::<char>::empty() =~= out@);
    out
}

/// The first place `needle` occurs in `hay`, if any.
pub open spec fn first_occurrence(hay: Seq<char>, needle: Seq<char>) -> Option<int> {
    if exists|i: int| occurs_at(hay, needle, i) {
        Some(choose|i: int| occurs_at(hay, needle, i) && forall|j: int| 0 <= j < i ==> !occurs_at(hay, needle, j))
    } else {
        None
    }
}

fn find_chars(hay: &[char], needle: &[char]) -> (r: Option<usize>)
    ensures
        match r {
            Some(i) => occurs_at(hay@, needle@, i as int) && forall|j: int|
                0 <= j < i ==> !occurs_at(hay@, needle@, j),
            None => forall|j: int| !occurs_at(hay@, needle@, j),
        },
{
    let n = hay.len();
    let m = needle.len();
    if m > n {
        return None;
    }
    let mut i: usize = 0;
    while i <= n - m
        invariant
            m <= n,
            n == hay@.len(),
            m == needle@.len(),
            forall|k: int| 0 <= k < i ==> !occurs_at(hay@, needle@, k),
        decreases n - m + 1 - i,
    {
        let mut j: usize = 0;
        let mut same = true;
        while j < m
            invariant
                i + m <= n,
                n == hay@.len(),
                m == needle@.len(),
                j <= m,
                same == (forall|k: int| 0 <= k < j ==> hay@[i + k] == needle@[k]),
            decreases m - j,
        {
            if hay[i + j] != needle[j] {
                same = false;
            }
            j = j + 1;
        }
        if same {
            assert(hay@.subrange(i as int, i + m) =~= needle@);
            return Some(i);
        }
        assert(!occurs_at(hay@, needle@, i as int)) by {
            if occurs_at(hay@, needle@, i as int) {
                let k = choose|k: int| 0 <= k < m && hay@[i + k] != needle@[k];
                assert(hay@.subrange(i as int, i + m)[k] == hay@[i + k]);
            }
        }
        i = i + 1;
    }
    assert forall|k: int| !occurs_at(hay@, needle@, k) by {
        if 0 <= k && k + m <= n {
            assert(k < i);
        }
    }
    None
}

proof fn lemma_first_occurrence(hay: Seq<char>, needle: Seq<char>, i: int)
    requires
        occurs_at(hay, needle, i),
        forall|j: int| 0 <= j < i ==> !occurs_at(hay, needle, j),
    ensures
        first_occurrence(hay, needle) == Some(i),
{
    let c = choose|c: int| occurs_at(hay, needle, c) && forall|j: int| 0 <= j < c ==> !occurs_at(hay, needle, j);
    assert(occurs_at(hay, needle, c));
    if c < i {
    } else if c > i {
        assert(!occurs_at(hay, needle, i));
    }
}

/// The length of the run of `s` before the first whitespace (or all of it).
pub open spec fn until_whitespace(s: Seq<char>) -> int
    decreases s.len(),
{
    if s.len() == 0 || is_unicode_whitespace(s[0]) {
        0
    } else {
        1 + until_whitespace(s.drop_first())
    }
}

/// The value of `key` in a log message: what follows the first occurrence of
/// `key`, up to the next whitespace.
pub open spec fn log_field_of(msg: Seq<char>, key: Seq<char>) -> Option<Seq<char>> {
    match first_occurrence(msg, key) {
        Some(i) => {
            let rest = msg.skip(i + key.len());
            Some(rest.take(until_whitespace(rest)))
        },
        None => None,
    }
}

pub fn log_field(msg: &[char], key: &[char]) -> (r: Option<Vec<char>>)
    ensures
        match r {
            Some(v) => log_field_of(msg@, key@) == Some(v@),
            None => log_field_of(msg@, key@) is None,
        },
{
    let i = match find_chars(msg, key) {
        Some(i) => i,
        None => {
            assert(first_occurrence(msg@, key@) is None);
            return None;
        },
    };
    proof {
        lemma_first_occurrence(msg@, key@, i as int);
    }
    let kl = key.len();
    let ml = msg.len();
    assert(i + kl <= ml);
    let start = i + kl;
    let ghost rest = msg@.skip(start as int);
    let mut out: Vec<char> = Vec::new();
    let mut k: usize = start;
    assert(rest.skip(0) =~= rest);
    while k < msg.len() && !is_whitespace_char(msg[k])
        invariant
            start <= k <= msg@.len(),
            rest == msg@.skip(start as int),
            out@ == rest.take(k - start),
            until_whitespace(rest) == (k - start) + until_whitespace(rest.skip(k - start)),
        decreases msg@.len() - k,
    {
        assert(rest.skip(k - start).drop_first() =~= rest.skip(k - start + 1));
        out.push(msg[k]);
        assert(out@ =~= rest.take(k - start + 1));
        k = k + 1;
    }
    Some(out)
}

/// A worker name's payout address: the name up to its first `.`.
pub open spec fn worker_address_of(w: Seq<char>) -> Seq<char>
    decreases w.len(),
{
    if w.len() == 0 || w[0] == '.' {
        seq![]
    } else {
        seq![w[0]] + worker_address_of(w.drop_first())
    }
}

pub fn worker_address(worker: &[char]) -> (r: Vec<char>)
    ensures
        r@ == worker_address_of(worker@),
{
    let mut out: Vec<char> = Vec::new();
    let mut k: usize = 0;
    assert(worker@.skip(0) =~= worker@);
    while k < worker.len() && worker[k] != '.'
        invariant
            k <= worker@.len(),
            out@ + worker_address_of(worker@.skip(k as int)) == worker_address_of(worker@),
        decreases worker@.len() - k,
    {
        assert(worker@.skip(k as int).drop_first() =~= worker@.skip(k + 1));
        let ghost before = out@;
        out.push(worker[k]);
        assert(before + worker_address_of(worker@.skip(k as int)) =~= out@ + worker_address_of(
            worker@.skip(k + 1),
        ));
        k = k + 1;
    }
    assert(out@ + Seq::<char>::empty() =~= out@);
    out
}

/// `s` with every NUL character removed.
pub open spec fn without_nuls(s: Seq<char>) -> Seq<char>
    decreases s.len(),
{
    if s.len() == 0 {
        s
    } else if s.last() == '\0' {
        without_nuls(s.drop_last())
    } else {
        without_nuls(s.drop_last()).push(s.last())
    }
}

/// The text with NULs removed (storage columns refuse them).
pub fn strip_nuls(s: &[char]) -> (r: Vec<char>)
    ensures
        r@ == without_nuls(s@),
{
    let mut out: Vec<char> = Vec::new();
    let mut k: usize = 0;
    while k < s.len()
        invariant
            k <= s@.len(),
            out@ == without_nuls(s@.take(k as int)),
        decreases s@.len() - k,
    {
        assert(s@.take(k + 1).drop_last() =~= s@.take(k as int));
        if s[k] != '\0' {
            out.push(s[k]);
        }
        k = k + 1;
    }
    assert(s@.take(s@.len() as int) =~= s@);
    out
}

/// What `str::from_utf8` accepts, decoded to characters.
#[verifier::external_body]
fn utf8_chars(bytes: &[u8]) -> (r: Option<Vec<char>>)
    ensures
        match r {
            Some(v) => vstd::utf8::valid_utf8(bytes@) && v@ == vstd::utf8::decode_utf8(bytes@),
            None => !vstd::utf8::valid_utf8(bytes@),
        },
{
    std::str::from_utf8(bytes).ok().map(|s| s.chars().collect())
}

/// The length of `s` without its trailing NULs.
pub open spec fn trailing_nul_cut(s: Seq<char>) -> int
    decreases s.len(),
{
    if s.len() == 0 || s.last() != '\0' {
        s.len() as int
    } else {
        trailing_nul_cut(s.drop_last())
    }
}

/// The length of `s` without its trailing whitespace.
pub open spec fn trailing_ws_cut(s: Seq<char>) -> int
    decreases s.len(),
{
    if s.len() == 0 || !is_unicode_whitespace(s.last()) {
        s.len() as int
    } else {
        trailing_ws_cut(s.drop_last())
    }
}

/// Whether a candidate tag is usable: 1 to 20 ASCII characters.
pub open spec fn tag_ok(t: Seq<char>) -> bool {
    0 < t.len() <= 20 && forall|i: int| 0 <= i < t.len() ==> (#[trigger] t[i] as u32) < 128
}

/// The miner tag of a coinbase script: none unless the script is UTF-8 text;
/// trailing NULs dropped; then the text after the first `/` (`Block H/tag`),
/// else after the first ` solo ` with trailing whitespace dropped (`Block H
/// solo tag`), taken when it is 1 to 20 ASCII characters and not all NULs,
/// with its NULs removed.
pub open spec fn coinbase_tag_of(script: Seq<u8>) -> Option<Seq<char>> {
    if !vstd::utf8::valid_utf8(script) {
        None
    } else {
        let full = vstd::utf8::decode_utf8(script);
        let t = full.take(trailing_nul_cut(full));
        let slash = first_occurrence(t, seq!['/']);
        let solo = first_occurrence(t, seq![' ', 's', 'o', 'l', 'o', ' ']);
        let first = match slash {
            Some(p) => {
                let tag = t.skip(p + 1);
                if tag_ok(tag) && without_nuls(tag).len() > 0 {
                    Some(without_nuls(tag))
                } else {
                    None
                }
            },
            None => None,
        };
        if first is Some {
            first
        } else {
            match solo {
                Some(p) => {
                    let rest = t.skip(p + 6);
                    let after = rest.take(trailing_ws_cut(rest));
                    if tag_ok(after) && without_nuls(after).len() > 0 {
                        Some(without_nuls(after))
                    } else {
                        None
                    }
                },
                None => None,
            }
        }
    }
}

proof fn lemma_cut_le(s: Seq<char>)
    ensures
        0 <= trailing_nul_cut(s) <= s.len(),
        0 <= trailing_ws_cut(s) <= s.len(),
    decreases s.len(),
{
    if s.len() > 0 {
        lemma_cut_le(s.drop_last());
    }
}

fn nul_cut(s: &Vec<char>) -> (k: usize)
    ensures
        k == trailing_nul_cut(s@),
{
    let mut k = s.len();
    assert(s@.take(s@.len() as int) =~= s@);
    while k > 0 && s[k - 1] == '\0'
        invariant
            k <= s@.len(),
            trailing_nul_cut(s@.take(k as int)) == trailing_nul_cut(s@),
        decreases k,
    {
        assert(s@.take(k as int).drop_last() =~= s@.take(k - 1));
        k = k - 1;
    }
    k
}

fn ws_cut(s: &Vec<char>) -> (k: usize)
    ensures
        k == trailing_ws_cut(s@),
{
    let mut k = s.len();
    assert(s@.take(s@.len() as int) =~= s@);
    while k > 0 && is_whitespace_char(s[k - 1])
        invariant
            k <= s@.len(),
            trailing_ws_cut(s@.take(k as int)) == trailing_ws_cut(s@),
        decreases k,
    {
        assert(s@.take(k as int).drop_last() =~= s@.take(k - 1));
        k = k - 1;
    }
    k
}

fn slice_chars(s: &Vec<char>, from: usize, to: usize) -> (r: Vec<char>)
    requires
        from <= to <= s@.len(),
    ensures
        r@ == s@.subrange(from as int, to as int),
{
    let mut r: Vec<char> = Vec::new();
    let mut k = from;
    while k < to
        invariant
            from <= k <= to <= s@.len(),
            r@ == s@.subrange(from as int, k as int),
        decreases to - k,
    {
        r.push(s[k]);
        assert(r@ =~= s@.subrange(from as int, k + 1));
        k = k + 1;
    }
    r
}

fn tag_candidate(tag: &Vec<char>) -> (r: Option<Vec<char>>)
    ensures
        match r {
            Some(v) => tag_ok(tag@) && without_nuls(tag@).len() > 0 && v@ == without_nuls(tag@),
            None => !(tag_ok(tag@) && without_nuls(tag@).len() > 0),
        },
{
    if tag.len() == 0 || tag.len() > 20 {
        return None;
    }
    let mut k: usize = 0;
    while k < tag.len()
        invariant
            k <= tag@.len(),
            forall|i: int| 0 <= i < k ==> (#[trigger] tag@[i] as u32) < 128,
        decreases tag@.len() - k,
    {
        if (tag[k] as u32) >= 128 {
            return None;
        }
        k = k + 1;
    }
    let t = strip_nuls(tag.as_slice());
    if t.len() == 0 {
        return None;
    }
    Some(t)
}

/// The miner tag of a coinbase script (see [`coinbase_tag_of`]).
pub fn extract_coinbase_tag(script_sig: &[u8]) -> (r: Option<Vec<char>>)
    ensures
        match r {
            Some(v) => coinbase_tag_of(script_sig@) == Some(v@),
            None => coinbase_tag_of(script_sig@) is None,
        },
{
    let full = match utf8_chars(script_sig) {
        Some(v) => v,
        None => {
            return None;
        },
    };
    let cut = nul_cut(&full);
    proof {
        lemma_cut_le(full@);
    }
    let t = slice_chars(&full, 0, cut);
    assert(t@ =~= full@.take(trailing_nul_cut(full@)));
    let slash = ['/'];
    match find_chars(t.as_slice(), slash.as_slice()) {
        Some(p) => {
            proof {
                assert(slash@ =~= seq!['/']);
                lemma_first_occurrence(t@, seq!['/'], p as int);
            }
            let tag = slice_chars(&t, p + 1, t.len());
            assert(tag@ =~= t@.skip(p + 1));
            match tag_candidate(&tag) {
                Some(v) => {
                    return Some(v);
                },
                None => {},
            }
        },
        None => {
            assert(slash@ =~= seq!['/']);
        },
    }
    let solo = [' ', 's', 'o', 'l', 'o', ' '];
    assert(solo@ =~= seq![' ', 's', 'o', 'l', 'o', ' ']);
    match find_chars(t.as_slice(), solo.as_slice()) {
        Some(p) => {
            proof {
                lemma_first_occurrence(t@, seq![' ', 's', 'o', 'l', 'o', ' '], p as int);
            }
            let rest = slice_chars(&t, p + 6, t.len());
            assert(rest@ =~= t@.skip(p + 6));
            let wc = ws_cut(&rest);
            proof {
                lemma_cut_le(rest@);
            }
            let after = slice_chars(&rest, 0, wc);
            assert(after@ =~= rest@.take(trailing_ws_cut(rest@)));
            tag_candidate(&after)
        },
        None => None,
    }
}

} // verus!
