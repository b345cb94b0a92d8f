//! Text helpers for payload matching and alert previews: lossy decoding of
//! captured bytes, substring occurrence, and the bounded, newline-normalized
//! preview that alerts carry.

use vstd::prelude::*;

verus! {

/// The longest prefix, in characters, that an alert keeps of a payload.
pub const PREVIEW_LEN: usize = 100;

/// What `String::from_utf8_lossy` returns for a byte sequence: the decoded
/// characters, with each invalid sequence replaced. The result depends on the
/// bytes alone.
pub uninterp spec fn lossy_decode_of(bytes: Seq<u8>) -> Seq<char>;

/// Relies on `String::from_utf8_lossy`: invalid UTF-8 sequences become
/// replacement characters, never a failure, and bytes that are all ASCII
/// (below 0x80) decode to themselves.
#[verifier::external_body]
pub fn lossy_decode(bytes: &[u8]) -> (r: String)
    ensures
        r@ == lossy_decode_of(bytes@),
        (forall|i: int| 0 <= i < bytes@.len() ==> bytes@[i] < 0x80) ==> r@ == bytes@.map_values(
            |b: u8| b as char,
        ),
{
    String::from_utf8_lossy(bytes).into_owned()
}

pub assume_specification[ String::push ](s: &mut String, ch: char)
    ensures
        final(s)@ == old(s)@.push(ch),
;

/// Compares two strings character by character.
pub fn str_eq(a: &str, b: &str) -> (r: bool)
    ensures
        r == (a@ == b@),
{
    let la = a.unicode_len();
    let lb = b.unicode_len();
    if la != lb {
        return false;
    }
    let mut i: usize = 0;
    while i < la
        invariant
            i <= la,
            la == a@.len() && la == b@.len(),
            forall|j: int| 0 <= j < i ==> a@[j] == b@[j],
        decreases la - i,
    {
        if a.get_char(i) != b.get_char(i) {
            return false;
        }
        i = i + 1;
    }
    proof {
        assert(a@ =~= b@);
    }
    true
}

/// `pat` occurs in `hay` starting at character position `i`.
pub open spec fn occurs_at(hay: Seq<char>, pat: Seq<char>, i: int) -> bool {
    0 <= i && i + pat.len() <= hay.len() && hay.subrange(i, i + pat.len()) == pat
}

/// `pat` occurs somewhere in `hay`.
pub open spec fn occurs(hay: Seq<char>, pat: Seq<char>) -> bool {
    exists|i: int| occurs_at(hay, pat, i)
}

/// Carriage returns and line feeds are normalized to spaces.
pub open spec fn normalize_char(c: char) -> char {
    if c == '\r' || c == '\n' {
        ' '
    } else {
        c
    }
}

/// The preview of a decoded payload: its first `n` characters (all of them if
/// it is shorter), newlines and carriage returns replaced by spaces.
pub open spec fn preview_of(s: Seq<char>, n: int) -> Seq<char> {
    let cut = if s.len() <= n {
        s.len() as int
    } else {
        n
    };
    s.take(cut).map_values(|c: char| normalize_char(c))
}

/// Builds the bounded, normalized preview of a decoded payload.
pub fn build_preview(s: &str) -> (r: String)
    ensures
        r@ == preview_of(s@, PREVIEW_LEN as int),
{
    let len = s.unicode_len();
    let end = if len <= PREVIEW_LEN {
        len
    } else {
        PREVIEW_LEN
    };
    let mut out = String::new();
    let mut i: usize = 0;
    while i < end
        invariant
            i <= end,
            end == if s@.len() <= PREVIEW_LEN { s@.len() as int } else { PREVIEW_LEN as int },
            out@ == s@.take(i as int).map_values(|c: char| normalize_char(c)),
        decreases end - i,
    {
        let c = s.get_char(i);
        let cn = if c == '\r' || c == '\n' {
            ' '
        } else {
            c
        };
        out.push(cn);
        proof {
            assert(s@.take(i + 1).drop_last() =~= s@.take(i as int));
            assert(s@.take(i + 1).map_values(|c: char| normalize_char(c)) =~= s@.take(
                i as int,
            ).map_values(|c: char| normalize_char(c)).push(normalize_char(s@[i as int])));
        }
        i = i + 1;
    }
    proof {
        assert(s@.take(end as int) =~= s@.take(
            if s@.len() <= PREVIEW_LEN {
                s@.len() as int
            } else {
                PREVIEW_LEN as int
            },
        ));
    }
    out
}

} // verus!
