//! Scanner-side helpers: parsing a comma-separated port list, the default
//! port sets, and banner cleanup.

use crate::text::normalize_char;
use vstd::prelude::*;

verus! {

/// An ASCII decimal digit.
pub open spec fn is_digit(c: char) -> bool {
    '0' <= c && c <= '9'
}

/// The value of one digit character.
pub open spec fn digit_val(c: char) -> int {
    c as int - '0' as int
}

/// Every character is a digit.
pub open spec fn all_digits(s: Seq<char>) -> bool {
    forall|i: int| 0 <= i < s.len() ==> is_digit(#[trigger] s[i])
}

/// The number named by a digit string, most significant digit first.
pub open spec fn digits_val(s: Seq<char>) -> int
    decreases s.len(),
{
    if s.len() == 0 {
        0
    } else {
        digits_val(s.drop_last()) * 10 + digit_val(s.last())
    }
}

proof fn lemma_digits_nonneg(s: Seq<char>)
    requires
        all_digits(s),
    ensures
        digits_val(s) >= 0,
    decreases s.len(),
{
    if s.len() > 0 {
        assert(all_digits(s.drop_last()));
        lemma_digits_nonneg(s.drop_last());
    }
}

/// A digit string's value only grows as digits are appended.
proof fn lemma_digits_prefix_le(s: Seq<char>, m: int)
    requires
        all_digits(s),
        0 <= m <= s.len(),
    ensures
        digits_val(s.subrange(0, m)) <= digits_val(s),
    decreases s.len(),
{
    if m == s.len() {
        assert(s.subrange(0, m) =~= s);
    } else {
        let prev = s.drop_last();
        assert(all_digits(prev));
        assert(s.subrange(0, m) =~= prev.subrange(0, m));
        lemma_digits_prefix_le(prev, m);
        lemma_digits_nonneg(prev);
    }
}

/// How `u16` parsing reads a string: an optional leading plus sign, then at
/// least one digit and nothing else, naming a value of at most 65535.
/// The digits of a port string, once an optional leading plus sign is
/// stripped.
pub open spec fn sign_tail(s: Seq<char>) -> Seq<char> {
    if s.len() > 0 && s[0] == '+' {
        s.drop_first()
    } else {
        s
    }
}

pub open spec fn parse_u16_of(s: Seq<char>) -> Option<u16> {
    let t = sign_tail(s);
    if t.len() == 0 || !all_digits(t) {
        None
    } else if digits_val(t) > 65535 {
        None
    } else {
        Some(digits_val(t) as u16)
    }
}

/// Parses a port number: an optional leading plus sign, then decimal digits
/// naming a value of at most 65535; anything else is rejected.
pub fn parse_u16(s: &str) -> (r: Option<u16>)
    ensures
        r == parse_u16_of(s@),
{
    let len = s.unicode_len();
    let start: usize = if len > 0 && s.get_char(0) == '+' {
        1
    } else {
        0
    };
    let ghost t = sign_tail(s@);
    proof {
        assert(t =~= s@.subrange(start as int, len as int));
    }
    if start == len {
        return None;
    }
    let mut acc: u32 = 0;
    let mut i: usize = start;
    while i < len
        invariant
            start <= i <= len,
            len == s@.len(),
            t == sign_tail(s@),
            t =~= s@.subrange(start as int, len as int),
            forall|j: int| start <= j < i ==> is_digit(#[trigger] s@[j]),
            acc <= 65535,
            acc == digits_val(s@.subrange(start as int, i as int)),
        decreases len - i,
    {
        let c = s.get_char(i);
        let v = c as u32;
        if v < 48 || v > 57 {
            proof {
                assert(c as int == v as int);
                assert(!is_digit(c));
                assert(t[i - start] == s@[i as int]);
                assert(!all_digits(t));
            }
            return None;
        }
        let d: u32 = v - 48;
        proof {
            assert(is_digit(s@[i as int]) && digit_val(s@[i as int]) == d);
            assert(s@.subrange(start as int, i + 1).drop_last() =~= s@.subrange(
                start as int,
                i as int,
            ));
            assert(s@.subrange(start as int, i + 1).last() == s@[i as int]);
        }
        if acc * 10 + d > 65535 {
            proof {
                let m = i + 1 - start;
                assert(t.subrange(0, m) =~= s@.subrange(start as int, i + 1));
                if all_digits(t) {
                    lemma_digits_prefix_le(t, m);
                }
            }
            return None;
        }
        acc = acc * 10 + d;
        i = i + 1;
    }
    proof {
        assert(t =~= s@.subrange(start as int, len as int));
        assert(all_digits(t));
        assert(digits_val(t) == acc);
    }
    Some(acc as u16)
}

/// A space, tab, carriage return or line feed.
pub open spec fn is_space(c: char) -> bool {
    c == ' ' || c == '\t' || c == '\r' || c == '\n'
}

/// The string without its leading and trailing whitespace.
pub open spec fn trimmed(s: Seq<char>) -> Seq<char>
    decreases s.len(),
{
    if s.len() > 0 && is_space(s[0]) {
        trimmed(s.drop_first())
    } else if s.len() > 0 && is_space(s.last()) {
        trimmed(s.drop_last())
    } else {
        s
    }
}

fn is_space_char(c: char) -> (r: bool)
    ensures
        r == is_space(c),
{
    c == ' ' || c == '\t' || c == '\r' || c == '\n'
}

/// Strips leading and trailing whitespace.
pub fn trim_str(s: &str) -> (r: &str)
    ensures
        r@ == trimmed(s@),
{
    let len = s.unicode_len();
    proof {
        assert(s@.subrange(0, len as int) =~= s@);
    }
    let mut lo: usize = 0;
    while lo < len && is_space_char(s.get_char(lo))
        invariant
            0 <= lo <= len,
            len == s@.len(),
            trimmed(s@) == trimmed(s@.subrange(lo as int, len as int)),
        decreases len - lo,
    {
        proof {
            assert(s@.subrange(lo as int, len as int).drop_first() =~= s@.subrange(
                lo + 1,
                len as int,
            ));
        }
        lo = lo + 1;
    }
    let mut hi: usize = len;
    while hi > lo && is_space_char(s.get_char(hi - 1))
        invariant
            lo <= hi <= len,
            len == s@.len(),
            lo < len ==> !is_space(s@[lo as int]),
            lo == len ==> hi == lo,
            trimmed(s@) == trimmed(s@.subrange(lo as int, hi as int)),
        decreases hi,
    {
        proof {
            assert(s@.subrange(lo as int, hi as int).drop_last() =~= s@.subrange(
                lo as int,
                hi - 1,
            ));
        }
        hi = hi - 1;
    }
    let r = s.substring_char(lo, hi);
    proof {
        let sub = s@.subrange(lo as int, hi as int);
        if sub.len() > 0 {
            assert(sub[0] == s@[lo as int]);
            assert(sub.last() == s@[hi - 1]);
        }
        assert(trimmed(sub) == sub);
    }
    r
}

/// The length of the first comma-free segment.
pub open spec fn seg_len(s: Seq<char>) -> nat
    decreases s.len(),
{
    if s.len() == 0 || s[0] == ',' {
        0
    } else {
        (1 + seg_len(s.drop_first())) as nat
    }
}

/// Identifies the first comma-free segment by its end position.
proof fn lemma_seg_len_is(s: Seq<char>, t: int)
    requires
        0 <= t <= s.len(),
        forall|j: int| 0 <= j < t ==> s[j] != ',',
        t < s.len() ==> s[t] == ',',
    ensures
        seg_len(s) == t,
    decreases s.len(),
{
    if t > 0 {
        let d = s.drop_first();
        assert(forall|j: int| 0 <= j < d.len() ==> d[j] == s[j + 1]);
        lemma_seg_len_is(d, t - 1);
    }
}

/// The ports named by a comma-separated list: each segment is trimmed and
/// parsed as a port number, and segments that do not parse are skipped.
pub open spec fn ports_in(s: Seq<char>) -> Seq<u16>
    decreases s.len(),
{
    let k = seg_len(s);
    let head = match parse_u16_of(trimmed(s.subrange(0, k as int))) {
        Some(p) => seq![p],
        None => Seq::empty(),
    };
    if k < s.len() {
        head + ports_in(s.subrange(k as int + 1, s.len() as int))
    } else {
        head
    }
}

/// Parses a comma-separated port list: each segment is trimmed and parsed as
/// a port number; segments that do not parse are skipped.
pub fn parse_port_list(s: &str) -> (r: Vec<u16>)
    ensures
        r@ == ports_in(s@),
{
    let len = s.unicode_len();
    let mut out: Vec<u16> = Vec::new();
    let mut pos: usize = 0;
    let mut done: bool = false;
    proof {
        assert(s@.subrange(0, len as int) =~= s@);
        assert(Seq::<u16>::empty() + ports_in(s@) =~= ports_in(s@));
    }
    while !done
        invariant
            0 <= pos <= len,
            len == s@.len(),
            ports_in(s@) == if done {
                out@
            } else {
                out@ + ports_in(s@.subrange(pos as int, len as int))
            },
        decreases len - pos, if done {
            0int
        } else {
            1int
        },
    {
        let mut j: usize = pos;
        while j < len && s.get_char(j) != ','
            invariant
                pos <= j <= len,
                len == s@.len(),
                forall|m: int| pos <= m < j ==> s@[m] != ',',
            decreases len - j,
        {
            j = j + 1;
        }
        let ghost tail = s@.subrange(pos as int, len as int);
        proof {
            assert(forall|m: int| 0 <= m < tail.len() ==> tail[m] == s@[m + pos]);
            lemma_seg_len_is(tail, j - pos);
            assert(tail.subrange(0, j - pos) =~= s@.subrange(pos as int, j as int));
        }
        let seg = s.substring_char(pos, j);
        let cut = trim_str(seg);
        match parse_u16(cut) {
            Some(p) => out.push(p),
            None => {},
        }
        if j == len {
            done = true;
        } else {
            proof {
                assert(tail.subrange(j - pos + 1, tail.len() as int) =~= s@.subrange(
                    j + 1,
                    len as int,
                ));
            }
            pos = j + 1;
        }
    }
    out
}

/// The default TCP ports probed when no list is given.
pub fn default_tcp_ports() -> (r: Vec<u16>)
    ensures
        r@ == seq![
            21u16, 22u16, 23u16, 25u16, 53u16, 80u16, 110u16, 135u16, 139u16, 443u16, 445u16,
            3306u16, 3389u16, 8080u16,
        ],
{
    let out: Vec<u16> = vec![21, 22, 23, 25, 53, 80, 110, 135, 139, 443, 445, 3306, 3389, 8080];
    proof {
        assert(out@ =~= seq![
            21u16, 22u16, 23u16, 25u16, 53u16, 80u16, 110u16, 135u16, 139u16, 443u16, 445u16,
            3306u16, 3389u16, 8080u16,
        ]);
    }
    out
}

/// The default UDP ports probed when no list is given.
pub fn default_udp_ports() -> (r: Vec<u16>)
    ensures
        r@ == seq![
            53u16, 67u16, 68u16, 69u16, 123u16, 161u16, 162u16, 500u16, 514u16, 520u16, 623u16,
            1900u16, 5353u16,
        ],
{
    let out: Vec<u16> = vec![53, 67, 68, 69, 123, 161, 162, 500, 514, 520, 623, 1900, 5353];
    proof {
        assert(out@ =~= seq![
            53u16, 67u16, 68u16, 69u16, 123u16, 161u16, 162u16, 500u16, 514u16, 520u16, 623u16,
            1900u16, 5353u16,
        ]);
    }
    out
}

/// The ports one scan probes: the parsed list when one was given, else the
/// protocol's default set.
pub fn parse_ports(ports_arg: Option<&str>, is_udp: bool) -> (r: Vec<u16>)
    ensures
        ports_arg is Some ==> r@ == ports_in(ports_arg.unwrap()@),
        ports_arg is None && is_udp ==> r@ == seq![
            53u16, 67u16, 68u16, 69u16, 123u16, 161u16, 162u16, 500u16, 514u16, 520u16, 623u16,
            1900u16, 5353u16,
        ],
        ports_arg is None && !is_udp ==> r@ == seq![
            21u16, 22u16, 23u16, 25u16, 53u16, 80u16, 110u16, 135u16, 139u16, 443u16, 445u16,
            3306u16, 3389u16, 8080u16,
        ],
{
    match ports_arg {
        Some(s) => parse_port_list(s),
        None => {
            if is_udp {
                default_udp_ports()
            } else {
                default_tcp_ports()
            }
        },
    }
}

/// A banner with carriage returns and line feeds replaced by spaces, then
/// trimmed.
pub open spec fn cleaned_banner(s: Seq<char>) -> Seq<char> {
    trimmed(s.map_values(|c: char| normalize_char(c)))
}

/// Normalizes a service banner for one-line display: newlines and carriage
/// returns become spaces and surrounding whitespace is stripped.
pub fn clean_banner(s: &str) -> (r: String)
    ensures
        r@ == cleaned_banner(s@),
{
    let len = s.unicode_len();
    let mut tmp = String::new();
    let mut i: usize = 0;
    while i < len
        invariant
            0 <= i <= len,
            len == s@.len(),
            tmp@ == s@.subrange(0, i as int).map_values(|c: char| normalize_char(c)),
        decreases len - i,
    {
        let c = s.get_char(i);
        let cn = if c == '\r' || c == '\n' {
            ' '
        } else {
            c
        };
        tmp.push(cn);
        proof {
            assert(s@.subrange(0, i + 1).drop_last() =~= s@.subrange(0, i as int));
            assert(s@.subrange(0, i + 1).map_values(|c: char| normalize_char(c)) =~= s@.subrange(
                0,
                i as int,
            ).map_values(|c: char| normalize_char(c)).push(normalize_char(s@[i as int])));
        }
        i = i + 1;
    }
    proof {
        assert(s@.subrange(0, len as int) =~= s@);
    }
    let r = String::from_str(trim_str(tmp.as_str()));
    r
}

} // verus!
