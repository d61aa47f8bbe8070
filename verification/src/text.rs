//! Verified text helpers: whitespace trimming, space encoding for URLs,
//! decimal rendering of integers, and string comparison.

use vstd::prelude::*;
use vstd::string::StrSliceExecFns;
use vstd::string::StringExecFns;

verus! {

/// Whitespace as the index parser skips it: the ASCII space-class
/// characters that separate text runs in the FIA markup.
pub open spec fn is_space_char(c: char) -> bool {
    c == ' ' || c == '\t' || c == '\n' || c == '\r' || c == '\u{b}' || c == '\u{c}'
}

pub open spec fn trim_front(s: Seq<char>) -> Seq<char>
    decreases s.len(),
{
    if s.len() > 0 && is_space_char(s[0]) {
        trim_front(s.subrange(1, s.len() as int))
    } else {
        s
    }
}

pub open spec fn trim_back(s: Seq<char>) -> Seq<char>
    decreases s.len(),
{
    if s.len() > 0 && is_space_char(s[s.len() - 1]) {
        trim_back(s.subrange(0, s.len() - 1))
    } else {
        s
    }
}

/// The sequence with leading and trailing space-class characters removed.
pub open spec fn spec_trim(s: Seq<char>) -> Seq<char> {
    trim_back(trim_front(s))
}

/// A sequence is blank when trimming leaves nothing.
pub open spec fn is_blank(s: Seq<char>) -> bool {
    spec_trim(s).len() == 0
}

fn is_space(c: char) -> (r: bool)
    ensures
        r == is_space_char(c),
{
    c == ' ' || c == '\t' || c == '\n' || c == '\r' || c == '\u{b}' || c == '\u{c}'
}

/// Removes leading and trailing space-class characters.
pub fn trim_str(s: &str) -> (r: String)
    ensures
        r@ == spec_trim(s@),
{
    let len = s.unicode_len();
    proof {
        assert(s@.subrange(0, len as int) =~= s@);
    }
    let mut start: usize = 0;
    while start < len && is_space(s.get_char(start))
        invariant
            start <= len,
            len == s@.len(),
            trim_front(s@) == trim_front(s@.subrange(start as int, len as int)),
        decreases len - start,
    {
        proof {
            let q = s@.subrange(start as int, len as int);
            assert(q.subrange(1, q.len() as int) =~= s@.subrange(start + 1, len as int));
        }
        start = start + 1;
    }
    proof {
        if start == len {
            assert(s@.subrange(start as int, len as int) =~= Seq::<char>::empty());
        }
        assert(trim_front(s@) == s@.subrange(start as int, len as int));
    }
    let mut end: usize = len;
    while end > start && is_space(s.get_char(end - 1))
        invariant
            start <= end <= len,
            len == s@.len(),
            trim_front(s@) == s@.subrange(start as int, len as int),
            trim_back(s@.subrange(start as int, len as int)) == trim_back(
                s@.subrange(start as int, end as int),
            ),
        decreases end,
    {
        proof {
            let q = s@.subrange(start as int, end as int);
            assert(q.subrange(0, q.len() - 1) =~= s@.subrange(start as int, end - 1));
        }
        end = end - 1;
    }
    proof {
        if start == end {
            assert(s@.subrange(start as int, end as int) =~= Seq::<char>::empty());
        }
        assert(spec_trim(s@) == s@.subrange(start as int, end as int));
    }
    let out = s.substring_char(start, end);
    String::from_str(out)
}

/// Replaces each space with the three characters `%20`, as document hrefs
/// from the index page are rewritten before download.
pub open spec fn spec_encode_spaces(s: Seq<char>) -> Seq<char>
    decreases s.len(),
{
    if s.len() == 0 {
        s
    } else {
        (if s[0] == ' ' {
            seq!['%', '2', '0']
        } else {
            seq![s[0]]
        }) + spec_encode_spaces(s.subrange(1, s.len() as int))
    }
}

pub fn encode_spaces(s: &str) -> (r: String)
    ensures
        r@ == spec_encode_spaces(s@),
{
    let len = s.unicode_len();
    let mut r = String::new();
    proof {
        assert(s@.subrange(0, len as int) =~= s@);
        assert(r@ + spec_encode_spaces(s@) =~= spec_encode_spaces(s@));
    }
    let mut i: usize = 0;
    while i < len
        invariant
            i <= len,
            len == s@.len(),
            r@ + spec_encode_spaces(s@.subrange(i as int, len as int)) == spec_encode_spaces(s@),
        decreases len - i,
    {
        proof {
            let q = s@.subrange(i as int, len as int);
            assert(q.subrange(1, q.len() as int) =~= s@.subrange(i + 1, len as int));
        }
        let c = s.get_char(i);
        if c == ' ' {
            proof {
                reveal_strlit("%20");
                assert("%20"@ =~= seq!['%', '2', '0']);
            }
            r.append("%20");
        } else {
            let ghost r_before = r@;
            push_char(&mut r, c);
            proof {
                assert(r@ =~= r_before + seq![c]);
            }
        }
        i = i + 1;
    }
    proof {
        assert(s@.subrange(len as int, len as int) =~= Seq::<char>::empty());
        assert(r@ + Seq::<char>::empty() =~= r@);
    }
    r
}

/// Relies on `String::push`: appends exactly one character to the string.
#[verifier::external_body]
pub fn push_char(s: &mut String, c: char)
    ensures
        final(s)@ == old(s)@.push(c),
{
    s.push(c);
}

pub open spec fn spec_digit_char(d: int) -> char {
    if d == 0 {
        '0'
    } else if d == 1 {
        '1'
    } else if d == 2 {
        '2'
    } else if d == 3 {
        '3'
    } else if d == 4 {
        '4'
    } else if d == 5 {
        '5'
    } else if d == 6 {
        '6'
    } else if d == 7 {
        '7'
    } else if d == 8 {
        '8'
    } else {
        '9'
    }
}

/// The decimal rendering of a nonnegative integer, most significant
/// digit first, without leading zeros (a single `0` for zero).
pub open spec fn dec_of(n: int) -> Seq<char>
    decreases n,
{
    if n < 10 {
        seq![spec_digit_char(n)]
    } else {
        dec_of(n / 10).push(spec_digit_char(n % 10))
    }
}

fn digit_str(d: u64) -> (r: &'static str)
    requires
        d < 10,
    ensures
        r@ == seq![spec_digit_char(d as int)],
{
    proof {
        reveal_strlit("0");
        reveal_strlit("1");
        reveal_strlit("2");
        reveal_strlit("3");
        reveal_strlit("4");
        reveal_strlit("5");
        reveal_strlit("6");
        reveal_strlit("7");
        reveal_strlit("8");
        reveal_strlit("9");
        assert("0"@ =~= seq!['0']);
        assert("1"@ =~= seq!['1']);
        assert("2"@ =~= seq!['2']);
        assert("3"@ =~= seq!['3']);
        assert("4"@ =~= seq!['4']);
        assert("5"@ =~= seq!['5']);
        assert("6"@ =~= seq!['6']);
        assert("7"@ =~= seq!['7']);
        assert("8"@ =~= seq!['8']);
        assert("9"@ =~= seq!['9']);
    }
    match d {
        0 => "0",
        1 => "1",
        2 => "2",
        3 => "3",
        4 => "4",
        5 => "5",
        6 => "6",
        7 => "7",
        8 => "8",
        _ => "9",
    }
}

/// Renders an unsigned integer in decimal.
pub fn u64_to_dec(n: u64) -> (r: String)
    ensures
        r@ == dec_of(n as int),
    decreases n,
{
    if n < 10 {
        String::from_str(digit_str(n))
    } else {
        let mut s = u64_to_dec(n / 10);
        s.append(digit_str(n % 10));
        proof {
            assert(dec_of(n as int / 10) + seq![spec_digit_char(n as int % 10)] =~= dec_of(
                n as int,
            ));
        }
        s
    }
}

/// Character-wise string equality.
pub fn str_eq(a: &str, b: &str) -> (r: bool)
    ensures
        r == (a@ == b@),
{
    let alen = a.unicode_len();
    let blen = b.unicode_len();
    if alen != blen {
        return false;
    }
    let mut i: usize = 0;
    while i < alen
        invariant
            i <= alen,
            alen == a@.len(),
            alen == b@.len(),
            forall|j: int| 0 <= j < i ==> a@[j] == b@[j],
        decreases alen - i,
    {
        if a.get_char(i) != b.get_char(i) {
            return false;
        }
        i = i + 1;
    }
    proof {
        assert(a@ =~= b@);
    }
    true
}

pub open spec fn spec_has_prefix(s: Seq<char>, p: Seq<char>) -> bool {
    s.len() >= p.len() && s.subrange(0, p.len() as int) == p
}

/// Whether `s` starts with `p`.
pub fn str_has_prefix(s: &str, p: &str) -> (r: bool)
    ensures
        r == spec_has_prefix(s@, p@),
{
    let slen = s.unicode_len();
    let plen = p.unicode_len();
    if slen < plen {
        return false;
    }
    let mut i: usize = 0;
    while i < plen
        invariant
            i <= plen,
            slen == s@.len(),
            plen == p@.len(),
            plen <= slen,
            forall|j: int| 0 <= j < i ==> s@[j] == p@[j],
        decreases plen - i,
    {
        if s.get_char(i) != p.get_char(i) {
            proof {
                assert(s@.subrange(0, p@.len() as int)[i as int] == s@[i as int]);
            }
            return false;
        }
        i = i + 1;
    }
    proof {
        assert(s@.subrange(0, p@.len() as int) =~= p@);
    }
    true
}

} // verus!
