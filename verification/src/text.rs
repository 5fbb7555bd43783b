//! Unicode-aware trimming of category names.
//!
//! A category name is stored and validated only after leading and trailing
//! Unicode whitespace has been removed; a name that trims to nothing is
//! rejected. The whitespace set is the full Unicode one, not just ASCII.

use vstd::prelude::*;
use vstd::string::StrSliceExecFns;

verus! {

/// A character counts as whitespace exactly when it has the Unicode
/// `White_Space` property: ASCII space, tab, line feed, vertical tab, form
/// feed, carriage return, the next-line control, the no-break space, the
/// Ogham space mark, the en/em/thin and related fixed-width spaces, the line
/// and paragraph separators, the narrow no-break space, the medium
/// mathematical space and the ideographic space.
pub open spec fn is_unicode_whitespace(c: char) -> bool {
    let u = c as u32;
    u == 0x20
        || (0x09 <= u && u <= 0x0D)
        || u == 0x85
        || u == 0xA0
        || u == 0x1680
        || (0x2000 <= u && u <= 0x200A)
        || u == 0x2028
        || u == 0x2029
        || u == 0x202F
        || u == 0x205F
        || u == 0x3000
}

/// Decides `is_unicode_whitespace` for one character.
pub fn is_whitespace_char(c: char) -> (r: bool)
    ensures
        r == is_unicode_whitespace(c),
{
    let u = c as u32;
    u == 0x20
        || (0x09 <= u && u <= 0x0D)
        || u == 0x85
        || u == 0xA0
        || u == 0x1680
        || (0x2000 <= u && u <= 0x200A)
        || u == 0x2028
        || u == 0x2029
        || u == 0x202F
        || u == 0x205F
        || u == 0x3000
}

/// The given character sequence without its leading Unicode whitespace.
pub open spec fn trim_start_spec(s: Seq<char>) -> Seq<char>
    decreases s.len(),
{
    if s.len() == 0 {
        s
    } else if is_unicode_whitespace(s[0]) {
        trim_start_spec(s.subrange(1, s.len() as int))
    } else {
        s
    }
}

/// The given character sequence without its trailing Unicode whitespace.
pub open spec fn trim_end_spec(s: Seq<char>) -> Seq<char>
    decreases s.len(),
{
    if s.len() == 0 {
        s
    } else if is_unicode_whitespace(s[s.len() - 1]) {
        trim_end_spec(s.subrange(0, s.len() - 1))
    } else {
        s
    }
}

/// The given character sequence without leading and trailing Unicode
/// whitespace.
pub open spec fn trim_spec(s: Seq<char>) -> Seq<char> {
    trim_end_spec(trim_start_spec(s))
}

proof fn lemma_trim_start_skips(s: Seq<char>, i: int)
    requires
        0 <= i <= s.len(),
        forall|k: int| 0 <= k < i ==> is_unicode_whitespace(s[k]),
    ensures
        trim_start_spec(s) == trim_start_spec(s.subrange(i, s.len() as int)),
    decreases i,
{
    if i == 0 {
        assert(s.subrange(0, s.len() as int) =~= s);
    } else {
        let t = s.subrange(1, s.len() as int);
        assert forall|k: int| 0 <= k < i - 1 implies is_unicode_whitespace(t[k]) by {
            assert(t[k] == s[k + 1]);
        }
        lemma_trim_start_skips(t, i - 1);
        assert(t.subrange(i - 1, t.len() as int) =~= s.subrange(i, s.len() as int));
    }
}

proof fn lemma_trim_start_fixed(s: Seq<char>)
    requires
        s.len() > 0 ==> !is_unicode_whitespace(s[0]),
    ensures
        trim_start_spec(s) == s,
{
}

proof fn lemma_trim_end_skips(s: Seq<char>, j: int)
    requires
        0 <= j <= s.len(),
        forall|k: int| j <= k < s.len() ==> is_unicode_whitespace(s[k]),
    ensures
        trim_end_spec(s) == trim_end_spec(s.subrange(0, j)),
    decreases s.len() - j,
{
    if j == s.len() {
        assert(s.subrange(0, s.len() as int) =~= s);
    } else {
        let t = s.subrange(0, s.len() - 1);
        assert forall|k: int| j <= k < t.len() implies is_unicode_whitespace(t[k]) by {
            assert(t[k] == s[k]);
        }
        lemma_trim_end_skips(t, j);
        assert(t.subrange(0, j) =~= s.subrange(0, j));
    }
}

proof fn lemma_trim_end_fixed(s: Seq<char>)
    requires
        s.len() > 0 ==> !is_unicode_whitespace(s[s.len() - 1]),
    ensures
        trim_end_spec(s) == s,
{
}

/// Relates the trimmed form of a sequence to the subrange between its first
/// and last non-whitespace characters.
proof fn lemma_trim_parts(s: Seq<char>, start: int, end: int)
    requires
        0 <= start <= end <= s.len(),
        forall|k: int| 0 <= k < start ==> is_unicode_whitespace(s[k]),
        forall|k: int| end <= k < s.len() ==> is_unicode_whitespace(s[k]),
        start == end ==> end == s.len(),
        start < end ==> !is_unicode_whitespace(s[start]) && !is_unicode_whitespace(s[end - 1]),
    ensures
        trim_spec(s) == s.subrange(start, end),
{
    let u = s.subrange(start, s.len() as int);
    lemma_trim_start_skips(s, start);
    if start < end {
        assert(u[0] == s[start]);
        lemma_trim_start_fixed(u);
        assert forall|k: int| end - start <= k < u.len() implies is_unicode_whitespace(u[k]) by {
            assert(u[k] == s[start + k]);
        }
        lemma_trim_end_skips(u, end - start);
        let t = u.subrange(0, end - start);
        assert(t =~= s.subrange(start, end));
        assert(t[t.len() - 1] == s[end - 1]);
        lemma_trim_end_fixed(t);
    } else {
        assert(u.len() == 0);
        lemma_trim_start_fixed(u);
        lemma_trim_end_fixed(u);
        assert(s.subrange(start, end) =~= u);
    }
}

/// Law: a name that consists only of Unicode whitespace characters — in any
/// variant or mixture — trims to the empty sequence, so `create` rejects it
/// as missing data.
pub proof fn lemma_whitespace_only_trims_empty(s: Seq<char>)
    requires
        forall|k: int| 0 <= k < s.len() ==> is_unicode_whitespace(s[k]),
    ensures
        trim_spec(s).len() == 0,
{
    lemma_trim_start_skips(s, s.len() as int);
    let u = s.subrange(s.len() as int, s.len() as int);
    assert(u.len() == 0);
    lemma_trim_start_fixed(u);
    lemma_trim_end_fixed(u);
}

proof fn lemma_trim_start_head(s: Seq<char>)
    ensures
        trim_start_spec(s).len() > 0 ==> !is_unicode_whitespace(trim_start_spec(s)[0]),
    decreases s.len(),
{
    if s.len() == 0 {
    } else if is_unicode_whitespace(s[0]) {
        lemma_trim_start_head(s.subrange(1, s.len() as int));
    }
}

proof fn lemma_trim_end_last(s: Seq<char>)
    ensures
        trim_end_spec(s).len() > 0 ==> !is_unicode_whitespace(
            trim_end_spec(s)[trim_end_spec(s).len() - 1],
        ),
    decreases s.len(),
{
    if s.len() == 0 {
    } else if is_unicode_whitespace(s[s.len() - 1]) {
        lemma_trim_end_last(s.subrange(0, s.len() - 1));
    }
}

proof fn lemma_trim_end_prefix(s: Seq<char>)
    ensures
        trim_end_spec(s).len() <= s.len(),
        trim_end_spec(s) == s.subrange(0, trim_end_spec(s).len() as int),
    decreases s.len(),
{
    if s.len() == 0 {
        assert(s.subrange(0, 0) =~= s);
    } else if is_unicode_whitespace(s[s.len() - 1]) {
        let t = s.subrange(0, s.len() - 1);
        lemma_trim_end_prefix(t);
        let l = trim_end_spec(t).len() as int;
        assert(t.subrange(0, l) =~= s.subrange(0, l));
    } else {
        assert(s.subrange(0, s.len() as int) =~= s);
    }
}

/// Law: trimming is idempotent — a name that has already been trimmed is
/// left unchanged by a second trim.
pub proof fn lemma_trim_idempotent(s: Seq<char>)
    ensures
        trim_spec(trim_spec(s)) == trim_spec(s),
{
    let u = trim_start_spec(s);
    let t = trim_end_spec(u);
    lemma_trim_start_head(s);
    lemma_trim_end_prefix(u);
    lemma_trim_end_last(u);
    if t.len() > 0 {
        assert(t[0] == u[0]);
    }
    lemma_trim_start_fixed(t);
    lemma_trim_end_fixed(t);
}

/// The character for one decimal digit.
pub open spec fn dec_digit_char(d: int) -> char {
    if d == 0 {
        '0'
    } else if d == 1 {
        '1'
    } else if d == 2 {
        '2'
    } else if d == 3 {
        '3'
    } else if d == 4 {
        '4'
    } else if d == 5 {
        '5'
    } else if d == 6 {
        '6'
    } else if d == 7 {
        '7'
    } else if d == 8 {
        '8'
    } else {
        '9'
    }
}

/// The decimal rendering of a non-negative integer, without sign or leading
/// zeros.
pub open spec fn dec_str(n: int) -> Seq<char>
    recommends
        n >= 0,
    decreases n,
{
    if n < 10 {
        seq![dec_digit_char(n)]
    } else {
        dec_str(n / 10).push(dec_digit_char(n % 10))
    }
}

/// The decimal rendering of an integer, with a leading minus sign when it is
/// negative.
pub open spec fn int_str(n: int) -> Seq<char> {
    if n < 0 {
        seq!['-'] + dec_str(-n)
    } else {
        dec_str(n)
    }
}

fn push_digit(out: &mut String, d: u32)
    requires
        d < 10,
    ensures
        final(out)@ == old(out)@ + seq![dec_digit_char(d as int)],
{
    match d {
        0 => {
            proof {
                reveal_strlit("0");
                assert("0"@ =~= seq![dec_digit_char(0)]);
            }
            out.append("0");
        },
        1 => {
            proof {
                reveal_strlit("1");
                assert("1"@ =~= seq![dec_digit_char(1)]);
            }
            out.append("1");
        },
        2 => {
            proof {
                reveal_strlit("2");
                assert("2"@ =~= seq![dec_digit_char(2)]);
            }
            out.append("2");
        },
        3 => {
            proof {
                reveal_strlit("3");
                assert("3"@ =~= seq![dec_digit_char(3)]);
            }
            out.append("3");
        },
        4 => {
            proof {
                reveal_strlit("4");
                assert("4"@ =~= seq![dec_digit_char(4)]);
            }
            out.append("4");
        },
        5 => {
            proof {
                reveal_strlit("5");
                assert("5"@ =~= seq![dec_digit_char(5)]);
            }
            out.append("5");
        },
        6 => {
            proof {
                reveal_strlit("6");
                assert("6"@ =~= seq![dec_digit_char(6)]);
            }
            out.append("6");
        },
        7 => {
            proof {
                reveal_strlit("7");
                assert("7"@ =~= seq![dec_digit_char(7)]);
            }
            out.append("7");
        },
        8 => {
            proof {
                reveal_strlit("8");
                assert("8"@ =~= seq![dec_digit_char(8)]);
            }
            out.append("8");
        },
        _ => {
            proof {
                reveal_strlit("9");
                assert("9"@ =~= seq![dec_digit_char(9)]);
            }
            out.append("9");
        },
    }
}

fn push_digits(out: &mut String, n: u32)
    ensures
        final(out)@ == old(out)@ + dec_str(n as int),
    decreases n,
{
    let ghost base = out@;
    if n >= 10 {
        push_digits(out, n / 10);
        push_digit(out, n % 10);
        proof {
            assert(out@ =~= base + dec_str(n as int));
        }
    } else {
        push_digit(out, n);
    }
}

/// Appends the decimal rendering of an integer to a string.
pub fn push_i32(out: &mut String, n: i32)
    ensures
        final(out)@ == old(out)@ + int_str(n as int),
{
    let ghost base = out@;
    if n < 0 {
        proof {
            reveal_strlit("-");
            assert("-"@ =~= seq!['-']);
        }
        out.append("-");
        let big: i64 = -(n as i64);
        let m: u32 = big as u32;
        push_digits(out, m);
        proof {
            assert(out@ =~= base + int_str(n as int));
        }
    } else {
        push_digits(out, n as u32);
    }
}

/// Removes leading and trailing Unicode whitespace from a string.
pub fn trim(s: &str) -> (r: String)
    ensures
        r@ == trim_spec(s@),
{
    let n = s.unicode_len();
    let mut start: usize = 0;
    while start < n && is_whitespace_char(s.get_char(start))
        invariant
            n == s@.len(),
            start <= n,
            forall|k: int| 0 <= k < start ==> is_unicode_whitespace(s@[k]),
        decreases n - start,
    {
        start = start + 1;
    }
    let mut end: usize = n;
    while end > start && is_whitespace_char(s.get_char(end - 1))
        invariant
            n == s@.len(),
            start <= end <= n,
            start < n ==> !is_unicode_whitespace(s@[start as int]),
            forall|k: int| end <= k < n ==> is_unicode_whitespace(s@[k]),
        decreases end,
    {
        end = end - 1;
    }
    let part = s.substring_char(start, end);
    let r = part.to_owned();
    proof {
        lemma_trim_parts(s@, start as int, end as int);
    }
    r
}

} // verus!
