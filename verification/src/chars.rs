//! Character classes, string equality, and decimal rendering shared by
//! the request grammar and the response headers.

use vstd::prelude::*;

verus! {

use vstd::string::StringExecFns;

/// ASCII upper-case letter.
pub open spec fn is_upper(c: char) -> bool {
    'A' <= c && c <= 'Z'
}

/// ASCII decimal digit.
pub open spec fn is_digit(c: char) -> bool {
    '0' <= c && c <= '9'
}

/// Executable test for `is_upper`.
pub fn upper_char(c: char) -> (r: bool)
    ensures
        r == is_upper(c),
{
    'A' <= c && c <= 'Z'
}

/// Executable test for `is_digit`.
pub fn digit_char(c: char) -> (r: bool)
    ensures
        r == is_digit(c),
{
    '0' <= c && c <= '9'
}

/// Length of the longest prefix of upper-case letters.
pub open spec fn upper_prefix_len(s: Seq<char>) -> nat
    decreases s.len(),
{
    if s.len() > 0 && is_upper(s[0]) {
        1 + upper_prefix_len(s.drop_first())
    } else {
        0
    }
}

/// The longest upper-case prefix is characterised by its first
/// non-upper position.
pub proof fn lemma_upper_prefix_len(s: Seq<char>, i: int)
    requires
        0 <= i <= s.len(),
        forall|k: int| 0 <= k < i ==> is_upper(#[trigger] s[k]),
        i < s.len() ==> !is_upper(s[i]),
    ensures
        upper_prefix_len(s) == i,
    decreases i,
{
    if i == 0 {
    } else {
        assert(is_upper(s[0]));
        let t = s.drop_first();
        assert forall|k: int| 0 <= k < i - 1 implies is_upper(#[trigger] t[k]) by {
            assert(t[k] == s[k + 1]);
        };
        if i - 1 < t.len() {
            assert(t[i - 1] == s[i]);
        }
        lemma_upper_prefix_len(t, i - 1);
    }
}

/// Whether two string slices hold the same characters.
pub fn str_eq(a: &str, b: &str) -> (r: bool)
    ensures
        r == (a@ == b@),
{
    let owned_a = String::from_str(a);
    let owned_b = String::from_str(b);
    owned_a.eq(&owned_b)
}

/// The decimal digit for one value below ten, as a character.
pub open spec fn decimal_digit(d: int) -> char {
    (('0' as int) + d) as char
}

/// The shortest decimal numeral for `n`, most significant digit first.
pub open spec fn decimal_seq(n: int) -> Seq<char>
    decreases n,
{
    if n < 10 {
        seq![decimal_digit(n)]
    } else {
        decimal_seq(n / 10).push(decimal_digit(n % 10))
    }
}

/// One decimal digit as a string slice.
fn decimal_digit_str(d: usize) -> (r: &'static str)
    requires
        d < 10,
    ensures
        r@ == seq![decimal_digit(d as int)],
{
    proof {
        reveal_strlit("0");
        reveal_strlit("1");
        reveal_strlit("2");
        reveal_strlit("3");
        reveal_strlit("4");
        reveal_strlit("5");
        reveal_strlit("6");
        reveal_strlit("7");
        reveal_strlit("8");
        reveal_strlit("9");
    }
    let r = match d {
        0 => "0",
        1 => "1",
        2 => "2",
        3 => "3",
        4 => "4",
        5 => "5",
        6 => "6",
        7 => "7",
        8 => "8",
        _ => "9",
    };
    proof {
        assert(r@ =~= seq![decimal_digit(d as int)]);
    }
    r
}

/// Render `n` in decimal, as the response's Content-Length needs it.
pub fn decimal_string(n: usize) -> (s: String)
    ensures
        s@ == decimal_seq(n as int),
    decreases n,
{
    if n < 10 {
        let s = String::from_str(decimal_digit_str(n));
        s
    } else {
        let mut s = decimal_string(n / 10);
        s.append(decimal_digit_str(n % 10));
        proof {
            assert(s@ =~= decimal_seq(n as int));
        }
        s
    }
}

} // verus!
