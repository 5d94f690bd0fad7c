//! Small operations on text, stated over sequences of characters.

use vstd::prelude::*;
use vstd::string::StringExecFns;

verus! {

/// `str`'s equality: two strings are equal exactly if they hold the same characters.
pub assume_specification[ <str as PartialEq>::eq ](a: &str, b: &str) -> (r: bool)
    ensures
        r == (a@ == b@),
;

/// The characters with the Unicode property White_Space.
pub open spec fn is_white_space(c: char) -> bool {
    let n = c as u32;
    ||| 0x9 <= n <= 0xd
    ||| n == 0x20
    ||| n == 0x85
    ||| n == 0xa0
    ||| n == 0x1680
    ||| 0x2000 <= n <= 0x200a
    ||| n == 0x2028
    ||| n == 0x2029
    ||| n == 0x202f
    ||| n == 0x205f
    ||| n == 0x3000
}

/// `s` without its leading white space.
pub open spec fn trimmed_start(s: Seq<char>) -> Seq<char>
    decreases s.len(),
{
    if s.len() > 0 && is_white_space(s[0]) {
        trimmed_start(s.drop_first())
    } else {
        s
    }
}

/// `s` without its trailing white space.
pub open spec fn trimmed_end(s: Seq<char>) -> Seq<char>
    decreases s.len(),
{
    if s.len() > 0 && is_white_space(s.last()) {
        trimmed_end(s.drop_last())
    } else {
        s
    }
}

/// `s` without white space at either end.
pub open spec fn trimmed(s: Seq<char>) -> Seq<char> {
    trimmed_end(trimmed_start(s))
}

/// `needle` stands somewhere in `hay` as a run of consecutive characters.
pub open spec fn occurs_in(needle: Seq<char>, hay: Seq<char>) -> bool {
    exists|i: int|
        0 <= i <= hay.len() - needle.len() && #[trigger] hay.subrange(i, i + needle.len()) == needle
}

/// `text` ends in `ending`.
pub open spec fn ends_in(text: Seq<char>, ending: Seq<char>) -> bool {
    ending.len() <= text.len() && text.skip(text.len() - ending.len()) == ending
}

/// `str::trim` of the standard library: the text without leading and trailing characters
/// of the Unicode property White_Space.
#[verifier::external_body]
pub(crate) fn trim(text: &str) -> (r: &str)
    ensures
        r@ == trimmed(text@),
{
    text.trim()
}

/// `str::contains` of the standard library for a string pattern: whether some slice of
/// the text equals the pattern.
#[verifier::external_body]
pub(crate) fn contains(hay: &str, needle: &str) -> (r: bool)
    ensures
        r == occurs_in(needle@, hay@),
{
    hay.contains(needle)
}

pub fn same_text(a: &str, b: &str) -> (r: bool)
    ensures
        r == (a@ == b@),
{
    *a == *b
}

/// Whether a text has this ending.
pub fn has_ending(text: &str, ending: &str) -> (r: bool)
    ensures
        r == ends_in(text@, ending@),
{
    let len: usize = text.unicode_len();
    let count: usize = ending.unicode_len();
    if count > len {
        return false;
    }
    let start: usize = len - count;
    let mut i: usize = 0;
    while i < count
        invariant
            len == text@.len(),
            count == ending@.len(),
            start + count == len,
            i <= count,
            forall|k: int| 0 <= k < i ==> text@[start + k] == #[trigger] ending@[k],
        decreases count - i,
    {
        if text.get_char(start + i) != ending.get_char(i) {
            assert(text@.skip(start as int)[i as int] != ending@[i as int]);
            return false;
        }
        i = i + 1;
    }
    assert(text@.skip(start as int) =~= ending@);
    true
}

/// The decimal digit for `d`.
pub open spec fn digit(d: nat) -> char {
    ((d % 10) + '0' as nat) as char
}

/// `n` in decimal notation, without leading zeros.
pub open spec fn decimal_digits(n: nat) -> Seq<char>
    decreases n,
{
    if n < 10 {
        seq![digit(n)]
    } else {
        decimal_digits(n / 10).push(digit(n))
    }
}

fn digit_text(d: u16) -> (r: &'static str)
    requires
        d < 10,
    ensures
        r@ == seq![digit(d as nat)],
{
    proof {
        reveal_strlit("0");
        reveal_strlit("1");
        reveal_strlit("2");
        reveal_strlit("3");
        reveal_strlit("4");
        reveal_strlit("5");
        reveal_strlit("6");
        reveal_strlit("7");
        reveal_strlit("8");
        reveal_strlit("9");
    }
    match d {
        0 => "0",
        1 => "1",
        2 => "2",
        3 => "3",
        4 => "4",
        5 => "5",
        6 => "6",
        7 => "7",
        8 => "8",
        _ => "9",
    }
}

/// Writes `n` in decimal notation.
pub fn decimal(n: u16) -> (r: String)
    ensures
        r@ == decimal_digits(n as nat),
    decreases n,
{
    if n < 10 {
        digit_text(n).to_owned()
    } else {
        let mut text = decimal(n / 10);
        proof {
            assert(digit(n as nat) == digit((n % 10) as nat));
        }
        text.append(digit_text(n % 10));
        text
    }
}

/// Joins two pieces of text.
pub fn join2(a: &str, b: &str) -> (r: String)
    ensures
        r@ == a@ + b@,
{
    let mut text = a.to_owned();
    text.append(b);
    text
}

/// Joins three pieces of text.
pub fn join3(a: &str, b: &str, c: &str) -> (r: String)
    ensures
        r@ == a@ + b@ + c@,
{
    let mut text = a.to_owned();
    text.append(b);
    text.append(c);
    text
}

/// The text without white space around it is a part of the text; all that stands before
/// and behind it is white space, and it neither begins nor ends with any.
pub proof fn law_trimmed(s: Seq<char>)
    ensures
        exists|i: int, j: int|
            0 <= i <= j <= s.len() && #[trigger] s.subrange(i, j) == trimmed(s) && (forall|k: int|
                0 <= k < i || j <= k < s.len() ==> is_white_space(#[trigger] s[k])),
        trimmed(s).len() > 0 ==> !is_white_space(trimmed(s)[0]) && !is_white_space(
            trimmed(s).last(),
        ),
{
    let start = lemma_trimmed_start(s);
    let rest = trimmed_start(s);
    let end = lemma_trimmed_end(rest);
    let j = start + end;
    assert(s.subrange(start, j) =~= trimmed(s));
    assert forall|k: int| 0 <= k < start || j <= k < s.len() implies is_white_space(
        #[trigger] s[k],
    ) by {
        if j <= k {
            assert(rest[k - start] == s[k]);
        }
    }
    if trimmed(s).len() > 0 {
        assert(trimmed(s)[0] == rest[0]);
    }
}

proof fn lemma_trimmed_start(s: Seq<char>) -> (i: int)
    ensures
        0 <= i <= s.len(),
        trimmed_start(s) == s.skip(i),
        forall|k: int| 0 <= k < i ==> is_white_space(#[trigger] s[k]),
        trimmed_start(s).len() > 0 ==> !is_white_space(trimmed_start(s)[0]),
    decreases s.len(),
{
    if s.len() > 0 && is_white_space(s[0]) {
        let rest = s.drop_first();
        let i = lemma_trimmed_start(rest);
        assert(rest.skip(i) =~= s.skip(i + 1));
        assert forall|k: int| 0 <= k < i + 1 implies is_white_space(#[trigger] s[k]) by {
            if k > 0 {
                assert(rest[k - 1] == s[k]);
            }
        }
        i + 1
    } else {
        assert(s.skip(0) =~= s);
        0
    }
}

proof fn lemma_trimmed_end(s: Seq<char>) -> (j: int)
    ensures
        0 <= j <= s.len(),
        trimmed_end(s) == s.take(j),
        forall|k: int| j <= k < s.len() ==> is_white_space(#[trigger] s[k]),
        trimmed_end(s).len() > 0 ==> !is_white_space(trimmed_end(s).last()),
    decreases s.len(),
{
    if s.len() > 0 && is_white_space(s.last()) {
        let rest = s.drop_last();
        let j = lemma_trimmed_end(rest);
        assert(rest.take(j) =~= s.take(j));
        assert forall|k: int| j <= k < s.len() implies is_white_space(#[trigger] s[k]) by {
            if k < rest.len() {
                assert(rest[k] == s[k]);
            }
        }
        j
    } else {
        assert(s.take(s.len() as int) =~= s);
        s.len() as int
    }
}

/// The number that decimal digits denote.
pub open spec fn denoted(digits: Seq<char>) -> int
    decreases digits.len(),
{
    if digits.len() == 0 {
        0
    } else {
        denoted(digits.drop_last()) * 10 + (digits.last() as int - '0' as int)
    }
}

/// A number in decimal notation consists of digits, denotes the number, and has no zero in
/// front unless it is zero.
pub proof fn law_decimal(n: nat, i: int)
    ensures
        decimal_digits(n).len() > 0,
        denoted(decimal_digits(n)) == n,
        0 <= i < decimal_digits(n).len() ==> '0' <= decimal_digits(n)[i] <= '9',
        n > 0 ==> decimal_digits(n)[0] != '0',
        n == 0 ==> decimal_digits(n).len() == 1,
    decreases n,
{
    let digits = decimal_digits(n);
    let d = n % 10;
    assert(digit(n) as int == d + '0' as int);
    if n < 10 {
        assert(digits.drop_last() =~= Seq::empty());
        assert(denoted(digits.drop_last()) == 0);
    } else {
        law_decimal(n / 10, i);
        law_decimal(n / 10, 0);
        assert(digits.drop_last() =~= decimal_digits(n / 10));
    }
}

/// A text has an ending exactly if it is something with that ending behind it.
pub proof fn law_endings(front: Seq<char>, text: Seq<char>, ending: Seq<char>)
    ensures
        ends_in(front + ending, ending),
        ends_in(text, ending) ==> exists|before: Seq<char>| text == #[trigger] (before + ending),
{
    assert((front + ending).skip(front.len() as int) =~= ending);
    if ends_in(text, ending) {
        let before = text.take(text.len() - ending.len());
        assert(text =~= before + ending);
    }
}

/// A text occurs in another exactly if that one is the text with something before and
/// something behind it.
pub proof fn law_occurrence(before: Seq<char>, needle: Seq<char>, behind: Seq<char>, hay: Seq<char>)
    ensures
        occurs_in(needle, before + needle + behind),
        occurs_in(needle, hay) ==> exists|a: Seq<char>, b: Seq<char>|
            hay == #[trigger] (a + needle + b),
{
    let whole = before + needle + behind;
    let i = before.len() as int;
    assert(whole.subrange(i, i + needle.len()) =~= needle);
    if occurs_in(needle, hay) {
        let k = choose|k: int|
            0 <= k <= hay.len() - needle.len() && #[trigger] hay.subrange(k, k + needle.len())
                == needle;
        let a = hay.take(k);
        let b = hay.skip(k + needle.len());
        assert(hay =~= a + needle + b);
    }
}

} // verus!
