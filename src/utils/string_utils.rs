//! Text helpers. Text is viewed as its sequence of Unicode scalar values.

use vstd::prelude::*;

verus! {

/// Relies on `String::push`, which appends one character at the end.
#[verifier::external_body]
fn push_char(s: &mut String, c: char)
    ensures
        final(s)@ == old(s)@.push(c),
{
    s.push(c)
}

/// The characters of `s`, in order.
fn chars_of(s: &str) -> (v: Vec<char>)
    ensures
        v@ == s@,
{
    let mut v: Vec<char> = Vec::new();
    for c in it: s.chars()
        invariant
            it.seq() == s@,
            v@ == it.seq().take(it.index() as int),
    {
        v.push(c);
    }
    v
}

/// `s` with its characters in reverse order.
pub fn reverse(s: &str) -> (r: String)
    ensures
        r@ == s@.reverse(),
{
    let chars = chars_of(s);
    let n = chars.len();
    let mut r = String::new();
    let mut k: usize = n;
    while k > 0
        invariant
            k <= n == chars@.len(),
            chars@ == s@,
            r@ == s@.reverse().take(n - k),
        decreases k,
    {
        k = k - 1;
        push_char(&mut r, chars[k]);
        assert(r@ =~= s@.reverse().take(n - k));
    }
    assert(r@ =~= s@.reverse());
    r
}

/// Reversing twice gives back the original text.
pub proof fn reverse_twice(s: Seq<char>)
    ensures
        s.reverse().reverse() == s,
{
    assert(s.reverse().reverse() =~= s);
}

/// Names what `str::to_uppercase` returns for a text.
pub uninterp spec fn upper_of(s: Seq<char>) -> Seq<char>;

/// Relies on `str::to_uppercase`: the Unicode uppercase mapping of each
/// character, which depends on the characters alone.
#[verifier::external_body]
fn uppercase(s: &str) -> (r: String)
    ensures
        r@ == upper_of(s@),
{
    s.to_uppercase()
}

/// `s` in upper case, following Unicode's case mapping.
pub fn to_uppercase(s: &str) -> (r: String)
    ensures
        r@ == upper_of(s@),
{
    uppercase(s)
}

/// `c` has the Unicode `White_Space` property.
pub open spec fn white_space(c: char) -> bool {
    let u = c as u32;
    ||| 0x09 <= u <= 0x0D
    ||| u == 0x20
    ||| u == 0x85
    ||| u == 0xA0
    ||| u == 0x1680
    ||| 0x2000 <= u <= 0x200A
    ||| u == 0x2028
    ||| u == 0x2029
    ||| u == 0x202F
    ||| u == 0x205F
    ||| u == 0x3000
}

/// Whether `c` is Unicode white space.
pub fn is_white_space(c: char) -> (r: bool)
    ensures
        r == white_space(c),
{
    let u = c as u32;
    (0x09 <= u && u <= 0x0D) || u == 0x20 || u == 0x85 || u == 0xA0 || u == 0x1680 || (0x2000
        <= u && u <= 0x200A) || u == 0x2028 || u == 0x2029 || u == 0x202F || u == 0x205F || u
        == 0x3000
}

/// A word begins at position `i` of `s`: a character that is not white
/// space, at the start or right after white space.
pub open spec fn starts_word(s: Seq<char>, i: int) -> bool {
    &&& 0 <= i < s.len()
    &&& !white_space(s[i])
    &&& (i == 0 || white_space(s[i - 1]))
}

/// How many words begin among the first `k` positions of `s`.
pub open spec fn words_before(s: Seq<char>, k: nat) -> nat
    decreases k,
{
    if k == 0 {
        0
    } else {
        words_before(s, (k - 1) as nat) + if starts_word(s, k - 1) {
            1nat
        } else {
            0nat
        }
    }
}

/// The number of words of `s`: maximal runs of characters that are not white
/// space, each counted where it begins.
pub open spec fn words_in(s: Seq<char>) -> nat {
    words_before(s, s.len())
}

proof fn lemma_words_before_bound(s: Seq<char>, k: nat)
    ensures
        words_before(s, k) <= k,
    decreases k,
{
    if k > 0 {
        lemma_words_before_bound(s, (k - 1) as nat);
    }
}

/// The number of white-space separated words in `s`; white space at either
/// end or repeated between words adds none.
pub fn word_count(s: &str) -> (r: usize)
    ensures
        r == words_in(s@),
{
    let chars = chars_of(s);
    let n = chars.len();
    let mut count: usize = 0;
    let mut i: usize = 0;
    while i < n
        invariant
            i <= n == chars@.len(),
            chars@ == s@,
            count == words_before(s@, i as nat),
        decreases n - i,
    {
        proof {
            lemma_words_before_bound(s@, i as nat);
        }
        let space = is_white_space(chars[i]);
        if !space && (i == 0 || is_white_space(chars[i - 1])) {
            count = count + 1;
        }
        i = i + 1;
    }
    count
}

} // verus!
