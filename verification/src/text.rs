//! Character-level text helpers shared by the configuration, the notification queue and the card
//! layout: character sequences of strings, line splitting as `str::lines` does it, and decimal
//! numbers.

use vstd::prelude::*;
use vstd::std_specs::iter::IteratorSpec;

verus! {

broadcast use vstd::string::group_string_axioms;

/// The characters of a string, in order.
pub fn chars_of(s: &str) -> (v: Vec<char>)
    ensures
        v@ == s@,
{
    let mut v: Vec<char> = Vec::new();
    let mut it = s.chars();
    loop
        invariant
            v@ + it.remaining() == s@,
            it.obeys_prophetic_iter_laws(),
            it.decrease() is Some,
        ensures
            v@ == s@,
        decreases it.decrease()->0,
    {
        match it.next() {
            Some(c) => {
                v.push(c);
            },
            None => {
                assert(v@ + it.remaining() == s@);
                break;
            },
        }
    }
    v
}

/// Appends one character to a string (`String::push`).
#[verifier::external_body]
pub(crate) fn push_char(s: &mut String, c: char)
    ensures
        final(s)@ == old(s)@.push(c),
{
    s.push(c);
}

/// A string holding exactly the given characters.
pub fn string_of(chars: &Vec<char>) -> (s: String)
    ensures
        s@ == chars@,
{
    let mut s = String::new();
    let mut i: usize = 0;
    while i < chars.len()
        invariant
            i <= chars.len(),
            s@ == chars@.take(i as int),
        decreases chars.len() - i,
    {
        push_char(&mut s, chars[i]);
        i = i + 1;
        assert(s@ =~= chars@.take(i as int));
    }
    assert(chars@.take(chars.len() as int) =~= chars@);
    s
}

pub open spec fn digit_char(d: nat) -> char {
    if d == 0 { '0' } else if d == 1 { '1' } else if d == 2 { '2' } else if d == 3 { '3' }
    else if d == 4 { '4' } else if d == 5 { '5' } else if d == 6 { '6' } else if d == 7 { '7' }
    else if d == 8 { '8' } else { '9' }
}

/// The decimal digits of a natural number, most significant first, without leading zeros.
pub open spec fn decimal(n: nat) -> Seq<char>
    decreases n,
{
    if n < 10 {
        seq![digit_char(n)]
    } else {
        decimal(n / 10).push(digit_char(n % 10))
    }
}

/// An integer as `Display` writes it: a minus sign for negative values, then the decimal digits.
pub open spec fn signed_decimal(n: int) -> Seq<char> {
    if n < 0 {
        seq!['-'] + decimal((-n) as nat)
    } else {
        decimal(n as nat)
    }
}

fn digit_of(d: u64) -> (c: char)
    requires
        d < 10,
    ensures
        c == digit_char(d as nat),
{
    if d == 0 { '0' } else if d == 1 { '1' } else if d == 2 { '2' } else if d == 3 { '3' }
    else if d == 4 { '4' } else if d == 5 { '5' } else if d == 6 { '6' } else if d == 7 { '7' }
    else if d == 8 { '8' } else { '9' }
}

/// Appends the decimal digits of `n`.
pub fn push_decimal(out: &mut String, n: u64)
    ensures
        final(out)@ == old(out)@ + decimal(n as nat),
    decreases n,
{
    if n >= 10 {
        push_decimal(out, n / 10);
    }
    push_char(out, digit_of(n % 10));
    assert(final(out)@ =~= old(out)@ + decimal(n as nat)) by {
        if n >= 10 {
            assert(decimal(n as nat) == decimal((n / 10) as nat).push(digit_char((n % 10) as nat)));
        }
    }
}

/// Appends an `i64` the way `Display` writes it.
pub fn push_signed(out: &mut String, n: i64)
    ensures
        final(out)@ == old(out)@ + signed_decimal(n as int),
{
    if n < 0 {
        push_char(out, '-');
        let magnitude: u64 = if n == i64::MIN { 9223372036854775808u64 } else { (-n) as u64 };
        push_decimal(out, magnitude);
        assert(final(out)@ =~= old(out)@ + signed_decimal(n as int));
    } else {
        push_decimal(out, n as u64);
    }
}

/// Appends a string slice.
pub fn push_str(out: &mut String, s: &str)
    ensures
        final(out)@ == old(out)@ + s@,
{
    out.append(s);
}

/// A line with one trailing carriage return removed, as `str::lines` strips a `\r\n` ending.
pub open spec fn strip_cr(l: Seq<char>) -> Seq<char> {
    if l.len() > 0 && l.last() == '\r' {
        l.drop_last()
    } else {
        l
    }
}

/// Left-to-right line split: the lines finished by a `\n` so far, and the unfinished tail.
pub open spec fn line_scan(s: Seq<char>) -> (Seq<Seq<char>>, Seq<char>)
    decreases s.len(),
{
    if s.len() == 0 {
        (seq![], seq![])
    } else {
        let (done, cur) = line_scan(s.drop_last());
        if s.last() == '\n' {
            (done.push(strip_cr(cur)), seq![])
        } else {
            (done, cur.push(s.last()))
        }
    }
}

/// The lines of a text as `str::lines` yields them: split at `\n`, a `\r` before it dropped, and
/// no empty line after a final line ending.
pub open spec fn lines(s: Seq<char>) -> Seq<Seq<char>> {
    let (done, cur) = line_scan(s);
    if cur.len() == 0 {
        done
    } else {
        done.push(cur)
    }
}

/// The first line of a text, empty when it has none.
pub open spec fn first_line_of(s: Seq<char>) -> Seq<char> {
    if lines(s).len() == 0 {
        seq![]
    } else {
        lines(s)[0]
    }
}

/// Finished lines are never revised as the text grows.
pub proof fn lemma_line_scan_grows(s: Seq<char>, i: int, j: int)
    requires
        0 <= i <= j <= s.len(),
    ensures
        line_scan(s.take(i)).0.len() <= line_scan(s.take(j)).0.len(),
        line_scan(s.take(j)).0.take(line_scan(s.take(i)).0.len() as int) == line_scan(s.take(i)).0,
    decreases j - i,
{
    if i < j {
        lemma_line_scan_grows(s, i, j - 1);
        assert(s.take(j).drop_last() =~= s.take(j - 1));
        let prev = line_scan(s.take(j - 1)).0;
        let now = line_scan(s.take(j)).0;
        let k = line_scan(s.take(i)).0.len() as int;
        assert(now.take(k) =~= prev.take(k));
    } else {
        assert(line_scan(s.take(j)).0.take(line_scan(s.take(i)).0.len() as int) =~= line_scan(s.take(i)).0);
    }
}

/// The contents of a sequence of character vectors.
pub open spec fn char_rows(v: Seq<Vec<char>>) -> Seq<Seq<char>> {
    v.map_values(|l: Vec<char>| l@)
}

/// Splits characters into lines, as `str::lines` does.
pub fn split_lines(chars: &Vec<char>) -> (out: Vec<Vec<char>>)
    ensures
        char_rows(out@) == lines(chars@),
{
    let mut done: Vec<Vec<char>> = Vec::new();
    let mut cur: Vec<char> = Vec::new();
    let mut i: usize = 0;
    while i < chars.len()
        invariant
            i <= chars.len(),
            (char_rows(done@), cur@) == line_scan(chars@.take(i as int)),
        decreases chars.len() - i,
    {
        let c = chars[i];
        assert(chars@.take(i + 1).drop_last() =~= chars@.take(i as int));
        if c == '\n' {
            if cur.len() > 0 && cur[cur.len() - 1] == '\r' {
                cur.pop();
            }
            let finished = cur;
            cur = Vec::new();
            done.push(finished);
        } else {
            cur.push(c);
        }
        i = i + 1;
        assert(char_rows(done@) =~= line_scan(chars@.take(i as int)).0);
        assert(cur@ =~= line_scan(chars@.take(i as int)).1);
    }
    assert(chars@.take(chars.len() as int) =~= chars@);
    if cur.len() > 0 {
        done.push(cur);
        assert(char_rows(done@) =~= lines(chars@));
    }
    done
}

/// The first line of a text (`text.lines().next().unwrap_or("")`): headline fields can never add a
/// second visual row.
pub fn first_line(text: &str) -> (line: &str)
    ensures
        line@ == first_line_of(text@),
{
    let chars = chars_of(text);
    let n = chars.len();
    let mut i: usize = 0;
    while i < n && chars[i] != '\n'
        invariant
            i <= n,
            n == chars@.len(),
            chars@ == text@,
            line_scan(chars@.take(i as int)) == (Seq::<Seq<char>>::empty(), chars@.take(i as int)),
        decreases n - i,
    {
        assert(chars@.take(i + 1).drop_last() =~= chars@.take(i as int));
        i = i + 1;
        assert(chars@.take(i as int) =~= chars@.take(i - 1).push(chars@[i - 1]));
    }
    if i == n {
        assert(chars@.take(n as int) =~= chars@);
        if n == 0 {
            assert(lines(chars@).len() == 0);
        } else {
            assert(lines(chars@) =~= seq![chars@]);
        }
        assert(text@.subrange(0, n as int) =~= text@);
        text.substring_char(0, n)
    } else {
        assert(chars@.take(i + 1).drop_last() =~= chars@.take(i as int));
        let end: usize = if i > 0 && chars[i - 1] == '\r' { i - 1 } else { i };
        proof {
            lemma_line_scan_grows(chars@, i + 1, n as int);
            assert(chars@.take(n as int) =~= chars@);
            assert(line_scan(chars@.take(i + 1)).0 =~= seq![strip_cr(chars@.take(i as int))]);
            let all = line_scan(chars@.take(n as int)).0;
            assert(all.take(1) == seq![strip_cr(chars@.take(i as int))]);
            assert(all.take(1)[0] == all[0]);
            assert(line_scan(chars@) == line_scan(chars@.take(n as int)));
            assert(lines(chars@)[0] == line_scan(chars@).0[0]);
            assert(strip_cr(chars@.take(i as int)) =~= chars@.subrange(0, end as int));
            assert(lines(chars@).len() > 0);
            assert(first_line_of(text@) == chars@.subrange(0, end as int));
        }
        text.substring_char(0, end)
    }
}

/// Unicode's `White_Space` property, which `char::is_whitespace` and `str::trim` go by.
pub open spec fn is_white_space(c: char) -> bool {
    ||| ('\u{9}' <= c <= '\u{d}')
    ||| c == ' '
    ||| c == '\u{85}'
    ||| c == '\u{a0}'
    ||| c == '\u{1680}'
    ||| ('\u{2000}' <= c <= '\u{200a}')
    ||| c == '\u{2028}'
    ||| c == '\u{2029}'
    ||| c == '\u{202f}'
    ||| c == '\u{205f}'
    ||| c == '\u{3000}'
}

/// Some character of the text is not white space: the text does not trim to nothing.
pub open spec fn has_ink(s: Seq<char>) -> bool {
    exists|i: int| 0 <= i < s.len() && !is_white_space(s[i])
}

pub fn is_white_space_char(c: char) -> (b: bool)
    ensures
        b == is_white_space(c),
{
    ('\u{9}' <= c && c <= '\u{d}') || c == ' ' || c == '\u{85}' || c == '\u{a0}' || c == '\u{1680}'
        || ('\u{2000}' <= c && c <= '\u{200a}') || c == '\u{2028}' || c == '\u{2029}'
        || c == '\u{202f}' || c == '\u{205f}' || c == '\u{3000}'
}

/// Whether the text is non-empty once trimmed (`!text.trim().is_empty()`).
pub fn trims_to_something(text: &str) -> (b: bool)
    ensures
        b == has_ink(text@),
{
    let chars = chars_of(text);
    let mut i: usize = 0;
    while i < chars.len()
        invariant
            i <= chars.len(),
            chars@ == text@,
            forall|j: int| 0 <= j < i ==> is_white_space(chars@[j]),
        decreases chars.len() - i,
    {
        if !is_white_space_char(chars[i]) {
            return true;
        }
        i = i + 1;
    }
    false
}

} // verus!
