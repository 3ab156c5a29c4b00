//! Text helpers for rendering messages: decimal numbers, runs of one
//! character, trailing whitespace and the lines of a source text.

use vstd::prelude::*;
use vstd::utf8::encode_utf8;

verus! {

/// The character of a decimal digit.
pub open spec fn digit_char(d: nat) -> char {
    if d == 0 {
        '0'
    } else if d == 1 {
        '1'
    } else if d == 2 {
        '2'
    } else if d == 3 {
        '3'
    } else if d == 4 {
        '4'
    } else if d == 5 {
        '5'
    } else if d == 6 {
        '6'
    } else if d == 7 {
        '7'
    } else if d == 8 {
        '8'
    } else {
        '9'
    }
}

/// `n` written in decimal, without leading zeros.
pub open spec fn decimal(n: nat) -> Seq<char>
    decreases n,
{
    if n < 10 {
        seq![digit_char(n)]
    } else {
        decimal(n / 10).push(digit_char(n % 10))
    }
}

/// A larger number never has fewer digits.
pub proof fn lemma_decimal_len_monotone(a: nat, b: nat)
    requires
        a <= b,
    ensures
        decimal(a).len() <= decimal(b).len(),
        decimal(a).len() >= 1,
    decreases b,
{
    if b >= 10 {
        if a >= 10 {
            lemma_decimal_len_monotone(a / 10, b / 10);
        } else {
            lemma_decimal_len_monotone(0, b / 10);
        }
    }
}

fn digit_text(d: usize) -> (r: &'static str)
    requires
        d < 10,
    ensures
        r@ == seq![digit_char(d as nat)],
{
    proof {
        reveal_strlit("0");
        reveal_strlit("1");
        reveal_strlit("2");
        reveal_strlit("3");
        reveal_strlit("4");
        reveal_strlit("5");
        reveal_strlit("6");
        reveal_strlit("7");
        reveal_strlit("8");
        reveal_strlit("9");
    }
    match d {
        0 => "0",
        1 => "1",
        2 => "2",
        3 => "3",
        4 => "4",
        5 => "5",
        6 => "6",
        7 => "7",
        8 => "8",
        _ => "9",
    }
}

/// `n` in decimal.
pub fn decimal_text(n: usize) -> (r: String)
    ensures
        r@ == decimal(n as nat),
    decreases n,
{
    if n < 10 {
        String::from_str(digit_text(n))
    } else {
        let mut r = decimal_text(n / 10);
        r.append(digit_text(n % 10));
        r
    }
}

/// `n` copies of `c`.
pub open spec fn repeat_char(c: char, n: nat) -> Seq<char> {
    Seq::new(n, |i: int| c)
}

/// `n` spaces.
pub open spec fn spaces(n: nat) -> Seq<char> {
    repeat_char(' ', n)
}

/// `n` copies of the single character of `unit`.
pub fn repeated(unit: &str, n: usize) -> (r: String)
    requires
        unit@.len() == 1,
    ensures
        r@ == repeat_char(unit@[0], n as nat),
{
    let mut r = String::new();
    let mut k: usize = 0;
    while k < n
        invariant
            unit@.len() == 1,
            k <= n,
            r@ == repeat_char(unit@[0], k as nat),
        decreases n - k,
    {
        r.append(unit);
        assert(r@ =~= repeat_char(unit@[0], (k + 1) as nat));
        k = k + 1;
    }
    r
}

/// `n` spaces.
pub fn space_text(n: usize) -> (r: String)
    ensures
        r@ == spaces(n as nat),
{
    proof {
        reveal_strlit(" ");
    }
    repeated(" ", n)
}

/// The characters that Unicode calls white space.
pub open spec fn is_white_space(c: char) -> bool {
    ||| '\u{9}' <= c <= '\u{d}'
    ||| c == ' '
    ||| c == '\u{85}'
    ||| c == '\u{a0}'
    ||| c == '\u{1680}'
    ||| '\u{2000}' <= c <= '\u{200a}'
    ||| c == '\u{2028}'
    ||| c == '\u{2029}'
    ||| c == '\u{202f}'
    ||| c == '\u{205f}'
    ||| c == '\u{3000}'
}

fn white_space(c: char) -> (r: bool)
    ensures
        r == is_white_space(c),
{
    ('\u{9}' <= c && c <= '\u{d}') || c == ' ' || c == '\u{85}' || c == '\u{a0}' || c == '\u{1680}'
        || ('\u{2000}' <= c && c <= '\u{200a}') || c == '\u{2028}' || c == '\u{2029}' || c
        == '\u{202f}' || c == '\u{205f}' || c == '\u{3000}'
}

/// `s` without its trailing white space.
pub open spec fn trim_end(s: Seq<char>) -> Seq<char>
    decreases s.len(),
{
    if s.len() > 0 && is_white_space(s.last()) {
        trim_end(s.drop_last())
    } else {
        s
    }
}

/// `s` without its trailing white space.
pub fn trimmed_end(s: &str) -> (r: String)
    ensures
        r@ == trim_end(s@),
{
    let n = s.unicode_len();
    let mut j: usize = n;
    assert(s@.subrange(0, n as int) =~= s@);
    while j > 0 && white_space(s.get_char(j - 1))
        invariant
            n == s@.len(),
            j <= n,
            trim_end(s@) == trim_end(s@.subrange(0, j as int)),
        decreases j,
    {
        assert(s@.subrange(0, j as int).drop_last() =~= s@.subrange(0, j - 1));
        j = j - 1;
    }
    String::from_str(s.substring_char(0, j))
}

/// The length of `s` in bytes, encoded as UTF-8.
pub open spec fn byte_len(s: Seq<char>) -> nat {
    encode_utf8(s).len()
}

/// The index of the first line feed at or after `i`, or the length of `s`.
pub open spec fn line_end(s: Seq<char>, i: nat) -> nat
    decreases s.len() - i,
{
    if i >= s.len() {
        s.len()
    } else if s[i as int] == '\n' {
        i
    } else {
        line_end(s, i + 1)
    }
}

pub proof fn lemma_line_end(s: Seq<char>, i: nat)
    requires
        i <= s.len(),
    ensures
        i <= line_end(s, i) <= s.len(),
    decreases s.len() - i,
{
    if i < s.len() && s[i as int] != '\n' {
        lemma_line_end(s, i + 1);
    }
}

/// The line that starts at `i` and ends at `e`, without the carriage return
/// of a `\r\n` ending.
pub open spec fn line_text(s: Seq<char>, i: nat, e: nat) -> Seq<char> {
    let raw = s.subrange(i as int, e as int);
    if e < s.len() && raw.len() > 0 && raw.last() == '\r' {
        raw.drop_last()
    } else {
        raw
    }
}

/// The lines of `s` from index `i` on: split at line feeds, a carriage return
/// before a line feed dropped, and no empty line after a final line feed.
pub open spec fn lines_from(s: Seq<char>, i: nat) -> Seq<Seq<char>>
    decreases s.len() + 1 - i,
{
    if i >= s.len() {
        Seq::empty()
    } else {
        let e = line_end(s, i);
        proof {
            lemma_line_end(s, i);
        }
        seq![line_text(s, i, e)] + lines_from(s, e + 1)
    }
}

/// The lines of `s`.
pub open spec fn lines(s: Seq<char>) -> Seq<Seq<char>> {
    lines_from(s, 0)
}

fn find_line_end(s: &str, n: usize, i: usize) -> (e: usize)
    requires
        n == s@.len(),
        i <= n,
    ensures
        e == line_end(s@, i as nat),
{
    let mut j = i;
    while j < n && s.get_char(j) != '\n'
        invariant
            n == s@.len(),
            i <= j <= n,
            line_end(s@, i as nat) == line_end(s@, j as nat),
        decreases n - j,
    {
        j = j + 1;
    }
    j
}

/// The line of `s` at index `k` (counting from zero), if `s` has so many.
pub fn nth_line(s: &str, k: usize) -> (r: Option<String>)
    ensures
        r is Some <==> k < lines(s@).len(),
        r matches Some(l) ==> l@ == lines(s@)[k as int],
{
    let n = s.unicode_len();
    let mut i: usize = 0;
    let mut c: usize = 0;
    while c < k
        invariant
            n == s@.len(),
            i <= n,
            c <= k,
            c <= lines(s@).len(),
            lines_from(s@, i as nat) =~= lines(s@).skip(c as int),
        decreases k - c,
    {
        if i >= n {
            return None;
        }
        let e = find_line_end(s, n, i);
        proof {
            lemma_line_end(s@, i as nat);
        }
        let next = if e < n {
            e + 1
        } else {
            n
        };
        assert(lines_from(s@, i as nat) == seq![line_text(s@, i as nat, e as nat)] + lines_from(
            s@,
            (e + 1) as nat,
        ));
        assert(lines_from(s@, next as nat) == lines_from(s@, (e + 1) as nat));
        assert(lines(s@).skip(c + 1) =~= lines(s@).skip(c as int).skip(1));
        assert(lines_from(s@, next as nat) =~= lines(s@).skip(c + 1));
        i = next;
        c = c + 1;
    }
    if i >= n {
        return None;
    }
    let e = find_line_end(s, n, i);
    proof {
        lemma_line_end(s@, i as nat);
    }
    let line = if e < n && e > i && s.get_char(e - 1) == '\r' {
        s.substring_char(i, e - 1)
    } else {
        s.substring_char(i, e)
    };
    assert(line@ =~= line_text(s@, i as nat, e as nat));
    assert(lines_from(s@, i as nat) == seq![line_text(s@, i as nat, e as nat)] + lines_from(
        s@,
        (e + 1) as nat,
    ));
    assert(lines(s@).skip(k as int)[0] == lines(s@)[k as int]);
    Some(String::from_str(line))
}

} // verus!
