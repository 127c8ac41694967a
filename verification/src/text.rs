//! Text handling shared by the puzzle parsers: characters of a string, lines
//! and words, decimal numbers.

use vstd::prelude::*;
use vstd::std_specs::iter::IteratorSpec;

verus! {

/// What separates the pieces of a text.
#[derive(Clone, Copy, Debug, PartialEq, Eq, Structural)]
pub enum Separator {
    /// The line feed character only.
    Newline,
    /// Any white space character.
    Blank,
}

/// The white space characters of Unicode.
pub open spec fn is_blank(c: char) -> bool {
    let u = c as u32;
    ||| 0x09 <= u <= 0x0d
    ||| u == 0x20
    ||| u == 0x85
    ||| u == 0xa0
    ||| u == 0x1680
    ||| 0x2000 <= u <= 0x200a
    ||| u == 0x2028
    ||| u == 0x2029
    ||| u == 0x202f
    ||| u == 0x205f
    ||| u == 0x3000
}

/// Whether `c` ends a piece under `sep`.
pub open spec fn separates(sep: Separator, c: char) -> bool {
    match sep {
        Separator::Newline => c == '\n',
        Separator::Blank => is_blank(c),
    }
}

/// The pieces of `s` between separators, empty pieces included: a text with
/// `n` separators has `n + 1` pieces.
pub open spec fn split(s: Seq<char>, sep: Separator) -> Seq<Seq<char>>
    decreases s.len(),
{
    if s.len() == 0 {
        seq![Seq::<char>::empty()]
    } else {
        let before = split(s.drop_last(), sep);
        if separates(sep, s.last()) {
            before.push(Seq::<char>::empty())
        } else {
            before.drop_last().push(before.last().push(s.last()))
        }
    }
}

/// The pieces of `pieces` that hold at least one character, in order.
pub open spec fn non_empty(pieces: Seq<Seq<char>>) -> Seq<Seq<char>>
    decreases pieces.len(),
{
    if pieces.len() == 0 {
        pieces
    } else if pieces.last().len() == 0 {
        non_empty(pieces.drop_last())
    } else {
        non_empty(pieces.drop_last()).push(pieces.last())
    }
}

/// The lines of a text.
pub open spec fn lines(s: Seq<char>) -> Seq<Seq<char>> {
    split(s, Separator::Newline)
}

/// The words of a text: its maximal runs of characters that are not white space.
pub open spec fn words(s: Seq<char>) -> Seq<Seq<char>> {
    non_empty(split(s, Separator::Blank))
}

/// The character sequences that a vector of character vectors stands for.
pub open spec fn rows(v: Seq<Vec<char>>) -> Seq<Seq<char>> {
    v.map_values(|r: Vec<char>| r@)
}

/// The characters of `s`, in order.
pub fn chars_of(s: &str) -> (v: Vec<char>)
    ensures
        v@ == s@,
{
    broadcast use vstd::string::axiom_spec_iter, vstd::string::next_postcondition;

    let mut it = s.chars();
    let mut v: Vec<char> = Vec::new();
    loop
        invariant
            v@ + it.remaining() == s@,
            it.decrease() is Some,
        ensures
            v@ == s@,
        decreases it.decrease()->0,
    {
        let ghost before = it;
        match it.next() {
            Some(c) => {
                proof {
                    assert(v@.push(c) + it.remaining() =~= v@ + before.remaining());
                }
                v.push(c);
            },
            None => {
                proof {
                    assert(v@ + it.remaining() =~= v@);
                    assert(v@ == s@);
                }
                break ;
            },
        }
    }
    v
}

pub fn is_blank_char(c: char) -> (b: bool)
    ensures
        b == is_blank(c),
{
    let u: u32 = c as u32;
    (0x09 <= u && u <= 0x0d) || u == 0x20 || u == 0x85 || u == 0xa0 || u == 0x1680 || (0x2000 <= u
        && u <= 0x200a) || u == 0x2028 || u == 0x2029 || u == 0x202f || u == 0x205f || u == 0x3000
}

pub fn is_separator(sep: Separator, c: char) -> (b: bool)
    ensures
        b == separates(sep, c),
{
    match sep {
        Separator::Newline => c == '\n',
        Separator::Blank => is_blank_char(c),
    }
}

/// Splits `s` at every separator.
pub fn split_at_separators(s: &Vec<char>, sep: Separator) -> (pieces: Vec<Vec<char>>)
    ensures
        rows(pieces@) == split(s@, sep),
{
    let mut pieces: Vec<Vec<char>> = Vec::new();
    let mut current: Vec<char> = Vec::new();
    let mut i: usize = 0;
    while i < s.len()
        invariant
            i <= s.len(),
            rows(pieces@).push(current@) == split(s@.take(i as int), sep),
        decreases s.len() - i,
    {
        let c = s[i];
        proof {
            assert(s@.take(i + 1).drop_last() =~= s@.take(i as int));
            assert(s@.take(i + 1).last() == c);
        }
        if is_separator(sep, c) {
            proof {
                assert(rows(pieces@.push(current)) =~= rows(pieces@).push(current@));
            }
            pieces.push(current);
            current = Vec::new();
        } else {
            proof {
                assert(rows(pieces@).push(current@).drop_last() =~= rows(pieces@));
            }
            current.push(c);
        }
        i += 1;
    }
    proof {
        assert(s@.take(i as int) =~= s@);
        assert(rows(pieces@.push(current)) =~= rows(pieces@).push(current@));
    }
    pieces.push(current);
    pieces
}

/// The words of `s`.
pub fn split_words(s: &Vec<char>) -> (found: Vec<Vec<char>>)
    ensures
        rows(found@) == words(s@),
{
    let pieces = split_at_separators(s, Separator::Blank);
    let mut found: Vec<Vec<char>> = Vec::new();
    let mut i: usize = 0;
    while i < pieces.len()
        invariant
            i <= pieces.len(),
            rows(found@) == non_empty(rows(pieces@).take(i as int)),
        decreases pieces.len() - i,
    {
        proof {
            assert(rows(pieces@).take(i + 1).drop_last() =~= rows(pieces@).take(i as int));
            assert(rows(pieces@).take(i + 1).last() == pieces@[i as int]@);
        }
        if pieces[i].len() > 0 {
            let piece = pieces[i].clone();
            proof {
                assert(piece@ =~= pieces@[i as int]@);
                assert(rows(found@.push(piece)) =~= rows(found@).push(piece@));
            }
            found.push(piece);
        }
        i += 1;
    }
    proof {
        assert(rows(pieces@).take(i as int) =~= rows(pieces@));
    }
    found
}

/// Whether `c` is one of the ten decimal digits.
pub open spec fn is_digit(c: char) -> bool {
    48 <= c as u32 <= 57
}

/// The number that the digit `c` stands for.
pub open spec fn digit_value(c: char) -> int {
    c as u32 as int - 48
}

/// Whether every character of `s` is a decimal digit.
pub open spec fn all_digits(s: Seq<char>) -> bool {
    forall|i: int| 0 <= i < s.len() ==> is_digit(#[trigger] s[i])
}

/// The number that a sequence of decimal digits stands for.
pub open spec fn digits_value(s: Seq<char>) -> int
    decreases s.len(),
{
    if s.len() == 0 {
        0
    } else {
        digits_value(s.drop_last()) * 10 + digit_value(s.last())
    }
}

/// The integer that `s` denotes: an optional sign, `+` or `-`, and then one
/// decimal digit or more. Anything else denotes no integer.
pub open spec fn signed_value(s: Seq<char>) -> Option<int> {
    let negative = s.len() > 0 && s[0] == '-';
    let signed = s.len() > 0 && (s[0] == '-' || s[0] == '+');
    let body = if signed {
        s.drop_first()
    } else {
        s
    };
    if body.len() == 0 || !all_digits(body) {
        None
    } else if negative {
        Some(-digits_value(body))
    } else {
        Some(digits_value(body))
    }
}

/// The `i32` that `s` denotes, if it denotes an integer of that range.
pub open spec fn i32_value(s: Seq<char>) -> Option<i32> {
    match signed_value(s) {
        Some(v) => if i32::MIN <= v <= i32::MAX {
            Some(v as i32)
        } else {
            None
        },
        None => None,
    }
}

/// A prefix of a digit sequence stands for no more than the whole.
pub proof fn lemma_digits_value_prefix(s: Seq<char>, k: int)
    requires
        all_digits(s),
        0 <= k <= s.len(),
    ensures
        0 <= digits_value(s.take(k)) <= digits_value(s),
    decreases s.len(),
{
    if s.len() == 0 {
        assert(s.take(k) =~= s);
    } else if k == s.len() {
        assert(s.take(k) =~= s);
        lemma_digits_value_prefix(s.drop_last(), k - 1);
        assert(is_digit(s[s.len() - 1]));
    } else {
        lemma_digits_value_prefix(s.drop_last(), k);
        assert(s.drop_last().take(k) =~= s.take(k));
        assert(is_digit(s[s.len() - 1]));
    }
}

/// Reads `s` as a signed decimal number of 32 bits.
pub fn parse_i32(s: &Vec<char>) -> (r: Option<i32>)
    ensures
        r == i32_value(s@),
{
    let n = s.len();
    if n == 0 {
        return None;
    }
    let negative = s[0] == '-';
    let start: usize = if s[0] == '-' || s[0] == '+' {
        1
    } else {
        0
    };
    if start == n {
        return None;
    }
    let ghost body = if start == 1 {
        s@.drop_first()
    } else {
        s@
    };
    let mut acc: i64 = 0;
    let mut i: usize = start;
    while i < n
        invariant
            start <= i <= n,
            n == s.len(),
            n > 0,
            start <= 1,
            (start == 1) == (s@[0] == '-' || s@[0] == '+'),
            body == (if start == 1 {
                s@.drop_first()
            } else {
                s@
            }),
            all_digits(body.take(i - start)),
            acc == digits_value(body.take(i - start)),
            0 <= acc <= 2147483648,
        decreases n - i,
    {
        let c = s[i];
        let u: u32 = c as u32;
        if u < 48 || u > 57 {
            proof {
                assert(body[i - start] == c);
            }
            return None;
        }
        let d: i64 = (u - 48) as i64;
        proof {
            assert(body.take(i + 1 - start).drop_last() =~= body.take(i - start));
            assert(body.take(i + 1 - start).last() == c);
            assert forall|j: int| 0 <= j < i + 1 - start implies is_digit(
                #[trigger] body.take(i + 1 - start)[j],
            ) by {
                if j < i - start {
                    assert(body.take(i - start)[j] == body[j]);
                }
            }
        }
        acc = acc * 10 + d;
        if acc > 2147483648 {
            proof {
                if all_digits(body) {
                    lemma_digits_value_prefix(body, i + 1 - start);
                }
            }
            return None;
        }
        i += 1;
    }
    proof {
        assert(body.take(n - start) =~= body);
    }
    if negative {
        Some((-acc) as i32)
    } else if acc > 2147483647 {
        None
    } else {
        Some(acc as i32)
    }
}

/// The character of the decimal digit `d`.
pub open spec fn digit_char(d: nat) -> char {
    ((48 + d) as u8) as char
}

/// The decimal digits of `n`, most significant first, without leading zeros.
pub open spec fn decimal(n: nat) -> Seq<char>
    decreases n,
{
    if n < 10 {
        seq![digit_char(n)]
    } else {
        decimal(n / 10).push(digit_char(n % 10))
    }
}

/// The decimal form of an integer, with `-` before a negative one.
pub open spec fn signed_decimal(v: int) -> Seq<char> {
    if v < 0 {
        seq!['-'] + decimal((-v) as nat)
    } else {
        decimal(v as nat)
    }
}

/// Appends the decimal digits of `n` to `out`.
pub fn push_decimal(out: &mut Vec<char>, n: u64)
    ensures
        final(out)@ == old(out)@ + decimal(n as nat),
    decreases n,
{
    if n < 10 {
        let d: u8 = n as u8;
        out.push((48 + d) as char);
        proof {
            assert(out@ =~= old(out)@ + decimal(n as nat));
        }
    } else {
        push_decimal(out, n / 10);
        let d: u8 = (n % 10) as u8;
        out.push((48 + d) as char);
        proof {
            assert(out@ =~= old(out)@ + decimal(n as nat));
        }
    }
}

/// Appends the decimal form of `v` to `out`.
pub fn push_signed_decimal(out: &mut Vec<char>, v: i64)
    ensures
        final(out)@ == old(out)@ + signed_decimal(v as int),
{
    if v < 0 {
        out.push('-');
        let magnitude: u64 = if v == i64::MIN {
            9223372036854775808
        } else {
            (-v) as u64
        };
        push_decimal(out, magnitude);
        proof {
            assert(out@ =~= old(out)@ + signed_decimal(v as int));
        }
    } else {
        push_decimal(out, v as u64);
    }
}

/// Appends the characters of `s` to `out`.
pub fn push_str(out: &mut Vec<char>, s: &str)
    ensures
        final(out)@ == old(out)@ + s@,
{
    let mut added = chars_of(s);
    out.append(&mut added);
}

/// The string made of `chars`, built by `String::from_iter`, which keeps
/// every character in its place.
#[verifier::external_body]
pub(crate) fn string_from_chars(chars: &Vec<char>) -> (s: String)
    ensures
        s@ == chars@,
{
    String::from_iter(chars.iter())
}

/// `s` without the white space at its start.
pub open spec fn trim_start(s: Seq<char>) -> Seq<char>
    decreases s.len(),
{
    if s.len() > 0 && is_blank(s[0]) {
        trim_start(s.drop_first())
    } else {
        s
    }
}

/// `s` without the white space at its end.
pub open spec fn trim_end(s: Seq<char>) -> Seq<char>
    decreases s.len(),
{
    if s.len() > 0 && is_blank(s.last()) {
        trim_end(s.drop_last())
    } else {
        s
    }
}

/// `s` without the white space at its start and at its end.
pub open spec fn trimmed(s: Seq<char>) -> Seq<char> {
    trim_end(trim_start(s))
}

/// The line without the white space at its start and at its end.
pub fn trim(line: &Vec<char>) -> (kept: Vec<char>)
    ensures
        kept@ == trimmed(line@),
{
    let n = line.len();
    let mut from: usize = 0;
    proof {
        assert(line@.subrange(0, n as int) =~= line@);
    }
    while from < n && is_blank_char(line[from])
        invariant
            from <= n,
            n == line.len(),
            trim_start(line@) == trim_start(line@.subrange(from as int, n as int)),
        decreases n - from,
    {
        proof {
            assert(line@.subrange(from as int, n as int).drop_first() =~= line@.subrange(
                from + 1,
                n as int,
            ));
        }
        from += 1;
    }
    let mut to: usize = n;
    while to > from && is_blank_char(line[to - 1])
        invariant
            from <= to <= n,
            n == line.len(),
            trim_end(line@.subrange(from as int, n as int)) == trim_end(
                line@.subrange(from as int, to as int),
            ),
        decreases to,
    {
        proof {
            assert(line@.subrange(from as int, to as int).drop_last() =~= line@.subrange(
                from as int,
                to - 1,
            ));
        }
        to -= 1;
    }
    let mut kept: Vec<char> = Vec::new();
    let mut i: usize = from;
    while i < to
        invariant
            from <= i <= to,
            to <= line.len(),
            kept@ == line@.subrange(from as int, i as int),
        decreases to - i,
    {
        kept.push(line[i]);
        proof {
            assert(kept@ =~= line@.subrange(from as int, i + 1));
        }
        i += 1;
    }
    kept
}

/// Whether `s` is the text `literal`.
pub fn is_text(s: &Vec<char>, literal: &str) -> (same: bool)
    ensures
        same == (s@ == literal@),
{
    let wanted = chars_of(literal);
    if s.len() != wanted.len() {
        return false;
    }
    let mut i: usize = 0;
    while i < s.len()
        invariant
            i <= s.len(),
            s.len() == wanted.len(),
            wanted@ == literal@,
            s@.take(i as int) == wanted@.take(i as int),
        decreases s.len() - i,
    {
        if s[i] != wanted[i] {
            return false;
        }
        proof {
            assert(s@.take(i + 1) =~= s@.take(i as int).push(s@[i as int]));
            assert(wanted@.take(i + 1) =~= wanted@.take(i as int).push(wanted@[i as int]));
        }
        i += 1;
    }
    proof {
        assert(s@.take(i as int) =~= s@);
        assert(wanted@.take(i as int) =~= wanted@);
    }
    true
}

/// Whether `s` begins with the text `literal`.
pub fn begins_with(s: &Vec<char>, literal: &str) -> (begins: bool)
    ensures
        begins == literal@.is_prefix_of(s@),
{
    let wanted = chars_of(literal);
    if s.len() < wanted.len() {
        return false;
    }
    let mut i: usize = 0;
    while i < wanted.len()
        invariant
            i <= wanted.len(),
            wanted.len() <= s.len(),
            wanted@ == literal@,
            s@.take(i as int) == wanted@.take(i as int),
        decreases wanted.len() - i,
    {
        if s[i] != wanted[i] {
            proof {
                if literal@.is_prefix_of(s@) {
                    assert(s@.subrange(0, wanted@.len() as int)[i as int] == wanted@[i as int]);
                }
            }
            return false;
        }
        proof {
            assert(s@.take(i + 1) =~= s@.take(i as int).push(s@[i as int]));
            assert(wanted@.take(i + 1) =~= wanted@.take(i as int).push(wanted@[i as int]));
        }
        i += 1;
    }
    proof {
        assert(wanted@.take(i as int) =~= wanted@);
        assert(s@.take(i as int) =~= s@.subrange(0, wanted@.len() as int));
    }
    true
}

} // verus!
