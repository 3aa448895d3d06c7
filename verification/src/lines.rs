//! The lines of the text files of a system, and the numbers in them.
use vstd::prelude::*;
use vstd::string::*;

use crate::text::{chars_of, decimal, joined, string_of, texts};

verus! {

/// The text between the line feeds: one piece more than there are line feeds.
pub open spec fn pieces(s: Seq<char>) -> Seq<Seq<char>>
    decreases s.len(),
{
    if s.len() == 0 {
        seq![Seq::empty()]
    } else {
        let before = pieces(s.drop_last());
        if s.last() == '\n' {
            before.push(Seq::empty())
        } else {
            before.update(before.len() - 1, before.last().push(s.last()))
        }
    }
}

/// A line without the carriage return that belongs to its end.
pub open spec fn without_return(line: Seq<char>) -> Seq<char> {
    if line.len() > 0 && line.last() == '\r' {
        line.drop_last()
    } else {
        line
    }
}

/// The lines of a text. A line feed ends a line, and so does a carriage return before a line
/// feed; behind the last one there is no line unless there is text.
pub open spec fn lines_of(s: Seq<char>) -> Seq<Seq<char>> {
    let all = pieces(s);
    let ended = all.drop_last().map_values(|line: Seq<char>| without_return(line));
    if all.last().len() == 0 {
        ended
    } else {
        ended.push(all.last())
    }
}

proof fn lemma_pieces_nonempty(s: Seq<char>)
    ensures
        pieces(s).len() > 0,
    decreases s.len(),
{
    if s.len() > 0 {
        lemma_pieces_nonempty(s.drop_last());
    }
}

/// The lines of a text.
pub fn split_lines(s: &str) -> (r: Vec<String>)
    ensures
        texts(r@) == lines_of(s@),
{
    let chars = chars_of(s);
    let mut lines: Vec<String> = Vec::new();
    let mut current: Vec<char> = Vec::new();
    let mut i: usize = 0;
    proof {
        assert(s@.take(0) =~= Seq::<char>::empty());
        assert(pieces(s@.take(0)) =~= seq![current@]);
        assert(texts(lines@) =~= pieces(s@.take(0)).drop_last().map_values(
            |line: Seq<char>| without_return(line),
        ));
    }
    while i < chars.len()
        invariant
            i <= chars@.len(),
            chars@ == s@,
            pieces(s@.take(i as int)).len() > 0,
            current@ == pieces(s@.take(i as int)).last(),
            texts(lines@) == pieces(s@.take(i as int)).drop_last().map_values(
                |line: Seq<char>| without_return(line),
            ),
        decreases chars@.len() - i,
    {
        let c = chars[i];
        let ghost before = pieces(s@.take(i as int));
        let ghost after = pieces(s@.take(i + 1));
        let ghost said = texts(lines@);
        proof {
            assert(s@.take(i + 1).drop_last() =~= s@.take(i as int));
        }
        if c == '\n' {
            let ghost line = current@;
            if current.len() > 0 && current[current.len() - 1] == '\r' {
                let _ = current.pop();
                assert(current@ =~= line.drop_last());
            }
            lines.push(string_of(&current));
            current = Vec::new();
            proof {
                assert(texts(lines@) =~= said.push(without_return(line)));
                assert(after.drop_last() =~= before.drop_last().push(line));
                assert(texts(lines@) =~= after.drop_last().map_values(
                    |l: Seq<char>| without_return(l),
                ));
            }
        } else {
            current.push(c);
            proof {
                assert(after.drop_last() =~= before.drop_last());
            }
        }
        i = i + 1;
    }
    proof {
        assert(s@.take(i as int) =~= s@);
    }
    if current.len() > 0 {
        let ghost said = texts(lines@);
        lines.push(string_of(&current));
        assert(texts(lines@) =~= said.push(current@));
    }
    lines
}

pub open spec fn is_digit(c: char) -> bool {
    '0' <= c && c <= '9'
}

/// The number that decimal digits stand for.
pub open spec fn digits_value(s: Seq<char>) -> nat
    decreases s.len(),
{
    if s.len() == 0 {
        0
    } else {
        10 * digits_value(s.drop_last()) + ((s.last() as u32) - ('0' as u32)) as nat
    }
}

/// The number that a text of decimal digits stands for, where it is one that fits.
pub open spec fn digits_number(digits: Seq<char>) -> Option<u64> {
    if digits.len() > 0 && (forall|i: int| 0 <= i < digits.len() ==> is_digit(#[trigger] digits[i]))
        && digits_value(digits) <= u64::MAX {
        Some(digits_value(digits) as u64)
    } else {
        None
    }
}

/// The number that a text stands for: decimal digits, with a plus sign before them or none.
pub open spec fn number_of(s: Seq<char>) -> Option<u64> {
    if s.len() > 0 && s[0] == '+' {
        digits_number(s.drop_first())
    } else {
        digits_number(s)
    }
}

proof fn lemma_value_grows(s: Seq<char>, at: int)
    requires
        0 <= at <= s.len(),
        forall|i: int| 0 <= i < s.len() ==> is_digit(#[trigger] s[i]),
    ensures
        digits_value(s.take(at)) <= digits_value(s),
    decreases s.len() - at,
{
    if at < s.len() {
        lemma_value_grows(s, at + 1);
        assert(s.take(at + 1).drop_last() =~= s.take(at));
    } else {
        assert(s.take(at) =~= s);
    }
}

/// The number that a text stands for.
pub fn parse_number(s: &str) -> (r: Option<u64>)
    ensures
        r == number_of(s@),
{
    let chars = chars_of(s);
    let start: usize = if chars.len() > 0 && chars[0] == '+' {
        1
    } else {
        0
    };
    let ghost digits = s@.skip(start as int);
    proof {
        assert(start == 0 ==> digits =~= s@);
        assert(start == 1 ==> digits =~= s@.drop_first());
    }
    if start == chars.len() {
        return None;
    }
    let mut value: u64 = 0;
    let mut i: usize = start;
    proof {
        assert(digits.take(0) =~= Seq::<char>::empty());
    }
    while i < chars.len()
        invariant
            start <= i <= chars@.len(),
            start < chars@.len(),
            chars@ == s@,
            digits == s@.skip(start as int),
            digits.len() > 0,
            number_of(s@) == digits_number(digits),
            forall|j: int| 0 <= j < i - start ==> is_digit(#[trigger] digits[j]),
            value == digits_value(digits.take(i - start)),
        decreases chars@.len() - i,
    {
        let c = chars[i];
        let ghost k = i - start;
        assert(digits[k] == c);
        if !('0' <= c && c <= '9') {
            assert(!is_digit(digits[k]));
            return None;
        }
        proof {
            assert(digits.take(k + 1).drop_last() =~= digits.take(k));
            if forall|j: int| 0 <= j < digits.len() ==> is_digit(#[trigger] digits[j]) {
                lemma_value_grows(digits, k + 1);
            }
        }
        let digit: u64 = (c as u32 - '0' as u32) as u64;
        match value.checked_mul(10) {
            Some(tens) => match tens.checked_add(digit) {
                Some(sum) => {
                    value = sum;
                },
                None => {
                    return None;
                },
            },
            None => {
                return None;
            },
        }
        i = i + 1;
    }
    proof {
        assert(digits.take(i - start) =~= digits);
    }
    Some(value)
}

proof fn lemma_decimal_digits(n: nat)
    ensures
        decimal(n).len() > 0,
        forall|i: int| 0 <= i < decimal(n).len() ==> is_digit(#[trigger] decimal(n)[i]),
        digits_value(decimal(n)) == n,
    decreases n,
{
    if n < 10 {
        reveal_with_fuel(digits_value, 2);
        assert(decimal(n).drop_last() =~= Seq::<char>::empty());
    } else {
        lemma_decimal_digits(n / 10);
        assert(decimal(n).drop_last() =~= decimal(n / 10));
    }
}

/// A number is read back from its decimal digits, with a plus sign before them or without.
pub proof fn law_numbers_are_read_back(n: u64)
    ensures
        number_of(decimal(n as nat)) == Some(n),
        number_of(seq!['+'] + decimal(n as nat)) == Some(n),
{
    let digits = decimal(n as nat);
    lemma_decimal_digits(n as nat);
    assert(is_digit(digits[0]));
    assert((seq!['+'] + digits).drop_first() =~= digits);
}

/// A text in which there is anything but digits behind the sign, or nothing, stands for no number.
pub proof fn law_only_digits_make_a_number(s: Seq<char>, i: int)
    ensures
        s.len() == 0 ==> number_of(s) is None,
        0 <= i < s.len() && !is_digit(s[i]) && (i > 0 || s[i] != '+') ==> number_of(s) is None,
        s == seq!['+'] ==> number_of(s) is None,
{
    if 0 <= i < s.len() && !is_digit(s[i]) && (i > 0 || s[i] != '+') {
        if s[0] == '+' {
            assert(s.drop_first()[i - 1] == s[i]);
        }
    }
}

/// The text between the line feeds, with line feeds between, is the text itself, and there is no
/// line feed in any piece.
pub proof fn law_pieces_make_the_text(s: Seq<char>, i: int)
    ensures
        joined(pieces(s), seq!['\n']) == s,
        0 <= i < pieces(s).len() ==> !pieces(s)[i].contains('\n'),
    decreases s.len(),
{
    lemma_pieces_nonempty(s);
    if s.len() == 0 {
        assert(joined(pieces(s), seq!['\n']) =~= s);
    } else {
        let rest = s.drop_last();
        let before = pieces(rest);
        let all = pieces(s);
        lemma_pieces_nonempty(rest);
        law_pieces_make_the_text(rest, i);
        law_pieces_make_the_text(rest, before.len() - 1);
        assert(all.drop_last() =~= if s.last() == '\n' {
            before
        } else {
            before.drop_last()
        });
        assert(rest.push(s.last()) =~= s);
        if s.last() == '\n' {
            assert(joined(all, seq!['\n']) =~= joined(before, seq!['\n']) + seq!['\n']);
        } else {
            let last = before.last().push(s.last());
            assert(all.last() == last);
            if before.len() == 1 {
                assert(joined(all, seq!['\n']) =~= joined(before, seq!['\n']).push(s.last()));
            } else {
                let front = joined(before.drop_last(), seq!['\n']);
                assert(joined(before, seq!['\n']) == front + seq!['\n'] + before.last());
                assert(joined(all, seq!['\n']) == front + seq!['\n'] + last);
                assert(joined(all, seq!['\n']) =~= joined(before, seq!['\n']).push(s.last()));
            }
            assert(!last.contains('\n')) by {
                if last.contains('\n') {
                    let k = choose|k: int| 0 <= k < last.len() && last[k] == '\n';
                    assert(before.last()[k] == '\n');
                }
            }
        }
    }
}

/// Every line of a text is a piece of it, where something follows it without the carriage return
/// at its end; and the empty piece behind a final line feed is no line.
pub proof fn law_lines_are_pieces(s: Seq<char>, i: int)
    ensures
        ({
            let all = pieces(s);
            let lines = lines_of(s);
            &&& lines.len() == if all.last().len() == 0 {
                all.len() - 1
            } else {
                all.len() as int
            }
            &&& 0 <= i < all.len() - 1 ==> lines[i] == all[i] || (lines[i] + seq!['\r'] == all[i])
            &&& 0 <= i < all.len() - 1 && all[i].len() > 0 && all[i].last() == '\r' ==> lines[i]
                == all[i].drop_last()
            &&& 0 <= i < all.len() - 1 && (all[i].len() == 0 || all[i].last() != '\r') ==> lines[i]
                == all[i]
            &&& all.last().len() > 0 ==> lines.last() == all.last()
        }),
{
    lemma_pieces_nonempty(s);
    let all = pieces(s);
    if 0 <= i < all.len() - 1 && all[i].len() > 0 && all[i].last() == '\r' {
        assert(all[i].drop_last() + seq!['\r'] =~= all[i]);
    }
}

} // verus!
