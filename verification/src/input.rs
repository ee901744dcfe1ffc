//! Scores as a player types them.

use crate::error::{Error, ErrorKind};
use crate::score::{over_limit, Score, POINTS_LIMIT};
use vstd::prelude::*;

verus! {

/// The digit that `c` stands for, if it is one.
pub open spec fn digit_of(c: char) -> Option<nat> {
    if c == '0' {
        Some(0)
    } else if c == '1' {
        Some(1)
    } else if c == '2' {
        Some(2)
    } else if c == '3' {
        Some(3)
    } else if c == '4' {
        Some(4)
    } else if c == '5' {
        Some(5)
    } else if c == '6' {
        Some(6)
    } else if c == '7' {
        Some(7)
    } else if c == '8' {
        Some(8)
    } else if c == '9' {
        Some(9)
    } else {
        None
    }
}

/// Whether `text` holds nothing but digits.
pub open spec fn all_digits(text: Seq<char>) -> bool {
    forall|i: int| 0 <= i < text.len() ==> digit_of(#[trigger] text[i]).is_some()
}

/// The number that the digits `text` stand for in decimal notation.
pub open spec fn value_of(text: Seq<char>) -> nat
    decreases text.len(),
{
    if text.len() == 0 {
        0
    } else {
        10 * value_of(text.drop_last()) + digit_of(text.last()).unwrap_or(0)
    }
}

/// The number that `text` stands for: it is made of digits, at least one.
pub open spec fn number_of(text: Seq<char>) -> Option<nat> {
    if text.len() > 0 && all_digits(text) {
        Some(value_of(text))
    } else {
        None
    }
}

/// The pieces of `text` between its plus signs, the first one first. A text
/// without a plus sign is one piece.
pub open spec fn terms(text: Seq<char>) -> Seq<Seq<char>>
    decreases text.len(),
{
    if text.len() == 0 {
        seq![Seq::empty()]
    } else {
        let before = terms(text.drop_last());
        if text.last() == '+' {
            before.push(Seq::empty())
        } else {
            before.update(before.len() - 1, before.last().push(text.last()))
        }
    }
}

/// The sum of the numbers that the `pieces` stand for, if each of them
/// stands for one.
pub open spec fn sum_of_terms(pieces: Seq<Seq<char>>) -> Option<nat>
    decreases pieces.len(),
{
    if pieces.len() == 0 {
        Some(0)
    } else {
        match (sum_of_terms(pieces.drop_last()), number_of(pieces.last())) {
            (Some(sum), Some(number)) => Some(sum + number),
            _ => None,
        }
    }
}

/// The score that `text` stands for: nothing stands for zero; otherwise
/// the text is a sum of numbers, written with plus signs between them, that
/// is no more than 255.
pub open spec fn input_score(text: Seq<char>) -> Option<u8> {
    if text.len() == 0 {
        Some(0u8)
    } else {
        match sum_of_terms(terms(text)) {
            Some(sum) => if sum <= u8::MAX {
                Some(sum as u8)
            } else {
                None
            },
            None => None,
        }
    }
}

spec fn capped(value: nat) -> nat {
    if value > 256 {
        256
    } else {
        value
    }
}

fn digit(c: char) -> (value: Option<u16>)
    ensures
        match value {
            Some(d) => digit_of(c) == Some(d as nat) && d <= 9,
            None => digit_of(c).is_none(),
        },
{
    match c {
        '0' => Some(0),
        '1' => Some(1),
        '2' => Some(2),
        '3' => Some(3),
        '4' => Some(4),
        '5' => Some(5),
        '6' => Some(6),
        '7' => Some(7),
        '8' => Some(8),
        '9' => Some(9),
        _ => None,
    }
}

/// Reads the score that a player typed: a sum such as `20+5+1`, a single
/// number, or nothing for zero.
pub fn parse_input_score(score: &str) -> (result: Result<u8, ()>)
    ensures
        match result {
            Ok(value) => input_score(score@) == Some(value),
            Err(_) => input_score(score@).is_none(),
        },
{
    let len = score.unicode_len();
    if len == 0 {
        return Ok(0);
    }
    let ghost text = score@;
    let mut valid = true;
    let mut has_digits = false;
    let mut done: u16 = 0;
    let mut term: u16 = 0;
    let mut i: usize = 0;
    proof {
        assert(text.take(0) =~= Seq::<char>::empty());
        assert(terms(text.take(0)).drop_last() =~= Seq::<Seq<char>>::empty());
    }
    while i < len
        invariant
            i <= len,
            len == text.len(),
            text == score@,
            terms(text.take(i as int)).len() >= 1,
            has_digits == (terms(text.take(i as int)).last().len() > 0),
            valid == (sum_of_terms(terms(text.take(i as int)).drop_last()).is_some() && all_digits(
                terms(text.take(i as int)).last(),
            )),
            valid ==> done == capped(sum_of_terms(terms(text.take(i as int)).drop_last()).unwrap()),
            valid ==> term == capped(value_of(terms(text.take(i as int)).last())),
            done <= 256,
            term <= 256,
        decreases len - i,
    {
        let ghost pieces = terms(text.take(i as int));
        let ghost next = terms(text.take(i + 1));
        proof {
            assert(text.take(i + 1).drop_last() =~= text.take(i as int));
            assert(text.take(i + 1).last() == text[i as int]);
        }
        let c = score.get_char(i);
        if c == '+' {
            proof {
                assert(next == pieces.push(Seq::empty()));
                assert(next.drop_last() =~= pieces);
                assert(next.last() =~= Seq::<char>::empty());
            }
            valid = valid && has_digits;
            done = if done + term > 256 {
                256
            } else {
                done + term
            };
            term = 0;
            has_digits = false;
        } else {
            proof {
                assert(digit_of('+').is_none());
                assert(next == pieces.update(pieces.len() - 1, pieces.last().push(c)));
                assert(next.drop_last() =~= pieces.drop_last());
                assert(next.last() == pieces.last().push(c));
                assert(next.last().drop_last() =~= pieces.last());
                if all_digits(next.last()) {
                    assert forall|k: int| 0 <= k < pieces.last().len() implies digit_of(
                        #[trigger] pieces.last()[k],
                    ).is_some() by {
                        assert(next.last()[k] == pieces.last()[k]);
                    }
                    assert(next.last()[pieces.last().len() as int] == c);
                }
            }
            match digit(c) {
                Some(d) => {
                    term = if term >= 26 || term * 10 + d > 256 {
                        256
                    } else {
                        term * 10 + d
                    };
                    proof {
                        if all_digits(pieces.last()) {
                            assert forall|k: int| 0 <= k < next.last().len() implies digit_of(
                                #[trigger] next.last()[k],
                            ).is_some() by {
                                if k < pieces.last().len() {
                                    assert(next.last()[k] == pieces.last()[k]);
                                }
                            }
                        }
                    }
                },
                None => {
                    valid = false;
                },
            }
            has_digits = true;
        }
        i = i + 1;
    }
    proof {
        assert(text.take(i as int) =~= text);
    }
    if valid && has_digits && done + term <= 255 {
        Ok((done + term) as u8)
    } else {
        Err(())
    }
}

/// The number that `text` stands for as a player enters it: digits, at
/// least one, after a plus sign or without one, that make a number of no
/// more than sixteen bits.
pub open spec fn entered_u16(text: Seq<char>) -> Option<u16> {
    let digits = if text.len() > 0 && text[0] == '+' {
        text.drop_first()
    } else {
        text
    };
    match number_of(digits) {
        Some(number) => if number <= u16::MAX {
            Some(number as u16)
        } else {
            None
        },
        None => None,
    }
}

/// Digits stay digits, and their value grows tenfold, when one more digit
/// follows them.
proof fn lemma_one_more_digit(text: Seq<char>, n: int)
    requires
        0 <= n < text.len(),
    ensures
        all_digits(text.take(n + 1)) == (all_digits(text.take(n)) && digit_of(text[n]).is_some()),
        value_of(text.take(n + 1)) == 10 * value_of(text.take(n)) + digit_of(text[n]).unwrap_or(0),
{
    let longer = text.take(n + 1);
    assert(longer.drop_last() =~= text.take(n));
    assert(longer.last() == text[n]);
    if all_digits(longer) {
        assert forall|k: int| 0 <= k < n implies digit_of(#[trigger] text.take(n)[k]).is_some() by {
            assert(longer[k] == text.take(n)[k]);
        }
        assert(longer[n] == text[n]);
    }
    if all_digits(text.take(n)) && digit_of(text[n]).is_some() {
        assert forall|k: int| 0 <= k < n + 1 implies digit_of(#[trigger] longer[k]).is_some() by {
            if k < n {
                assert(longer[k] == text.take(n)[k]);
            }
        }
    }
}

/// Reads the number that a player entered.
pub fn parse_u16(text: &str) -> (number: Option<u16>)
    ensures
        number == entered_u16(text@),
{
    let len = text.unicode_len();
    if len == 0 {
        return None;
    }
    let signed = text.get_char(0) == '+';
    let from: usize = if signed {
        1
    } else {
        0
    };
    let ghost digits = if signed {
        text@.drop_first()
    } else {
        text@
    };
    if from == len {
        return None;
    }
    let mut value: u32 = 0;
    let mut valid = true;
    let mut i: usize = from;
    proof {
        assert(digits.take(0) =~= Seq::<char>::empty());
    }
    while i < len
        invariant
            from <= i <= len,
            len == text@.len(),
            digits.len() == len - from,
            forall|k: int| 0 <= k < digits.len() ==> digits[k] == text@[k + from],
            valid == all_digits(digits.take(i - from)),
            valid ==> value == if value_of(digits.take(i - from)) > 65536 {
                65536
            } else {
                value_of(digits.take(i - from))
            },
            value <= 65536,
        decreases len - i,
    {
        proof {
            lemma_one_more_digit(digits, i - from);
        }
        match digit(text.get_char(i)) {
            Some(d) => {
                value = if value * 10 + d as u32 > 65536 {
                    65536
                } else {
                    value * 10 + d as u32
                };
            },
            None => {
                valid = false;
            },
        }
        i = i + 1;
    }
    proof {
        assert(digits.take(len - from) =~= digits);
    }
    if valid && value <= 65535 {
        Some(value as u16)
    } else {
        None
    }
}

/// Whether `c` is white space: one of the characters that Unicode gives
/// the property `White_Space`.
pub open spec fn is_white_space(c: char) -> bool {
    let code = c as u32;
    ||| 0x9 <= code <= 0xd
    ||| code == 0x20
    ||| code == 0x85
    ||| code == 0xa0
    ||| code == 0x1680
    ||| 0x2000 <= code <= 0x200a
    ||| code == 0x2028
    ||| code == 0x2029
    ||| code == 0x202f
    ||| code == 0x205f
    ||| code == 0x3000
}

/// The text without the white space at its ends.
pub open spec fn trimmed(text: Seq<char>) -> Seq<char>
    decreases text.len(),
{
    if text.len() > 0 && is_white_space(text.first()) {
        trimmed(text.drop_first())
    } else if text.len() > 0 && is_white_space(text.last()) {
        trimmed(text.drop_last())
    } else {
        text
    }
}

/// Where the text is white space before `from` and from `to` on, and has
/// none at either end of what lies between, that is what is left of it.
proof fn lemma_trimmed(text: Seq<char>, from: int, to: int)
    requires
        0 <= from <= to <= text.len(),
        forall|i: int| 0 <= i < from ==> is_white_space(#[trigger] text[i]),
        forall|i: int| to <= i < text.len() ==> is_white_space(#[trigger] text[i]),
        from < to ==> !is_white_space(text[from]) && !is_white_space(text[to - 1]),
    ensures
        trimmed(text) == text.subrange(from, to),
    decreases text.len(),
{
    if from > 0 {
        let rest = text.drop_first();
        assert forall|i: int| 0 <= i < from - 1 implies is_white_space(#[trigger] rest[i]) by {
            assert(rest[i] == text[i + 1]);
        }
        assert forall|i: int| to - 1 <= i < rest.len() implies is_white_space(
            #[trigger] rest[i],
        ) by {
            assert(rest[i] == text[i + 1]);
        }
        lemma_trimmed(rest, from - 1, to - 1);
        assert(rest.subrange(from - 1, to - 1) =~= text.subrange(from, to));
    } else if to < text.len() {
        let rest = text.drop_last();
        assert(is_white_space(text[text.len() - 1]));
        if to > 0 {
            assert(!is_white_space(text[0]));
        } else {
            if text.len() > 0 && is_white_space(text.first()) {
                let tail = text.drop_first();
                assert forall|i: int| 0 <= i < tail.len() implies is_white_space(
                    #[trigger] tail[i],
                ) by {
                    assert(tail[i] == text[i + 1]);
                }
                lemma_trimmed(tail, tail.len() as int, tail.len() as int);
                assert(tail.subrange(tail.len() as int, tail.len() as int) =~= text.subrange(0, 0));
            }
        }
        if !(text.len() > 0 && is_white_space(text.first())) {
            assert forall|i: int| to <= i < rest.len() implies is_white_space(
                #[trigger] rest[i],
            ) by {
                assert(rest[i] == text[i]);
            }
            lemma_trimmed(rest, from, to);
            assert(rest.subrange(from, to) =~= text.subrange(from, to));
        }
    } else {
        assert(text.subrange(0, text.len() as int) =~= text);
    }
}

/// Whether `c` is white space.
fn white_space(c: char) -> (white: bool)
    ensures
        white == is_white_space(c),
{
    let code = c as u32;
    (0x9 <= code && code <= 0xd) || code == 0x20 || code == 0x85 || code == 0xa0 || code == 0x1680
        || (0x2000 <= code && code <= 0x200a) || code == 0x2028 || code == 0x2029 || code
        == 0x202f || code == 0x205f || code == 0x3000
}

/// The text without the white space at its ends.
pub fn trim(text: &str) -> (inner: &str)
    ensures
        inner@ == trimmed(text@),
{
    let len = text.unicode_len();
    let mut from: usize = 0;
    while from < len && white_space(text.get_char(from))
        invariant
            from <= len,
            len == text@.len(),
            forall|i: int| 0 <= i < from ==> is_white_space(#[trigger] text@[i]),
        decreases len - from,
    {
        from = from + 1;
    }
    let mut to: usize = len;
    while to > from && white_space(text.get_char(to - 1))
        invariant
            from <= to <= len,
            len == text@.len(),
            forall|i: int| to <= i < len ==> is_white_space(#[trigger] text@[i]),
        decreases to,
    {
        to = to - 1;
    }
    proof {
        lemma_trimmed(text@, from as int, to as int);
    }
    text.substring_char(from, to)
}

/// The score that an entry stands for: the entry was read as a number, and
/// a turn can bring that many points.
pub fn score_from_entry(entry: Option<u16>) -> (result: Result<Score, Error>)
    ensures
        match result {
            Ok(score) => entry matches Some(points) && points <= POINTS_LIMIT && score@ == points,
            Err(e) => match entry {
                None => e.says(
                    ErrorKind::InvalidArgument,
                    "Ensure to enter a score between 0 and 180"@,
                ),
                Some(points) => points > POINTS_LIMIT && e.says(
                    ErrorKind::InvalidArgument,
                    over_limit(points as nat),
                ),
            },
        },
{
    match entry {
        None => Err(Error::invalid_argument("Ensure to enter a score between 0 and 180")),
        Some(points) => Score::new(points),
    }
}

/// The score that a line of input stands for: the line is trimmed, read as
/// a number by [`parse_u16`] and made a score by [`score_from_entry`].
pub fn score_from_line(line: &str) -> (result: Result<Score, Error>)
    ensures
        match result {
            Ok(score) => entered_u16(trimmed(line@)) matches Some(points) && points
                <= POINTS_LIMIT && score@ == points,
            Err(e) => match entered_u16(trimmed(line@)) {
                None => e.says(
                    ErrorKind::InvalidArgument,
                    "Ensure to enter a score between 0 and 180"@,
                ),
                Some(points) => points > POINTS_LIMIT && e.says(
                    ErrorKind::InvalidArgument,
                    over_limit(points as nat),
                ),
            },
        },
{
    score_from_entry(parse_u16(trim(line)))
}

} // verus!
