//! The console of the timer registrar. A line of the form
//! `name repetitions interval` asks for a timer: a name, how often it is to
//! run, and the time between its runs in milliseconds.

use vstd::prelude::*;
use vstd::string::StrSliceExecFns;

verus! {

/// What a line of the console asks for.
#[derive(Debug, Clone, PartialEq, Eq)]
pub struct TimerRequest {
    pub name: String,
    pub repetitions: isize,
    pub interval: i64,
}

/// Why a line of the console asks for nothing.
#[derive(Debug, Clone, Copy, PartialEq, Eq, Structural)]
pub enum RequestError {
    /// The line has fewer than three words.
    MissingField,
    /// The second or the third word is no number of its type.
    InvalidNumber,
}

/// The characters that separate words: those with the Unicode property
/// White_Space.
pub open spec fn is_whitespace(c: char) -> bool {
    let code = c as u32;
    ||| 0x09 <= code <= 0x0D
    ||| code == 0x20
    ||| code == 0x85
    ||| code == 0xA0
    ||| code == 0x1680
    ||| 0x2000 <= code <= 0x200A
    ||| code == 0x2028
    ||| code == 0x2029
    ||| code == 0x202F
    ||| code == 0x205F
    ||| code == 0x3000
}

/// The place of the first character from `from` on that is no whitespace;
/// the length of the line where there is none.
pub open spec fn word_start(line: Seq<char>, from: int) -> int
    decreases line.len() - from,
{
    if 0 <= from < line.len() && is_whitespace(line[from]) {
        word_start(line, from + 1)
    } else {
        from
    }
}

/// The place of the first whitespace from `from` on; the length of the line
/// where there is none.
pub open spec fn word_end(line: Seq<char>, from: int) -> int
    decreases line.len() - from,
{
    if 0 <= from < line.len() && !is_whitespace(line[from]) {
        word_end(line, from + 1)
    } else {
        from
    }
}

/// The words of a line from `from` on: the longest runs of characters that
/// are no whitespace.
pub open spec fn words_from(line: Seq<char>, from: int) -> Seq<Seq<char>>
    decreases line.len() - from,
{
    let start = word_start(line, from);
    let end = word_end(line, start);
    if 0 <= from <= start < end <= line.len() {
        seq![line.subrange(start, end)] + words_from(line, end)
    } else {
        Seq::empty()
    }
}

/// The words of a line.
pub open spec fn words(line: Seq<char>) -> Seq<Seq<char>> {
    words_from(line, 0)
}

/// Whether `c` is one of the digits 0 to 9.
pub open spec fn is_digit(c: char) -> bool {
    0x30 <= c as u32 <= 0x39
}

/// The number that a sequence of digits spells in decimal.
pub open spec fn digits_value(digits: Seq<char>) -> int
    decreases digits.len(),
{
    if digits.len() == 0 {
        0
    } else {
        10 * digits_value(digits.drop_last()) + (digits.last() as u32 - 0x30)
    }
}

/// Whether `text` is one digit or more.
pub open spec fn is_digits(text: Seq<char>) -> bool {
    text.len() > 0 && forall|i: int| 0 <= i < text.len() ==> is_digit(#[trigger] text[i])
}

/// The number that `text` spells: digits, with a sign `+` or `-` before
/// them or none. `None` where `text` spells no number.
pub open spec fn number(text: Seq<char>) -> Option<int> {
    if text.len() > 0 && text[0] == '-' {
        if is_digits(text.skip(1)) {
            Some(-digits_value(text.skip(1)))
        } else {
            None
        }
    } else if text.len() > 0 && text[0] == '+' {
        if is_digits(text.skip(1)) {
            Some(digits_value(text.skip(1)))
        } else {
            None
        }
    } else if is_digits(text) {
        Some(digits_value(text))
    } else {
        None
    }
}

/// The number that `text` spells, where it is one of 64 bits.
pub open spec fn number_i64(text: Seq<char>) -> Option<i64> {
    match number(text) {
        Some(value) if i64::MIN <= value <= i64::MAX => Some(value as i64),
        _ => None,
    }
}

/// The number that `text` spells, where it is one of the width of a pointer.
pub open spec fn number_isize(text: Seq<char>) -> Option<isize> {
    match number(text) {
        Some(value) if isize::MIN <= value <= isize::MAX => Some(value as isize),
        _ => None,
    }
}

/// What a line asks for. The first three words count: the name, the
/// repetitions and the interval; what follows them is not read. The error is
/// that of the first word that is missing or no number.
pub open spec fn timer_request(line: Seq<char>) -> Result<(Seq<char>, isize, i64), RequestError> {
    let fields = words(line);
    if fields.len() < 2 {
        Err(RequestError::MissingField)
    } else if number_isize(fields[1]) is None {
        Err(RequestError::InvalidNumber)
    } else if fields.len() < 3 {
        Err(RequestError::MissingField)
    } else if number_i64(fields[2]) is None {
        Err(RequestError::InvalidNumber)
    } else {
        Ok((fields[0], number_isize(fields[1])->0, number_i64(fields[2])->0))
    }
}

/// Tells whether `c` separates words.
fn separates(c: char) -> (r: bool)
    ensures
        r == is_whitespace(c),
{
    let code = c as u32;
    (0x09 <= code && code <= 0x0D) || code == 0x20 || code == 0x85 || code == 0xA0 || code
        == 0x1680 || (0x2000 <= code && code <= 0x200A) || code == 0x2028 || code == 0x2029
        || code == 0x202F || code == 0x205F || code == 0x3000
}

/// Finds the next word from `from` on: where it starts and where it ends.
/// Where there is none, both are the length of the line.
fn next_word(line: &str, length: usize, from: usize) -> (word: (usize, usize))
    requires
        length == line@.len(),
        from <= length,
    ensures
        word.0 == word_start(line@, from as int),
        word.1 == word_end(line@, word.0 as int),
        from <= word.0 <= word.1 <= length,
{
    let mut start = from;
    while start < length && separates(line.get_char(start))
        invariant
            length == line@.len(),
            from <= start <= length,
            word_start(line@, from as int) == word_start(line@, start as int),
        decreases length - start,
    {
        start += 1;
    }
    let mut end = start;
    while end < length && !separates(line.get_char(end))
        invariant
            length == line@.len(),
            start <= end <= length,
            word_end(line@, start as int) == word_end(line@, end as int),
        decreases length - end,
    {
        end += 1;
    }
    (start, end)
}

/// A prefix of digits spells no more than the whole.
proof fn lemma_digits_value_grows(digits: Seq<char>, k: int)
    requires
        0 <= k <= digits.len(),
        forall|i: int| 0 <= i < digits.len() ==> is_digit(#[trigger] digits[i]),
    ensures
        0 <= digits_value(digits.take(k)) <= digits_value(digits),
    decreases digits.len() - k,
{
    if k == digits.len() {
        assert(digits.take(k) =~= digits);
        lemma_digits_value_grows_from_zero(digits);
    } else {
        lemma_digits_value_grows(digits, k + 1);
        assert(digits.take(k + 1).drop_last() =~= digits.take(k));
        lemma_digits_value_grows_from_zero(digits.take(k));
    }
}

/// Digits spell no negative number.
proof fn lemma_digits_value_grows_from_zero(digits: Seq<char>)
    requires
        forall|i: int| 0 <= i < digits.len() ==> is_digit(#[trigger] digits[i]),
    ensures
        0 <= digits_value(digits),
    decreases digits.len(),
{
    if digits.len() > 0 {
        lemma_digits_value_grows_from_zero(digits.drop_last());
    }
}

/// Reads the digits of `line` from `start` to `end` as a number of at most
/// `limit`.
fn parse_digits(line: &str, start: usize, end: usize, limit: i128) -> (r: Option<i128>)
    requires
        start <= end <= line@.len(),
        0 <= limit <= 0x8000_0000_0000_0000,
    ensures
        r matches Some(value) ==> is_digits(line@.subrange(start as int, end as int)) && value
            == digits_value(line@.subrange(start as int, end as int)) && 0 <= value <= limit,
        r is None ==> !is_digits(line@.subrange(start as int, end as int)) || digits_value(
            line@.subrange(start as int, end as int),
        ) > limit,
{
    let ghost digits = line@.subrange(start as int, end as int);
    if start == end {
        return None;
    }
    let mut value: i128 = 0;
    let mut i: usize = start;
    assert(digits.take(0) =~= Seq::<char>::empty());
    while i < end
        invariant
            start <= i <= end <= line@.len(),
            0 <= limit <= 0x8000_0000_0000_0000,
            digits == line@.subrange(start as int, end as int),
            forall|j: int| 0 <= j < i - start ==> is_digit(#[trigger] digits[j]),
            value == digits_value(digits.take(i - start)),
            0 <= value <= limit,
        decreases end - i,
    {
        let code = line.get_char(i) as u32;
        assert(digits[i - start] == line@[i as int]);
        if code < 0x30 || code > 0x39 {
            return None;
        }
        proof {
            assert(digits.take(i - start + 1).drop_last() =~= digits.take(i - start));
        }
        let next = value * 10 + (code - 0x30) as i128;
        if next > limit {
            proof {
                if is_digits(digits) {
                    lemma_digits_value_grows(digits, i - start + 1);
                }
            }
            return None;
        }
        value = next;
        i += 1;
    }
    assert(digits.take(end - start) =~= digits);
    Some(value)
}

/// Reads the word of `line` from `start` to `end` as a number of 64 bits.
fn parse_i64(line: &str, start: usize, end: usize) -> (r: Option<i64>)
    requires
        start <= end <= line@.len(),
    ensures
        r == number_i64(line@.subrange(start as int, end as int)),
{
    let ghost text = line@.subrange(start as int, end as int);
    if start == end {
        return None;
    }
    let first = line.get_char(start);
    assert(text[0] == first);
    if first == '-' {
        assert(text.skip(1) =~= line@.subrange(start + 1, end as int));
        match parse_digits(line, start + 1, end, 0x8000_0000_0000_0000) {
            Some(value) => Some((-value) as i64),
            None => None,
        }
    } else if first == '+' {
        assert(text.skip(1) =~= line@.subrange(start + 1, end as int));
        match parse_digits(line, start + 1, end, 0x7FFF_FFFF_FFFF_FFFF) {
            Some(value) => Some(value as i64),
            None => None,
        }
    } else {
        match parse_digits(line, start, end, 0x7FFF_FFFF_FFFF_FFFF) {
            Some(value) => Some(value as i64),
            None => None,
        }
    }
}

/// Reads the word of `line` from `start` to `end` as a number of the width
/// of a pointer.
fn parse_isize(line: &str, start: usize, end: usize) -> (r: Option<isize>)
    requires
        start <= end <= line@.len(),
    ensures
        r == number_isize(line@.subrange(start as int, end as int)),
{
    match parse_i64(line, start, end) {
        Some(value) => {
            if isize::MIN as i64 <= value && value <= isize::MAX as i64 {
                Some(value as isize)
            } else {
                None
            }
        },
        None => None,
    }
}

/// Reads what a line of the console asks for.
pub fn parse_timer_request(line: &str) -> (r: Result<TimerRequest, RequestError>)
    ensures
        match r {
            Ok(request) => timer_request(line@) == Ok::<(Seq<char>, isize, i64), RequestError>(
                (request.name@, request.repetitions, request.interval),
            ),
            Err(error) => timer_request(line@) == Err::<(Seq<char>, isize, i64), RequestError>(
                error,
            ),
        },
{
    let length = line.unicode_len();
    let (name_start, name_end) = next_word(line, length, 0);
    let (repetitions_start, repetitions_end) = next_word(line, length, name_end);
    let (interval_start, interval_end) = next_word(line, length, repetitions_end);
    proof {
        let fields = words(line@);
        let after_name = words_from(line@, name_end as int);
        let after_repetitions = words_from(line@, repetitions_end as int);
        lemma_words(line@, 0);
        lemma_words(line@, name_end as int);
        lemma_words(line@, repetitions_end as int);
        if name_start < name_end {
            assert(fields.len() == 1 + after_name.len());
            if repetitions_start < repetitions_end {
                assert(after_name.len() == 1 + after_repetitions.len());
                assert(fields[1] == after_name[0]);
                if interval_start < interval_end {
                    assert(after_repetitions.len() >= 1);
                    assert(fields[2] == after_name[1]);
                    assert(after_name[1] == after_repetitions[0]);
                }
            }
        } else {
            assert(name_end == length);
            assert(repetitions_start == repetitions_end);
        }
    }
    if repetitions_start == repetitions_end {
        return Err(RequestError::MissingField);
    }
    let repetitions = match parse_isize(line, repetitions_start, repetitions_end) {
        Some(repetitions) => repetitions,
        None => {
            return Err(RequestError::InvalidNumber);
        },
    };
    if interval_start == interval_end {
        return Err(RequestError::MissingField);
    }
    let interval = match parse_i64(line, interval_start, interval_end) {
        Some(interval) => interval,
        None => {
            return Err(RequestError::InvalidNumber);
        },
    };
    let name = line.substring_char(name_start, name_end).to_owned();
    Ok(TimerRequest { name, repetitions, interval })
}

/// The words from `from` on, by the first of them.
proof fn lemma_words(line: Seq<char>, from: int)
    requires
        0 <= from <= line.len(),
    ensures
        from <= word_start(line, from) <= word_end(line, word_start(line, from)) <= line.len(),
        word_start(line, from) == word_end(line, word_start(line, from)) ==> words_from(
            line,
            from,
        ).len() == 0 && word_start(line, from) == line.len(),
        word_start(line, from) < word_end(line, word_start(line, from)) ==> {
            &&& words_from(line, from).len() == 1 + words_from(
                line,
                word_end(line, word_start(line, from)),
            ).len()
            &&& words_from(line, from)[0] == line.subrange(
                word_start(line, from),
                word_end(line, word_start(line, from)),
            )
            &&& forall|i: int|
                1 <= i < words_from(line, from).len() ==> #[trigger] words_from(line, from)[i]
                    == words_from(line, word_end(line, word_start(line, from)))[i - 1]
        },
{
    lemma_word_bounds(line, from);
}

/// A word starts at or after the place it is looked for from, and ends at or
/// after its start, within the line. It starts with a character that is no
/// whitespace, unless the line ends first.
proof fn lemma_word_bounds(line: Seq<char>, from: int)
    requires
        0 <= from <= line.len(),
    ensures
        from <= word_start(line, from) <= line.len(),
        from <= word_end(line, from) <= line.len(),
        word_start(line, from) <= word_end(line, word_start(line, from)) <= line.len(),
        word_start(line, from) < line.len() ==> !is_whitespace(line[word_start(line, from)]),
        word_start(line, from) < line.len() ==> word_start(line, from) < word_end(
            line,
            word_start(line, from),
        ),
    decreases line.len() - from,
{
    if from < line.len() {
        lemma_word_bounds(line, from + 1);
    }
    let start = word_start(line, from);
    if from < start < line.len() {
        lemma_word_bounds(line, start);
    }
}

} // verus!
