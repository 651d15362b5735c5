//! The text of one tile placement: `i:<x>,<y>+<w>,<h>><x>,<y>`.

use crate::geometry::TilePlacement;
use vstd::prelude::*;

verus! {

/// The six numbers of a placement, in the order in which they are read.
#[derive(Clone, Copy, Debug, PartialEq, Eq, Structural)]
pub enum CoordField {
    SourceX,
    SourceY,
    Width,
    Height,
    DestX,
    DestY,
}

/// Why the text of a placement was refused.
#[derive(Clone, Copy, Debug, PartialEq, Eq, Structural)]
pub enum EntryError {
    /// The entry is not a string.
    NotText,
    /// The text does not start with `i:`.
    MissingPrefix,
    /// No `>` sets the destination apart.
    MissingDestination,
    /// No `+` sets the size apart from the source position.
    MissingSize,
    /// A pair of numbers lacks its second member.
    MissingComponent(CoordField),
    /// The text of a number is not an unsigned decimal number of 32 bits.
    InvalidNumber(CoordField),
}

/// Whether `c` is one of `0` to `9`.
pub open spec fn is_digit(c: char) -> bool {
    '0' <= c && c <= '9'
}

/// The number that a decimal digit stands for.
pub open spec fn digit_value(c: char) -> nat {
    (c as int - '0' as int) as nat
}

/// Whether every character of `text` is a decimal digit.
pub open spec fn all_digits(text: Seq<char>) -> bool {
    forall|i: int| 0 <= i < text.len() ==> is_digit(#[trigger] text[i])
}

/// The value of a string of decimal digits, the most significant first.
pub open spec fn decimal(digits: Seq<char>) -> nat
    decreases digits.len(),
{
    if digits.len() == 0 {
        0
    } else {
        10 * decimal(digits.drop_last()) + digit_value(digits.last())
    }
}

/// The digits of a number's text: the text without one leading `+`.
pub open spec fn unsigned_part(token: Seq<char>) -> Seq<char> {
    if token.len() > 0 && token[0] == '+' {
        token.skip(1)
    } else {
        token
    }
}

/// The number that `token` denotes: at least one decimal digit, after an
/// optional `+`, with a value of at most `u32::MAX`.
pub open spec fn number_of(token: Seq<char>) -> Option<u32> {
    let digits = unsigned_part(token);
    if digits.len() > 0 && all_digits(digits) && decimal(digits) <= u32::MAX {
        Some(decimal(digits) as u32)
    } else {
        None
    }
}

/// Whether `at` is the position of the first `mark` in `text`.
pub open spec fn is_first(text: Seq<char>, mark: char, at: int) -> bool {
    &&& 0 <= at < text.len()
    &&& text[at] == mark
    &&& forall|j: int| 0 <= j < at ==> text[j] != mark
}

/// The position of the first `mark` in `text`, where there is one.
pub open spec fn first_index(text: Seq<char>, mark: char) -> Option<int> {
    if exists|at: int| is_first(text, mark, at) {
        Some(choose|at: int| is_first(text, mark, at))
    } else {
        None
    }
}

/// The text before the first `mark`; all of it where there is none.
pub open spec fn before_mark(text: Seq<char>, mark: char) -> Seq<char> {
    match first_index(text, mark) {
        Some(at) => text.take(at),
        None => text,
    }
}

/// The text behind the first `mark`, where there is one.
pub open spec fn after_mark(text: Seq<char>, mark: char) -> Option<Seq<char>> {
    match first_index(text, mark) {
        Some(at) => Some(text.skip(at + 1)),
        None => None,
    }
}

/// The two numbers that stand at the head of `text`, set apart by a comma.
/// The first is read before the second is looked for; what follows a second
/// comma is not read.
pub open spec fn pair_of(text: Seq<char>, first: CoordField, second: CoordField) -> Result<
    (u32, u32),
    EntryError,
> {
    match number_of(before_mark(text, ',')) {
        None => Err(EntryError::InvalidNumber(first)),
        Some(a) => match after_mark(text, ',') {
            None => Err(EntryError::MissingComponent(second)),
            Some(rest) => match number_of(before_mark(rest, ',')) {
                None => Err(EntryError::InvalidNumber(second)),
                Some(b) => Ok((a, b)),
            },
        },
    }
}

/// Whether `entry` starts with `i:`.
pub open spec fn has_prefix(entry: Seq<char>) -> bool {
    entry.len() >= 2 && entry[0] == 'i' && entry[1] == ':'
}

/// The placement that `entry` denotes, or the first reason to refuse it.
pub open spec fn placement_of(entry: Seq<char>) -> Result<TilePlacement, EntryError> {
    if !has_prefix(entry) {
        Err(EntryError::MissingPrefix)
    } else {
        let body = entry.skip(2);
        match after_mark(body, '>') {
            None => Err(EntryError::MissingDestination),
            Some(dest) => {
                let tile = before_mark(body, '>');
                match after_mark(tile, '+') {
                    None => Err(EntryError::MissingSize),
                    Some(size) => match pair_of(
                        before_mark(tile, '+'),
                        CoordField::SourceX,
                        CoordField::SourceY,
                    ) {
                        Err(e) => Err(e),
                        Ok(corner) => match pair_of(size, CoordField::Width, CoordField::Height) {
                            Err(e) => Err(e),
                            Ok(extent) => match pair_of(dest, CoordField::DestX, CoordField::DestY) {
                                Err(e) => Err(e),
                                Ok(target) => Ok(
                                    TilePlacement {
                                        source_x: corner.0,
                                        source_y: corner.1,
                                        width: extent.0,
                                        height: extent.1,
                                        dest_x: target.0,
                                        dest_y: target.1,
                                    },
                                ),
                            },
                        },
                    },
                }
            },
        }
    }
}

/// The characters of `text`, in order.
pub fn chars_of(text: &str) -> (chars: Vec<char>)
    ensures
        chars@ == text@,
{
    let mut chars: Vec<char> = Vec::new();
    for c in it: text.chars()
        invariant
            chars@ == it.seq().take(it.index() as int),
            it.seq() == text@,
    {
        chars.push(c);
    }
    chars
}

/// Looks for the first `mark` in `text[from..to]`.
fn find(text: &Vec<char>, from: usize, to: usize, mark: char) -> (found: Option<usize>)
    requires
        from <= to <= text.len(),
    ensures
        match found {
            Some(at) => from <= at < to && first_index(
                text@.subrange(from as int, to as int),
                mark,
            ) == Some(at - from),
            None => first_index(text@.subrange(from as int, to as int), mark) is None,
        },
{
    let ghost part = text@.subrange(from as int, to as int);
    let mut i: usize = from;
    while i < to
        invariant
            from <= i <= to <= text.len(),
            part == text@.subrange(from as int, to as int),
            forall|j: int| 0 <= j < i - from ==> part[j] != mark,
        decreases to - i,
    {
        if text[i] == mark {
            assert(is_first(part, mark, i - from));
            return Some(i);
        }
        i = i + 1;
    }
    None
}

/// Reads the number that `text[from..to]` denotes.
fn parse_number(text: &Vec<char>, from: usize, to: usize) -> (number: Option<u32>)
    requires
        from <= to <= text.len(),
    ensures
        number == number_of(text@.subrange(from as int, to as int)),
{
    let ghost token = text@.subrange(from as int, to as int);
    let start: usize = if from < to && text[from] == '+' {
        from + 1
    } else {
        from
    };
    let ghost digits = text@.subrange(start as int, to as int);
    assert(digits =~= unsigned_part(token));
    if start == to {
        return None;
    }
    let mut value: u64 = 0;
    let mut i: usize = start;
    while i < to
        invariant
            from <= start <= i <= to <= text.len(),
            digits == text@.subrange(start as int, to as int),
            digits == unsigned_part(text@.subrange(from as int, to as int)),
            all_digits(digits.take(i - start)),
            value == decimal(digits.take(i - start)),
            value <= u32::MAX,
        decreases to - i,
    {
        let c = text[i];
        let ghost seen = digits.take(i - start + 1);
        assert(seen.drop_last() =~= digits.take(i - start));
        assert(seen.last() == c);
        if c < '0' || c > '9' {
            assert(!is_digit(digits[i - start]));
            return None;
        }
        let digit: u64 = c as u64 - '0' as u64;
        value = 10 * value + digit;
        assert(value == decimal(seen));
        if value > u32::MAX as u64 {
            proof {
                lemma_decimal_grows(digits, i - start + 1);
            }
            return None;
        }
        assert forall|k: int| 0 <= k < seen.len() implies is_digit(#[trigger] seen[k]) by {
            if k < seen.len() - 1 {
                assert(seen[k] == digits.take(i - start)[k]);
            }
        }
        i = i + 1;
    }
    assert(digits.take(to - start) =~= digits);
    Some(value as u32)
}

/// Reads the pair of numbers at the head of `text[from..to]`.
fn parse_pair(
    text: &Vec<char>,
    from: usize,
    to: usize,
    first: CoordField,
    second: CoordField,
) -> (pair: Result<(u32, u32), EntryError>)
    requires
        from <= to <= text.len(),
    ensures
        pair == pair_of(text@.subrange(from as int, to as int), first, second),
{
    let ghost part = text@.subrange(from as int, to as int);
    let comma = find(text, from, to, ',');
    let first_end: usize = match comma {
        Some(at) => at,
        None => to,
    };
    assert(text@.subrange(from as int, first_end as int) =~= before_mark(part, ','));
    let a = match parse_number(text, from, first_end) {
        Some(a) => a,
        None => { return Err(EntryError::InvalidNumber(first)); },
    };
    let rest_from: usize = match comma {
        Some(at) => at + 1,
        None => { return Err(EntryError::MissingComponent(second)); },
    };
    let ghost rest = text@.subrange(rest_from as int, to as int);
    assert(rest =~= after_mark(part, ',')->0);
    let second_end: usize = match find(text, rest_from, to, ',') {
        Some(at) => at,
        None => to,
    };
    assert(text@.subrange(rest_from as int, second_end as int) =~= before_mark(rest, ','));
    match parse_number(text, rest_from, second_end) {
        Some(b) => Ok((a, b)),
        None => Err(EntryError::InvalidNumber(second)),
    }
}

/// Reads one placement from its text.
///
/// The text is refused with [`EntryError::MissingPrefix`] where it does not
/// start with `i:`, with [`EntryError::MissingDestination`] where no `>`
/// follows, and with [`EntryError::MissingSize`] where no `+` stands before
/// that `>`; then the six numbers are read in order, and the first that is
/// absent or is no number names the error.
pub fn parse_placement(entry: &str) -> (placement: Result<TilePlacement, EntryError>)
    ensures
        placement == placement_of(entry@),
        !has_prefix(entry@) ==> placement == Err::<TilePlacement, EntryError>(
            EntryError::MissingPrefix,
        ),
        has_prefix(entry@) && !entry@.skip(2).contains('>') ==> placement == Err::<
            TilePlacement,
            EntryError,
        >(EntryError::MissingDestination),
        has_prefix(entry@) && entry@.skip(2).contains('>') && !before_mark(
            entry@.skip(2),
            '>',
        ).contains('+') ==> placement == Err::<TilePlacement, EntryError>(
            EntryError::MissingSize,
        ),
{
    let text = chars_of(entry);
    let end = text.len();
    proof {
        lemma_missing_mark_is_refused(entry@);
    }
    if end < 2 || text[0] != 'i' || text[1] != ':' {
        return Err(EntryError::MissingPrefix);
    }
    let ghost body = entry@.skip(2);
    assert(body =~= text@.subrange(2, end as int));
    let arrow = match find(&text, 2, end, '>') {
        Some(at) => at,
        None => { return Err(EntryError::MissingDestination); },
    };
    let ghost tile = before_mark(body, '>');
    assert(tile =~= text@.subrange(2, arrow as int));
    assert(after_mark(body, '>')->0 =~= text@.subrange(arrow + 1, end as int));
    let plus = match find(&text, 2, arrow, '+') {
        Some(at) => at,
        None => { return Err(EntryError::MissingSize); },
    };
    assert(before_mark(tile, '+') =~= text@.subrange(2, plus as int));
    assert(after_mark(tile, '+')->0 =~= text@.subrange(plus + 1, arrow as int));
    let corner = match parse_pair(&text, 2, plus, CoordField::SourceX, CoordField::SourceY) {
        Ok(pair) => pair,
        Err(e) => { return Err(e); },
    };
    let extent = match parse_pair(&text, plus + 1, arrow, CoordField::Width, CoordField::Height) {
        Ok(pair) => pair,
        Err(e) => { return Err(e); },
    };
    let target = match parse_pair(&text, arrow + 1, end, CoordField::DestX, CoordField::DestY) {
        Ok(pair) => pair,
        Err(e) => { return Err(e); },
    };
    Ok(
        TilePlacement {
            source_x: corner.0,
            source_y: corner.1,
            width: extent.0,
            height: extent.1,
            dest_x: target.0,
            dest_y: target.1,
        },
    )
}

/// A mark has a first position in a text exactly where the text holds it.
pub proof fn lemma_first_index_contains(text: Seq<char>, mark: char)
    ensures
        first_index(text, mark) is Some <==> text.contains(mark),
        first_index(text, mark) matches Some(at) ==> is_first(text, mark, at),
{
    if text.contains(mark) {
        let k = choose|k: int| 0 <= k < text.len() && text[k] == mark;
        lemma_has_first(text, mark, k);
    }
}

/// Below any position of `mark` lies its first position.
proof fn lemma_has_first(text: Seq<char>, mark: char, k: int)
    requires
        0 <= k < text.len(),
        text[k] == mark,
    ensures
        exists|at: int| is_first(text, mark, at),
    decreases k,
{
    if forall|j: int| 0 <= j < k ==> text[j] != mark {
        assert(is_first(text, mark, k));
    } else {
        let j = choose|j: int| 0 <= j < k && text[j] == mark;
        lemma_has_first(text, mark, j);
    }
}

/// Strictness: a text without its `i:`, without a `>` behind it, or without
/// a `+` before that `>` is refused, each with an error of its own.
pub proof fn lemma_missing_mark_is_refused(entry: Seq<char>)
    ensures
        !has_prefix(entry) ==> placement_of(entry) == Err::<TilePlacement, EntryError>(
            EntryError::MissingPrefix,
        ),
        has_prefix(entry) && !entry.skip(2).contains('>') ==> placement_of(entry) == Err::<
            TilePlacement,
            EntryError,
        >(EntryError::MissingDestination),
        has_prefix(entry) && entry.skip(2).contains('>') && !before_mark(
            entry.skip(2),
            '>',
        ).contains('+') ==> placement_of(entry) == Err::<TilePlacement, EntryError>(
            EntryError::MissingSize,
        ),
{
    lemma_first_index_contains(entry.skip(2), '>');
    lemma_first_index_contains(before_mark(entry.skip(2), '>'), '+');
}

/// A decimal number is at least the number that any of its prefixes denotes.
proof fn lemma_decimal_grows(digits: Seq<char>, shorter: int)
    requires
        0 <= shorter <= digits.len(),
    ensures
        decimal(digits.take(shorter)) <= decimal(digits),
    decreases digits.len() - shorter,
{
    if shorter == digits.len() {
        assert(digits.take(shorter) =~= digits);
    } else {
        lemma_decimal_grows(digits.drop_last(), shorter);
        assert(digits.drop_last().take(shorter) =~= digits.take(shorter));
    }
}

} // verus!
