//! Text: joining entries with a separator, splitting a list of names at
//! its separator, and writing a number in decimal digits.

use vstd::prelude::*;
use vstd::string::{StrSliceExecFns, StringExecFns};

verus! {

/// The entries of `parts` in a row, with `separator` between neighbours.
pub open spec fn joined(parts: Seq<Seq<char>>, separator: Seq<char>) -> Seq<char>
    decreases parts.len(),
{
    if parts.len() == 0 {
        Seq::empty()
    } else if parts.len() == 1 {
        parts[0]
    } else {
        joined(parts.drop_last(), separator) + separator + parts.last()
    }
}

/// The texts that `parts` holds.
pub open spec fn texts(parts: Seq<String>) -> Seq<Seq<char>> {
    Seq::new(parts.len(), |i: int| parts[i]@)
}

/// Joins the entries of `parts` with `separator` between neighbours.
pub fn join(parts: &Vec<String>, separator: &str) -> (text: String)
    ensures
        text@ == joined(texts(parts@), separator@),
{
    let mut text = String::new();
    let mut i: usize = 0;
    while i < parts.len()
        invariant
            i <= parts@.len(),
            text@ == joined(texts(parts@.take(i as int)), separator@),
        decreases parts@.len() - i,
    {
        let ghost before = texts(parts@.take(i as int));
        let ghost now = texts(parts@.take(i + 1));
        assert(now.drop_last() =~= before);
        assert(now.last() == parts@[i as int]@);
        if i > 0 {
            text.append(separator);
        }
        text.append(parts[i].as_str());
        assert(text@ =~= joined(now, separator@));
        i += 1;
    }
    assert(parts@.take(i as int) =~= parts@);
    text
}

/// The separator `", "` begins at position `i` of `text`.
pub open spec fn separator_at(text: Seq<char>, i: int) -> bool {
    0 <= i && i + 1 < text.len() && text[i] == ',' && text[i + 1] == ' '
}

/// The separator `", "` occurs nowhere in `text`.
pub open spec fn free_of_separator(text: Seq<char>) -> bool {
    forall|i: int| !separator_at(text, i)
}

/// Adding a part to a list of parts adds the separator and the part to the
/// joined text, or just the part where the list was empty.
pub proof fn lemma_joined_push(parts: Seq<Seq<char>>, separator: Seq<char>, part: Seq<char>)
    ensures
        joined(parts.push(part), separator) == if parts.len() == 0 {
            part
        } else {
            joined(parts, separator) + separator + part
        },
{
    assert(parts.push(part).drop_last() =~= parts);
}

/// Splits a list of names at every `", "`.  The parts, joined again with
/// `", "`, are the text, and no part holds a `", "`; a text without any
/// comes back as its only part.  Reading a character of a `str` by position
/// walks the text, so the time taken grows with the square of the length.
pub fn split_names(text: &str) -> (names: Vec<String>)
    ensures
        names@.len() >= 1,
        joined(texts(names@), ", "@) == text@,
        forall|k: int| 0 <= k < names@.len() ==> free_of_separator(#[trigger] names@[k]@),
{
    proof {
        reveal_strlit(", ");
    }
    let ghost separator = ", "@;
    assert(separator =~= seq![',', ' ']);
    let length = text.unicode_len();
    let mut names: Vec<String> = Vec::new();
    let mut start: usize = 0;
    let mut i: usize = 0;
    while i < length
        invariant
            start <= i <= length == text@.len(),
            separator == seq![',', ' '],
            forall|j: int| start <= j < i ==> !separator_at(text@, j),
            names@.len() == 0 ==> start == 0,
            names@.len() > 0 ==> joined(texts(names@), separator) + separator == text@.subrange(
                0,
                start as int,
            ),
            forall|k: int| 0 <= k < names@.len() ==> free_of_separator(#[trigger] names@[k]@),
        decreases length - i,
    {
        if i + 1 < length && text.get_char(i) == ',' && text.get_char(i + 1) == ' ' {
            let piece = String::from_str(text.substring_char(start, i));
            proof {
                lemma_joined_push(texts(names@), separator, piece@);
                assert(texts(names@.push(piece)) =~= texts(names@).push(piece@));
                assert(text@.subrange(0, start as int) + piece@ + separator =~= text@.subrange(
                    0,
                    i + 2,
                ));
                assert forall|j: int| !separator_at(piece@, j) by {
                    if separator_at(piece@, j) {
                        assert(separator_at(text@, start + j));
                    }
                }
            }
            names.push(piece);
            start = i + 2;
            i = i + 2;
        } else {
            assert(!separator_at(text@, i as int));
            i = i + 1;
        }
    }
    let piece = String::from_str(text.substring_char(start, length));
    proof {
        lemma_joined_push(texts(names@), separator, piece@);
        assert(texts(names@.push(piece)) =~= texts(names@).push(piece@));
        assert(text@.subrange(0, start as int) + piece@ =~= text@);
        assert forall|j: int| !separator_at(piece@, j) by {
            if separator_at(piece@, j) {
                assert(separator_at(text@, start + j));
            }
        }
    }
    names.push(piece);
    names
}

/// The digit `d` as text.
pub open spec fn digit(d: nat) -> Seq<char> {
    if d == 0 {
        "0"@
    } else if d == 1 {
        "1"@
    } else if d == 2 {
        "2"@
    } else if d == 3 {
        "3"@
    } else if d == 4 {
        "4"@
    } else if d == 5 {
        "5"@
    } else if d == 6 {
        "6"@
    } else if d == 7 {
        "7"@
    } else if d == 8 {
        "8"@
    } else {
        "9"@
    }
}

/// The number `n` in decimal digits, without leading zeros.
pub open spec fn decimal(n: nat) -> Seq<char>
    decreases n,
{
    if n < 10 {
        digit(n)
    } else {
        decimal(n / 10) + digit(n % 10)
    }
}

/// Appends `n` in decimal digits to `text`.
pub fn append_decimal(text: &mut String, n: usize)
    ensures
        final(text)@ == old(text)@ + decimal(n as nat),
    decreases n,
{
    if n >= 10 {
        append_decimal(text, n / 10);
    }
    let d = n % 10;
    let last = if d == 0 {
        "0"
    } else if d == 1 {
        "1"
    } else if d == 2 {
        "2"
    } else if d == 3 {
        "3"
    } else if d == 4 {
        "4"
    } else if d == 5 {
        "5"
    } else if d == 6 {
        "6"
    } else if d == 7 {
        "7"
    } else if d == 8 {
        "8"
    } else {
        "9"
    };
    text.append(last);
    assert(text@ =~= old(text)@ + decimal(n as nat));
}

} // verus!
