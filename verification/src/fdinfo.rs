//! The kernel's description of an open file descriptor: lines of the form
//! `name:` and a value, of which the engine reads the file offset and the
//! flags the file was opened with.

use vstd::prelude::*;
use vstd::string::StringSliceAdditionalSpecFns;
use crate::decimal::{parse_u64, parsed};

verus! {

/// The name of the line that holds the file offset, in decimal.
pub const POSITION_NAME: &'static str = "pos";

/// The name of the line that holds the open flags, in octal.
pub const FLAGS_NAME: &'static str = "flags";

/// Whether `b` is a space or a tab.
pub open spec fn is_blank(b: u8) -> bool {
    b == 32 || b == 9
}

/// Whether a line starts at index `i`.
pub open spec fn line_start(text: Seq<u8>, i: int) -> bool {
    i == 0 || (0 < i <= text.len() && text[i - 1] == 10)
}

/// Whether the text at index `i` reads `name` and a colon.
pub open spec fn labelled(text: Seq<u8>, name: Seq<u8>, i: int) -> bool {
    0 <= i && i + name.len() < text.len() && text.subrange(i, i + name.len()) == name && text[i
        + name.len()] == 58
}

/// The first index from `i` on that holds neither a space nor a tab.
pub open spec fn after_blanks(text: Seq<u8>, i: int) -> int
    decreases text.len() - i,
{
    if 0 <= i < text.len() && is_blank(text[i]) {
        after_blanks(text, i + 1)
    } else {
        i
    }
}

/// The first index from `i` on that holds a line feed, or the end of the text.
pub open spec fn line_end(text: Seq<u8>, i: int) -> int
    decreases text.len() - i,
{
    if 0 <= i < text.len() && text[i] != 10 {
        line_end(text, i + 1)
    } else {
        i
    }
}

/// The value of the line that starts at `i` with `name`: what follows the
/// colon, without leading blanks, up to the end of the line.
pub open spec fn value_at(text: Seq<u8>, name: Seq<u8>, i: int) -> Seq<u8> {
    let from = after_blanks(text, i + name.len() + 1);
    text.subrange(from, line_end(text, from))
}

/// The value of the first line at or after index `i` that starts with `name`.
pub open spec fn field_from(text: Seq<u8>, name: Seq<u8>, i: int) -> Option<Seq<u8>>
    decreases text.len() - i,
{
    if i < 0 || i >= text.len() {
        None
    } else if line_start(text, i) && labelled(text, name, i) {
        Some(value_at(text, name, i))
    } else {
        field_from(text, name, i + 1)
    }
}

/// The value of the first line that starts with `name`.
pub open spec fn field(text: Seq<u8>, name: Seq<u8>) -> Option<Seq<u8>> {
    field_from(text, name, 0)
}

/// Whether `b` is an octal digit.
pub open spec fn is_octal_digit(b: u8) -> bool {
    48 <= b <= 55
}

/// The number that a string of octal digits denotes, most significant digit first.
pub open spec fn octal_value(s: Seq<u8>) -> nat
    decreases s.len(),
{
    if s.len() == 0 {
        0
    } else {
        octal_value(s.drop_last()) * 8 + (s.last() - 48) as nat
    }
}

/// What `s` denotes as a 32-bit number in octal: at least one octal digit,
/// with a value that fits; `None` for everything else.
pub open spec fn parsed_octal(s: Seq<u8>) -> Option<u32> {
    if s.len() > 0 && (forall|i: int| 0 <= i < s.len() ==> is_octal_digit(#[trigger] s[i]))
        && octal_value(s) <= u32::MAX {
        Some(octal_value(s) as u32)
    } else {
        None
    }
}

/// The file offset that a description gives.
pub open spec fn position_of(text: Seq<u8>) -> Option<u64> {
    match field(text, POSITION_NAME.spec_bytes()) {
        Some(value) => parsed(value),
        None => None,
    }
}

/// The open flags that a description gives.
pub open spec fn flags_of(text: Seq<u8>) -> Option<u32> {
    match field(text, FLAGS_NAME.spec_bytes()) {
        Some(value) => parsed_octal(value),
        None => None,
    }
}

/// A string of octal digits denotes at least what each of its prefixes denotes.
proof fn lemma_octal_prefix(s: Seq<u8>, k: int)
    requires
        forall|i: int| 0 <= i < s.len() ==> is_octal_digit(#[trigger] s[i]),
        0 <= k <= s.len(),
    ensures
        octal_value(s.take(k)) <= octal_value(s),
    decreases s.len() - k,
{
    if k == s.len() {
        assert(s.take(k) =~= s);
    } else {
        lemma_octal_prefix(s, k + 1);
        assert(s.take(k + 1).drop_last() =~= s.take(k));
        assert(is_octal_digit(s[k]));
    }
}

/// Reads a 32-bit number from its octal text.
pub fn parse_octal(text: &[u8]) -> (value: Option<u32>)
    ensures
        value == parsed_octal(text@),
{
    if text.len() == 0 {
        return None;
    }
    let mut acc: u32 = 0;
    let mut i: usize = 0;
    while i < text.len()
        invariant
            i <= text.len(),
            forall|k: int| 0 <= k < i ==> is_octal_digit(#[trigger] text@[k]),
            acc == octal_value(text@.take(i as int)),
        decreases text.len() - i,
    {
        let b = text[i];
        assert(text@.take(i + 1).drop_last() =~= text@.take(i as int));
        if b < 48 || b > 55 {
            assert(!is_octal_digit(text@[i as int]));
            return None;
        }
        let d: u32 = (b - 48) as u32;
        assert(text@.take(i + 1).last() == b);
        assert(octal_value(text@.take(i + 1)) == acc * 8 + d);
        if acc > (u32::MAX - d) / 8 {
            proof {
                if forall|k: int| 0 <= k < text@.len() ==> is_octal_digit(#[trigger] text@[k]) {
                    lemma_octal_prefix(text@, i + 1);
                }
            }
            return None;
        }
        acc = acc * 8 + d;
        i += 1;
    }
    assert(text@.take(i as int) =~= text@);
    Some(acc)
}

/// Whether the text at index `i` reads `name` and a colon.
fn is_labelled(text: &[u8], name: &[u8], i: usize) -> (found: bool)
    requires
        i < text.len(),
    ensures
        found == labelled(text@, name@, i as int),
{
    if name.len() >= text.len() - i {
        return false;
    }
    let mut j: usize = 0;
    while j < name.len()
        invariant
            j <= name.len(),
            i + name.len() < text.len(),
            forall|t: int| 0 <= t < j ==> text@[i + t] == name@[t],
        decreases name.len() - j,
    {
        if text[i + j] != name[j] {
            assert(text@.subrange(i as int, i + name.len())[j as int] != name@[j as int]);
            return false;
        }
        j += 1;
    }
    assert(text@.subrange(i as int, i + name.len()) =~= name@);
    text[i + name.len()] == 58
}

/// The value of the line that starts at `i` with `name`.
fn read_value(text: &[u8], name: &[u8], i: usize) -> (value: Vec<u8>)
    requires
        labelled(text@, name@, i as int),
    ensures
        value@ == value_at(text@, name@, i as int),
{
    assert(i + name.len() < text.len());
    let start: usize = i + name.len() + 1;
    let mut from: usize = start;
    while from < text.len() && (text[from] == 32 || text[from] == 9)
        invariant
            start <= from <= text.len(),
            after_blanks(text@, start as int) == after_blanks(text@, from as int),
        decreases text.len() - from,
    {
        from += 1;
    }
    let mut value: Vec<u8> = Vec::new();
    let mut end: usize = from;
    while end < text.len() && text[end] != 10
        invariant
            from <= end <= text.len(),
            line_end(text@, from as int) == line_end(text@, end as int),
            value@ == text@.subrange(from as int, end as int),
        decreases text.len() - end,
    {
        value.push(text[end]);
        assert(value@ =~= text@.subrange(from as int, end + 1));
        end += 1;
    }
    value
}

/// The value of the first line of a description that starts with `name`.
pub fn field_value(text: &[u8], name: &[u8]) -> (value: Option<Vec<u8>>)
    ensures
        match field(text@, name@) {
            Some(expected) => value matches Some(v) && v@ == expected,
            None => value is None,
        },
{
    let mut i: usize = 0;
    while i < text.len()
        invariant
            i <= text.len(),
            field(text@, name@) == field_from(text@, name@, i as int),
        decreases text.len() - i,
    {
        if (i == 0 || text[i - 1] == 10) && is_labelled(text, name, i) {
            return Some(read_value(text, name, i));
        }
        i += 1;
    }
    None
}

/// The file offset that a description of an open file descriptor gives.
pub fn position(text: &[u8]) -> (r: Option<u64>)
    ensures
        r == position_of(text@),
{
    match field_value(text, POSITION_NAME.as_bytes()) {
        Some(value) => parse_u64(value.as_slice()),
        None => None,
    }
}

/// The open flags that a description of an open file descriptor gives.
pub fn flags(text: &[u8]) -> (r: Option<u32>)
    ensures
        r == flags_of(text@),
{
    match field_value(text, FLAGS_NAME.as_bytes()) {
        Some(value) => parse_octal(value.as_slice()),
        None => None,
    }
}

} // verus!
