//! Small pieces of text handling: decimal numbers, searching and joining.

use vstd::prelude::*;
use vstd::slice::slice_subrange;
use vstd::string::*;

verus! {

/// The character for a decimal digit.
pub open spec fn digit_char(d: nat) -> char {
    seq!['0', '1', '2', '3', '4', '5', '6', '7', '8', '9'][d as int]
}

/// The decimal form of `n`, without sign or leading zeros.
pub open spec fn decimal_digits(n: nat) -> Seq<char>
    decreases n,
{
    if n < 10 {
        seq![digit_char(n)]
    } else {
        decimal_digits(n / 10).push(digit_char(n % 10))
    }
}

/// The text of one decimal digit.
fn digit_text(d: u8) -> (text: &'static str)
    requires
        d < 10,
    ensures
        text@ == seq![digit_char(d as nat)],
{
    proof {
        reveal_strlit("0");
        reveal_strlit("1");
        reveal_strlit("2");
        reveal_strlit("3");
        reveal_strlit("4");
        reveal_strlit("5");
        reveal_strlit("6");
        reveal_strlit("7");
        reveal_strlit("8");
        reveal_strlit("9");
    }
    let text = match d {
        0 => "0",
        1 => "1",
        2 => "2",
        3 => "3",
        4 => "4",
        5 => "5",
        6 => "6",
        7 => "7",
        8 => "8",
        _ => "9",
    };
    assert(text@ =~= seq![digit_char(d as nat)]);
    text
}

/// The decimal form of `n`.
pub fn u64_to_decimal(n: u64) -> (text: String)
    ensures
        text@ == decimal_digits(n as nat),
    decreases n,
{
    if n < 10 {
        String::from_str(digit_text(n as u8))
    } else {
        let mut text = u64_to_decimal(n / 10);
        text.append(digit_text((n % 10) as u8));
        assert(text@ =~= decimal_digits((n / 10) as nat).push(digit_char((n % 10) as nat)));
        text
    }
}

/// Whether every byte of `digits` is an ASCII decimal digit.
pub open spec fn all_decimal(digits: Seq<u8>) -> bool {
    forall|i: int| 0 <= i < digits.len() ==> 0x30 <= #[trigger] digits[i] <= 0x39
}

/// The number that a run of ASCII decimal digits stands for.
pub open spec fn decimal_value(digits: Seq<u8>) -> nat
    decreases digits.len(),
{
    if digits.len() == 0 {
        0
    } else {
        decimal_value(digits.drop_last()) * 10 + (digits.last() - 0x30) as nat
    }
}

/// The number that `text` stands for: an optional `+`, then at least one
/// decimal digit and nothing else, with a value that a `u64` can hold.
pub open spec fn parsed_u64(text: Seq<u8>) -> Option<u64> {
    let digits = if text.len() > 0 && text[0] == 0x2b {
        text.skip(1)
    } else {
        text
    };
    if digits.len() > 0 && all_decimal(digits) && decimal_value(digits) <= u64::MAX {
        Some(decimal_value(digits) as u64)
    } else {
        None
    }
}

/// More digits never make a smaller number.
pub proof fn lemma_decimal_value_grows(digits: Seq<u8>, upto: int)
    requires
        0 <= upto <= digits.len(),
        all_decimal(digits),
    ensures
        decimal_value(digits.take(upto)) <= decimal_value(digits),
    decreases digits.len(),
{
    if upto < digits.len() {
        let shorter = digits.drop_last();
        assert(shorter.take(upto) =~= digits.take(upto));
        lemma_decimal_value_grows(shorter, upto);
    } else {
        assert(digits.take(upto) =~= digits);
    }
}

/// Reads a decimal number.
#[verifier::loop_isolation(false)]
pub fn parse_u64(s: &str) -> (value: Option<u64>)
    ensures
        value == parsed_u64(s.spec_bytes()),
{
    let text = s.as_bytes();
    let start: usize = if text.len() > 0 && text[0] == 0x2b {
        1
    } else {
        0
    };
    let digits = slice_subrange(text, start, text.len());
    assert(digits@ =~= if start == 1 {
        text@.skip(1)
    } else {
        text@
    });
    if digits.len() == 0 {
        return None;
    }
    let mut value: u64 = 0;
    let mut i: usize = 0;
    assert(digits@.take(0) =~= Seq::<u8>::empty());
    while i < digits.len()
        invariant
            i <= digits@.len(),
            all_decimal(digits@.take(i as int)),
            value == decimal_value(digits@.take(i as int)),
        decreases digits@.len() - i,
    {
        let byte = digits[i];
        if byte < 0x30 || byte > 0x39 {
            assert(!(0x30 <= digits@[i as int] <= 0x39));
            return None;
        }
        let d = (byte - 0x30) as u64;
        proof {
            assert(digits@.take(i + 1).drop_last() =~= digits@.take(i as int));
            assert(digits@.take(i + 1).last() == byte);
            assert forall|j: int| 0 <= j < i + 1 implies 0x30 <= #[trigger] digits@.take(i + 1)[j]
                <= 0x39 by {
                if j < i {
                    assert(digits@.take(i as int)[j] == digits@.take(i + 1)[j]);
                }
            }
        }
        if value > (u64::MAX - d) / 10 {
            proof {
                assert(decimal_value(digits@.take(i + 1)) == value * 10 + d);
                if all_decimal(digits@) {
                    lemma_decimal_value_grows(digits@, i + 1);
                }
            }
            return None;
        }
        value = value * 10 + d;
        i = i + 1;
    }
    assert(digits@.take(i as int) =~= digits@);
    Some(value)
}

/// Whether `needle` occurs in `haystack` at position `at`.
pub open spec fn occurs_at(haystack: Seq<u8>, needle: Seq<u8>, at: int) -> bool {
    0 <= at && at + needle.len() <= haystack.len() && haystack.subrange(at, at + needle.len())
        == needle
}

/// Whether `needle` occurs somewhere in `haystack`.
pub open spec fn occurs_in(haystack: Seq<u8>, needle: Seq<u8>) -> bool {
    exists|at: int| occurs_at(haystack, needle, at)
}

/// Whether `needle` occurs in `haystack` at position `at`.
#[verifier::loop_isolation(false)]
fn found_at(haystack: &[u8], needle: &[u8], at: usize) -> (found: bool)
    requires
        at + needle@.len() <= haystack@.len(),
    ensures
        found == occurs_at(haystack@, needle@, at as int),
{
    let ghost window = haystack@.subrange(at as int, at + needle@.len());
    let mut i: usize = 0;
    assert(haystack.len() <= usize::MAX);
    while i < needle.len()
        invariant
            i <= needle@.len(),
            at + needle@.len() <= haystack@.len(),
            window == haystack@.subrange(at as int, at + needle@.len()),
            forall|j: int| 0 <= j < i ==> window[j] == needle@[j],
        decreases needle@.len() - i,
    {
        if haystack[at + i] != needle[i] {
            assert(window[i as int] != needle@[i as int]);
            return false;
        }
        i = i + 1;
    }
    assert(window =~= needle@);
    true
}

/// Whether the bytes of `needle` occur somewhere in `haystack`.
pub fn contains_bytes(haystack: &[u8], needle: &[u8]) -> (found: bool)
    ensures
        found == occurs_in(haystack@, needle@),
{
    if needle.len() > haystack.len() {
        return false;
    }
    let last = haystack.len() - needle.len();
    let mut at: usize = 0;
    loop
        invariant
            at <= last,
            last == haystack@.len() - needle@.len(),
            forall|k: int| 0 <= k < at ==> !occurs_at(haystack@, needle@, k),
        decreases last - at,
    {
        if found_at(haystack, needle, at) {
            return true;
        }
        if at == last {
            return false;
        }
        at = at + 1;
    }
}

/// The texts `parts` put one after the other with `separator` in between.
pub open spec fn joined(parts: Seq<Seq<char>>, separator: Seq<char>) -> Seq<char>
    decreases parts.len(),
{
    if parts.len() == 0 {
        Seq::empty()
    } else if parts.len() == 1 {
        parts[0]
    } else {
        joined(parts.drop_last(), separator) + separator + parts.last()
    }
}

/// The views of `parts`, in order.
pub open spec fn part_views(parts: Seq<String>) -> Seq<Seq<char>> {
    parts.map_values(|p: String| p@)
}

/// Puts `parts` one after the other with `separator` in between.
pub fn join(parts: &Vec<String>, separator: &str) -> (text: String)
    ensures
        text@ == joined(part_views(parts@), separator@),
{
    let ghost views = part_views(parts@);
    let mut text = String::new();
    let mut i: usize = 0;
    while i < parts.len()
        invariant
            i <= parts@.len(),
            views == part_views(parts@),
            text@ == joined(views.take(i as int), separator@),
        decreases parts@.len() - i,
    {
        proof {
            assert(views.take(i + 1).drop_last() =~= views.take(i as int));
            assert(views.take(i + 1).last() == parts@[i as int]@);
        }
        if i > 0 {
            text.append(separator);
        }
        text.append(parts[i].as_str());
        proof {
            if i == 0 {
                assert(text@ =~= parts@[0]@);
                assert(views.take(1)[0] == parts@[0]@);
            }
        }
        i = i + 1;
    }
    assert(views.take(i as int) =~= views);
    text
}

/// `text` without any leading run of `0x` markers.
pub open spec fn without_0x_markers(text: Seq<char>) -> Seq<char>
    decreases text.len(),
{
    if text.len() >= 2 && text[0] == '0' && text[1] == 'x' {
        without_0x_markers(text.skip(2))
    } else {
        text
    }
}

/// Takes all leading `0x` markers off a text.
pub fn strip_0x_markers(s: &str) -> (text: String)
    ensures
        text@ == without_0x_markers(s@),
{
    let len = s.unicode_len();
    let mut k: usize = 0;
    assert(s@.skip(0) =~= s@);
    while len - k >= 2 && s.get_char(k) == '0' && s.get_char(k + 1) == 'x'
        invariant
            k <= len,
            len == s@.len(),
            without_0x_markers(s@.skip(k as int)) == without_0x_markers(s@),
        decreases len - k,
    {
        proof {
            let rest = s@.skip(k as int);
            assert(rest[0] == '0' && rest[1] == 'x');
            assert(rest.skip(2) =~= s@.skip(k + 2));
        }
        k = k + 2;
    }
    proof {
        let rest = s@.skip(k as int);
        assert(!(rest.len() >= 2 && rest[0] == '0' && rest[1] == 'x'));
        assert(rest =~= s@.subrange(k as int, len as int));
    }
    String::from_str(s.substring_char(k, len))
}

} // verus!
