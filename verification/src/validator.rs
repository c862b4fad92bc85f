//! Validation of numbers given as text.

use vstd::prelude::*;
use vstd::string::StringExecFns;

verus! {

/// Whether the character is one of the ten decimal digits.
pub open spec fn is_digit(c: char) -> bool {
    '0' <= c <= '9'
}

/// The number that a decimal digit stands for; 0 for any other character.
pub open spec fn digit_value(c: char) -> nat {
    if is_digit(c) {
        (c as nat - '0' as nat) as nat
    } else {
        0
    }
}

/// Whether every character is a decimal digit.
pub open spec fn all_digits(text: Seq<char>) -> bool {
    forall|i: int| 0 <= i < text.len() ==> is_digit(#[trigger] text[i])
}

/// The number that a sequence of decimal digits denotes.
pub open spec fn decimal_value(digits: Seq<char>) -> nat
    decreases digits.len(),
{
    if digits.len() == 0 {
        0
    } else {
        10 * decimal_value(digits.drop_last()) + digit_value(digits.last())
    }
}

/// The text without a leading plus sign.
pub open spec fn unsigned_digits(text: Seq<char>) -> Seq<char> {
    if text.len() > 0 && text[0] == '+' {
        text.drop_first()
    } else {
        text
    }
}

/// Whether the text is a port number: an optional plus sign, then one or more
/// decimal digits and nothing else, denoting a number that fits 16 bits.
pub open spec fn parses_as_u16(text: Seq<char>) -> bool {
    let digits = unsigned_digits(text);
    digits.len() > 0 && all_digits(digits) && decimal_value(digits) <= u16::MAX
}

/// The number that a text which `parses_as_u16` denotes.
pub open spec fn u16_value(text: Seq<char>) -> nat {
    decimal_value(unsigned_digits(text))
}

/// The digits up to a position denote no more than all the digits do.
pub proof fn lemma_decimal_prefix(digits: Seq<char>, k: int)
    requires
        0 <= k <= digits.len(),
    ensures
        decimal_value(digits.take(k)) <= decimal_value(digits),
    decreases digits.len(),
{
    if k == digits.len() {
        assert(digits.take(k) =~= digits);
    } else {
        lemma_decimal_prefix(digits.drop_last(), k);
        assert(digits.drop_last().take(k) =~= digits.take(k));
    }
}

/// Reads a port number. Returns the number if the text is an optional plus
/// sign followed by decimal digits that denote a number of 16 bits, and
/// nothing otherwise.
pub fn parse_u16(text: &str) -> (r: Option<u16>)
    ensures
        r is Some <==> parses_as_u16(text@),
        r is Some ==> r->0 == u16_value(text@),
{
    let ghost all = text@;
    let ghost digits = unsigned_digits(all);
    let ghost start: int = if all.len() > 0 && all[0] == '+' {
        1
    } else {
        0
    };
    let mut value: u32 = 0;
    let mut first = true;
    let mut seen = false;
    proof {
        assert(digits =~= all.skip(start));
        assert(digits.take(0) =~= Seq::<char>::empty());
    }
    for c in it: text.chars()
        invariant
            it.seq() == all,
            all == text@,
            digits == unsigned_digits(all),
            digits == all.skip(start),
            start == (if all.len() > 0 && all[0] == '+' {
                1int
            } else {
                0int
            }),
            first == (it.index() == 0),
            seen == (it.index() > start),
            it.index() >= start ==> value == decimal_value(digits.take(it.index() - start)),
            it.index() >= start ==> all_digits(digits.take(it.index() - start)),
            it.index() < start ==> value == 0,
            value <= u16::MAX,
    {
        let ghost i = it.index() as int;
        if first && c == '+' {
            first = false;
            proof {
                assert(digits.take(0) =~= Seq::<char>::empty());
            }
        } else {
            first = false;
            proof {
                assert(digits[i - start] == c);
                assert(digits.take(i - start + 1).drop_last() =~= digits.take(i - start));
                assert(digits.take(i - start + 1).last() == c);
            }
            if c < '0' || c > '9' {
                return None;
            }
            let digit: u32 = c as u32 - '0' as u32;
            value = value * 10 + digit;
            if value > 65535 {
                proof {
                    lemma_decimal_prefix(digits, i - start + 1);
                }
                return None;
            }
            seen = true;
            proof {
                let grown = digits.take(i - start + 1);
                assert forall|j: int| 0 <= j < grown.len() implies is_digit(
                    #[trigger] grown[j],
                ) by {
                    if j < grown.len() - 1 {
                        assert(grown[j] == digits.take(i - start)[j]);
                    }
                }
            }
        }
    }
    proof {
        assert(digits.take(digits.len() as int) =~= digits);
    }
    if seen {
        Some(value as u16)
    } else {
        None
    }
}

/// Accepts a port number given as text; the error names the text that was
/// refused.
pub fn is_val(x: String) -> (r: Result<(), String>)
    ensures
        r is Ok <==> parses_as_u16(x@),
        r matches Err(message) ==> message@ == "Cannot parse "@ + x@,
{
    match parse_u16(x.as_str()) {
        Some(_) => Ok(()),
        None => {
            let mut message = String::from_str("Cannot parse ");
            message.append(x.as_str());
            Err(message)
        },
    }
}

/// Accepts a port number given as a command line value; the error names the
/// value that was refused and the type that was asked for.
pub fn is_u16(val: String) -> (r: Result<(), String>)
    ensures
        r is Ok <==> parses_as_u16(val@),
        r matches Err(message) ==> message@ == "Cannot parse "@ + val@ + " to u16"@,
{
    match parse_u16(val.as_str()) {
        Some(_) => Ok(()),
        None => {
            let mut message = String::from_str("Cannot parse ");
            message.append(val.as_str());
            message.append(" to u16");
            Err(message)
        },
    }
}

} // verus!
