//! The setting that switches the result cache on.
use vstd::prelude::*;

verus! {

/// Whether a text is one or more decimal digits.
pub open spec fn is_decimal(text: Seq<char>) -> bool {
    text.len() > 0 && forall|i: int| 0 <= i < text.len() ==> '0' <= #[trigger] text[i] <= '9'
}

/// The number that decimal digits stand for.
pub open spec fn decimal(digits: Seq<char>) -> nat
    decreases digits.len(),
{
    if digits.len() == 0 {
        0
    } else {
        decimal(digits.drop_last()) * 10 + (digits.last() as nat - '0' as nat) as nat
    }
}

/// The number that a text stands for: decimal digits, with or without a plus
/// sign in front, of a number that fits.
pub open spec fn number(text: Seq<char>) -> Option<usize> {
    let digits = if text.len() > 0 && text[0] == '+' {
        text.drop_first()
    } else {
        text
    };
    if is_decimal(digits) && decimal(digits) <= usize::MAX {
        Some(decimal(digits) as usize)
    } else {
        None
    }
}

/// The byte budget that the setting asks for. Without a setting, or with one
/// that is no number, it is 0, and the cache is off.
pub open spec fn budget(setting: Option<Seq<char>>) -> usize {
    match setting {
        Some(text) => match number(text) {
            Some(bytes) => bytes,
            None => 0,
        },
        None => 0,
    }
}

/// `str::parse::<usize>` reads an optional `+` and then only decimal digits;
/// anything else, and a number that does not fit, is an error.
#[verifier::external_body]
fn parse_usize(text: &str) -> (parsed: Option<usize>)
    ensures
        parsed == number(text@),
{
    text.parse::<usize>().ok()
}

/// The byte budget that the setting asks for.
pub fn cap_bytes(setting: Option<String>) -> (bytes: usize)
    ensures
        bytes == budget(match setting { Some(text) => Some(text@), None => None }),
        match setting {
            Some(text) => match number(text@) {
                Some(n) => bytes == n,
                None => bytes == 0,
            },
            None => bytes == 0,
        },
{
    match setting {
        Some(text) => match parse_usize(text.as_str()) {
            Some(bytes) => bytes,
            None => 0,
        },
        None => 0,
    }
}

/// The budget is the number that the setting stands for, byte for byte; it is 0 if
/// the setting stands for none, or if there is none.
pub proof fn law_the_budget_is_the_number(setting: Option<Seq<char>>)
    ensures
        match setting {
            Some(text) => match number(text) {
                Some(n) => budget(setting) == n,
                None => budget(setting) == 0,
            },
            None => budget(setting) == 0,
        },
{
}

/// One digit stands for itself.
pub proof fn law_a_digit_stands_for_itself(c: char)
    requires
        '0' <= c <= '9',
    ensures
        number(seq![c]) matches Some(n) && n == c as int - '0' as int,
{
    assert(seq![c].drop_last() =~= Seq::<char>::empty());
    reveal_with_fuel(decimal, 2);
    assert(is_decimal(seq![c]));
}

/// One digit more is ten times the number and the digit, unless that does not fit;
/// and what does not fit does not come to fit by more digits.
pub proof fn law_a_digit_more_is_ten_times_the_number(digits: Seq<char>, c: char)
    requires
        digits.len() > 0,
        forall|i: int| 0 <= i < digits.len() ==> '0' <= #[trigger] digits[i] <= '9',
        '0' <= c <= '9',
    ensures
        match number(digits) {
            Some(n) => if 10 * n + (c as int - '0' as int) <= usize::MAX {
                number(digits.push(c)) matches Some(more) && more == 10 * n + (c as int
                    - '0' as int)
            } else {
                number(digits.push(c)) is None
            },
            None => number(digits.push(c)) is None,
        },
{
    let more = digits.push(c);
    assert(is_decimal(digits));
    assert(digits[0] != '+');
    assert(more[0] == digits[0]);
    assert forall|i: int| 0 <= i < more.len() implies '0' <= #[trigger] more[i] <= '9' by {
        if i < digits.len() {
            assert(more[i] == digits[i]);
        }
    }
    assert(more.drop_last() =~= digits);
    assert(decimal(more) == decimal(digits) * 10 + (c as nat - '0' as nat) as nat);
}

/// A plus sign in front changes nothing.
pub proof fn law_a_plus_sign_changes_nothing(text: Seq<char>)
    requires
        text.len() > 0,
        text[0] != '+',
    ensures
        number(seq!['+'] + text) == number(text),
{
    assert((seq!['+'] + text).drop_first() =~= text);
}

/// Nothing but digits behind at most one plus sign stands for a number.
pub proof fn law_only_digits_stand_for_a_number(text: Seq<char>, i: int)
    requires
        0 <= i < text.len(),
        !('0' <= text[i] <= '9'),
        text[i] == '+' ==> i > 0 || text.len() == 1,
    ensures
        number(text) is None,
        number(Seq::empty()) is None,
{
    let digits = text.drop_first();
    if text[0] == '+' {
        if i > 0 {
            assert(digits[i - 1] == text[i]);
        }
    }
}

} // verus!
