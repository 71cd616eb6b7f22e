//! The tokens of a message definition in closed form: what the patterns of the grammar
//! take, said without the patterns.

use crate::grammar::{
    identifier_end, identifier_pattern, itype_end, itype_pattern, message_grammar, number_pattern,
    quoted_pattern, sign, value_end,
};
use crate::pattern::{choice_end, pattern_end, step_end, steps_end, StepView};
use crate::text::{lemma_run_end, run_end, CharClass};
use vstd::prelude::*;

verus! {

/// What `itype` and `identifier` of a message definition take: a letter or an underscore
/// and the longest run of `class` after it.
pub open spec fn name_form(s: Seq<char>, from: int, class: CharClass) -> Option<int> {
    if 0 <= from < s.len() && CharClass::NameStart.holds(s[from]) {
        Some(run_end(s, from + 1, class))
    } else {
        None
    }
}

/// What the brackets of an array type take: `[`, the digits that follow, and `]`.
pub open spec fn brackets_form(s: Seq<char>, from: int) -> Option<int> {
    if 0 <= from < s.len() && s[from] == '[' {
        let close = run_end(s, from + 1, CharClass::Digit);
        if close < s.len() && s[close] == ']' {
            Some(close + 1)
        } else {
            None
        }
    } else {
        None
    }
}

/// What `itype` of a message definition takes: a name in which slashes may stand, and the
/// brackets of an array where they follow.
pub open spec fn itype_form(s: Seq<char>, from: int) -> Option<int> {
    match name_form(s, from, CharClass::TypeName) {
        Some(end) => match brackets_form(s, end) {
            Some(close) => Some(close),
            None => Some(end),
        },
        None => None,
    }
}

/// One digit or more.
pub open spec fn digits_end(s: Seq<char>, from: int) -> Option<int> {
    if run_end(s, from, CharClass::Digit) > from {
        Some(run_end(s, from, CharClass::Digit))
    } else {
        None
    }
}

/// A sign or nothing.
pub open spec fn sign_end(s: Seq<char>, from: int) -> int {
    if 0 <= from < s.len() && (s[from] == '+' || s[from] == '-') {
        from + 1
    } else {
        from
    }
}

/// The fraction of a number, a point and digits, or nothing.
pub open spec fn fraction_end(s: Seq<char>, from: int) -> int {
    if 0 <= from < s.len() && s[from] == '.' {
        match digits_end(s, from + 1) {
            Some(end) => end,
            None => from,
        }
    } else {
        from
    }
}

/// The exponent of a number, `e` or `E` with a signed or unsigned run of digits, or nothing.
pub open spec fn exponent_end(s: Seq<char>, from: int) -> int {
    if 0 <= from < s.len() && (s[from] == 'e' || s[from] == 'E') {
        match digits_end(s, sign_end(s, from + 1)) {
            Some(end) => end,
            None => from,
        }
    } else {
        from
    }
}

/// What `number` takes.
pub open spec fn number_form(s: Seq<char>, from: int) -> Option<int> {
    match digits_end(s, sign_end(s, from)) {
        Some(end) => Some(exponent_end(s, fraction_end(s, end))),
        None => None,
    }
}

/// What `quoted` takes: a quote, all up to the next quote of its kind, and that quote.
pub open spec fn quoted_form(s: Seq<char>, from: int, quote: char) -> Option<int> {
    if 0 <= from < s.len() && s[from] == quote {
        let close = run_end(s, from + 1, CharClass::Except(quote));
        if close < s.len() {
            Some(close + 1)
        } else {
            None
        }
    } else {
        None
    }
}

/// What `value` of a message definition takes: a number, else text in double quotes, else
/// text in single quotes.
pub open spec fn value_form(s: Seq<char>, from: int) -> Option<int> {
    match number_form(s, from) {
        Some(end) => Some(end),
        None => match quoted_form(s, from, '"') {
            Some(end) => Some(end),
            None => quoted_form(s, from, '\''),
        },
    }
}

/// The pattern of `identifier` takes a name.
pub proof fn lemma_identifier_form(s: Seq<char>, from: int)
    requires
        0 <= from <= s.len(),
    ensures
        identifier_end(message_grammar(), s, from) == name_form(s, from, CharClass::Name),
{
    let p = identifier_pattern();
    if step_end(p[0], s, from) is Some {
        let end = run_end(s, from + 1, CharClass::Name);
        assert(step_end(p[1], s, from + 1) == Some(end));
        assert(steps_end(p, 2, s, end) == Some(end));
        assert(steps_end(p, 1, s, from + 1) == Some(end));
    }
    assert(steps_end(p, 0, s, from) == name_form(s, from, CharClass::Name));
}

/// The optional group of `itype` takes the brackets of an array, or nothing.
proof fn lemma_brackets(s: Seq<char>, from: int)
    requires
        0 <= from <= s.len(),
    ensures
        step_end(itype_pattern()[2], s, from) == Some(
            match brackets_form(s, from) {
                Some(close) => close,
                None => from,
            },
        ),
{
    let group = itype_pattern()[2]->Maybe_0;
    if step_end(group[0], s, from) is Some {
        let close = run_end(s, from + 1, CharClass::Digit);
        lemma_run_end(s, from + 1, CharClass::Digit);
        assert(step_end(group[1], s, from + 1) == Some(close));
        if step_end(group[2], s, close) is Some {
            assert(steps_end(group, 3, s, close + 1) == Some(close + 1));
        }
        assert(steps_end(group, 2, s, close) == brackets_form(s, from));
        assert(steps_end(group, 1, s, from + 1) == brackets_form(s, from));
    }
    assert(steps_end(group, 0, s, from) == brackets_form(s, from));
}

/// The pattern of `itype` takes a name with slashes and the brackets of an array after it.
pub proof fn lemma_itype_form(s: Seq<char>, from: int)
    requires
        0 <= from <= s.len(),
    ensures
        itype_end(message_grammar(), s, from) == itype_form(s, from),
{
    let p = itype_pattern();
    if step_end(p[0], s, from) is Some {
        let end = run_end(s, from + 1, CharClass::TypeName);
        lemma_run_end(s, from + 1, CharClass::TypeName);
        lemma_brackets(s, end);
        let close = step_end(p[2], s, end)->0;
        assert(step_end(p[1], s, from + 1) == Some(end));
        assert(steps_end(p, 3, s, close) == Some(close));
        assert(steps_end(p, 2, s, end) == Some(close));
        assert(steps_end(p, 1, s, from + 1) == Some(close));
    }
    assert(steps_end(p, 0, s, from) == itype_form(s, from));
}

/// The step of a sign takes a sign, or nothing.
proof fn lemma_sign(s: Seq<char>, from: int)
    requires
        0 <= from <= s.len(),
    ensures
        step_end(sign(), s, from) == Some(sign_end(s, from)),
{
    let group = sign()->Maybe_0;
    if step_end(group[0], s, from) is Some {
        assert(steps_end(group, 1, s, from + 1) == Some(from + 1));
    }
    assert(steps_end(group, 0, s, from) == if sign_end(s, from) > from {
        Some(from + 1)
    } else {
        None
    });
}

/// Two steps for one digit and for the digits after it take one digit or more; `rest` is
/// what the steps after them come to from there.
proof fn lemma_digits(steps: Seq<StepView>, k: int, rest: Option<int>, s: Seq<char>, from: int)
    requires
        0 <= from <= s.len(),
        0 <= k,
        k + 1 < steps.len(),
        steps[k] == StepView::One(CharClass::Digit),
        steps[k + 1] == StepView::Many(CharClass::Digit),
        digits_end(s, from) matches Some(end) ==> steps_end(steps, k + 2, s, end) == rest,
    ensures
        steps_end(steps, k, s, from) == match digits_end(s, from) {
            Some(end) => rest,
            None => None,
        },
{
    lemma_run_end(s, from, CharClass::Digit);
    if step_end(steps[k], s, from) is Some {
        let end = run_end(s, from + 1, CharClass::Digit);
        assert(run_end(s, from, CharClass::Digit) == end);
        assert(step_end(steps[k + 1], s, from + 1) == Some(end));
        assert(steps_end(steps, k + 1, s, from + 1) == rest);
    } else {
        assert(run_end(s, from, CharClass::Digit) == from);
    }
}

/// The optional group of the fraction takes a point and digits, or nothing.
proof fn lemma_fraction(s: Seq<char>, from: int)
    requires
        0 <= from <= s.len(),
    ensures
        step_end(number_pattern()[3], s, from) == Some(fraction_end(s, from)),
{
    let group = number_pattern()[3]->Maybe_0;
    if step_end(group[0], s, from) is Some {
        if let Some(end) = digits_end(s, from + 1) {
            assert(steps_end(group, 3, s, end) == Some(end));
        }
        lemma_digits(group, 1, digits_end(s, from + 1), s, from + 1);
        assert(steps_end(group, 1, s, from + 1) == digits_end(s, from + 1));
    }
    assert(steps_end(group, 0, s, from) == if 0 <= from < s.len() && s[from] == '.' {
        digits_end(s, from + 1)
    } else {
        None
    });
}

/// The optional group of the exponent takes `e` or `E` and signed digits, or nothing.
proof fn lemma_exponent(s: Seq<char>, from: int)
    requires
        0 <= from <= s.len(),
    ensures
        step_end(number_pattern()[4], s, from) == Some(exponent_end(s, from)),
{
    let group = number_pattern()[4]->Maybe_0;
    if step_end(group[0], s, from) is Some {
        let signed = sign_end(s, from + 1);
        lemma_sign(s, from + 1);
        if let Some(end) = digits_end(s, signed) {
            assert(steps_end(group, 4, s, end) == Some(end));
        }
        lemma_digits(group, 2, digits_end(s, signed), s, signed);
        assert(steps_end(group, 2, s, signed) == digits_end(s, signed));
        assert(steps_end(group, 1, s, from + 1) == digits_end(s, signed));
    }
    assert(steps_end(group, 0, s, from) == if 0 <= from < s.len() && (s[from] == 'e' || s[from]
        == 'E') {
        digits_end(s, sign_end(s, from + 1))
    } else {
        None
    });
}

/// The pattern of `number` takes digits with a sign, a fraction and an exponent, each of
/// the three or not.
pub proof fn lemma_number_form(s: Seq<char>, from: int)
    requires
        0 <= from <= s.len(),
    ensures
        pattern_end(number_pattern(), s, from) == number_form(s, from),
{
    let p = number_pattern();
    let signed = sign_end(s, from);
    lemma_sign(s, from);
    if let Some(end) = digits_end(s, signed) {
        lemma_run_end(s, signed, CharClass::Digit);
        let pointed = fraction_end(s, end);
        lemma_fraction(s, end);
        assert(end <= pointed <= s.len()) by {
            if pointed != end {
                lemma_run_end(s, end + 1, CharClass::Digit);
            }
        }
        let powered = exponent_end(s, pointed);
        lemma_exponent(s, pointed);
        assert(steps_end(p, 5, s, powered) == Some(powered));
        assert(steps_end(p, 4, s, pointed) == Some(powered));
        assert(steps_end(p, 3, s, end) == Some(powered));
    }
    lemma_digits(p, 1, number_form(s, from), s, signed);
    assert(steps_end(p, 0, s, from) == steps_end(p, 1, s, signed));
}

/// The pattern of `quoted` takes the text up to the next quote of its kind.
pub proof fn lemma_quoted_form(s: Seq<char>, from: int, quote: char)
    requires
        0 <= from <= s.len(),
    ensures
        pattern_end(quoted_pattern(quote), s, from) == quoted_form(s, from, quote),
{
    let p = quoted_pattern(quote);
    if step_end(p[0], s, from) is Some {
        let close = run_end(s, from + 1, CharClass::Except(quote));
        lemma_run_end(s, from + 1, CharClass::Except(quote));
        assert(step_end(p[1], s, from + 1) == Some(close));
        if step_end(p[2], s, close) is Some {
            assert(steps_end(p, 3, s, close + 1) == Some(close + 1));
        }
        assert(steps_end(p, 2, s, close) == quoted_form(s, from, quote));
        assert(steps_end(p, 1, s, from + 1) == quoted_form(s, from, quote));
    }
    assert(steps_end(p, 0, s, from) == quoted_form(s, from, quote));
}

/// The patterns of `value` take a number, else text in double quotes, else text in single
/// quotes.
pub proof fn lemma_value_form(s: Seq<char>, from: int)
    requires
        0 <= from <= s.len(),
    ensures
        value_end(message_grammar(), s, from) == value_form(s, from),
{
    let choices = message_grammar().value;
    lemma_number_form(s, from);
    lemma_quoted_form(s, from, '"');
    lemma_quoted_form(s, from, '\'');
    assert(choice_end(choices, 3, s, from) is None);
    assert(choice_end(choices, 2, s, from) == quoted_form(s, from, '\''));
    assert(choice_end(choices, 1, s, from) == match quoted_form(s, from, '"') {
        Some(end) => Some(end),
        None => quoted_form(s, from, '\''),
    });
}

} // verus!
