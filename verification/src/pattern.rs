//! Patterns: the forms of the tokens of a grammar, written down as data.
//!
//! A pattern is a sequence of steps, and each step takes characters of one class. Matching
//! never goes back: a step takes what it can, and where a later step fails the pattern
//! fails. Only an optional group is given up as a whole, and matching goes on after it as
//! if it had not been there.

use crate::text::{position, run_end, scan_run, CharClass};
use vstd::prelude::*;

verus! {

/// One step of a pattern.
#[derive(Debug, PartialEq, Eq)]
pub enum Step {
    /// One character of the class.
    One(CharClass),
    /// All the characters of the class that follow, maybe none.
    Many(CharClass),
    /// The steps of a group, or nothing where the group does not match.
    Maybe(Vec<Step>),
}

/// The view of a step.
pub ghost enum StepView {
    One(CharClass),
    Many(CharClass),
    Maybe(Seq<StepView>),
}

/// The view of a step: the same step, with the steps of a group as a sequence of views.
pub open spec fn step_view(step: Step) -> StepView
    decreases step,
{
    match step {
        Step::One(class) => StepView::One(class),
        Step::Many(class) => StepView::Many(class),
        Step::Maybe(group) => StepView::Maybe(
            Seq::new(
                group@.len(),
                |i: int|
                    if 0 <= i < group@.len() {
                        step_view(group[i])
                    } else {
                        arbitrary()
                    },
            ),
        ),
    }
}

impl View for Step {
    type V = StepView;

    open spec fn view(&self) -> StepView {
        step_view(*self)
    }
}

/// The views of the steps of a pattern.
pub open spec fn pattern_of(steps: Seq<Step>) -> Seq<StepView> {
    steps.map_values(|step: Step| step@)
}

/// The view of a group is the group of the views.
pub proof fn lemma_group_view(group: Vec<Step>)
    ensures
        Step::Maybe(group)@ == StepView::Maybe(pattern_of(group@)),
{
    let step = Step::Maybe(group);
    assert forall|i: int| 0 <= i < group@.len() implies step@->Maybe_0[i] == (
    #[trigger] group@[i])@ by {
        assert(decreases_to!(group => group[i]));
    }
    assert(step@->Maybe_0 =~= pattern_of(group@));
}

/// Where one step that starts at `from` ends, if it matches there.
pub open spec fn step_end(step: StepView, s: Seq<char>, from: int) -> Option<int>
    decreases step, 0nat,
{
    match step {
        StepView::One(class) => if 0 <= from < s.len() && class.holds(s[from]) {
            Some(from + 1)
        } else {
            None
        },
        StepView::Many(class) => Some(run_end(s, from, class)),
        StepView::Maybe(group) => match steps_end(group, 0, s, from) {
            Some(end) => Some(end),
            None => Some(from),
        },
    }
}

/// Where the steps of `steps` from the step `k` on end, one after the other, if they all
/// match.
pub open spec fn steps_end(steps: Seq<StepView>, k: int, s: Seq<char>, from: int) -> Option<int>
    decreases steps, steps.len() - k,
{
    if k < 0 || k >= steps.len() {
        Some(from)
    } else {
        match step_end(steps[k], s, from) {
            None => None,
            Some(mid) => steps_end(steps, k + 1, s, mid),
        }
    }
}

/// Where the pattern `steps` that starts at `from` ends, if it matches there.
pub open spec fn pattern_end(steps: Seq<StepView>, s: Seq<char>, from: int) -> Option<int> {
    steps_end(steps, 0, s, from)
}

/// Where the first of the patterns `choices` that matches at `from` ends, if any does.
pub open spec fn choice_end(choices: Seq<Seq<StepView>>, k: int, s: Seq<char>, from: int) -> Option<
    int,
>
    decreases choices.len() - k,
{
    if k < 0 || k >= choices.len() {
        None
    } else {
        match pattern_end(choices[k], s, from) {
            Some(end) => Some(end),
            None => choice_end(choices, k + 1, s, from),
        }
    }
}

/// The views of a sequence of patterns.
pub open spec fn choices_of(choices: Seq<Vec<Step>>) -> Seq<Seq<StepView>> {
    choices.map_values(|steps: Vec<Step>| pattern_of(steps@))
}

/// Matches one step at `from`.
pub fn match_step(step: &Step, s: &Vec<char>, from: usize) -> (end: Option<usize>)
    ensures
        position(end) == step_end(step@, s@, from as int),
        end matches Some(e) ==> from <= e && (from <= s@.len() ==> e <= s@.len()),
    decreases step, 0nat,
{
    match step {
        Step::One(class) => {
            if from < s.len() && class.contains(s[from]) {
                Some(from + 1)
            } else {
                None
            }
        },
        Step::Many(class) => Some(scan_run(s, from, *class)),
        Step::Maybe(group) => {
            proof {
                lemma_group_view(*group);
            }
            match match_steps(group, s, from) {
                Some(end) => Some(end),
                None => Some(from),
            }
        },
    }
}

/// Matches the pattern `steps` at `from`.
pub fn match_steps(steps: &Vec<Step>, s: &Vec<char>, from: usize) -> (end: Option<usize>)
    ensures
        position(end) == pattern_end(pattern_of(steps@), s@, from as int),
        end matches Some(e) ==> from <= e && (from <= s@.len() ==> e <= s@.len()),
    decreases steps, steps.len(),
{
    let ghost pattern = pattern_of(steps@);
    let mut at: usize = from;
    let mut k: usize = 0;
    while k < steps.len()
        invariant
            k <= steps.len(),
            from <= at,
            from <= s@.len() ==> at <= s@.len(),
            pattern == pattern_of(steps@),
            pattern_end(pattern, s@, from as int) == steps_end(pattern, k as int, s@, at as int),
        decreases steps.len() - k,
    {
        assert(decreases_to!(steps => steps[k as int]));
        assert(pattern[k as int] == steps[k as int]@);
        match match_step(&steps[k], s, at) {
            Some(end) => {
                at = end;
            },
            None => {
                return None;
            },
        }
        k += 1;
    }
    Some(at)
}

/// Matches the first of the patterns `choices` that matches at `from`.
pub fn match_choice(choices: &Vec<Vec<Step>>, s: &Vec<char>, from: usize) -> (end: Option<usize>)
    ensures
        position(end) == choice_end(choices_of(choices@), 0, s@, from as int),
        end matches Some(e) ==> from <= e && (from <= s@.len() ==> e <= s@.len()),
{
    let ghost all = choices_of(choices@);
    let mut k: usize = 0;
    while k < choices.len()
        invariant
            k <= choices.len(),
            all == choices_of(choices@),
            choice_end(all, 0, s@, from as int) == choice_end(all, k as int, s@, from as int),
        decreases choices.len() - k,
    {
        assert(all[k as int] == pattern_of(choices[k as int]@));
        match match_steps(&choices[k], s, from) {
            Some(end) => {
                return Some(end);
            },
            None => {},
        }
        k += 1;
    }
    None
}

} // verus!
