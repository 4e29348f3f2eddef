//! Conditions over the answers given so far, which decide whether a
//! question is shown.
use vstd::prelude::*;
use super::answer::{AnswerSheet, QuestionAnswer};
use crate::text::{contains_str, contains_string, has_substring, seq_has_string};

verus! {

/// A test on the answers: a comparison with one question's answer, or a
/// combination of other tests.
#[derive(Debug)]
pub enum Condition {
    Equals { question_id: String, value: String },
    Includes { question_id: String, value: String },
    And { conditions: Vec<Condition> },
    Or { conditions: Vec<Condition> },
    Not { condition: Box<Condition> },
}

/// `Equals` on one answer: a choice or a text that reads `value`, or a set
/// of choices that holds it.
pub open spec fn answer_equals(a: QuestionAnswer, value: Seq<char>) -> bool {
    match a {
        QuestionAnswer::Choice(v) => v@ == value,
        QuestionAnswer::Text(v) => v@ == value,
        QuestionAnswer::MultipleChoices(vs) => seq_has_string(vs@, value),
        _ => false,
    }
}

/// `Includes` on one answer: a set of choices that holds `value`, or a
/// choice or text that contains it.
pub open spec fn answer_includes(a: QuestionAnswer, value: Seq<char>) -> bool {
    match a {
        QuestionAnswer::MultipleChoices(vs) => seq_has_string(vs@, value),
        QuestionAnswer::Choice(v) => has_substring(v@, value),
        QuestionAnswer::Text(v) => has_substring(v@, value),
        _ => false,
    }
}

/// Whether condition `c` holds of `answers`. A test on a question that has
/// no answer fails.
pub open spec fn holds(c: Condition, answers: Map<Seq<char>, QuestionAnswer>) -> bool
    decreases c, 1int,
{
    match c {
        Condition::Equals { question_id, value } => answers.contains_key(question_id@)
            && answer_equals(answers[question_id@], value@),
        Condition::Includes { question_id, value } => answers.contains_key(question_id@)
            && answer_includes(answers[question_id@], value@),
        Condition::And { conditions } => all_hold(conditions@, answers),
        Condition::Or { conditions } => any_holds(conditions@, answers),
        Condition::Not { condition } => !holds(*condition, answers),
    }
}

/// Every condition of `cs` holds (true of none at all).
pub open spec fn all_hold(cs: Seq<Condition>, answers: Map<Seq<char>, QuestionAnswer>) -> bool
    decreases cs, 0int,
{
    if cs.len() == 0 {
        true
    } else {
        holds(cs[0], answers) && all_hold(cs.drop_first(), answers)
    }
}

/// Some condition of `cs` holds (false of none at all).
pub open spec fn any_holds(cs: Seq<Condition>, answers: Map<Seq<char>, QuestionAnswer>) -> bool
    decreases cs, 0int,
{
    if cs.len() == 0 {
        false
    } else {
        holds(cs[0], answers) || any_holds(cs.drop_first(), answers)
    }
}

impl Condition {
    /// Whether this condition holds of the answers given so far.
    #[verifier::loop_isolation(false)]
    pub fn evaluate(&self, answers: &AnswerSheet) -> (b: bool)
        ensures
            b == holds(*self, answers@),
        decreases *self,
    {
        match self {
            Condition::Equals { question_id, value } => {
                match answers.get(question_id.as_str()) {
                    Some(ans) => match ans {
                        QuestionAnswer::Choice(val) => *val == *value,
                        QuestionAnswer::Text(val) => *val == *value,
                        QuestionAnswer::MultipleChoices(vals) => contains_string(vals, value),
                        _ => false,
                    },
                    None => false,
                }
            },
            Condition::Includes { question_id, value } => {
                match answers.get(question_id.as_str()) {
                    Some(ans) => match ans {
                        QuestionAnswer::MultipleChoices(vals) => contains_string(vals, value),
                        QuestionAnswer::Choice(val) => contains_str(val.as_str(), value.as_str()),
                        QuestionAnswer::Text(val) => contains_str(val.as_str(), value.as_str()),
                        _ => false,
                    },
                    None => false,
                }
            },
            Condition::And { conditions } => {
                let mut i: usize = 0;
                assert(conditions@.skip(0) =~= conditions@);
                while i < conditions.len()
                    invariant
                        i <= conditions@.len(),
                        all_hold(conditions@, answers@) == all_hold(
                            conditions@.skip(i as int),
                            answers@,
                        ),
                    decreases conditions@.len() - i,
                {
                    let ghost rest = conditions@.skip(i as int);
                    assert(rest[0] == conditions@[i as int]);
                    assert(rest.drop_first() =~= conditions@.skip(i + 1));
                    if !conditions[i].evaluate(answers) {
                        assert(!holds(rest[0], answers@));
                        assert(!all_hold(rest, answers@));
                        assert(holds(*self, answers@) == all_hold(conditions@, answers@));
                        return false;
                    }
                    i = i + 1;
                }
                assert(conditions@.skip(i as int).len() == 0);
                true
            },
            Condition::Or { conditions } => {
                let mut i: usize = 0;
                assert(conditions@.skip(0) =~= conditions@);
                while i < conditions.len()
                    invariant
                        i <= conditions@.len(),
                        any_holds(conditions@, answers@) == any_holds(
                            conditions@.skip(i as int),
                            answers@,
                        ),
                    decreases conditions@.len() - i,
                {
                    let ghost rest = conditions@.skip(i as int);
                    assert(rest[0] == conditions@[i as int]);
                    assert(rest.drop_first() =~= conditions@.skip(i + 1));
                    if conditions[i].evaluate(answers) {
                        return true;
                    }
                    i = i + 1;
                }
                assert(conditions@.skip(i as int).len() == 0);
                false
            },
            Condition::Not { condition } => !condition.evaluate(answers),
        }
    }
}

/// Against a multiple-choice answer, `Includes` holds exactly when one of
/// the picked choices is the value, as `Equals` does.
pub proof fn law_includes_on_multiple_choices(
    question_id: String,
    value: String,
    answers: Map<Seq<char>, QuestionAnswer>,
    vs: Vec<String>,
)
    requires
        answers.contains_key(question_id@),
        answers[question_id@] == QuestionAnswer::MultipleChoices(vs),
    ensures
        holds(Condition::Includes { question_id: question_id, value: value }, answers) <==> exists|i: int|
            0 <= i < vs@.len() && #[trigger] vs@[i]@ == value@,
        holds(Condition::Includes { question_id: question_id, value: value }, answers) == holds(
            Condition::Equals { question_id: question_id, value: value },
            answers,
        ),
{
}

/// Against a single choice or a text, `Includes` holds exactly when the
/// value occurs in the answer as a run of consecutive characters, and
/// `Equals` exactly when the answer is the value.
pub proof fn law_text_conditions(
    question_id: String,
    value: String,
    answers: Map<Seq<char>, QuestionAnswer>,
    v: String,
)
    requires
        answers.contains_key(question_id@),
        answers[question_id@] == QuestionAnswer::Choice(v) || answers[question_id@] == QuestionAnswer::Text(v),
    ensures
        holds(Condition::Includes { question_id: question_id, value: value }, answers) <==> exists|i: int|
            0 <= i && i + value@.len() <= v@.len() && #[trigger] v@.subrange(i, i + value@.len()) == value@,
        holds(Condition::Equals { question_id: question_id, value: value }, answers) <==> v@ == value@,
{
}

/// Whatever the answer, `Equals` holding means `Includes` holds too; and
/// neither holds of a question without an answer, or with a numeric or
/// empty one.
pub proof fn law_equals_implies_includes(question_id: String, value: String, answers: Map<Seq<char>, QuestionAnswer>)
    ensures
        holds(Condition::Equals { question_id: question_id, value: value }, answers) ==> holds(
            Condition::Includes { question_id: question_id, value: value },
            answers,
        ),
        !answers.contains_key(question_id@) || answers[question_id@] is Number || answers[question_id@] is Unanswered
            ==> !holds(Condition::Equals { question_id: question_id, value: value }, answers) && !holds(
            Condition::Includes { question_id: question_id, value: value },
            answers,
        ),
{
    if holds(Condition::Equals { question_id: question_id, value: value }, answers) {
        match answers[question_id@] {
            QuestionAnswer::Choice(v) => {
                assert(v@ == value@);
                assert(v@.subrange(0, 0 + value@.len() as int) =~= value@);
                assert(has_substring(v@, value@));
            },
            QuestionAnswer::Text(v) => {
                assert(v@ == value@);
                assert(v@.subrange(0, 0 + value@.len() as int) =~= value@);
                assert(has_substring(v@, value@));
            },
            _ => {},
        }
    }
}

proof fn lemma_all_hold(cs: Seq<Condition>, answers: Map<Seq<char>, QuestionAnswer>)
    ensures
        all_hold(cs, answers) <==> forall|i: int| 0 <= i < cs.len() ==> holds(#[trigger] cs[i], answers),
        any_holds(cs, answers) <==> exists|i: int| 0 <= i < cs.len() && holds(#[trigger] cs[i], answers),
    decreases cs.len(),
{
    if cs.len() > 0 {
        lemma_all_hold(cs.drop_first(), answers);
        assert forall|i: int| 0 < i < cs.len() implies #[trigger] cs[i] == cs.drop_first()[i - 1] by {}
        if exists|i: int| 0 <= i < cs.len() && holds(#[trigger] cs[i], answers) {
            let i = choose|i: int| 0 <= i < cs.len() && holds(#[trigger] cs[i], answers);
            if i > 0 {
                assert(holds(cs.drop_first()[i - 1], answers));
            }
        }
        if all_hold(cs, answers) {
            assert forall|i: int| 0 <= i < cs.len() implies holds(#[trigger] cs[i], answers) by {
                if i > 0 {
                    assert(holds(cs.drop_first()[i - 1], answers));
                }
            }
        }
    }
}

/// `And` holds when every one of its conditions holds (so an empty `And`
/// holds), `Or` when at least one does (so an empty `Or` does not), and
/// `Not` exactly when its condition does not.
pub proof fn law_combinators(conditions: Vec<Condition>, condition: Box<Condition>, answers: Map<Seq<char>, QuestionAnswer>)
    ensures
        holds(Condition::And { conditions: conditions }, answers) <==> forall|i: int|
            0 <= i < conditions@.len() ==> holds(#[trigger] conditions@[i], answers),
        holds(Condition::Or { conditions: conditions }, answers) <==> exists|i: int|
            0 <= i < conditions@.len() && holds(#[trigger] conditions@[i], answers),
        holds(Condition::Not { condition: condition }, answers) <==> !holds(*condition, answers),
{
    lemma_all_hold(conditions@, answers);
}

} // verus!
