//! The engine that walks a form: which question is current, where "next"
//! leads, going back, jumping, and dropping answers that no longer apply.
use vstd::prelude::*;
use super::answer::{AnswerSheet, QuestionAnswer};
use super::condition::holds;
use super::question::{Question, QuestionOption, QuestionType};
use crate::text::views;

verus! {

broadcast use vstd::seq_lib::group_seq_properties;

/// The abstract state of a form: its questions, the answers by question id,
/// and the ids of the questions visited, the current one last.
pub struct FlowState {
    pub questions: Seq<Question>,
    pub answers: Map<Seq<char>, QuestionAnswer>,
    pub history: Seq<Seq<char>>,
}

pub open spec fn question_ids(qs: Seq<Question>) -> Seq<Seq<char>> {
    qs.map_values(|q: Question| q.id@)
}

pub open spec fn option_ids(os: Seq<QuestionOption>) -> Seq<Seq<char>> {
    os.map_values(|o: QuestionOption| o.id@)
}

pub open spec fn opt_view(o: Option<String>) -> Option<Seq<char>> {
    match o {
        Some(s) => Some(s@),
        None => None,
    }
}

/// A question is shown unless its condition fails on the answers.
pub open spec fn visible(q: Question, answers: Map<Seq<char>, QuestionAnswer>) -> bool {
    match q.visible_when {
        Some(c) => holds(c, answers),
        None => true,
    }
}

/// Ids of the questions among the first `n` that the answers hide.
pub open spec fn hidden_among(
    qs: Seq<Question>,
    answers: Map<Seq<char>, QuestionAnswer>,
    n: int,
) -> Set<Seq<char>> {
    Set::new(
        |k: Seq<char>|
            exists|t: int| 0 <= t < n && #[trigger] qs[t].id@ == k && !visible(qs[t], answers),
    )
}

/// Ids of the questions that the answers hide.
pub open spec fn hidden_ids(qs: Seq<Question>, answers: Map<Seq<char>, QuestionAnswer>) -> Set<
    Seq<char>,
> {
    hidden_among(qs, answers, qs.len() as int)
}

/// The answers without those for questions that they themselves hide.
pub open spec fn pruned(qs: Seq<Question>, answers: Map<Seq<char>, QuestionAnswer>) -> Map<
    Seq<char>,
    QuestionAnswer,
> {
    answers.remove_keys(hidden_ids(qs, answers))
}

/// The position of the current question: the first question whose id is
/// the last one visited.
pub open spec fn current_index(st: FlowState) -> Option<int> {
    if st.history.len() == 0 {
        None
    } else {
        question_ids(st.questions).index_of_first(st.history.last())
    }
}

/// Where the option picked for `q` sends the form, if it says.
pub open spec fn chosen_override(q: Question, answers: Map<Seq<char>, QuestionAnswer>) -> Option<
    Seq<char>,
> {
    if answers.contains_key(q.id@) && answers[q.id@] is Choice && q.options is Some {
        let c = answers[q.id@]->Choice_0;
        let os = q.options->0@;
        match option_ids(os).index_of_first(c@) {
            Some(k) => opt_view(os[k].next_question_id),
            None => None,
        }
    } else {
        None
    }
}

/// The first question at or after `start` that the answers show.
pub open spec fn first_visible_from(
    qs: Seq<Question>,
    answers: Map<Seq<char>, QuestionAnswer>,
    start: int,
) -> Option<int>
    decreases qs.len() - start,
{
    if start < 0 || start >= qs.len() {
        None
    } else if visible(qs[start], answers) {
        Some(start)
    } else {
        first_visible_from(qs, answers, start + 1)
    }
}

/// Where "next" leads from `q`: the picked option's target, else the
/// question's own, else the next question in order that is shown.
pub open spec fn next_question_id_spec(
    qs: Seq<Question>,
    answers: Map<Seq<char>, QuestionAnswer>,
    q: Question,
) -> Option<Seq<char>> {
    match chosen_override(q, answers) {
        Some(n) => Some(n),
        None => match q.next_question_id {
            Some(n) => Some(n@),
            None => match question_ids(qs).index_of_first(q.id@) {
                Some(i) => match first_visible_from(qs, answers, i + 1) {
                    Some(j) => Some(qs[j].id@),
                    None => None,
                },
                None => None,
            },
        },
    }
}

/// The state a new engine starts in.
pub open spec fn start_spec(qs: Seq<Question>) -> FlowState {
    FlowState {
        questions: qs,
        answers: Map::empty(),
        history: if qs.len() > 0 {
            seq![qs[0].id@]
        } else {
            Seq::empty()
        },
    }
}

/// "Next": visits where the current question leads, if anywhere.
pub open spec fn go_next_spec(st: FlowState) -> (bool, FlowState) {
    match current_index(st) {
        Some(i) => match next_question_id_spec(st.questions, st.answers, st.questions[i]) {
            Some(n) => (
                true,
                FlowState { questions: st.questions, answers: st.answers, history: st.history.push(n) },
            ),
            None => (false, st),
        },
        None => (false, st),
    }
}

/// Dropping the answers that the answers hide.
pub open spec fn prune_spec(st: FlowState) -> FlowState {
    FlowState {
        questions: st.questions,
        answers: pruned(st.questions, st.answers),
        history: st.history,
    }
}

/// "Back": forgets the current question unless it is the only one visited.
pub open spec fn go_back_spec(st: FlowState) -> (bool, FlowState) {
    if st.history.len() > 1 {
        (
            true,
            FlowState {
                questions: st.questions,
                answers: pruned(st.questions, st.answers),
                history: st.history.drop_last(),
            },
        )
    } else {
        (false, st)
    }
}

/// Jumping to `id`: back to its first visit if it was visited, else on to
/// it.
pub open spec fn jump_to_spec(st: FlowState, id: Seq<char>) -> FlowState {
    FlowState {
        questions: st.questions,
        answers: pruned(st.questions, st.answers),
        history: match st.history.index_of_first(id) {
            Some(i) => st.history.take(i + 1),
            None => st.history.push(id),
        },
    }
}

/// Recording `answer` for `id`, then dropping what it hides.
pub open spec fn answer_spec(st: FlowState, id: Seq<char>, answer: QuestionAnswer) -> FlowState {
    FlowState {
        questions: st.questions,
        answers: pruned(st.questions, st.answers.insert(id, answer)),
        history: st.history,
    }
}

/// There is nowhere for "next" to go.
pub open spec fn is_last_spec(st: FlowState) -> bool {
    match current_index(st) {
        Some(i) => next_question_id_spec(st.questions, st.answers, st.questions[i]) is None,
        None => true,
    }
}

/// How many of the first `n` questions the answers show.
pub open spec fn shown_count(qs: Seq<Question>, answers: Map<Seq<char>, QuestionAnswer>, n: int) -> nat
    decreases n,
{
    if n <= 0 {
        0
    } else {
        shown_count(qs, answers, n - 1) + if visible(qs[n - 1], answers) {
            1nat
        } else {
            0nat
        }
    }
}

pub proof fn lemma_shown_count_bound(qs: Seq<Question>, answers: Map<Seq<char>, QuestionAnswer>, n: int)
    requires
        n >= 0,
    ensures
        shown_count(qs, answers, n) <= n,
    decreases n,
{
    if n > 0 {
        lemma_shown_count_bound(qs, answers, n - 1);
    }
}

/// A form being filled in: its questions, the answers so far, and the ids
/// of the questions visited, the current one last.
pub struct FormFlowEngine {
    pub questions: Vec<Question>,
    pub answers: AnswerSheet,
    pub history: Vec<String>,
}

impl View for FormFlowEngine {
    type V = FlowState;

    open spec fn view(&self) -> FlowState {
        FlowState {
            questions: self.questions@,
            answers: self.answers@,
            history: views(self.history@),
        }
    }
}

/// The first position of `id` among the question ids.
fn find_question(qs: &Vec<Question>, id: &String) -> (r: Option<usize>)
    ensures
        opt_int(r) == question_ids(qs@).index_of_first(id@),
        r matches Some(i) ==> i < qs@.len(),
{
    let ghost ids = question_ids(qs@);
    let mut i: usize = 0;
    while i < qs.len()
        invariant
            i <= qs@.len(),
            ids == question_ids(qs@),
            forall|j: int| 0 <= j < i ==> #[trigger] ids[j] != id@,
        decreases qs@.len() - i,
    {
        if qs[i].id == *id {
            proof {
                assert(ids[i as int] == id@);
                ids.index_of_first_ensures(id@);
            }
            return Some(i);
        }
        i = i + 1;
    }
    proof {
        ids.index_of_first_ensures(id@);
    }
    None
}

pub open spec fn opt_int(r: Option<usize>) -> Option<int> {
    match r {
        Some(i) => Some(i as int),
        None => None,
    }
}

impl FormFlowEngine {
    /// A form at its first question, with no answers.
    pub fn new(questions: Vec<Question>) -> (e: Self)
        ensures
            e@ == start_spec(questions@),
    {
        let mut history: Vec<String> = Vec::new();
        if questions.len() > 0 {
            history.push(questions[0].id.clone());
        }
        let e = FormFlowEngine { questions, answers: AnswerSheet::new(), history };
        assert(e@.history =~= start_spec(e.questions@).history);
        e
    }

    fn current_index(&self) -> (r: Option<usize>)
        ensures
            opt_int(r) == current_index(self@),
            r matches Some(i) ==> i < self.questions@.len(),
    {
        let n = self.history.len();
        if n == 0 {
            return None;
        }
        let r = find_question(&self.questions, &self.history[n - 1]);
        proof {
            if let Some(i) = r {
                question_ids(self.questions@).index_of_first_ensures(
                    self.history@[n - 1]@,
                );
            }
        }
        r
    }

    /// The question being shown, if there is one.
    pub fn current_question(&self) -> (r: Option<&Question>)
        ensures
            r is Some <==> current_index(self@) is Some,
            r matches Some(q) ==> *q == self@.questions[current_index(self@)->0],
    {
        match self.current_index() {
            Some(i) => Some(&self.questions[i]),
            None => None,
        }
    }

    /// Whether the answers so far show `question`.
    pub fn is_visible(&self, question: &Question) -> (b: bool)
        ensures
            b == visible(*question, self@.answers),
    {
        match &question.visible_when {
            Some(cond) => cond.evaluate(&self.answers),
            None => true,
        }
    }

    /// How many questions the answers so far show.
    pub fn total_eligible_questions(&self) -> (n: usize)
        ensures
            n == shown_count(self@.questions, self@.answers, self@.questions.len() as int),
    {
        let mut count: usize = 0;
        let mut i: usize = 0;
        while i < self.questions.len()
            invariant
                i <= self.questions@.len(),
                count == shown_count(self@.questions, self@.answers, i as int),
            decreases self.questions@.len() - i,
        {
            proof {
                lemma_shown_count_bound(self@.questions, self@.answers, i as int);
            }
            if self.is_visible(&self.questions[i]) {
                count = count + 1;
            }
            i = i + 1;
        }
        count
    }

    /// How many questions have been visited, the current one included.
    pub fn current_step_index(&self) -> (n: usize)
        ensures
            n == self@.history.len(),
    {
        self.history.len()
    }

    #[verifier::loop_isolation(false)]
    fn option_target(&self, question: &Question) -> (r: Option<String>)
        ensures
            opt_view(r) == chosen_override(*question, self@.answers),
    {
        match self.answers.get(question.id.as_str()) {
            Some(QuestionAnswer::Choice(choice_id)) => {
                match &question.options {
                    Some(opts) => {
                        let ghost ids = option_ids(opts@);
                        let mut k: usize = 0;
                        while k < opts.len()
                            invariant
                                k <= opts@.len(),
                                ids == option_ids(opts@),
                                forall|j: int| 0 <= j < k ==> #[trigger] ids[j] != choice_id@,
                            decreases opts@.len() - k,
                        {
                            if opts[k].id == *choice_id {
                                proof {
                                    assert(ids[k as int] == choice_id@);
                                    ids.index_of_first_ensures(choice_id@);
                                }
                                return match &opts[k].next_question_id {
                                    Some(n) => Some(n.clone()),
                                    None => None,
                                };
                            }
                            k = k + 1;
                        }
                        proof {
                            ids.index_of_first_ensures(choice_id@);
                        }
                        None
                    },
                    None => None,
                }
            },
            _ => None,
        }
    }

    /// Where "next" leads from `current_question`.
    #[verifier::loop_isolation(false)]
    pub fn get_next_question_id(&self, current_question: &Question) -> (r: Option<String>)
        ensures
            opt_view(r) == next_question_id_spec(
                self@.questions,
                self@.answers,
                *current_question,
            ),
    {
        if let Some(target) = self.option_target(current_question) {
            return Some(target);
        }
        if let Some(fixed_next) = &current_question.next_question_id {
            return Some(fixed_next.clone());
        }
        let idx = match find_question(&self.questions, &current_question.id) {
            Some(i) => i,
            None => return None,
        };
        assert(idx < self.questions.len());
        let mut j: usize = idx + 1;
        while j < self.questions.len()
            invariant
                idx < self.questions@.len(),
                idx + 1 <= j <= self.questions@.len(),
                first_visible_from(self@.questions, self@.answers, (idx + 1) as int)
                    == first_visible_from(self@.questions, self@.answers, j as int),
            decreases self.questions@.len() - j,
        {
            if self.is_visible(&self.questions[j]) {
                return Some(self.questions[j].id.clone());
            }
            j = j + 1;
        }
        None
    }

    /// Whether "next" has nowhere to go from here.
    pub fn is_last_question(&self) -> (b: bool)
        ensures
            b == is_last_spec(self@),
    {
        match self.current_index() {
            Some(i) => self.get_next_question_id(&self.questions[i]).is_none(),
            None => true,
        }
    }

    /// Whether the summary lists `question`: it is shown by the answers so
    /// far, and is neither a statement nor the summary itself.
    pub fn in_summary(&self, question: &Question) -> (b: bool)
        ensures
            b == (visible(*question, self@.answers) && question.question_type != QuestionType::Statement
                && question.question_type != QuestionType::Summary),
    {
        self.is_visible(question) && question.question_type != QuestionType::Statement
            && question.question_type != QuestionType::Summary
    }

    /// The "continue" button: on the last question it asks for the form to
    /// be submitted (true) and changes nothing; elsewhere it moves on.
    pub fn next_or_submit(&mut self) -> (submit: bool)
        ensures
            submit == is_last_spec(old(self)@),
            final(self)@ == (if submit {
                old(self)@
            } else {
                go_next_spec(old(self)@).1
            }),
    {
        if self.is_last_question() {
            true
        } else {
            self.go_next();
            proof {
                law_last_question_means_next_stays(old(self)@);
            }
            false
        }
    }

    /// Moves on to where the current question leads; false, and nothing
    /// changes, when it leads nowhere.
    pub fn go_next(&mut self) -> (moved: bool)
        ensures
            (moved, final(self)@) == go_next_spec(old(self)@),
    {
        match self.current_index() {
            Some(i) => {
                let next = self.get_next_question_id(&self.questions[i]);
                match next {
                    Some(next_id) => {
                        self.history.push(next_id);
                        assert(self@.history =~= old(self)@.history.push(next_id@));
                        true
                    },
                    None => false,
                }
            },
            None => false,
        }
    }

    /// Drops every answer given for a question that the current answers
    /// hide (judged on the answers as they stood before any was dropped).
    pub fn prune_invalid_branch_answers(&mut self)
        ensures
            final(self)@ == prune_spec(old(self)@),
    {
        let ghost qs = self@.questions;
        let ghost before = self@.answers;
        let mut invalid_ids: Vec<String> = Vec::new();
        let mut i: usize = 0;
        while i < self.questions.len()
            invariant
                i <= self.questions@.len(),
                qs == self@.questions,
                before == self@.answers,
                forall|k: Seq<char>|
                    (exists|j: int| 0 <= j < invalid_ids@.len() && #[trigger] invalid_ids@[j]@ == k)
                        <==> #[trigger] hidden_among(qs, before, i as int).contains(k),
            decreases self.questions@.len() - i,
        {
            let ghost prev = invalid_ids@;
            let hide = !self.is_visible(&self.questions[i]);
            if hide {
                invalid_ids.push(self.questions[i].id.clone());
            }
            proof {
                let idk = qs[i as int].id@;
                assert forall|k: Seq<char>|
                    (exists|j: int|
                        0 <= j < invalid_ids@.len() && #[trigger] invalid_ids@[j]@ == k)
                        <==> #[trigger] hidden_among(qs, before, i + 1).contains(k) by {
                    let in_new = exists|j: int|
                        0 <= j < invalid_ids@.len() && #[trigger] invalid_ids@[j]@ == k;
                    let in_prev = exists|j: int| 0 <= j < prev.len() && #[trigger] prev[j]@ == k;
                    assert(in_new <==> (in_prev || (hide && k == idk))) by {
                        if in_new {
                            let j = choose|j: int|
                                0 <= j < invalid_ids@.len() && #[trigger] invalid_ids@[j]@ == k;
                            if j < prev.len() {
                                assert(prev[j] == invalid_ids@[j]);
                            }
                        }
                        if in_prev {
                            let j = choose|j: int| 0 <= j < prev.len() && #[trigger] prev[j]@ == k;
                            assert(prev[j] == invalid_ids@[j]);
                        }
                        if hide && k == idk {
                            assert(invalid_ids@[prev.len() as int]@ == k);
                        }
                    }
                    assert(hidden_among(qs, before, i + 1).contains(k) <==> (hidden_among(
                        qs,
                        before,
                        i as int,
                    ).contains(k) || (hide && k == idk))) by {
                        if hidden_among(qs, before, i + 1).contains(k) {
                            let t = choose|t: int|
                                0 <= t < i + 1 && #[trigger] qs[t].id@ == k && !visible(qs[t], before);
                            if t < i {
                                assert(hidden_among(qs, before, i as int).contains(k));
                            }
                        }
                        if hidden_among(qs, before, i as int).contains(k) {
                            let t = choose|t: int|
                                0 <= t < i && #[trigger] qs[t].id@ == k && !visible(qs[t], before);
                            assert(qs[t].id@ == k);
                        }
                        if hide && k == idk {
                            assert(qs[i as int].id@ == k);
                        }
                    }
                }
            }
            i = i + 1;
        }
        let mut j: usize = 0;
        while j < invalid_ids.len()
            invariant
                j <= invalid_ids@.len(),
                qs == self@.questions,
                self@.history == old(self)@.history,
                self@.answers == before.remove_keys(
                    Set::new(
                        |k: Seq<char>|
                            exists|t: int| 0 <= t < j && #[trigger] invalid_ids@[t]@ == k,
                    ),
                ),
            decreases invalid_ids@.len() - j,
        {
            self.answers.remove(invalid_ids[j].as_str());
            proof {
                let s0 = Set::new(
                    |k: Seq<char>| exists|t: int| 0 <= t < j && #[trigger] invalid_ids@[t]@ == k,
                );
                let s1 = Set::new(
                    |k: Seq<char>| exists|t: int| 0 <= t < j + 1 && #[trigger] invalid_ids@[t]@ == k,
                );
                assert forall|k: Seq<char>| #[trigger] s1.contains(k) <==> (s0.contains(k) || k == invalid_ids@[j as int]@) by {
                    if s1.contains(k) {
                        let t = choose|t: int| 0 <= t < j + 1 && #[trigger] invalid_ids@[t]@ == k;
                        if t < j {
                            assert(s0.contains(k));
                        }
                    }
                    if s0.contains(k) {
                        let t = choose|t: int| 0 <= t < j && #[trigger] invalid_ids@[t]@ == k;
                        assert(invalid_ids@[t]@ == k);
                    }
                    if k == invalid_ids@[j as int]@ {
                        assert(invalid_ids@[j as int]@ == k);
                    }
                }
                assert(self@.answers =~= before.remove_keys(s1));
            }
            j = j + 1;
        }
        proof {
            let s = Set::new(
                |k: Seq<char>| exists|t: int| 0 <= t < j && #[trigger] invalid_ids@[t]@ == k,
            );
            assert(s =~= hidden_ids(qs, before));
        }
        assert(self@ == prune_spec(old(self)@));
    }

    /// Records `answer` for the question `question_id`, then drops the
    /// answers that the new answers hide.
    pub fn answer_question(&mut self, question_id: String, answer: QuestionAnswer)
        ensures
            final(self)@ == answer_spec(old(self)@, question_id@, answer),
    {
        self.answers.insert(question_id, answer);
        self.prune_invalid_branch_answers();
    }

    /// Goes back one question and drops the answers that the answers hide;
    /// false, and nothing changes, at the first question.
    pub fn go_back(&mut self) -> (moved: bool)
        ensures
            (moved, final(self)@) == go_back_spec(old(self)@),
    {
        if self.history.len() > 1 {
            self.history.pop();
            assert(self@.history =~= old(self)@.history.drop_last());
            self.prune_invalid_branch_answers();
            true
        } else {
            false
        }
    }

    fn history_position(&self, id: &String) -> (r: Option<usize>)
        ensures
            opt_int(r) == self@.history.index_of_first(id@),
            r matches Some(i) ==> i < self.history@.len(),
    {
        let ghost h = self@.history;
        let mut i: usize = 0;
        while i < self.history.len()
            invariant
                i <= self.history@.len(),
                h == views(self.history@),
                forall|j: int| 0 <= j < i ==> #[trigger] h[j] != id@,
            decreases self.history@.len() - i,
        {
            if self.history[i] == *id {
                proof {
                    assert(h[i as int] == id@);
                    h.index_of_first_ensures(id@);
                }
                return Some(i);
            }
            i = i + 1;
        }
        proof {
            h.index_of_first_ensures(id@);
        }
        None
    }

    /// Returns to `question_id` if it was visited (forgetting what came
    /// after its first visit), else visits it; then drops the answers that
    /// the answers hide.
    pub fn jump_to(&mut self, question_id: String)
        ensures
            final(self)@ == jump_to_spec(old(self)@, question_id@),
    {
        let ghost h = self@.history;
        let found = self.history_position(&question_id);
        proof {
            h.index_of_first_ensures(question_id@);
        }
        match found {
            Some(idx) => {
                assert(idx < self.history.len());
                self.history.truncate(idx + 1);
                assert(self@.history =~= h.take(idx + 1));
            },
            None => {
                self.history.push(question_id);
                assert(self@.history =~= h.push(question_id@));
            },
        }
        self.prune_invalid_branch_answers();
    }
}

// ---------------------------------------------------------------------------
// Laws of the engine, over the transitions its methods are proved to take.
// ---------------------------------------------------------------------------
/// "Back" right after a "next" that moved returns to the questions visited
/// before it; the only answers it drops are those the answers hide.
pub proof fn law_back_undoes_next(st: FlowState)
    requires
        go_next_spec(st).0,
    ensures
        go_back_spec(go_next_spec(st).1).0,
        go_back_spec(go_next_spec(st).1).1.history == st.history,
        go_back_spec(go_next_spec(st).1).1.questions == st.questions,
        go_back_spec(go_next_spec(st).1).1.answers == pruned(st.questions, st.answers),
{
    let s1 = go_next_spec(st).1;
    assert(s1.history.drop_last() =~= st.history);
}

/// The question is the last one exactly when "next" would not move.
pub proof fn law_last_question_means_next_stays(st: FlowState)
    ensures
        is_last_spec(st) == !go_next_spec(st).0,
        !go_next_spec(st).0 ==> go_next_spec(st).1 == st,
{
}

/// After an answer is recorded, reading it back gives that answer, unless
/// a question with that id is hidden by the answers as they now stand.
pub proof fn law_answer_reads_back(st: FlowState, id: Seq<char>, answer: QuestionAnswer)
    requires
        forall|i: int|
            0 <= i < st.questions.len() && #[trigger] st.questions[i].id@ == id ==> visible(
                st.questions[i],
                st.answers.insert(id, answer),
            ),
    ensures
        answer_spec(st, id, answer).answers.contains_key(id),
        answer_spec(st, id, answer).answers[id] == answer,
{
    let m = st.answers.insert(id, answer);
    assert(!hidden_ids(st.questions, m).contains(id));
}

/// No answer is kept for a question that the answers (as they stood before
/// dropping) hide.
pub proof fn law_hidden_questions_keep_no_answer(st: FlowState, i: int)
    requires
        0 <= i < st.questions.len(),
        !visible(st.questions[i], st.answers),
    ensures
        !prune_spec(st).answers.contains_key(st.questions[i].id@),
        !go_back_spec(st).0 || !go_back_spec(st).1.answers.contains_key(st.questions[i].id@),
{
    assert(hidden_ids(st.questions, st.answers).contains(st.questions[i].id@));
}

/// Jumping to a question already visited goes back to its first visit: the
/// visits after it are forgotten and it is current again.
pub proof fn law_jump_to_visited_returns_there(st: FlowState, id: Seq<char>)
    requires
        st.history.contains(id),
    ensures
        jump_to_spec(st, id).history.len() <= st.history.len(),
        jump_to_spec(st, id).history == st.history.take(jump_to_spec(st, id).history.len() as int),
        jump_to_spec(st, id).history.last() == id,
{
    st.history.index_of_first_ensures(id);
}

/// Once a question has been visited, no step leaves the engine without a
/// current position in its history.
pub proof fn law_history_stays_nonempty(st: FlowState, id: Seq<char>)
    requires
        st.history.len() >= 1,
    ensures
        go_next_spec(st).1.history.len() >= 1,
        go_back_spec(st).1.history.len() >= 1,
        jump_to_spec(st, id).history.len() >= 1,
        prune_spec(st).history.len() >= 1,
{
    st.history.index_of_first_ensures(id);
}

/// The option picked for a question decides where "next" leads: when the
/// answer to `q` is the choice `c` and the first option of `q` with id `c`
/// names a next question `n`, next leads to `n`, whatever `q` itself names.
pub proof fn law_picked_option_leads(
    qs: Seq<Question>,
    answers: Map<Seq<char>, QuestionAnswer>,
    q: Question,
    c: String,
    os: Vec<QuestionOption>,
    k: int,
    n: String,
)
    requires
        answers.contains_key(q.id@),
        answers[q.id@] == QuestionAnswer::Choice(c),
        q.options == Some(os),
        0 <= k < os@.len(),
        os@[k].id@ == c@,
        forall|j: int| 0 <= j < k ==> #[trigger] os@[j].id@ != c@,
        os@[k].next_question_id == Some(n),
    ensures
        next_question_id_spec(qs, answers, q) == Some(n@),
{
    let ids = option_ids(os@);
    ids.index_of_first_ensures(c@);
    assert(ids[k] == c@);
    match ids.index_of_first(c@) {
        Some(i) => {
            if i < k {
                assert(os@[i].id@ == ids[i]);
            }
            if k < i {
                assert(ids[k] == c@);
            }
            assert(i == k);
        },
        None => {
            assert(ids.contains(c@));
        },
    }
}

/// "Continue" on a question whose picked option names a target goes to
/// that target.
pub proof fn law_next_follows_picked_option(
    st: FlowState,
    i: int,
    c: String,
    os: Vec<QuestionOption>,
    k: int,
    n: String,
)
    requires
        current_index(st) == Some(i),
        st.answers.contains_key(st.questions[i].id@),
        st.answers[st.questions[i].id@] == QuestionAnswer::Choice(c),
        st.questions[i].options == Some(os),
        0 <= k < os@.len(),
        os@[k].id@ == c@,
        forall|j: int| 0 <= j < k ==> #[trigger] os@[j].id@ != c@,
        os@[k].next_question_id == Some(n),
    ensures
        go_next_spec(st).0,
        go_next_spec(st).1.history == st.history.push(n@),
        go_next_spec(st).1.answers == st.answers,
{
    law_picked_option_leads(st.questions, st.answers, st.questions[i], c, os, k, n);
}

/// A question's own target is where "next" leads when no option was
/// picked for it (it has no answer, or its answer is not a choice).
pub proof fn law_own_target_without_choice(
    qs: Seq<Question>,
    answers: Map<Seq<char>, QuestionAnswer>,
    q: Question,
    m: String,
)
    requires
        q.next_question_id == Some(m),
        !answers.contains_key(q.id@) || !(answers[q.id@] is Choice),
    ensures
        next_question_id_spec(qs, answers, q) == Some(m@),
{
}

/// A picked option that names no target, or a choice that matches no
/// option, leaves the question's own target in charge.
pub proof fn law_own_target_when_option_names_none(
    qs: Seq<Question>,
    answers: Map<Seq<char>, QuestionAnswer>,
    q: Question,
    c: String,
    os: Vec<QuestionOption>,
    m: String,
)
    requires
        q.next_question_id == Some(m),
        answers.contains_key(q.id@),
        answers[q.id@] == QuestionAnswer::Choice(c),
        q.options == Some(os),
        forall|k: int|
            0 <= k < os@.len() && #[trigger] os@[k].id@ == c@ && (forall|j: int| 0 <= j < k ==> os@[j].id@ != c@)
                ==> os@[k].next_question_id is None,
    ensures
        next_question_id_spec(qs, answers, q) == Some(m@),
{
    let ids = option_ids(os@);
    ids.index_of_first_ensures(c@);
    if let Some(i) = ids.index_of_first(c@) {
        assert(os@[i].id@ == c@);
        assert forall|j: int| 0 <= j < i implies os@[j].id@ != c@ by {
            assert(ids[j] == os@[j].id@);
        }
    }
}

/// With no target named, "next" leads to the first question after `q` (in
/// form order, from `q`'s first position) that the answers show: every
/// question between them is hidden; and nowhere when none is shown.
pub proof fn law_next_in_order_is_first_shown_after(
    qs: Seq<Question>,
    answers: Map<Seq<char>, QuestionAnswer>,
    q: Question,
    p: int,
)
    requires
        q.next_question_id is None,
        !answers.contains_key(q.id@) || !(answers[q.id@] is Choice),
        0 <= p < qs.len(),
        qs[p].id@ == q.id@,
        forall|j: int| 0 <= j < p ==> #[trigger] qs[j].id@ != q.id@,
    ensures
        next_question_id_spec(qs, answers, q) matches Some(n) ==> exists|t: int|
            p < t < qs.len() && qs[t].id@ == n && visible(qs[t], answers) && forall|u: int|
                p < u < t ==> !visible(#[trigger] qs[u], answers),
        next_question_id_spec(qs, answers, q) is None ==> forall|u: int|
            p < u < qs.len() ==> !visible(#[trigger] qs[u], answers),
{
    let ids = question_ids(qs);
    ids.index_of_first_ensures(q.id@);
    assert(ids[p] == q.id@);
    match ids.index_of_first(q.id@) {
        Some(i) => {
            if i < p {
                assert(qs[i].id@ == ids[i]);
            }
            assert(i == p);
        },
        None => {},
    }
    lemma_first_visible_from(qs, answers, p + 1);
}

proof fn lemma_first_visible_from(qs: Seq<Question>, answers: Map<Seq<char>, QuestionAnswer>, start: int)
    requires
        0 <= start,
    ensures
        first_visible_from(qs, answers, start) matches Some(t) ==> start <= t < qs.len() && visible(qs[t], answers)
            && forall|u: int| start <= u < t ==> !visible(#[trigger] qs[u], answers),
        first_visible_from(qs, answers, start) is None ==> forall|u: int|
            start <= u < qs.len() ==> !visible(#[trigger] qs[u], answers),
    decreases qs.len() - start,
{
    if start < qs.len() && !visible(qs[start], answers) {
        lemma_first_visible_from(qs, answers, start + 1);
    }
}

} // verus!
