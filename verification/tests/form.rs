use ui_kit::form::answer::toggle_choice;
use ui_kit::form::locale::prefers_portuguese;
use ui_kit::{AnswerSheet, Condition, FormFlowEngine, Question, QuestionAnswer, QuestionOption, QuestionType};

fn choice_q(id: &str, options: Vec<QuestionOption>) -> Question {
    let mut q = Question::new(id, "Section", "Pick one", QuestionType::SingleChoice);
    q.options = Some(options);
    q
}

fn text_q(id: &str) -> Question {
    Question::new(id, "Section", "Type", QuestionType::ShortText)
}

fn equals(id: &str, value: &str) -> Condition {
    Condition::Equals { question_id: id.to_string(), value: value.to_string() }
}

/// A form whose second question only shows when the first was answered "yes".
fn branching_form() -> Vec<Question> {
    let mut follow_up = text_q("details");
    follow_up.visible_when = Some(equals("has_pet", "yes"));
    vec![
        choice_q("has_pet", vec![QuestionOption::new("yes", "Yes"), QuestionOption::new("no", "No")]),
        follow_up,
        text_q("email"),
    ]
}

fn current_id(engine: &FormFlowEngine) -> Option<String> {
    engine.current_question().map(|q| q.id.clone())
}

#[test]
fn a_new_form_starts_at_its_first_question() {
    let engine = FormFlowEngine::new(branching_form());
    assert_eq!(current_id(&engine).as_deref(), Some("has_pet"));
    assert_eq!(engine.current_step_index(), 1);
    assert_eq!(engine.answers.len(), 0);
    let empty = FormFlowEngine::new(Vec::new());
    assert!(empty.current_question().is_none());
    assert!(empty.is_last_question());
    assert_eq!(empty.current_step_index(), 0);
}

#[test]
fn hidden_questions_are_skipped() {
    let mut engine = FormFlowEngine::new(branching_form());
    engine.answer_question("has_pet".to_string(), QuestionAnswer::Choice("no".to_string()));
    assert!(engine.go_next());
    assert_eq!(current_id(&engine).as_deref(), Some("email"));
    assert_eq!(engine.total_eligible_questions(), 2);
}

#[test]
fn a_shown_follow_up_comes_next() {
    let mut engine = FormFlowEngine::new(branching_form());
    engine.answer_question("has_pet".to_string(), QuestionAnswer::Choice("yes".to_string()));
    assert_eq!(engine.total_eligible_questions(), 3);
    assert!(engine.go_next());
    assert_eq!(current_id(&engine).as_deref(), Some("details"));
    assert!(engine.go_next());
    assert_eq!(current_id(&engine).as_deref(), Some("email"));
    assert!(engine.is_last_question());
    assert!(!engine.go_next());
    assert_eq!(engine.current_step_index(), 3);
}

#[test]
fn back_undoes_next() {
    let mut engine = FormFlowEngine::new(branching_form());
    assert!(engine.go_next());
    assert_eq!(engine.history, vec!["has_pet".to_string(), "email".to_string()]);
    assert!(engine.go_back());
    assert_eq!(engine.history, vec!["has_pet".to_string()]);
    assert!(!engine.go_back());
    assert_eq!(engine.history, vec!["has_pet".to_string()]);
}

#[test]
fn an_answer_reads_back() {
    let mut engine = FormFlowEngine::new(branching_form());
    engine.answer_question("email".to_string(), QuestionAnswer::Text("a@b.c".to_string()));
    match engine.answers.get("email") {
        Some(QuestionAnswer::Text(t)) => assert_eq!(t, "a@b.c"),
        _ => panic!("answer lost"),
    }
    engine.answer_question("email".to_string(), QuestionAnswer::Text("x@y.z".to_string()));
    assert_eq!(engine.answers.len(), 1);
    match engine.answers.get("email") {
        Some(QuestionAnswer::Text(t)) => assert_eq!(t, "x@y.z"),
        _ => panic!("answer lost"),
    }
}

#[test]
fn changing_a_branch_drops_the_answers_it_hid() {
    let mut engine = FormFlowEngine::new(branching_form());
    engine.answer_question("has_pet".to_string(), QuestionAnswer::Choice("yes".to_string()));
    engine.answer_question("details".to_string(), QuestionAnswer::Text("a cat".to_string()));
    assert!(engine.answers.get("details").is_some());
    engine.answer_question("has_pet".to_string(), QuestionAnswer::Choice("no".to_string()));
    assert!(engine.answers.get("details").is_none());
    assert!(engine.answers.get("has_pet").is_some());
}

#[test]
fn an_option_can_send_the_form_elsewhere() {
    let questions = vec![
        choice_q("start", vec![QuestionOption::new("a", "A").with_next("end"), QuestionOption::new("b", "B")]),
        text_q("middle"),
        text_q("end"),
    ];
    let mut engine = FormFlowEngine::new(questions);
    engine.answer_question("start".to_string(), QuestionAnswer::Choice("a".to_string()));
    assert!(engine.go_next());
    assert_eq!(current_id(&engine).as_deref(), Some("end"));
    engine.jump_to("start".to_string());
    engine.answer_question("start".to_string(), QuestionAnswer::Choice("b".to_string()));
    assert!(engine.go_next());
    assert_eq!(current_id(&engine).as_deref(), Some("middle"));
}

#[test]
fn a_question_can_name_its_successor() {
    let mut first = text_q("first");
    first.next_question_id = Some("third".to_string());
    let mut engine = FormFlowEngine::new(vec![first, text_q("second"), text_q("third")]);
    let next = engine.get_next_question_id(&engine.questions[0]);
    assert_eq!(next.as_deref(), Some("third"));
    assert!(engine.go_next());
    assert_eq!(current_id(&engine).as_deref(), Some("third"));
}

#[test]
fn jumping_back_forgets_later_steps() {
    let questions = vec![text_q("a"), text_q("b"), text_q("c")];
    let mut engine = FormFlowEngine::new(questions);
    assert!(engine.go_next());
    assert!(engine.go_next());
    assert_eq!(engine.current_step_index(), 3);
    engine.jump_to("b".to_string());
    assert_eq!(engine.history, vec!["a".to_string(), "b".to_string()]);
    engine.jump_to("c".to_string());
    assert_eq!(engine.history, vec!["a".to_string(), "b".to_string(), "c".to_string()]);
}

#[test]
fn conditions_combine() {
    let mut sheet = AnswerSheet::new();
    sheet.insert("color".to_string(), QuestionAnswer::Text("dark blue".to_string()));
    sheet.insert("tags".to_string(), QuestionAnswer::MultipleChoices(vec!["x".to_string(), "y".to_string()]));
    let includes = Condition::Includes { question_id: "color".to_string(), value: "blue".to_string() };
    assert!(includes.evaluate(&sheet));
    assert!(!equals("color", "blue").evaluate(&sheet));
    assert!(equals("tags", "y").evaluate(&sheet));
    assert!(!equals("missing", "y").evaluate(&sheet));
    let both = Condition::And { conditions: vec![includes, equals("tags", "x")] };
    assert!(both.evaluate(&sheet));
    let either = Condition::Or { conditions: vec![equals("tags", "z"), equals("color", "red")] };
    assert!(!either.evaluate(&sheet));
    assert!(Condition::Not { condition: Box::new(either) }.evaluate(&sheet));
    assert!(Condition::And { conditions: Vec::new() }.evaluate(&sheet));
    assert!(!Condition::Or { conditions: Vec::new() }.evaluate(&sheet));
    sheet.insert("n".to_string(), QuestionAnswer::Number(2.5f64.to_bits()));
    assert!(!equals("n", "2.5").evaluate(&sheet));
}

#[test]
fn answers_know_when_they_are_empty() {
    assert!(QuestionAnswer::Text(" \t\n".to_string()).is_empty());
    assert!(!QuestionAnswer::Text(" a ".to_string()).is_empty());
    assert!(QuestionAnswer::Choice("\u{3000}".to_string()).is_empty());
    assert!(QuestionAnswer::MultipleChoices(Vec::new()).is_empty());
    assert!(QuestionAnswer::Unanswered.is_empty());
    assert!(!QuestionAnswer::Number(0).is_empty());
}

#[test]
fn answers_read_as_text() {
    assert_eq!(QuestionAnswer::Text("hi".to_string()).display_text().as_deref(), Some("hi"));
    assert_eq!(
        QuestionAnswer::MultipleChoices(vec!["a".to_string(), "b".to_string(), "c".to_string()]).display_text().as_deref(),
        Some("a, b, c")
    );
    assert_eq!(QuestionAnswer::Unanswered.display_text().as_deref(), Some("Não respondido"));
    assert_eq!(QuestionAnswer::Number(1.0f64.to_bits()).display_text(), None);
}

#[test]
fn toggling_a_choice_adds_or_removes_it() {
    let start = vec!["a".to_string(), "b".to_string(), "a".to_string()];
    assert_eq!(toggle_choice(&start, &"a".to_string()), vec!["b".to_string()]);
    assert_eq!(toggle_choice(&start, &"c".to_string()), vec!["a".to_string(), "b".to_string(), "a".to_string(), "c".to_string()]);
}

#[test]
fn builders_fill_their_fields() {
    let o = QuestionOption::new("id", "Label").with_shortcut("K").with_next("q9");
    assert_eq!(o.key_shortcut.as_deref(), Some("K"));
    assert_eq!(o.next_question_id.as_deref(), Some("q9"));
    assert_eq!(o.label, "Label");
    let q = Question::new("q", "S", "T", QuestionType::Email);
    assert_eq!(q.question_type, QuestionType::Email);
    assert!(!q.required);
    assert!(QuestionType::MultipleChoice.is_choice());
    assert!(!QuestionType::Email.is_choice());
    assert!(QuestionType::Number.is_text_input());
    assert!(!QuestionType::Summary.is_text_input());
}

#[test]
fn the_sheet_removes_and_lists_entries() {
    let mut sheet = AnswerSheet::new();
    sheet.insert("a".to_string(), QuestionAnswer::Unanswered);
    sheet.insert("b".to_string(), QuestionAnswer::Choice("x".to_string()));
    sheet.remove("a");
    sheet.remove("zzz");
    assert_eq!(sheet.len(), 1);
    let (k, _) = sheet.entry(0);
    assert_eq!(k, "b");
}

#[test]
fn continue_moves_on_until_the_last_question_then_submits() {
    let mut engine = FormFlowEngine::new(branching_form());
    engine.answer_question("has_pet".to_string(), QuestionAnswer::Choice("no".to_string()));
    assert!(!engine.next_or_submit());
    assert_eq!(current_id(&engine).as_deref(), Some("email"));
    assert!(engine.next_or_submit());
    assert_eq!(current_id(&engine).as_deref(), Some("email"));
    assert_eq!(engine.current_step_index(), 2);
}

#[test]
fn the_summary_lists_shown_questions_only() {
    let with_extras = || {
        let mut questions = branching_form();
        questions.push(Question::new("intro", "Section", "Welcome", QuestionType::Statement));
        questions.push(Question::new("review", "Section", "Review", QuestionType::Summary));
        questions
    };
    let questions = with_extras();
    let mut engine = FormFlowEngine::new(with_extras());
    assert!(engine.in_summary(&questions[0]));
    assert!(!engine.in_summary(&questions[1]));
    assert!(engine.in_summary(&questions[2]));
    assert!(!engine.in_summary(&questions[3]));
    assert!(!engine.in_summary(&questions[4]));
    engine.answer_question("has_pet".to_string(), QuestionAnswer::Choice("yes".to_string()));
    assert!(engine.in_summary(&questions[1]));
}

#[test]
fn portuguese_is_chosen_by_its_tag() {
    assert!(prefers_portuguese("pt"));
    assert!(prefers_portuguese("pt-BR"));
    assert!(prefers_portuguese("PT"));
    assert!(prefers_portuguese("Pt_pt"));
    assert!(!prefers_portuguese("en"));
    assert!(!prefers_portuguese("p"));
    assert!(!prefers_portuguese(""));
    assert!(!prefers_portuguese(" pt"));
}
