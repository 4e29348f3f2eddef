//! Questions and the options a choice question offers.
use vstd::prelude::*;
use super::condition::Condition;

verus! {

/// What kind of input a question asks for.
#[derive(Debug, Clone, Copy, PartialEq, Eq, Structural, Default)]
pub enum QuestionType {
    #[default]
    Statement,
    SingleChoice,
    MultipleChoice,
    ShortText,
    LongText,
    Email,
    Phone,
    Url,
    Number,
    Summary,
}

impl QuestionType {
    /// The question is answered by picking options.
    pub fn is_choice(&self) -> (b: bool)
        ensures
            b == (*self == QuestionType::SingleChoice || *self == QuestionType::MultipleChoice),
    {
        match self {
            QuestionType::SingleChoice | QuestionType::MultipleChoice => true,
            _ => false,
        }
    }

    /// The question is answered by typing.
    pub fn is_text_input(&self) -> (b: bool)
        ensures
            b == (*self == QuestionType::ShortText || *self == QuestionType::LongText || *self
                == QuestionType::Email || *self == QuestionType::Phone || *self
                == QuestionType::Url || *self == QuestionType::Number),
    {
        match self {
            QuestionType::ShortText | QuestionType::LongText | QuestionType::Email
            | QuestionType::Phone | QuestionType::Url | QuestionType::Number => true,
            _ => false,
        }
    }
}

/// One option of a choice question; picking it may send the form to a
/// question of its own.
#[derive(Debug, Clone)]
pub struct QuestionOption {
    pub id: String,
    pub label: String,
    pub description: Option<String>,
    pub key_shortcut: Option<String>,
    pub next_question_id: Option<String>,
}

impl QuestionOption {
    /// An option with an id and a label and nothing else.
    pub fn new(id: &str, label: &str) -> (o: Self)
        ensures
            o.id@ == id@,
            o.label@ == label@,
            o.description is None,
            o.key_shortcut is None,
            o.next_question_id is None,
    {
        QuestionOption {
            id: id.to_owned(),
            label: label.to_owned(),
            description: None,
            key_shortcut: None,
            next_question_id: None,
        }
    }

    /// The same option with a keyboard shortcut.
    pub fn with_shortcut(self, shortcut: &str) -> (o: Self)
        ensures
            o.id == self.id,
            o.label == self.label,
            o.description == self.description,
            o.next_question_id == self.next_question_id,
            o.key_shortcut matches Some(k) && k@ == shortcut@,
    {
        let mut o = self;
        o.key_shortcut = Some(shortcut.to_owned());
        o
    }

    /// The same option, now leading to the question `next_id` when picked.
    pub fn with_next(self, next_id: &str) -> (o: Self)
        ensures
            o.id == self.id,
            o.label == self.label,
            o.description == self.description,
            o.key_shortcut == self.key_shortcut,
            o.next_question_id matches Some(n) && n@ == next_id@,
    {
        let mut o = self;
        o.next_question_id = Some(next_id.to_owned());
        o
    }
}

/// One step of the form.
#[derive(Debug)]
pub struct Question {
    pub id: String,
    pub section: String,
    pub title: String,
    pub description: Option<String>,
    pub question_type: QuestionType,
    pub required: bool,
    pub options: Option<Vec<QuestionOption>>,
    pub placeholder: Option<String>,
    pub help_examples: Option<Vec<String>>,
    /// Shown only while this holds of the answers; always shown when absent.
    pub visible_when: Option<Condition>,
    /// Where the form goes after this question, unless a picked option says
    /// otherwise.
    pub next_question_id: Option<String>,
}

impl Question {
    /// A question with an id, a section, a title and a type, optional and
    /// always shown.
    pub fn new(id: &str, section: &str, title: &str, q_type: QuestionType) -> (q: Self)
        ensures
            q.id@ == id@,
            q.section@ == section@,
            q.title@ == title@,
            q.description is None,
            q.question_type == q_type,
            !q.required,
            q.options is None,
            q.placeholder is None,
            q.help_examples is None,
            q.visible_when is None,
            q.next_question_id is None,
    {
        Question {
            id: id.to_owned(),
            section: section.to_owned(),
            title: title.to_owned(),
            description: None,
            question_type: q_type,
            required: false,
            options: None,
            placeholder: None,
            help_examples: None,
            visible_when: None,
            next_question_id: None,
        }
    }
}

} // verus!
