//! Answers, and the sheet that keeps at most one answer per question id.
use vstd::prelude::*;
use crate::text::{all_white, contains_string, is_blank, join_strings, joined, seq_has_string, views};

verus! {

/// What was given for one question. A numeric answer is kept as the bit
/// pattern of its `f64`, which is all the form logic ever compares.
#[derive(Debug, Clone)]
pub enum QuestionAnswer {
    Text(String),
    Choice(String),
    MultipleChoices(Vec<String>),
    Number(u64),
    Unanswered,
}

impl QuestionAnswer {
    /// Nothing that counts as an answer was given.
    pub open spec fn is_empty_spec(&self) -> bool {
        match self {
            QuestionAnswer::Text(s) => all_white(s@),
            QuestionAnswer::Choice(s) => all_white(s@),
            QuestionAnswer::MultipleChoices(v) => v@.len() == 0,
            QuestionAnswer::Unanswered => true,
            QuestionAnswer::Number(_) => false,
        }
    }

    /// Whether the answer is blank: white space only, no choices, or none.
    pub fn is_empty(&self) -> (b: bool)
        ensures
            b == self.is_empty_spec(),
    {
        match self {
            QuestionAnswer::Text(s) => is_blank(s.as_str()),
            QuestionAnswer::Choice(s) => is_blank(s.as_str()),
            QuestionAnswer::MultipleChoices(v) => v.len() == 0,
            QuestionAnswer::Unanswered => true,
            QuestionAnswer::Number(_) => false,
        }
    }

    /// The text of the answer, as a summary shows it; `None` for a number,
    /// whose decimal form is written from its `f64` by the caller.
    pub fn display_text(&self) -> (r: Option<String>)
        ensures
            self is Number <==> r is None,
            self matches QuestionAnswer::Text(s) ==> r->0@ == s@,
            self matches QuestionAnswer::Choice(s) ==> r->0@ == s@,
            self matches QuestionAnswer::MultipleChoices(v) ==> r->0@ == joined(
                views(v@),
                ", "@,
            ),
            self is Unanswered ==> r->0@ == "Não respondido"@,
    {
        match self {
            QuestionAnswer::Text(s) => Some(s.clone()),
            QuestionAnswer::Choice(s) => Some(s.clone()),
            QuestionAnswer::MultipleChoices(v) => Some(join_strings(v, ", ")),
            QuestionAnswer::Number(_) => None,
            QuestionAnswer::Unanswered => Some("Não respondido".to_owned()),
        }
    }
}

/// The answers given so far, at most one per question id.
pub struct AnswerSheet {
    entries: Vec<(String, QuestionAnswer)>,
}

impl AnswerSheet {
    #[verifier::type_invariant]
    spec fn keys_distinct(self) -> bool {
        forall|i: int, j: int|
            0 <= i < j < self.entries@.len() ==> #[trigger] self.entries@[i].0@
                != #[trigger] self.entries@[j].0@
    }

    spec fn has_key_at(self, k: Seq<char>, i: int) -> bool {
        0 <= i < self.entries@.len() && self.entries@[i].0@ == k
    }

    /// The sheet as a map from question id to answer.
    pub closed spec fn answers(self) -> Map<Seq<char>, QuestionAnswer> {
        Map::new(
            |k: Seq<char>| exists|i: int| self.has_key_at(k, i),
            |k: Seq<char>| self.entries@[choose|i: int| self.has_key_at(k, i)].1,
        )
    }

    proof fn lemma_entry(self, i: int)
        requires
            self.keys_distinct(),
            0 <= i < self.entries@.len(),
        ensures
            self.answers().contains_key(self.entries@[i].0@),
            self.answers()[self.entries@[i].0@] == self.entries@[i].1,
    {
        let k = self.entries@[i].0@;
        assert(self.has_key_at(k, i));
        let j = choose|j: int| self.has_key_at(k, j);
        if j != i {
            if i < j {
                assert(self.entries@[i].0@ != self.entries@[j].0@);
            } else {
                assert(self.entries@[j].0@ != self.entries@[i].0@);
            }
        }
    }

    proof fn lemma_absent(self, k: Seq<char>)
        requires
            forall|i: int| 0 <= i < self.entries@.len() ==> #[trigger] self.entries@[i].0@ != k,
        ensures
            !self.answers().contains_key(k),
    {
    }

    /// An empty sheet.
    pub fn new() -> (s: Self)
        ensures
            s@ == Map::<Seq<char>, QuestionAnswer>::empty(),
    {
        let s = AnswerSheet { entries: Vec::new() };
        assert(s@ =~= Map::<Seq<char>, QuestionAnswer>::empty());
        s
    }

    /// The position of `id` in the sheet, if it has an answer.
    fn position(&self, id: &String) -> (r: Option<usize>)
        ensures
            r matches Some(i) ==> i < self.entries@.len() && self.entries@[i as int].0@ == id@,
            r is None ==> forall|i: int|
                0 <= i < self.entries@.len() ==> #[trigger] self.entries@[i].0@ != id@,
    {
        let mut i: usize = 0;
        while i < self.entries.len()
            invariant
                i <= self.entries@.len(),
                forall|j: int| 0 <= j < i ==> #[trigger] self.entries@[j].0@ != id@,
            decreases self.entries@.len() - i,
        {
            if self.entries[i].0 == *id {
                return Some(i);
            }
            i = i + 1;
        }
        None
    }

    /// The answer given for `id`, if any.
    pub fn get(&self, id: &str) -> (r: Option<&QuestionAnswer>)
        ensures
            r is Some <==> self@.contains_key(id@),
            r matches Some(a) ==> *a == self@[id@],
    {
        proof {
            use_type_invariant(self);
        }
        let key = id.to_owned();
        match self.position(&key) {
            Some(i) => {
                proof {
                    self.lemma_entry(i as int);
                }
                Some(&self.entries[i].1)
            },
            None => {
                proof {
                    self.lemma_absent(id@);
                }
                None
            },
        }
    }

    /// Records `answer` for `id`, replacing any earlier answer for it.
    pub fn insert(&mut self, id: String, answer: QuestionAnswer)
        ensures
            final(self)@ == old(self)@.insert(id@, answer),
    {
        proof {
            use_type_invariant(&*self);
        }
        let ghost old_self = *self;
        let pos = self.position(&id);
        let mut entries = Vec::new();
        std::mem::swap(&mut entries, &mut self.entries);
        let ghost old_entries = entries@;
        match pos {
            Some(i) => {
                entries.set(i, (id, answer));
            },
            None => {
                entries.push((id, answer));
            },
        }
        assert forall|i: int, j: int|
            0 <= i < j < entries@.len() implies #[trigger] entries@[i].0@
            != #[trigger] entries@[j].0@ by {
            if j < old_entries.len() {
                assert(old_entries[i].0@ != old_entries[j].0@);
            }
        }
        *self = AnswerSheet { entries };
        proof {
            let m = old_self@.insert(id@, answer);
            let n = old_entries.len();
            assert forall|k: Seq<char>| #[trigger] self@.contains_key(k) <==> m.contains_key(k) by {
                if k == id@ {
                    let i: int = match pos {
                        Some(p) => p as int,
                        Option::None => n as int,
                    };
                    assert(self.has_key_at(k, i));
                } else {
                    if self@.contains_key(k) {
                        let i = choose|i: int| self.has_key_at(k, i);
                        assert(old_self.has_key_at(k, i));
                    }
                    if m.contains_key(k) {
                        let i = choose|i: int| old_self.has_key_at(k, i);
                        assert(self.has_key_at(k, i));
                    }
                }
            }
            assert forall|k: Seq<char>| #[trigger] self@.contains_key(k) implies self@[k] == m[k] by {
                let i = choose|i: int| self.has_key_at(k, i);
                self.lemma_entry(i);
                if k != id@ {
                    old_self.lemma_entry(i);
                }
            }
            assert(self@ =~= m);
        }
    }

    /// Drops the answer for `id`, if there is one.
    pub fn remove(&mut self, id: &str)
        ensures
            final(self)@ == old(self)@.remove(id@),
    {
        proof {
            use_type_invariant(&*self);
        }
        let ghost old_self = *self;
        let key = id.to_owned();
        match self.position(&key) {
            Some(p) => {
                let mut entries = Vec::new();
                std::mem::swap(&mut entries, &mut self.entries);
                let ghost old_entries = entries@;
                entries.remove(p);
                assert forall|i: int, j: int|
                    0 <= i < j < entries@.len() implies #[trigger] entries@[i].0@
                    != #[trigger] entries@[j].0@ by {
                    let oi = if i < p { i } else { i + 1 };
                    let oj = if j < p { j } else { j + 1 };
                    assert(entries@[i] == old_entries[oi]);
                    assert(entries@[j] == old_entries[oj]);
                    assert(old_entries[oi].0@ != old_entries[oj].0@);
                }
                *self = AnswerSheet { entries };
                proof {
                    let m = old_self@.remove(id@);
                    assert forall|k: Seq<char>| #[trigger] self@.contains_key(k) <==> m.contains_key(k) by {
                        if self@.contains_key(k) {
                            let i = choose|i: int| self.has_key_at(k, i);
                            let oi = if i < p { i } else { i + 1 };
                            assert(self.entries@[i] == old_entries[oi]);
                            assert(old_self.has_key_at(k, oi));
                            if k == id@ {
                                assert(old_entries[oi].0@ == old_entries[p as int].0@);
                            }
                        }
                        if m.contains_key(k) {
                            let oi = choose|oi: int| old_self.has_key_at(k, oi);
                            assert(oi != p);
                            let i = if oi < p { oi } else { oi - 1 };
                            assert(self.entries@[i] == old_entries[oi]);
                            assert(self.has_key_at(k, i));
                        }
                    }
                    assert forall|k: Seq<char>| #[trigger] self@.contains_key(k) implies self@[k] == m[k] by {
                        let i = choose|i: int| self.has_key_at(k, i);
                        self.lemma_entry(i);
                        let oi = if i < p { i } else { i + 1 };
                        assert(self.entries@[i] == old_entries[oi]);
                        old_self.lemma_entry(oi);
                    }
                    assert(self@ =~= m);
                }
            },
            None => {
                proof {
                    old_self.lemma_absent(id@);
                    assert(old_self@.remove(id@) =~= old_self@);
                }
            },
        }
    }

    /// The number of questions answered.
    pub fn len(&self) -> (n: usize)
        ensures
            n == self@.dom().len(),
    {
        proof {
            use_type_invariant(self);
            self.lemma_len();
        }
        self.entries.len()
    }

    proof fn lemma_len(self)
        requires
            self.keys_distinct(),
        ensures
            self@.dom().finite(),
            self@.dom().len() == self.entries@.len(),
    {
        let keys = self.entries@.map_values(|e: (String, QuestionAnswer)| e.0@);
        assert(keys.no_duplicates()) by {
            assert forall|i: int, j: int|
                0 <= i < keys.len() && 0 <= j < keys.len() && i != j implies keys[i]
                != keys[j] by {
                if i < j {
                    assert(self.entries@[i].0@ != self.entries@[j].0@);
                } else {
                    assert(self.entries@[j].0@ != self.entries@[i].0@);
                }
            }
        }
        assert(self@.dom() =~= keys.to_set()) by {
            assert forall|k: Seq<char>| self@.dom().contains(k) <==> keys.to_set().contains(k) by {
                if self@.dom().contains(k) {
                    let i = choose|i: int| self.has_key_at(k, i);
                    assert(keys[i] == k);
                }
                if keys.to_set().contains(k) {
                    let i = choose|i: int| 0 <= i < keys.len() && keys[i] == k;
                    assert(self.has_key_at(k, i));
                }
            }
        }
        keys.unique_seq_to_set();
    }

    /// The id and answer at position `i`, in the order they were first
    /// given; for writing the sheet out.
    pub fn entry(&self, i: usize) -> (r: (&String, &QuestionAnswer))
        requires
            i < self@.dom().len(),
        ensures
            self@.contains_key(r.0@),
            self@[r.0@] == *r.1,
    {
        proof {
            use_type_invariant(self);
            self.lemma_len();
            self.lemma_entry(i as int);
        }
        (&self.entries[i].0, &self.entries[i].1)
    }
}

impl View for AnswerSheet {
    type V = Map<Seq<char>, QuestionAnswer>;

    closed spec fn view(&self) -> Map<Seq<char>, QuestionAnswer> {
        self.answers()
    }
}

/// `list` without any element equal to `x`, the others in order.
pub open spec fn without(list: Seq<Seq<char>>, x: Seq<char>) -> Seq<Seq<char>>
    decreases list.len(),
{
    if list.len() == 0 {
        list
    } else if list.last() == x {
        without(list.drop_last(), x)
    } else {
        without(list.drop_last(), x).push(list.last())
    }
}

/// Clicking an option of a multiple-choice question: picked options are
/// unpicked (every copy of them), others are added at the end.
pub fn toggle_choice(current: &Vec<String>, option_id: &String) -> (r: Vec<String>)
    ensures
        seq_has_string(current@, option_id@) ==> views(r@) == without(views(current@), option_id@),
        !seq_has_string(current@, option_id@) ==> views(r@) == views(current@).push(option_id@),
{
    if contains_string(current, option_id) {
        let mut kept: Vec<String> = Vec::new();
        let mut i: usize = 0;
        while i < current.len()
            invariant
                i <= current@.len(),
                views(kept@) == without(views(current@).take(i as int), option_id@),
            decreases current@.len() - i,
        {
            let ghost pre = views(current@).take(i as int);
            assert(views(current@).take(i + 1).drop_last() =~= pre);
            assert(views(current@).take(i + 1).last() == current@[i as int]@);
            if current[i] != *option_id {
                kept.push(current[i].clone());
                assert(views(kept@) =~= without(pre, option_id@).push(current@[i as int]@));
            }
            i = i + 1;
        }
        assert(views(current@).take(current@.len() as int) =~= views(current@));
        kept
    } else {
        let mut r: Vec<String> = Vec::new();
        let mut i: usize = 0;
        while i < current.len()
            invariant
                i <= current@.len(),
                views(r@) == views(current@).take(i as int),
            decreases current@.len() - i,
        {
            let ghost before = r@;
            r.push(current[i].clone());
            assert(r@ == before.push(current@[i as int]));
            assert(views(current@).take(i + 1) =~= views(current@).take(i as int).push(
                current@[i as int]@,
            ));
            assert(views(r@) =~= views(before).push(current@[i as int]@));
            i = i + 1;
        }
        let ghost before = r@;
        r.push(option_id.clone());
        assert(r@ == before.push(*option_id));
        assert(views(r@) =~= views(before).push(option_id@));
        assert(views(current@).take(current@.len() as int) =~= views(current@));
        r
    }
}

} // verus!
