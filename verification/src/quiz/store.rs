//! The answers that the user gave to quiz questions.
use vstd::prelude::*;
use crate::table::{lemma_take_to_set, TextSet};
use crate::types::{feedback, Feedback, QuizAnswer, QuizFeedbackEntry};

verus! {

/// The name of the file that keeps the answers.
pub const FEEDBACK_FILE: &'static str = "quiz_feedback.json";

/// The answers given so far, the oldest first.
#[derive(Debug, Clone, PartialEq)]
pub struct QuizFeedbackStore {
    pub entries: Vec<QuizFeedbackEntry>,
}

impl View for QuizFeedbackStore {
    type V = Seq<Feedback>;

    open spec fn view(&self) -> Seq<Feedback> {
        feedback(self.entries@)
    }
}

/// The ids of the questions that `entries` answer, in their order.
pub open spec fn question_ids(entries: Seq<Feedback>) -> Seq<Seq<char>> {
    entries.map_values(|e: Feedback| e.question_id)
}

/// The ids of the questions that `entries` answer.
pub open spec fn answered(entries: Seq<Feedback>) -> Set<Seq<char>> {
    question_ids(entries).to_set()
}

impl Default for QuizFeedbackStore {
    fn default() -> (r: QuizFeedbackStore)
        ensures
            r@ == Seq::<Feedback>::empty(),
            r.entries@.len() == 0,
    {
        let r = QuizFeedbackStore { entries: Vec::new() };
        assert(r@ == Seq::<Feedback>::empty());
        r
    }
}

impl QuizFeedbackStore {
    /// Adds an answer behind the others.
    pub fn append(&mut self, entry: QuizFeedbackEntry)
        ensures
            final(self).entries@ == old(self).entries@.push(entry),
            final(self)@ == old(self)@.push(entry@),
            final(self)@.last().confirmed == entry.confirmed,
            final(self)@.last().question_id == entry.question_id@,
    {
        self.entries.push(entry);
        assert(self@ == old(self)@.push(entry@));
    }

    /// The ids of the questions that were answered.
    pub fn answered_question_ids(&self) -> (r: TextSet)
        ensures
            r@ == answered(self@),
    {
        let mut ids = TextSet::new();
        let ghost all = question_ids(self@);
        let mut i: usize = 0;
        assert(all.take(0).to_set() == Set::<Seq<char>>::empty());
        while i < self.entries.len()
            invariant
                i <= self.entries@.len(),
                all == question_ids(self@),
                ids@ == all.take(i as int).to_set(),
            decreases self.entries@.len() - i,
        {
            proof {
                lemma_take_to_set(all, i as int);
            }
            ids.insert(self.entries[i].question_id.clone());
            i += 1;
        }
        assert(all.take(i as int) == all);
        ids
    }
}

/// The answers that were read; none where they could not be read.
pub fn feedback_or_default(read: Option<QuizFeedbackStore>) -> (r: QuizFeedbackStore)
    ensures
        r@ == match read {
            Some(store) => store@,
            None => Seq::empty(),
        },
        read matches Some(store) ==> r == store,
        read is None ==> r.entries@.len() == 0,
{
    match read {
        Some(store) => store,
        None => QuizFeedbackStore::default(),
    }
}

/// What is kept of an answer that is given at the time `now`.
pub open spec fn entry_of(answer: QuizAnswer, now: Seq<char>) -> Feedback {
    Feedback {
        question_id: answer.question_id@,
        kind: answer.kind@,
        entity_id_a: answer.entity_id_a@,
        entity_id_b: answer.entity_id_b@,
        confirmed: answer.confirmed,
        answered_at: now,
    }
}

/// What is kept of an answer that is given at the time `now`.
pub fn feedback_entry(answer: QuizAnswer, now: String) -> (r: QuizFeedbackEntry)
    ensures
        r@ == entry_of(answer, now@),
        r.confirmed == answer.confirmed,
        r.question_id@ == answer.question_id@,
        r.kind@ == answer.kind@,
        r.entity_id_a@ == answer.entity_id_a@,
        r.entity_id_b@ == answer.entity_id_b@,
        r.answered_at@ == now@,
{
    QuizFeedbackEntry {
        question_id: answer.question_id,
        kind: answer.kind,
        entity_id_a: answer.entity_id_a,
        entity_id_b: answer.entity_id_b,
        confirmed: answer.confirmed,
        answered_at: now,
    }
}

/// Answering a question makes it an answered one, and changes nothing else.
pub proof fn answers_are_remembered(entries: Seq<Feedback>, entry: Feedback)
    ensures
        answered(entries.push(entry)) == answered(entries).insert(entry.question_id),
{
    assert(question_ids(entries.push(entry)) == question_ids(entries).push(entry.question_id));
    question_ids(entries).lemma_push_to_set_commute(entry.question_id);
}

} // verus!
