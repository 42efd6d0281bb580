//! The quiz of the day: the first questions that were not answered yet.
use vstd::prelude::*;
use crate::quiz::candidates::{alias_questions, entities_in, generate_alias_candidates};
use crate::quiz::store::{answered, question_ids};
use crate::table::{TextMap, TextSet};
use crate::types::{questions, CanonicalEntity, Entity, Feedback, Question, QuizQuestion};

verus! {

/// The questions of `list` whose ids are not among `done`, in their order.
pub open spec fn unanswered(list: Seq<Question>, done: Set<Seq<char>>) -> Seq<Question>
    decreases list.len(),
{
    if list.len() == 0 {
        Seq::empty()
    } else {
        let rest = unanswered(list.drop_last(), done);
        if done.contains(list.last().id) {
            rest
        } else {
            rest.push(list.last())
        }
    }
}

/// The first `n` of `list`, or all where there are fewer.
pub open spec fn first_of(list: Seq<Question>, n: nat) -> Seq<Question> {
    if n < list.len() {
        list.take(n as int)
    } else {
        list
    }
}

/// The first `limit` questions of `list` whose ids are not among `done`.
pub fn first_unanswered(list: Vec<QuizQuestion>, done: &TextSet, limit: usize) -> (r: Vec<
    QuizQuestion,
>)
    ensures
        questions(r@) == first_of(unanswered(questions(list@), done@), limit as nat),
{
    let ghost all = questions(list@);
    let mut out: Vec<QuizQuestion> = Vec::new();
    assert(questions(out@) == Seq::<Question>::empty());
    assert(first_of(Seq::<Question>::empty(), limit as nat) == Seq::<Question>::empty());
    for q in it: list
        invariant
            it.seq() == list@,
            all == questions(list@),
            questions(out@) == first_of(
                unanswered(all.take(it.index() as int), done@),
                limit as nat,
            ),
    {
        let ghost before = unanswered(all.take(it.index() as int), done@);
        let ghost had = questions(out@);
        assert(all.take(it.index() + 1).drop_last() == all.take(it.index() as int));
        assert(all.take(it.index() + 1).last() == q@);
        if !done.contains(q.id.as_str()) && out.len() < limit {
            out.push(q);
            assert(questions(out@) == had.push(q@));
            assert(before.push(q@) == questions(out@));
        } else if !done.contains(q.id.as_str()) {
            assert(first_of(before.push(q@), limit as nat) == had);
        }
    }
    assert(all.take(all.len() as int) == all);
    out
}

/// How many questions are asked where no number is given.
pub const DAILY_QUESTIONS: usize = 1;

/// The questions of the day: the first `limit` on pairs of `entities` that were not answered,
/// among the first `5 * limit + 10`.
pub open spec fn daily_questions(
    entities: Seq<Entity>,
    done: Set<Seq<char>>,
    limit: nat,
) -> Seq<Question> {
    first_of(unanswered(alias_questions(entities, limit * 5 + 10), done), limit)
}

/// The number of questions that `limit` asks for.
pub open spec fn asked_for(limit: Option<usize>) -> usize {
    match limit {
        Some(n) => n,
        None => DAILY_QUESTIONS,
    }
}

/// The questions of the day, one where `limit` does not say otherwise. None of them is among the
/// questions `done`.
pub fn daily_quiz(canonicals: &TextMap<CanonicalEntity>, done: &TextSet, limit: Option<usize>) -> (r:
    Vec<QuizQuestion>)
    requires
        asked_for(limit) * 5 + 10 <= usize::MAX,
    ensures
        questions(r@) == daily_questions(
            entities_in(canonicals.walk()),
            done@,
            asked_for(limit) as nat,
        ),
        canonicals.is_walk(canonicals.walk()),
{
    let count: usize = match limit {
        Some(n) => n,
        None => DAILY_QUESTIONS,
    };
    let list = generate_alias_candidates(canonicals, count * 5 + 10);
    first_unanswered(list, done, count)
}

proof fn lemma_unanswered(list: Seq<Question>, done: Set<Seq<char>>, q: Question)
    ensures
        unanswered(list, done).contains(q) <==> list.contains(q) && !done.contains(q.id),
    decreases list.len(),
{
    if list.len() > 0 {
        let short = list.drop_last();
        let last = list.last();
        lemma_unanswered(short, done, q);
        let rest = unanswered(short, done);
        if list.contains(q) {
            let k = choose|k: int| 0 <= k < list.len() && list[k] == q;
            if k < short.len() {
                assert(short[k] == q);
            }
        }
        if short.contains(q) {
            let k = choose|k: int| 0 <= k < short.len() && short[k] == q;
            assert(list[k] == q);
        }
        assert(list[list.len() - 1] == last);
        let longer = rest.push(last);
        assert(longer[rest.len() as int] == last);
        if rest.contains(q) {
            let k = choose|k: int| 0 <= k < rest.len() && rest[k] == q;
            assert(longer[k] == q);
        }
        if longer.contains(q) {
            let k = choose|k: int| 0 <= k < longer.len() && longer[k] == q;
            if k < rest.len() {
                assert(rest[k] == q);
            }
        }
    }
}

/// The questions of the day are no more than were asked for, each is on a pair of the entities,
/// and none of them was answered.
pub proof fn answered_questions_are_not_asked(
    entities: Seq<Entity>,
    done: Set<Seq<char>>,
    limit: nat,
    q: Question,
)
    ensures
        daily_questions(entities, done, limit).len() <= limit,
        daily_questions(entities, done, limit).contains(q) ==> !done.contains(q.id)
            && alias_questions(entities, limit * 5 + 10).contains(q),
{
    let list = alias_questions(entities, limit * 5 + 10);
    let open = unanswered(list, done);
    let few = first_of(open, limit);
    if few.contains(q) {
        let k = choose|k: int| 0 <= k < few.len() && few[k] == q;
        assert(open[k] == q);
        lemma_unanswered(list, done, q);
    }
}

/// Once a question is answered, it is not asked again, however many are asked for and whatever
/// entities there are by then.
pub proof fn a_question_is_asked_once(
    entries: Seq<Feedback>,
    entry: Feedback,
    later: Seq<Feedback>,
    entities: Seq<Entity>,
    limit: nat,
    q: Question,
)
    requires
        daily_questions(entities, answered(entries.push(entry) + later), limit).contains(q),
    ensures
        q.id != entry.question_id,
{
    let all = entries.push(entry) + later;
    answered_questions_are_not_asked(entities, answered(all), limit, q);
    let ids = question_ids(all);
    assert(ids[entries.len() as int] == entry.question_id);
    assert(answered(all).contains(entry.question_id));
}

} // verus!
