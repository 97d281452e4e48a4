//! The result of a request: which images matched, and which could not be
//! classified and why.

use vstd::prelude::*;
use vstd::string::StringExecFns;
use crate::error::Error;
use crate::text::texts;
use crate::textmap::{map_of, unique_keys, TextMap};

verus! {

/// What became of one image.
#[derive(Debug)]
pub enum Outcome {
    /// The classifier says the image belongs to the category.
    Positive,
    /// The classifier says it does not.
    Negative,
    /// The image could not be fetched, decoded or classified; the payload
    /// describes why.
    Failed(String),
}

/// An `Outcome` as a mathematical value.
pub enum OutcomeView {
    Positive,
    Negative,
    Failed(Seq<char>),
}

impl View for Outcome {
    type V = OutcomeView;

    open spec fn view(&self) -> OutcomeView {
        match self {
            Outcome::Positive => OutcomeView::Positive,
            Outcome::Negative => OutcomeView::Negative,
            Outcome::Failed(why) => OutcomeView::Failed(why@),
        }
    }
}

/// The outcome that a classification attempt amounts to: `true` is a match,
/// `false` is none, and an error is a failure with the error's description.
pub open spec fn outcome_of(attempt: Result<bool, Error>) -> OutcomeView {
    match attempt {
        Ok(true) => OutcomeView::Positive,
        Ok(false) => OutcomeView::Negative,
        Err(e) => OutcomeView::Failed(e.description()),
    }
}

impl Outcome {
    /// Turns the result of one classification attempt into an outcome.
    pub fn from_result(attempt: Result<bool, Error>) -> (outcome: Outcome)
        ensures
            outcome@ == outcome_of(attempt),
    {
        match attempt {
            Ok(true) => Outcome::Positive,
            Ok(false) => Outcome::Negative,
            Err(e) => Outcome::Failed(e.describe()),
        }
    }
}

/// How many scores the classifier gives for one image: one for the category
/// and one against it.
pub const SCORE_COUNT: usize = 2;

/// What is said of a classifier that gives another number of scores.
pub const SCORES_UNEXPECTED: &'static str = "the model did not give two scores";

/// Judges the output of the classifier by its size: exactly two scores can be
/// compared, and anything else is a failure of the inference.
pub fn check_scores(count: usize) -> (r: Result<(), Error>)
    ensures
        match r {
            Ok(_) => count == SCORE_COUNT,
            Err(Error::InferenceFailure(why)) => count != SCORE_COUNT && why@
                == SCORES_UNEXPECTED@,
            Err(_) => false,
        },
{
    if count == SCORE_COUNT {
        Ok(())
    } else {
        Err(Error::InferenceFailure(String::from_str(SCORES_UNEXPECTED)))
    }
}

/// A result as a mathematical value: the identifiers that matched, in the
/// order in which they were recorded, and the description of the failure of
/// each identifier that failed.
pub struct Tally {
    pub positives: Seq<Seq<char>>,
    pub failures: Map<Seq<char>, Seq<char>>,
}

/// The tally of a request of which nothing is recorded yet.
pub open spec fn empty_tally() -> Tally {
    Tally { positives: Seq::empty(), failures: Map::empty() }
}

/// The tally after the outcome of the image `id` is added to `before`. A match
/// is appended to the positives, a failure is entered under `id` (in place of
/// an earlier failure of the same identifier), and a non-match leaves no
/// trace.
pub open spec fn record(before: Tally, id: Seq<char>, outcome: OutcomeView) -> Tally {
    match outcome {
        OutcomeView::Positive => Tally {
            positives: before.positives.push(id),
            failures: before.failures,
        },
        OutcomeView::Negative => before,
        OutcomeView::Failed(why) => Tally {
            positives: before.positives,
            failures: before.failures.insert(id, why),
        },
    }
}

/// The tally of a whole list of finished images, recorded first to last.
pub open spec fn tally_of(finished: Seq<(Seq<char>, OutcomeView)>) -> Tally
    decreases finished.len(),
{
    if finished.len() == 0 {
        empty_tally()
    } else {
        record(tally_of(finished.drop_last()), finished.last().0, finished.last().1)
    }
}

/// No identifier stands twice in the list.
pub open spec fn distinct_ids(finished: Seq<(Seq<char>, OutcomeView)>) -> bool {
    forall|i: int, j: int|
        0 <= i < j < finished.len() ==> (#[trigger] finished[i]).0 != (#[trigger] finished[j]).0
}

/// The outcome of a request: the identifiers that matched and, for each
/// identifier that could not be classified, a description of what went wrong.
#[derive(Debug)]
pub struct RequestResult {
    trues: Vec<String>,
    errors: TextMap,
}

impl View for RequestResult {
    type V = Tally;

    closed spec fn view(&self) -> Tally {
        Tally { positives: texts(self.trues@), failures: self.errors@ }
    }
}

impl RequestResult {
    /// A result in which nothing is recorded.
    pub fn new() -> (result: RequestResult)
        ensures
            result@ == empty_tally(),
    {
        let result = RequestResult { trues: Vec::new(), errors: TextMap::new() };
        assert(texts(result.trues@) =~= Seq::empty());
        result
    }

    /// Adds the outcome of the image `id`.
    pub fn record(&mut self, id: String, outcome: Outcome)
        ensures
            final(self)@ == record(old(self)@, id@, outcome@),
    {
        match outcome {
            Outcome::Positive => {
                assert(texts(self.trues@.push(id)) =~= texts(self.trues@).push(id@));
                self.trues.push(id);
            },
            Outcome::Negative => {},
            Outcome::Failed(why) => {
                self.errors.insert(id, why);
            },
        }
    }

    /// The identifiers that matched, in the order in which they were recorded.
    pub fn trues(&self) -> (ids: &Vec<String>)
        ensures
            texts(ids@) == self@.positives,
    {
        &self.trues
    }

    /// The failures, one entry for each identifier that failed: the
    /// identifier, then the description.
    pub fn errors(&self) -> (entries: &Vec<(String, String)>)
        ensures
            unique_keys(entries@),
            map_of(entries@) == self@.failures,
    {
        self.errors.entries()
    }

    /// Tells whether `id` is among the identifiers that matched.
    pub fn is_true(&self, id: &str) -> (found: bool)
        ensures
            found == self@.positives.contains(id@),
    {
        let wanted = String::from_str(id);
        let mut at: usize = 0;
        while at < self.trues.len()
            invariant
                at <= self.trues.len(),
                wanted@ == id@,
                forall|i: int| 0 <= i < at ==> texts(self.trues@)[i] != id@,
            decreases self.trues.len() - at,
        {
            if self.trues[at] == wanted {
                assert(texts(self.trues@)[at as int] == id@);
                return true;
            }
            at += 1;
        }
        false
    }

    /// The description of the failure of `id`, if it failed.
    pub fn error_of(&self, id: &str) -> (found: Option<&String>)
        ensures
            match found {
                Some(why) => self@.failures.contains_key(id@) && self@.failures[id@] == why@,
                None => !self@.failures.contains_key(id@),
            },
    {
        self.errors.get(id)
    }
}

/// A list of finished images as a mathematical value.
pub open spec fn finished_view(finished: Seq<(String, Outcome)>) -> Seq<(Seq<char>, OutcomeView)> {
    finished.map_values(|entry: (String, Outcome)| (entry.0@, entry.1@))
}

/// Merges the outcomes of all the images of a request into its result.
///
/// Each entry is an image identifier and what became of that image. The
/// entries are recorded first to last.
pub fn aggregate(finished: Vec<(String, Outcome)>) -> (result: RequestResult)
    ensures
        result@ == tally_of(finished_view(finished@)),
{
    let mut result = RequestResult::new();
    let ghost all = finished_view(finished@);
    for entry in it: finished.into_iter()
        invariant
            it.seq() == finished@,
            all == finished_view(finished@),
            result@ == tally_of(all.take(it.index() as int)),
    {
        proof {
            let done = it.index() as int;
            assert(all.take(done + 1).drop_last() =~= all.take(done));
            assert(all.take(done + 1).last() == (entry.0@, entry.1@));
        }
        let (id, outcome) = entry;
        result.record(id, outcome);
    }
    assert(all.take(all.len() as int) =~= all);
    result
}

/// An identifier is among the positives exactly when an image with that
/// identifier was classified as a match.
pub proof fn lemma_positives_exact(finished: Seq<(Seq<char>, OutcomeView)>, id: Seq<char>)
    ensures
        tally_of(finished).positives.contains(id) <==> exists|i: int|
            0 <= i < finished.len() && #[trigger] finished[i] == (id, OutcomeView::Positive),
    decreases finished.len(),
{
    if finished.len() > 0 {
        let before = finished.drop_last();
        let last = finished.last();
        lemma_positives_exact(before, id);
        let earlier = tally_of(before).positives;
        if tally_of(finished).positives.contains(id) {
            let at = choose|at: int|
                0 <= at < tally_of(finished).positives.len() && tally_of(finished).positives[at]
                    == id;
            if last.1 is Positive && at == earlier.len() {
                assert(finished[finished.len() - 1] == (id, OutcomeView::Positive));
            } else {
                assert(earlier[at] == id);
                let i = choose|i: int|
                    0 <= i < before.len() && #[trigger] before[i] == (id, OutcomeView::Positive);
                assert(finished[i] == before[i]);
            }
        }
        if exists|i: int|
            0 <= i < finished.len() && #[trigger] finished[i] == (id, OutcomeView::Positive) {
            let i = choose|i: int|
                0 <= i < finished.len() && #[trigger] finished[i] == (id, OutcomeView::Positive);
            if i < before.len() {
                assert(before[i] == finished[i]);
                let at = choose|at: int| 0 <= at < earlier.len() && earlier[at] == id;
                assert(tally_of(finished).positives[at] == id);
            } else {
                assert(tally_of(finished).positives[earlier.len() as int] == id);
            }
        }
    }
}

/// An identifier has an entry in the failure mapping exactly when an image
/// with that identifier failed.
pub proof fn lemma_failures_exact(finished: Seq<(Seq<char>, OutcomeView)>, id: Seq<char>)
    ensures
        tally_of(finished).failures.contains_key(id) <==> exists|i: int|
            0 <= i < finished.len() && (#[trigger] finished[i]).0 == id && finished[i].1 is Failed,
    decreases finished.len(),
{
    if finished.len() > 0 {
        let before = finished.drop_last();
        let last = finished.last();
        lemma_failures_exact(before, id);
        if tally_of(finished).failures.contains_key(id) {
            if last.1 is Failed && last.0 == id {
                assert(finished[finished.len() - 1].0 == id);
            } else {
                let i = choose|i: int|
                    0 <= i < before.len() && (#[trigger] before[i]).0 == id && before[i].1 is Failed;
                assert(finished[i] == before[i]);
            }
        }
        if exists|i: int|
            0 <= i < finished.len() && (#[trigger] finished[i]).0 == id && finished[i].1 is Failed {
            let i = choose|i: int|
                0 <= i < finished.len() && (#[trigger] finished[i]).0 == id
                    && finished[i].1 is Failed;
            if i < before.len() {
                assert(before[i] == finished[i]);
            }
        }
    }
}

/// Where no identifier stands twice, every image is classed by its own
/// outcome and by nothing else: a match is among the positives and has no
/// failure entry, a failure has an entry with its own description and is not
/// among the positives, and a non-match is in neither.
pub proof fn lemma_each_image_classed(finished: Seq<(Seq<char>, OutcomeView)>, at: int)
    requires
        distinct_ids(finished),
        0 <= at < finished.len(),
    ensures
        ({
            let id = finished[at].0;
            let tally = tally_of(finished);
            match finished[at].1 {
                OutcomeView::Positive => tally.positives.contains(id)
                    && !tally.failures.contains_key(id),
                OutcomeView::Negative => !tally.positives.contains(id)
                    && !tally.failures.contains_key(id),
                OutcomeView::Failed(why) => !tally.positives.contains(id)
                    && tally.failures.contains_key(id) && tally.failures[id] == why,
            }
        }),
{
    let id = finished[at].0;
    lemma_positives_exact(finished, id);
    lemma_failures_exact(finished, id);
    assert forall|i: int| 0 <= i < finished.len() && (#[trigger] finished[i]).0 == id implies i
        == at by {
        if i < at {
            assert(finished[i].0 != finished[at].0);
        } else if at < i {
            assert(finished[at].0 != finished[i].0);
        }
    }
    if finished[at].1 is Failed {
        lemma_failure_description(finished, at);
    }
}

proof fn lemma_failure_description(finished: Seq<(Seq<char>, OutcomeView)>, at: int)
    requires
        distinct_ids(finished),
        0 <= at < finished.len(),
        finished[at].1 is Failed,
    ensures
        tally_of(finished).failures.contains_key(finished[at].0),
        tally_of(finished).failures[finished[at].0] == finished[at].1->Failed_0,
    decreases finished.len(),
{
    let before = finished.drop_last();
    if at < finished.len() - 1 {
        assert(distinct_ids(before)) by {
            assert forall|i: int, j: int| 0 <= i < j < before.len() implies (
            #[trigger] before[i]).0 != (#[trigger] before[j]).0 by {
                assert(before[i] == finished[i] && before[j] == finished[j]);
            }
        }
        assert(before[at] == finished[at]);
        lemma_failure_description(before, at);
        assert(finished[at].0 != finished[finished.len() - 1].0);
    }
}

/// Fault isolation: what becomes of one image bears on no other. Take two
/// runs over the same images, none of them twice, whose outcomes differ at
/// most for the image at `changed`. Then every other image is classed alike in
/// both results.
pub proof fn lemma_fault_isolation(
    one: Seq<(Seq<char>, OutcomeView)>,
    two: Seq<(Seq<char>, OutcomeView)>,
    changed: int,
    other: int,
)
    requires
        one.len() == two.len(),
        distinct_ids(one),
        forall|i: int| 0 <= i < one.len() ==> (#[trigger] one[i]).0 == two[i].0,
        forall|i: int| 0 <= i < one.len() && i != changed ==> (#[trigger] one[i]).1 == two[i].1,
        0 <= other < one.len(),
        other != changed,
    ensures
        ({
            let id = one[other].0;
            let first = tally_of(one);
            let second = tally_of(two);
            &&& first.positives.contains(id) == second.positives.contains(id)
            &&& first.failures.contains_key(id) == second.failures.contains_key(id)
            &&& first.failures.contains_key(id) ==> first.failures[id] == second.failures[id]
        }),
{
    assert(distinct_ids(two)) by {
        assert forall|i: int, j: int| 0 <= i < j < two.len() implies (#[trigger] two[i]).0 != (
        #[trigger] two[j]).0 by {
            assert(one[i].0 == two[i].0 && one[j].0 == two[j].0);
        }
    }
    assert(one[other].0 == two[other].0);
    assert(one[other].1 == two[other].1);
    lemma_each_image_classed(one, other);
    lemma_each_image_classed(two, other);
}

} // verus!
