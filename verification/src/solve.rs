//! One request from prompt to result: the stages it goes through, and what
//! is to be done next at each event.

use vstd::prelude::*;
use crate::error::Error;
use crate::prompt::{category_key, clean_prompt};
use crate::tally::{empty_tally, outcome_of, tally_of, Outcome, OutcomeView, RequestResult};
use crate::text::texts;

verus! {

/// Where a request stands.
#[derive(Clone, Copy, Debug, PartialEq, Eq, Structural)]
pub enum Stage {
    /// The prompt is to be turned into a category key.
    NormalizingPrompt,
    /// The model of the category is to be found, loaded and built.
    ResolvingModel,
    /// One task for each image is to be started.
    Dispatching,
    /// The tasks are awaited and their outcomes merged.
    Aggregating,
    /// The request has ended, with a result or with an error.
    Done,
}

/// What happened outside since the last step.
#[derive(Debug)]
pub enum Event {
    /// The request came in.
    Begin,
    /// The model is ready to classify, or could not be made ready.
    ModelResolved(Result<(), Error>),
    /// A task has been started for every image.
    Dispatched,
    /// The task of the image that was awaited has ended.
    ImageFinished(Result<bool, Error>),
}

/// What is to be done next.
#[derive(Debug)]
pub enum Action {
    /// Make the model of this category key ready, then report `ModelResolved`.
    ResolveModel(String),
    /// Start one task for each image, then report `Dispatched`.
    Dispatch,
    /// Await the task of the image at this index, then report `ImageFinished`.
    Collect(usize),
    /// Answer the request with this result.
    Emit(RequestResult),
    /// Answer the request with this error.
    Abort(Error),
    /// The event does not belong to the stage; nothing has changed.
    Ignore,
}

/// A request as a mathematical value: its stage, its prompt, its image
/// identifiers and the outcomes recorded so far, one for each of the first
/// images.
pub struct RequestView {
    pub stage: Stage,
    pub prompt: Seq<char>,
    pub images: Seq<Seq<char>>,
    pub outcomes: Seq<OutcomeView>,
}

/// The images that have an outcome, each with its outcome.
pub open spec fn finished_pairs(images: Seq<Seq<char>>, outcomes: Seq<OutcomeView>) -> Seq<
    (Seq<char>, OutcomeView),
> {
    Seq::new(outcomes.len(), |i: int| (images[i], outcomes[i]))
}

/// The number of a stage in the order in which a request goes through them.
pub open spec fn rank(stage: Stage) -> int {
    match stage {
        Stage::NormalizingPrompt => 0,
        Stage::ResolvingModel => 1,
        Stage::Dispatching => 2,
        Stage::Aggregating => 3,
        Stage::Done => 4,
    }
}

/// One step of a request: from `pre`, the event leads to `post` and calls for
/// `action`.
///
/// A malformed prompt ends the request, and so does a model that cannot be
/// made ready. Once the tasks are started, each outcome is recorded for the
/// image whose turn it is, first to last; a failure of one image is an outcome
/// like any other. The result is emitted when the last outcome is in, and not
/// before. An event that the stage does not expect changes nothing.
pub open spec fn transition(pre: RequestView, event: Event, post: RequestView, action: Action) -> bool {
    match event {
        Event::Begin if pre.stage == Stage::NormalizingPrompt => match category_key(pre.prompt) {
            Some(key) => {
                &&& post == RequestView { stage: Stage::ResolvingModel, ..pre }
                &&& action matches Action::ResolveModel(asked)
                &&& asked@ == key
            },
            None => {
                &&& post == RequestView { stage: Stage::Done, ..pre }
                &&& action matches Action::Abort(e)
                &&& e is MalformedPrompt
            },
        },
        Event::ModelResolved(Ok(_)) if pre.stage == Stage::ResolvingModel => {
            &&& post == RequestView { stage: Stage::Dispatching, ..pre }
            &&& action is Dispatch
        },
        Event::ModelResolved(Err(e)) if pre.stage == Stage::ResolvingModel => {
            &&& post == RequestView { stage: Stage::Done, ..pre }
            &&& action matches Action::Abort(given)
            &&& given == e
        },
        Event::Dispatched if pre.stage == Stage::Dispatching => if pre.images.len() == 0 {
            &&& post == RequestView { stage: Stage::Done, ..pre }
            &&& action matches Action::Emit(result)
            &&& result@ == empty_tally()
        } else {
            &&& post == RequestView { stage: Stage::Aggregating, ..pre }
            &&& action matches Action::Collect(index)
            &&& index == 0
        },
        Event::ImageFinished(attempt) if pre.stage == Stage::Aggregating => {
            let outcomes = pre.outcomes.push(outcome_of(attempt));
            if outcomes.len() == pre.images.len() {
                &&& post == RequestView { stage: Stage::Done, outcomes, ..pre }
                &&& action matches Action::Emit(result)
                &&& result@ == tally_of(finished_pairs(pre.images, outcomes))
            } else {
                &&& post == RequestView { outcomes, ..pre }
                &&& action matches Action::Collect(index)
                &&& index == outcomes.len()
            }
        },
        _ => post == pre && action is Ignore,
    }
}

/// What holds of every request: no image has an outcome before the tasks are awaited, and while
/// they are awaited at least one image is still without one.
pub open spec fn consistent(request: RequestView) -> bool {
    &&& request.outcomes.len() <= request.images.len()
    &&& rank(request.stage) < 3 ==> request.outcomes.len() == 0
    &&& request.stage == Stage::Aggregating ==> request.outcomes.len() < request.images.len()
}

/// A request on its way from prompt to result.
pub struct Request {
    stage: Stage,
    prompt: String,
    images: Vec<String>,
    collected: usize,
    result: RequestResult,
    outcomes: Ghost<Seq<OutcomeView>>,
}

impl View for Request {
    type V = RequestView;

    closed spec fn view(&self) -> RequestView {
        RequestView {
            stage: self.stage,
            prompt: self.prompt@,
            images: texts(self.images@),
            outcomes: self.outcomes@,
        }
    }
}

impl Request {
    /// No image has an outcome before the tasks are awaited, and while they
    /// are awaited at least one image is still without an outcome and the
    /// result holds the outcomes so far.
    #[verifier::type_invariant]
    spec fn wf(&self) -> bool {
        &&& self.outcomes@.len() <= self.images@.len()
        &&& self.collected == self.outcomes@.len()
        &&& rank(self.stage) < 3 ==> self.outcomes@.len() == 0 && self.result@ == empty_tally()
        &&& self.stage == Stage::Aggregating ==> self.outcomes@.len() < self.images@.len()
            && self.result@ == tally_of(finished_pairs(texts(self.images@), self.outcomes@))
    }

    /// A request that has just come in.
    pub fn new(prompt: String, images: Vec<String>) -> (request: Request)
        ensures
            consistent(request@),
            request@ == (RequestView {
                stage: Stage::NormalizingPrompt,
                prompt: prompt@,
                images: texts(images@),
                outcomes: Seq::empty(),
            }),
    {
        Request {
            stage: Stage::NormalizingPrompt,
            prompt,
            images,
            collected: 0,
            result: RequestResult::new(),
            outcomes: Ghost(Seq::empty()),
        }
    }

    /// Where the request stands.
    pub fn stage(&self) -> (stage: Stage)
        ensures
            stage == self@.stage,
    {
        self.stage
    }

    /// The identifiers of the images of the request.
    pub fn images(&self) -> (images: &Vec<String>)
        ensures
            texts(images@) == self@.images,
    {
        &self.images
    }
}

proof fn lemma_pairs_push(images: Seq<Seq<char>>, outcomes: Seq<OutcomeView>, outcome: OutcomeView)
    requires
        outcomes.len() < images.len(),
    ensures
        finished_pairs(images, outcomes.push(outcome)).drop_last() == finished_pairs(
            images,
            outcomes,
        ),
        finished_pairs(images, outcomes.push(outcome)).last() == (
            images[outcomes.len() as int],
            outcome,
        ),
{
    assert(finished_pairs(images, outcomes.push(outcome)).drop_last() =~= finished_pairs(
        images,
        outcomes,
    ));
}

/// Takes a request one step further: records what happened and says what is
/// to be done next.
pub fn solve(request: &mut Request, event: Event) -> (action: Action)
    ensures
        transition(old(request)@, event, final(request)@, action),
        consistent(old(request)@),
        consistent(final(request)@),
{
    proof {
        use_type_invariant(&*request);
        assert(texts(request.images@).len() == request.images@.len());
    }
    let mut taken = Request::new(String::new(), Vec::new());
    std::mem::swap(&mut taken, request);
    let Request { stage, prompt, images, collected, result, outcomes } = taken;
    let mut result = result;
    let ghost before = outcomes@;
    let mut next = stage;
    let mut now_collected = collected;
    let mut now_outcomes = outcomes;
    let action = match event {
        Event::Begin => {
            if stage != Stage::NormalizingPrompt {
                Action::Ignore
            } else {
                match clean_prompt(prompt.as_str()) {
                    Ok(key) => {
                        next = Stage::ResolvingModel;
                        Action::ResolveModel(key)
                    },
                    Err(e) => {
                        next = Stage::Done;
                        Action::Abort(e)
                    },
                }
            }
        },
        Event::ModelResolved(resolved) => {
            if stage != Stage::ResolvingModel {
                Action::Ignore
            } else {
                match resolved {
                    Ok(_) => {
                        next = Stage::Dispatching;
                        Action::Dispatch
                    },
                    Err(e) => {
                        next = Stage::Done;
                        Action::Abort(e)
                    },
                }
            }
        },
        Event::Dispatched => {
            if stage != Stage::Dispatching {
                Action::Ignore
            } else if images.len() == 0 {
                next = Stage::Done;
                Action::Emit(RequestResult::new())
            } else {
                proof {
                    assert(finished_pairs(texts(images@), before) =~= Seq::empty());
                }
                next = Stage::Aggregating;
                Action::Collect(0)
            }
        },
        Event::ImageFinished(attempt) => {
            if stage != Stage::Aggregating {
                Action::Ignore
            } else {
                assert(collected < images.len());
                let outcome = Outcome::from_result(attempt);
                let id = images[collected].clone();
                proof {
                    lemma_pairs_push(texts(images@), before, outcome@);
                }
                result.record(id, outcome);
                now_outcomes = Ghost(before.push(outcome@));
                now_collected = collected + 1;
                if now_collected == images.len() {
                    next = Stage::Done;
                    let mut emitted = RequestResult::new();
                    std::mem::swap(&mut emitted, &mut result);
                    Action::Emit(emitted)
                } else {
                    Action::Collect(now_collected)
                }
            }
        },
    };
    *request = Request {
        stage: next,
        prompt,
        images,
        collected: now_collected,
        result,
        outcomes: now_outcomes,
    };
    action
}

/// A request never goes back: a step leaves it in its stage or takes it to a
/// later one, and leaves its prompt and its images as they are. A step keeps a
/// consistent request consistent.
pub proof fn lemma_stage_advances(pre: RequestView, event: Event, post: RequestView, action: Action)
    requires
        transition(pre, event, post, action),
    ensures
        rank(pre.stage) <= rank(post.stage),
        post.prompt == pre.prompt,
        post.images == pre.images,
        consistent(pre) ==> consistent(post),
{
}

/// No partial results: a result is emitted only by the step that ends the
/// request, only when every image has its outcome, and it is the tally of all
/// the images with their outcomes.
pub proof fn lemma_no_partial_result(
    pre: RequestView,
    event: Event,
    post: RequestView,
    action: Action,
)
    requires
        consistent(pre),
        transition(pre, event, post, action),
        action is Emit,
    ensures
        post.stage == Stage::Done,
        pre.stage != Stage::Done,
        post.outcomes.len() == post.images.len(),
        action->Emit_0@ == tally_of(finished_pairs(post.images, post.outcomes)),
{
    if pre.stage == Stage::Dispatching {
        assert(finished_pairs(post.images, post.outcomes) =~= Seq::empty());
    }
}

/// A request that has ended stays as it is: every further event is ignored.
pub proof fn lemma_done_is_final(pre: RequestView, event: Event, post: RequestView, action: Action)
    requires
        pre.stage == Stage::Done,
        transition(pre, event, post, action),
    ensures
        post == pre,
        action is Ignore,
{
}

} // verus!
