//! The two process-wide caches: the model bytes of each category, kept
//! without limit, and the catalog, kept for a bounded time. Both let at most
//! one fetch run at a time for the same thing, and hand the outcome of that
//! fetch, failure included, to every caller who waited for it.

use vstd::prelude::*;
use vstd::string::StringExecFns;
use cached::Cached;
use cached::UnboundCache;
use crate::catalog::Catalog;
use crate::error::Error;
use crate::source::{
    check_model_status, is_success, model_url, model_url_of, MODEL_SOURCE_FAILED, NOT_FOUND,
};
use crate::table::Table;

verus! {

#[verifier::external_type_specification]
#[verifier::external_body]
#[verifier::reject_recursive_types(K)]
#[verifier::reject_recursive_types(V)]
pub struct ExUnboundCache<K, V>(UnboundCache<K, V>);

/// The store of model bytes: an unbounded cache from name to bytes.
pub type ModelStore = UnboundCache<String, Vec<u8>>;

/// The contents of a store that holds nothing.
pub open spec fn no_models() -> Map<Seq<char>, Seq<u8>> {
    Map::empty()
}

/// What a store of model bytes holds: the bytes kept under each name.
pub uninterp spec fn stored_models(store: UnboundCache<String, Vec<u8>>) -> Map<Seq<char>, Seq<u8>>;

/// `UnboundCache::new` makes a store that holds nothing.
#[verifier::external_body]
fn empty_store() -> (made: ModelStore)
    ensures
        stored_models(made) == no_models(),
{
    UnboundCache::new()
}

/// Reads the store that `UnboundCache::get_store` hands out: a copy of the
/// bytes kept under `name`, if any are kept there. The store is left as it is.
#[verifier::external_body]
fn store_lookup(store: &ModelStore, name: &String) -> (found: Option<Vec<u8>>)
    ensures
        match found {
            Some(bytes) => stored_models(*store).contains_key(name@) && stored_models(
                *store,
            )[name@] == bytes@,
            None => !stored_models(*store).contains_key(name@),
        },
{
    store.get_store().get(name).cloned()
}

/// `Cached::cache_set` keeps `bytes` under `name`, in place of what was kept
/// there before, and leaves every other entry as it was.
#[verifier::external_body]
fn store_insert(store: &mut ModelStore, name: String, bytes: Vec<u8>)
    ensures
        stored_models(*final(store)) == stored_models(*old(store)).insert(name@, bytes@),
{
    store.cache_set(name, bytes);
}

/// How the fetch of one thing stands.
#[derive(Debug)]
pub enum Flight {
    /// Nobody is fetching it.
    Idle,
    /// Somebody is fetching it; so many callers were told to wait.
    Fetching(u64),
    /// The fetch failed with this error, and so many of the callers who were
    /// told to wait have not heard of it yet.
    Failed(Error, u64),
}

/// One more caller waits. The count stops at the largest number it can hold.
pub open spec fn one_more(waiters: u64) -> u64 {
    if waiters < u64::MAX {
        (waiters + 1) as u64
    } else {
        waiters
    }
}

/// The flight after one caller who waited has had its answer, or has given up
/// waiting. A failed flight is over when the last of them has.
pub open spec fn one_less(flight: Flight) -> Flight {
    match flight {
        Flight::Idle => Flight::Idle,
        Flight::Fetching(waiters) => Flight::Fetching(
            if waiters > 0 {
                (waiters - 1) as u64
            } else {
                0
            },
        ),
        Flight::Failed(e, waiters) => if waiters <= 1 {
            Flight::Idle
        } else {
            Flight::Failed(e, (waiters - 1) as u64)
        },
    }
}

/// The flight after its fetch is reported. A success ends it. A failure ends
/// it where nobody waits, and is kept for those who wait otherwise.
pub open spec fn reported(flight: Flight, failure: Option<Error>) -> Flight {
    match flight {
        Flight::Fetching(waiters) => match failure {
            Some(e) => if waiters > 0 {
                Flight::Failed(e, waiters)
            } else {
                Flight::Idle
            },
            None => Flight::Idle,
        },
        other => other,
    }
}

/// The model cache as a mathematical value: the bytes kept under each name,
/// and how the fetch of each name stands.
pub struct ModelCacheView {
    pub stored: Map<Seq<char>, Seq<u8>>,
    pub flights: Map<Seq<char>, Flight>,
}

/// What a caller who asks for a model is told.
#[derive(Debug)]
pub enum ModelStep {
    /// The bytes are here.
    Ready(Vec<u8>),
    /// Nobody is fetching them: fetch them from this address, then report.
    Fetch(String),
    /// Somebody else is fetching them: wait, then ask again.
    Wait,
    /// The catalog is needed to go on: bring it, then ask anew.
    Catalog,
}

/// The kind of answer that a request for the model of `name` gets.
pub enum StepKind {
    Ready,
    Failed,
    Wait,
    Catalog,
    Unknown,
    Fetch,
}

/// The answer that a request for the model of `name` gets. Kept bytes are
/// served. Else the fetch decides: after a failure that waiting callers have
/// not all heard of, the caller hears of it; while a fetch is under way, the
/// caller waits. Else the catalog is needed: a name that it does not list is
/// unknown, and for one that it lists the caller fetches.
pub open spec fn step_kind(
    cache: ModelCacheView,
    catalog: Option<Map<Seq<char>, Seq<char>>>,
    name: Seq<char>,
) -> StepKind {
    if cache.stored.contains_key(name) {
        StepKind::Ready
    } else {
        match cache.flights[name] {
            Flight::Failed(_, _) => StepKind::Failed,
            Flight::Fetching(_) => StepKind::Wait,
            Flight::Idle => match catalog {
                None => StepKind::Catalog,
                Some(listed) => if listed.contains_key(name) {
                    StepKind::Fetch
                } else {
                    StepKind::Unknown
                },
            },
        }
    }
}

/// The cache after a request for the model of `name`, by a caller who asks
/// for the first time or, with `again`, by one who was told to wait.
///
/// A caller who is told to fetch opens the flight. One who is told to wait is
/// counted, once. One who waited and hears of the failure is taken off the
/// count. Nothing else changes.
pub open spec fn after_request(
    cache: ModelCacheView,
    catalog: Option<Map<Seq<char>, Seq<char>>>,
    name: Seq<char>,
    again: bool,
) -> ModelCacheView {
    let flight = cache.flights[name];
    let next = match step_kind(cache, catalog, name) {
        StepKind::Fetch => Flight::Fetching(0),
        StepKind::Wait => if again {
            flight
        } else {
            Flight::Fetching(one_more(flight->Fetching_0))
        },
        StepKind::Failed => if again {
            one_less(flight)
        } else {
            flight
        },
        _ => flight,
    };
    ModelCacheView { stored: cache.stored, flights: cache.flights.insert(name, next) }
}

/// The cache after the fetch of `name` is reported: fetched bytes are kept,
/// and the flight is over or, after a failure, kept for those who wait.
pub open spec fn after_report(
    cache: ModelCacheView,
    name: Seq<char>,
    outcome: Result<Seq<u8>, Error>,
) -> ModelCacheView {
    match outcome {
        Ok(bytes) => ModelCacheView {
            stored: cache.stored.insert(name, bytes),
            flights: cache.flights.insert(name, reported(cache.flights[name], None)),
        },
        Err(e) => ModelCacheView {
            stored: cache.stored,
            flights: cache.flights.insert(name, reported(cache.flights[name], Some(e))),
        },
    }
}

/// How the fetch of `name` stands by a table of flights: what the table holds
/// under the name, and idle where it holds nothing.
pub open spec fn flight_at(flights: Map<Seq<char>, Flight>, name: Seq<char>) -> Flight {
    if flights.contains_key(name) {
        flights[name]
    } else {
        Flight::Idle
    }
}

/// A catalog that may not be at hand, as a mathematical value.
pub open spec fn listed(catalog: Option<&Catalog>) -> Option<Map<Seq<char>, Seq<char>>> {
    match catalog {
        Some(catalog) => Some(catalog@),
        None => None,
    }
}

/// The cache of model bytes, one entry for each name, kept without limit.
pub struct ModelCache {
    store: ModelStore,
    flights: Table<Flight>,
}

impl View for ModelCache {
    type V = ModelCacheView;

    closed spec fn view(&self) -> ModelCacheView {
        ModelCacheView {
            stored: stored_models(self.store),
            flights: Map::total(|name: Seq<char>| flight_at(self.flights@, name)),
        }
    }
}

impl ModelCache {
    /// A cache that holds nothing and in which nothing is being fetched.
    pub fn new() -> (cache: ModelCache)
        ensures
            cache@.stored == no_models(),
            forall|name: Seq<char>| cache@.flights[name] == Flight::Idle,
    {
        ModelCache { store: empty_store(), flights: Table::new() }
    }

    /// The bytes kept under `name`, if any are.
    pub fn lookup(&self, name: &str) -> (found: Option<Vec<u8>>)
        ensures
            match found {
                Some(bytes) => self@.stored.contains_key(name@) && self@.stored[name@] == bytes@,
                None => !self@.stored.contains_key(name@),
            },
    {
        let key = String::from_str(name);
        store_lookup(&self.store, &key)
    }

    fn flight(&self, name: &str) -> (flight: Flight)
        ensures
            flight == self@.flights[name@],
    {
        match self.flights.get(name) {
            Some(Flight::Fetching(waiters)) => Flight::Fetching(*waiters),
            Some(Flight::Failed(e, waiters)) => Flight::Failed(e.duplicate(), *waiters),
            _ => Flight::Idle,
        }
    }

    fn set_flight(&mut self, name: &str, flight: Flight)
        ensures
            final(self)@.stored == old(self)@.stored,
            final(self)@.flights == old(self)@.flights.insert(name@, flight),
    {
        self.flights.insert(name, flight);
        assert(self@.flights =~= old(self)@.flights.insert(name@, flight));
    }

    fn ask(&mut self, catalog: Option<&Catalog>, name: &str, again: bool) -> (r: Result<
        ModelStep,
        Error,
    >)
        ensures
            final(self)@ == after_request(old(self)@, listed(catalog), name@, again),
            answers(old(self)@, listed(catalog), name@, r),
    {
        if let Some(bytes) = self.lookup(name) {
            proof {
                assert(self@.flights =~= self@.flights.insert(name@, self@.flights[name@]));
            }
            return Ok(ModelStep::Ready(bytes));
        }
        match self.flight(name) {
            Flight::Failed(e, waiters) => {
                if again {
                    let next = if waiters <= 1 {
                        Flight::Idle
                    } else {
                        Flight::Failed(e.duplicate(), waiters - 1)
                    };
                    self.set_flight(name, next);
                } else {
                    proof {
                        assert(self@.flights =~= self@.flights.insert(
                            name@,
                            self@.flights[name@],
                        ));
                    }
                }
                Err(e)
            },
            Flight::Fetching(waiters) => {
                if !again {
                    let more = if waiters < u64::MAX {
                        waiters + 1
                    } else {
                        waiters
                    };
                    self.set_flight(name, Flight::Fetching(more));
                } else {
                    proof {
                        assert(self@.flights =~= self@.flights.insert(
                            name@,
                            self@.flights[name@],
                        ));
                    }
                }
                Ok(ModelStep::Wait)
            },
            Flight::Idle => {
                let resolved = match catalog {
                    None => {
                        proof {
                            assert(self@.flights =~= self@.flights.insert(
                                name@,
                                self@.flights[name@],
                            ));
                        }
                        return Ok(ModelStep::Catalog);
                    },
                    Some(catalog) => catalog.resolve_category(name),
                };
                match resolved {
                    Err(e) => {
                        proof {
                            assert(self@.flights =~= self@.flights.insert(
                                name@,
                                self@.flights[name@],
                            ));
                        }
                        Err(e)
                    },
                    Ok(model) => {
                        self.set_flight(name, Flight::Fetching(0));
                        Ok(ModelStep::Fetch(model_url(model.as_str())))
                    },
                }
            },
        }
    }

    fn report(&mut self, name: &str, failure: Option<Error>)
        ensures
            final(self)@.stored == old(self)@.stored,
            final(self)@.flights == old(self)@.flights.insert(
                name@,
                reported(old(self)@.flights[name@], failure),
            ),
    {
        match self.flight(name) {
            Flight::Fetching(waiters) => {
                let next = match failure {
                    Some(e) => if waiters > 0 {
                        Flight::Failed(e, waiters)
                    } else {
                        Flight::Idle
                    },
                    None => Flight::Idle,
                };
                self.set_flight(name, next);
            },
            _ => {
                assert(self@.flights =~= self@.flights.insert(name@, self@.flights[name@]));
            },
        }
    }
}

/// The answer `r` is the one that a request for the model of `name` gets:
/// kept bytes, the failure of the flight, the address of the model that the
/// catalog lists, or the word to wait or to bring the catalog.
pub open spec fn answers(
    cache: ModelCacheView,
    catalog: Option<Map<Seq<char>, Seq<char>>>,
    name: Seq<char>,
    r: Result<ModelStep, Error>,
) -> bool {
    match step_kind(cache, catalog, name) {
        StepKind::Ready => r matches Ok(ModelStep::Ready(bytes)) && bytes@ == cache.stored[name],
        StepKind::Failed => r matches Err(e) && e == cache.flights[name]->Failed_0,
        StepKind::Wait => r matches Ok(ModelStep::Wait),
        StepKind::Catalog => r matches Ok(ModelStep::Catalog),
        StepKind::Unknown => r matches Err(Error::UnknownChallenge(asked)) && asked@ == name,
        StepKind::Fetch => r matches Ok(ModelStep::Fetch(url)) && url@ == model_url_of(
            catalog->0[name],
        ),
    }
}

/// Answers a first request for the model of the category `name`.
///
/// Bytes that the cache keeps are handed out at once. Of the callers who ask
/// for a model that is not kept, the first is told to fetch it and the others
/// to wait. When the fetch has failed, whoever asks is told of that failure
/// until every caller who waited has heard of it; only then is a caller told
/// to fetch anew. The catalog says which model stands for `name`; it may be
/// left out, and is asked for where it is needed.
pub fn get_model(cache: &mut ModelCache, catalog: Option<&Catalog>, name: &str) -> (r: Result<
    ModelStep,
    Error,
>)
    ensures
        final(cache)@ == after_request(old(cache)@, listed(catalog), name@, false),
        answers(old(cache)@, listed(catalog), name@, r),
{
    cache.ask(catalog, name, false)
}

/// Answers the request of a caller who was told to wait for the model of
/// `name` and asks again: with the bytes if the fetch brought them, with the
/// failure of the fetch if it failed, with the word to wait if it is still
/// under way.
pub fn get_model_again(cache: &mut ModelCache, catalog: Option<&Catalog>, name: &str) -> (r:
    Result<ModelStep, Error>)
    ensures
        final(cache)@ == after_request(old(cache)@, listed(catalog), name@, true),
        answers(old(cache)@, listed(catalog), name@, r),
{
    cache.ask(catalog, name, true)
}

/// Reports the reply to the fetch of the model of `name`: its status and its
/// body. The fetch is over, whatever came back. A success is kept under
/// `name`; "not found" means that no model exists for the category; any other
/// status means that the source is unavailable. A failure is kept for the
/// callers who wait.
pub fn model_fetched(cache: &mut ModelCache, name: &str, status: u16, body: Vec<u8>) -> (r: Result<
    (),
    Error,
>)
    ensures
        match r {
            Ok(_) => is_success(status) && final(cache)@ == after_report(
                old(cache)@,
                name@,
                Ok(body@),
            ),
            Err(e) => {
                &&& !is_success(status)
                &&& final(cache)@ == after_report(old(cache)@, name@, Err(e))
                &&& match e {
                    Error::UnknownChallenge(asked) => status == NOT_FOUND && asked@ == name@,
                    Error::UpstreamUnavailable(why) => status != NOT_FOUND && why@
                        == MODEL_SOURCE_FAILED@,
                    _ => false,
                }
            },
        },
{
    match check_model_status(status, name) {
        Ok(_) => {
            cache.report(name, None);
            store_insert(&mut cache.store, String::from_str(name), body);
            Ok(())
        },
        Err(e) => {
            cache.report(name, Some(e.duplicate()));
            Err(e)
        },
    }
}

/// Reports that the fetch of the model of `name` brought no reply at all. The
/// fetch is over, nothing is kept, and the source counts as unavailable, for
/// the caller and for those who wait.
pub fn model_failed(cache: &mut ModelCache, name: &str, why: String) -> (e: Error)
    ensures
        final(cache)@ == after_report(old(cache)@, name@, Err(e)),
        e matches Error::UpstreamUnavailable(said) && said@ == why@,
{
    let e = Error::UpstreamUnavailable(why);
    cache.report(name, Some(e.duplicate()));
    e
}

/// Takes a caller who was told to wait for the model of `name`, and will not
/// ask again, off the count of those who wait.
pub fn model_given_up(cache: &mut ModelCache, name: &str)
    ensures
        final(cache)@.stored == old(cache)@.stored,
        final(cache)@.flights == old(cache)@.flights.insert(
            name@,
            one_less(old(cache)@.flights[name@]),
        ),
{
    let next = match cache.flight(name) {
        Flight::Idle => Flight::Idle,
        Flight::Fetching(waiters) => Flight::Fetching(
            if waiters > 0 {
                waiters - 1
            } else {
                0
            },
        ),
        Flight::Failed(e, waiters) => if waiters <= 1 {
            Flight::Idle
        } else {
            Flight::Failed(e, waiters - 1)
        },
    };
    cache.set_flight(name, next);
}

/// The cache after a run of requests for the model of `name`, with no fetch
/// reported in between. Each entry of `agains` is one request: `false` for a
/// caller who asks for the first time, `true` for one who was told to wait and
/// asks again.
pub open spec fn after_requests(
    cache: ModelCacheView,
    catalog: Option<Map<Seq<char>, Seq<char>>>,
    name: Seq<char>,
    agains: Seq<bool>,
) -> ModelCacheView
    decreases agains.len(),
{
    if agains.len() == 0 {
        cache
    } else {
        after_request(
            after_requests(cache, catalog, name, agains.drop_last()),
            catalog,
            name,
            agains.last(),
        )
    }
}

/// How many requests of such a run are told to fetch.
pub open spec fn fetches_of(
    cache: ModelCacheView,
    catalog: Option<Map<Seq<char>, Seq<char>>>,
    name: Seq<char>,
    agains: Seq<bool>,
) -> nat
    decreases agains.len(),
{
    if agains.len() == 0 {
        0
    } else {
        let before = after_requests(cache, catalog, name, agains.drop_last());
        let earlier = fetches_of(cache, catalog, name, agains.drop_last());
        if step_kind(before, catalog, name) is Fetch {
            earlier + 1
        } else {
            earlier
        }
    }
}

/// How many requests of such a run are told to wait.
pub open spec fn waits_of(
    cache: ModelCacheView,
    catalog: Option<Map<Seq<char>, Seq<char>>>,
    name: Seq<char>,
    agains: Seq<bool>,
) -> nat
    decreases agains.len(),
{
    if agains.len() == 0 {
        0
    } else {
        let before = after_requests(cache, catalog, name, agains.drop_last());
        let earlier = waits_of(cache, catalog, name, agains.drop_last());
        if step_kind(before, catalog, name) is Wait {
            earlier + 1
        } else {
            earlier
        }
    }
}

/// How many requests of such a run are answered with the failure `e` of the
/// flight.
pub open spec fn told_of(
    cache: ModelCacheView,
    catalog: Option<Map<Seq<char>, Seq<char>>>,
    name: Seq<char>,
    agains: Seq<bool>,
    e: Error,
) -> nat
    decreases agains.len(),
{
    if agains.len() == 0 {
        0
    } else {
        let before = after_requests(cache, catalog, name, agains.drop_last());
        let earlier = told_of(cache, catalog, name, agains.drop_last(), e);
        if step_kind(before, catalog, name) is Failed && before.flights[name]->Failed_0 == e {
            earlier + 1
        } else {
            earlier
        }
    }
}

/// How many requests of a run come from callers who ask again.
pub open spec fn again_count(agains: Seq<bool>) -> nat
    decreases agains.len(),
{
    if agains.len() == 0 {
        0
    } else if agains.last() {
        again_count(agains.drop_last()) + 1
    } else {
        again_count(agains.drop_last())
    }
}

/// Every request of the run is made while fewer than `waiters` callers have
/// asked again.
pub open spec fn in_window(agains: Seq<bool>, waiters: u64) -> bool {
    agains.len() == 0 || again_count(agains.drop_last()) < waiters
}

/// What is left of a failure that `waiters` callers were to hear of, once
/// `heard` of them have.
pub open spec fn left_of(e: Error, waiters: u64, heard: nat) -> Flight {
    if heard >= waiters {
        Flight::Idle
    } else {
        Flight::Failed(e, (waiters - heard) as u64)
    }
}

/// A request for one name leaves the kept bytes and the flights of all other
/// names as they are.
pub proof fn lemma_other_names_untouched(
    cache: ModelCacheView,
    catalog: Option<Map<Seq<char>, Seq<char>>>,
    name: Seq<char>,
    again: bool,
    other: Seq<char>,
)
    requires
        other != name,
    ensures
        after_request(cache, catalog, name, again).stored == cache.stored,
        after_request(cache, catalog, name, again).flights[other] == cache.flights[other],
{
}

/// The catalog decides where nothing is kept under the name and nothing is
/// being fetched for it. A name that the catalog does not list is answered
/// with an unknown challenge that carries the name as it was asked, and no
/// fetch is opened. A name that it lists is answered with the address of the
/// model that the catalog gives for it, and its fetch is opened.
pub proof fn lemma_catalog_decides(
    cache: ModelCacheView,
    listed: Map<Seq<char>, Seq<char>>,
    name: Seq<char>,
    again: bool,
    r: Result<ModelStep, Error>,
)
    requires
        !cache.stored.contains_key(name),
        cache.flights[name] is Idle,
        answers(cache, Some(listed), name, r),
    ensures
        after_request(cache, Some(listed), name, again).stored == cache.stored,
        !listed.contains_key(name) ==> {
            &&& r matches Err(Error::UnknownChallenge(asked))
            &&& asked@ == name
            &&& after_request(cache, Some(listed), name, again).flights[name] is Idle
        },
        listed.contains_key(name) ==> {
            &&& r matches Ok(ModelStep::Fetch(url))
            &&& url@ == model_url_of(listed[name])
            &&& after_request(cache, Some(listed), name, again).flights[name]
                == Flight::Fetching(0)
        },
{
}

/// Single flight: however many callers ask for the same model, for the first
/// time or again, before a fetch is reported, at most one of them is told to
/// fetch it, and none while a fetch is under way. Nothing is kept or dropped
/// by asking.
pub proof fn lemma_single_flight(
    cache: ModelCacheView,
    catalog: Option<Map<Seq<char>, Seq<char>>>,
    name: Seq<char>,
    agains: Seq<bool>,
)
    ensures
        fetches_of(cache, catalog, name, agains) <= 1,
        fetches_of(cache, catalog, name, agains) == 1 ==> after_requests(
            cache,
            catalog,
            name,
            agains,
        ).flights[name] is Fetching,
        cache.flights[name] is Fetching ==> fetches_of(cache, catalog, name, agains) == 0
            && after_requests(cache, catalog, name, agains).flights[name] is Fetching,
        after_requests(cache, catalog, name, agains).stored == cache.stored,
    decreases agains.len(),
{
    if agains.len() > 0 {
        lemma_single_flight(cache, catalog, name, agains.drop_last());
    }
}

proof fn lemma_again_count_grows(agains: Seq<bool>)
    requires
        agains.len() > 0,
    ensures
        again_count(agains.drop_last()) <= again_count(agains),
{
}

/// The failure reaches those who waited: while fewer callers have asked again
/// than were told to wait, every request for the model, from a caller who
/// waited or from a new one, is answered with the failure of the flight, and
/// none is told to fetch. The failure is dropped when the last of those who
/// waited has heard of it.
pub proof fn lemma_failure_reaches_waiters(
    cache: ModelCacheView,
    catalog: Option<Map<Seq<char>, Seq<char>>>,
    name: Seq<char>,
    agains: Seq<bool>,
    e: Error,
    waiters: u64,
)
    requires
        !cache.stored.contains_key(name),
        cache.flights[name] == Flight::Failed(e, waiters),
        waiters >= 1,
        in_window(agains, waiters),
    ensures
        told_of(cache, catalog, name, agains, e) == agains.len(),
        fetches_of(cache, catalog, name, agains) == 0,
        after_requests(cache, catalog, name, agains).stored == cache.stored,
        after_requests(cache, catalog, name, agains).flights[name] == left_of(
            e,
            waiters,
            again_count(agains),
        ),
    decreases agains.len(),
{
    if agains.len() > 0 {
        let earlier = agains.drop_last();
        if earlier.len() > 0 {
            lemma_again_count_grows(earlier);
        }
        lemma_failure_reaches_waiters(cache, catalog, name, earlier, e, waiters);
    }
}

/// A run of `count` requests, each from a caller who asks for the first time.
pub open spec fn first_asks(count: nat) -> Seq<bool> {
    Seq::new(count, |i: int| false)
}

/// A run of `count` requests, each from a caller who asks again.
pub open spec fn asks_again(count: nat) -> Seq<bool> {
    Seq::new(count, |i: int| true)
}

proof fn lemma_all_again(count: nat)
    ensures
        again_count(asks_again(count)) == count,
        count > 0 ==> asks_again(count).drop_last() == asks_again((count - 1) as nat),
        count > 0 ==> first_asks(count).drop_last() == first_asks((count - 1) as nat),
    decreases count,
{
    if count > 0 {
        lemma_all_again((count - 1) as nat);
        assert(asks_again(count).drop_last() =~= asks_again((count - 1) as nat));
        assert(first_asks(count).drop_last() =~= first_asks((count - 1) as nat));
    }
}

proof fn lemma_first_callers(
    cache: ModelCacheView,
    catalog: Option<Map<Seq<char>, Seq<char>>>,
    name: Seq<char>,
    callers: nat,
)
    requires
        step_kind(cache, catalog, name) is Fetch,
        1 <= callers <= u64::MAX,
    ensures
        fetches_of(cache, catalog, name, first_asks(callers)) == 1,
        waits_of(cache, catalog, name, first_asks(callers)) == callers - 1,
        after_requests(cache, catalog, name, first_asks(callers)).stored
            == cache.stored,
        after_requests(cache, catalog, name, first_asks(callers)).flights[name]
            == Flight::Fetching((callers - 1) as u64),
    decreases callers,
{
    lemma_all_again(callers);
    if callers > 1 {
        lemma_first_callers(cache, catalog, name, (callers - 1) as nat);
    } else {
        let none = first_asks(0);
        assert(none.len() == 0);
        assert(after_requests(cache, catalog, name, none) == cache);
        assert(fetches_of(cache, catalog, name, none) == 0);
        assert(waits_of(cache, catalog, name, none) == 0);
    }
}

/// One fetch for all: where `callers` ask at the same time for a model that is
/// listed, not kept and not being fetched, exactly one of them is told to
/// fetch and the others are told to wait. If that fetch then fails with `e`,
/// every one of those who waited is answered with `e` when it asks again, none
/// of them is told to fetch, nothing is kept, and after the last of them the
/// flight is over, so that a later caller fetches anew.
pub proof fn lemma_one_fetch_for_all(
    cache: ModelCacheView,
    catalog: Option<Map<Seq<char>, Seq<char>>>,
    name: Seq<char>,
    callers: nat,
    e: Error,
)
    requires
        step_kind(cache, catalog, name) is Fetch,
        1 <= callers <= u64::MAX,
    ensures
        ({
            let first = first_asks(callers);
            let again = asks_again((callers - 1) as nat);
            let asked = after_requests(cache, catalog, name, first);
            let failed = after_report(asked, name, Err(e));
            let heard = after_requests(failed, catalog, name, again);
            &&& fetches_of(cache, catalog, name, first) == 1
            &&& waits_of(cache, catalog, name, first) == callers - 1
            &&& told_of(failed, catalog, name, again, e) == callers - 1
            &&& fetches_of(failed, catalog, name, again) == 0
            &&& heard.stored == cache.stored
            &&& heard.flights[name] == Flight::Idle
            &&& step_kind(heard, catalog, name) is Fetch
        }),
{
    let first = first_asks(callers);
    let again = asks_again((callers - 1) as nat);
    lemma_first_callers(cache, catalog, name, callers);
    let asked = after_requests(cache, catalog, name, first);
    let failed = after_report(asked, name, Err(e));
    if callers > 1 {
        let waiters = (callers - 1) as u64;
        lemma_all_again((callers - 1) as nat);
        if callers > 2 {
            lemma_all_again((callers - 2) as nat);
        }
        lemma_failure_reaches_waiters(failed, catalog, name, again, e, waiters);
    } else {
        assert(again.len() == 0);
    }
}

/// Fetched bytes reach all: once the fetch of a model is reported with its
/// bytes, every request for it is answered with those bytes, and none is told
/// to fetch.
pub proof fn lemma_fetched_bytes_reach_all(
    cache: ModelCacheView,
    catalog: Option<Map<Seq<char>, Seq<char>>>,
    name: Seq<char>,
    bytes: Seq<u8>,
    agains: Seq<bool>,
)
    ensures
        ({
            let kept = after_report(cache, name, Ok(bytes));
            let after = after_requests(kept, catalog, name, agains);
            &&& step_kind(after, catalog, name) is Ready
            &&& after.stored[name] == bytes
            &&& fetches_of(kept, catalog, name, agains) == 0
        }),
    decreases agains.len(),
{
    if agains.len() > 0 {
        lemma_fetched_bytes_reach_all(cache, catalog, name, bytes, agains.drop_last());
    }
}

/// How long a fetched catalog stays fresh, in seconds.
pub const CATALOG_TTL: u64 = 3600;

/// What a caller who asks for the catalog is told.
#[derive(Clone, Copy, Debug, PartialEq, Eq, Structural)]
pub enum CatalogStep {
    /// The catalog is here and fresh.
    Ready,
    /// The catalog is here but its time is over; it is served as it is while
    /// it cannot be replaced.
    Stale,
    /// Nobody is fetching the catalog: fetch it, then report.
    Fetch,
    /// No catalog is here and somebody else is fetching it: wait, then ask
    /// again.
    Wait,
}

/// The catalog cache as a mathematical value.
pub struct CatalogCacheView {
    pub catalog: Option<Map<Seq<char>, Seq<char>>>,
    pub fetched_at: u64,
    pub ttl: u64,
    pub flight: Flight,
}

/// A catalog is kept and its time is not over at `now`.
pub open spec fn is_fresh(cache: CatalogCacheView, now: u64) -> bool {
    &&& cache.catalog is Some
    &&& cache.fetched_at <= now
    &&& now - cache.fetched_at < cache.ttl
}

/// The answer that a request for the catalog gets at `now`. A fresh catalog is
/// served. Else the fetch decides: after a failure that waiting callers have
/// not all heard of, the caller hears of it; while a fetch is under way, a
/// kept catalog is served stale and a caller without one waits; else the
/// caller fetches.
pub open spec fn catalog_step(cache: CatalogCacheView, now: u64) -> Result<CatalogStep, Error> {
    if is_fresh(cache, now) {
        Ok(CatalogStep::Ready)
    } else {
        match cache.flight {
            Flight::Failed(e, _) => Err(e),
            Flight::Fetching(_) => if cache.catalog is Some {
                Ok(CatalogStep::Stale)
            } else {
                Ok(CatalogStep::Wait)
            },
            Flight::Idle => Ok(CatalogStep::Fetch),
        }
    }
}

/// The cache after a request at `now`, by a caller who asks for the first
/// time or, with `again`, by one who was told to wait.
///
/// A caller who is told to fetch opens the flight. One who is told to wait is
/// counted, once. One who waited and hears of the failure is taken off the
/// count. Nothing else changes.
pub open spec fn after_catalog_request(cache: CatalogCacheView, now: u64, again: bool) -> CatalogCacheView {
    let next = match catalog_step(cache, now) {
        Ok(CatalogStep::Fetch) => Flight::Fetching(0),
        Ok(CatalogStep::Wait) => if again {
            cache.flight
        } else {
            Flight::Fetching(one_more(cache.flight->Fetching_0))
        },
        Err(_) => if again {
            one_less(cache.flight)
        } else {
            cache.flight
        },
        _ => cache.flight,
    };
    CatalogCacheView { flight: next, ..cache }
}

/// The cache of the catalog, kept for a bounded time.
#[derive(Debug)]
pub struct CatalogCache {
    catalog: Option<Catalog>,
    fetched_at: u64,
    ttl: u64,
    flight: Flight,
}

impl View for CatalogCache {
    type V = CatalogCacheView;

    closed spec fn view(&self) -> CatalogCacheView {
        CatalogCacheView {
            catalog: match self.catalog {
                Some(catalog) => Some(catalog@),
                None => None,
            },
            fetched_at: self.fetched_at,
            ttl: self.ttl,
            flight: self.flight,
        }
    }
}

impl CatalogCache {
    /// A cache that holds no catalog and in which a catalog stays fresh for
    /// `ttl` seconds.
    pub fn new(ttl: u64) -> (cache: CatalogCache)
        ensures
            cache@ == (CatalogCacheView {
                catalog: None,
                fetched_at: 0,
                ttl,
                flight: Flight::Idle,
            }),
    {
        CatalogCache { catalog: None, fetched_at: 0, ttl, flight: Flight::Idle }
    }

    /// The catalog that is kept, fresh or stale.
    pub fn catalog(&self) -> (kept: Option<&Catalog>)
        ensures
            match kept {
                Some(catalog) => self@.catalog == Some(catalog@),
                None => self@.catalog is None,
            },
    {
        self.catalog.as_ref()
    }

    fn ask(&mut self, now: u64, again: bool) -> (r: Result<CatalogStep, Error>)
        ensures
            r == catalog_step(old(self)@, now),
            final(self)@ == after_catalog_request(old(self)@, now, again),
    {
        let kept = self.catalog.is_some();
        if kept && self.fetched_at <= now && now - self.fetched_at < self.ttl {
            return Ok(CatalogStep::Ready);
        }
        let mut flight = Flight::Idle;
        std::mem::swap(&mut flight, &mut self.flight);
        match flight {
            Flight::Failed(e, waiters) => {
                let told = e.duplicate();
                if !again {
                    self.flight = Flight::Failed(e, waiters);
                } else if waiters > 1 {
                    self.flight = Flight::Failed(e, waiters - 1);
                }
                Err(told)
            },
            Flight::Fetching(waiters) => {
                if kept {
                    self.flight = Flight::Fetching(waiters);
                    Ok(CatalogStep::Stale)
                } else {
                    let more = if !again && waiters < u64::MAX {
                        waiters + 1
                    } else {
                        waiters
                    };
                    self.flight = Flight::Fetching(more);
                    Ok(CatalogStep::Wait)
                }
            },
            Flight::Idle => {
                self.flight = Flight::Fetching(0);
                Ok(CatalogStep::Fetch)
            },
        }
    }
}

/// Answers a first request for the catalog at the time `now`, in seconds on a
/// clock that does not run backwards.
///
/// A caller who is told `Ready` or `Stale` reads the catalog from the cache.
/// The one who is told `Fetch` fetches the document and reports with
/// `catalog_fetched`; until then nobody else is told to fetch. When the fetch
/// has failed and no catalog is kept, whoever asks is told of that failure
/// until every caller who waited has heard of it.
pub fn get_objects(cache: &mut CatalogCache, now: u64) -> (r: Result<CatalogStep, Error>)
    ensures
        r == catalog_step(old(cache)@, now),
        final(cache)@ == after_catalog_request(old(cache)@, now, false),
{
    cache.ask(now, false)
}

/// Answers the request of a caller who was told to wait for the catalog and
/// asks again at the time `now`.
pub fn get_objects_again(cache: &mut CatalogCache, now: u64) -> (r: Result<CatalogStep, Error>)
    ensures
        r == catalog_step(old(cache)@, now),
        final(cache)@ == after_catalog_request(old(cache)@, now, true),
{
    cache.ask(now, true)
}

/// Reports how the fetch of the catalog ended at the time `now`: with a
/// catalog, or with the words that say why not. The fetch is over either way.
///
/// A fetched catalog replaces what was kept and is fresh from `now` on. A
/// failed fetch leaves a kept catalog in place, to be served stale; where none
/// is kept the source is unavailable, for the caller and for those who wait.
pub fn catalog_fetched(cache: &mut CatalogCache, now: u64, fetched: Result<Catalog, String>) -> (r:
    Result<CatalogStep, Error>)
    ensures
        final(cache)@.ttl == old(cache)@.ttl,
        match fetched {
            Ok(catalog) => {
                &&& r == Ok::<CatalogStep, Error>(CatalogStep::Ready)
                &&& final(cache)@.catalog == Some(catalog@)
                &&& final(cache)@.fetched_at == now
                &&& final(cache)@.flight == reported(old(cache)@.flight, None)
            },
            Err(why) => {
                &&& final(cache)@.catalog == old(cache)@.catalog
                &&& final(cache)@.fetched_at == old(cache)@.fetched_at
                &&& match r {
                    Ok(step) => {
                        &&& old(cache)@.catalog is Some
                        &&& step == CatalogStep::Stale
                        &&& final(cache)@.flight == reported(old(cache)@.flight, None)
                    },
                    Err(e) => {
                        &&& old(cache)@.catalog is None
                        &&& e matches Error::UpstreamUnavailable(said)
                        &&& said@ == why@
                        &&& final(cache)@.flight == reported(old(cache)@.flight, Some(e))
                    },
                }
            },
        },
{
    let mut flight = Flight::Idle;
    std::mem::swap(&mut flight, &mut cache.flight);
    match fetched {
        Ok(catalog) => {
            cache.catalog = Some(catalog);
            cache.fetched_at = now;
            if let Flight::Failed(e, waiters) = flight {
                cache.flight = Flight::Failed(e, waiters);
            }
            Ok(CatalogStep::Ready)
        },
        Err(why) => {
            if cache.catalog.is_some() {
                if let Flight::Failed(e, waiters) = flight {
                    cache.flight = Flight::Failed(e, waiters);
                }
                Ok(CatalogStep::Stale)
            } else {
                let e = Error::UpstreamUnavailable(why);
                match flight {
                    Flight::Fetching(waiters) => {
                        if waiters > 0 {
                            cache.flight = Flight::Failed(e.duplicate(), waiters);
                        }
                    },
                    Flight::Failed(earlier, waiters) => {
                        cache.flight = Flight::Failed(earlier, waiters);
                    },
                    Flight::Idle => {},
                }
                Err(e)
            }
        },
    }
}

/// Takes a caller who was told to wait for the catalog, and will not ask
/// again, off the count of those who wait.
pub fn catalog_given_up(cache: &mut CatalogCache)
    ensures
        final(cache)@ == (CatalogCacheView {
            flight: one_less(old(cache)@.flight),
            ..old(cache)@
        }),
{
    let mut flight = Flight::Idle;
    std::mem::swap(&mut flight, &mut cache.flight);
    match flight {
        Flight::Idle => {},
        Flight::Fetching(waiters) => {
            cache.flight = Flight::Fetching(
                if waiters > 0 {
                    waiters - 1
                } else {
                    0
                },
            );
        },
        Flight::Failed(e, waiters) => {
            if waiters > 1 {
                cache.flight = Flight::Failed(e, waiters - 1);
            }
        },
    }
}

/// One request for the catalog in a run: the time at which it is made, and
/// whether the caller asks again.
pub type CatalogAsk = (u64, bool);

/// The cache after a run of requests for the catalog, with no fetch reported
/// in between.
pub open spec fn after_catalog_requests(cache: CatalogCacheView, asks: Seq<CatalogAsk>) -> CatalogCacheView
    decreases asks.len(),
{
    if asks.len() == 0 {
        cache
    } else {
        after_catalog_request(
            after_catalog_requests(cache, asks.drop_last()),
            asks.last().0,
            asks.last().1,
        )
    }
}

/// How many requests of such a run get the answer `answer`.
pub open spec fn catalog_answers(
    cache: CatalogCacheView,
    asks: Seq<CatalogAsk>,
    answer: Result<CatalogStep, Error>,
) -> nat
    decreases asks.len(),
{
    if asks.len() == 0 {
        0
    } else {
        let before = after_catalog_requests(cache, asks.drop_last());
        let earlier = catalog_answers(cache, asks.drop_last(), answer);
        if catalog_step(before, asks.last().0) == answer {
            earlier + 1
        } else {
            earlier
        }
    }
}

/// How many requests of such a run are told to fetch.
pub open spec fn catalog_fetches(cache: CatalogCacheView, asks: Seq<CatalogAsk>) -> nat {
    catalog_answers(cache, asks, Ok(CatalogStep::Fetch))
}

/// How many requests of a run come from callers who ask again.
pub open spec fn asked_again(asks: Seq<CatalogAsk>) -> nat
    decreases asks.len(),
{
    if asks.len() == 0 {
        0
    } else if asks.last().1 {
        asked_again(asks.drop_last()) + 1
    } else {
        asked_again(asks.drop_last())
    }
}

/// Single flight: however many callers ask for the catalog, for the first time
/// or again, before a fetch is reported, at most one of them is told to fetch
/// it, and none while a fetch is under way. Asking changes neither the catalog
/// that is kept nor its time.
pub proof fn lemma_one_catalog_fetch(cache: CatalogCacheView, asks: Seq<CatalogAsk>)
    ensures
        catalog_fetches(cache, asks) <= 1,
        catalog_fetches(cache, asks) == 1 ==> after_catalog_requests(
            cache,
            asks,
        ).flight is Fetching,
        cache.flight is Fetching ==> catalog_fetches(cache, asks) == 0 && after_catalog_requests(
            cache,
            asks,
        ).flight is Fetching,
        after_catalog_requests(cache, asks).catalog == cache.catalog,
        after_catalog_requests(cache, asks).fetched_at == cache.fetched_at,
        after_catalog_requests(cache, asks).ttl == cache.ttl,
    decreases asks.len(),
{
    if asks.len() > 0 {
        lemma_one_catalog_fetch(cache, asks.drop_last());
    }
}

proof fn lemma_asked_again_grows(asks: Seq<CatalogAsk>)
    requires
        asks.len() > 0,
    ensures
        asked_again(asks.drop_last()) <= asked_again(asks),
{
}

/// The failure reaches those who waited: where no catalog is kept, and while
/// fewer callers have asked again than were told to wait, every request for
/// the catalog is answered with the failure of the flight, and none is told to
/// fetch. The failure is dropped when the last of those who waited has heard
/// of it.
pub proof fn lemma_catalog_failure_reaches_waiters(
    cache: CatalogCacheView,
    asks: Seq<CatalogAsk>,
    e: Error,
    waiters: u64,
)
    requires
        cache.catalog is None,
        cache.flight == Flight::Failed(e, waiters),
        waiters >= 1,
        asks.len() == 0 || asked_again(asks.drop_last()) < waiters,
    ensures
        catalog_answers(cache, asks, Err(e)) == asks.len(),
        catalog_fetches(cache, asks) == 0,
        after_catalog_requests(cache, asks).catalog is None,
        after_catalog_requests(cache, asks).flight == left_of(e, waiters, asked_again(asks)),
    decreases asks.len(),
{
    if asks.len() > 0 {
        let earlier = asks.drop_last();
        if earlier.len() > 0 {
            lemma_asked_again_grows(earlier);
        }
        lemma_catalog_failure_reaches_waiters(cache, earlier, e, waiters);
    }
}

/// Every request of the run comes from a caller who asks for the first time
/// (`again` false) or from one who asks again (`again` true).
pub open spec fn all_ask(asks: Seq<CatalogAsk>, again: bool) -> bool {
    forall|i: int| 0 <= i < asks.len() ==> (#[trigger] asks[i]).1 == again
}

proof fn lemma_all_asked_again(asks: Seq<CatalogAsk>)
    requires
        all_ask(asks, true),
    ensures
        asked_again(asks) == asks.len(),
    decreases asks.len(),
{
    if asks.len() > 0 {
        assert(asks.last() == asks[asks.len() - 1]);
        assert forall|i: int| 0 <= i < asks.drop_last().len() implies (
        #[trigger] asks.drop_last()[i]).1 == true by {
            assert(asks.drop_last()[i] == asks[i]);
        }
        lemma_all_asked_again(asks.drop_last());
    }
}

proof fn lemma_cold_callers(cache: CatalogCacheView, asks: Seq<CatalogAsk>)
    requires
        cache.catalog is None,
        cache.flight is Idle,
        all_ask(asks, false),
        1 <= asks.len() <= u64::MAX,
    ensures
        catalog_fetches(cache, asks) == 1,
        catalog_answers(cache, asks, Ok(CatalogStep::Wait)) == asks.len() - 1,
        after_catalog_requests(cache, asks).catalog is None,
        after_catalog_requests(cache, asks).flight == Flight::Fetching((asks.len() - 1) as u64),
    decreases asks.len(),
{
    let earlier = asks.drop_last();
    assert(asks.last() == asks[asks.len() - 1]);
    if asks.len() > 1 {
        assert forall|i: int| 0 <= i < earlier.len() implies (#[trigger] earlier[i]).1
            == false by {
            assert(earlier[i] == asks[i]);
        }
        lemma_cold_callers(cache, earlier);
    } else {
        assert(earlier.len() == 0);
        assert(after_catalog_requests(cache, earlier) == cache);
        assert(catalog_answers(cache, earlier, Ok(CatalogStep::Fetch)) == 0);
        assert(catalog_answers(cache, earlier, Ok(CatalogStep::Wait)) == 0);
    }
}

/// One fetch for all: where callers ask at the same time for the catalog of a
/// cache that keeps none and fetches none, exactly one of them is told to
/// fetch and the others are told to wait. If that fetch then fails with `e`,
/// every one of those who waited is answered with `e` when it asks again, none
/// of them is told to fetch, and after the last of them the flight is over, so
/// that a later caller fetches anew.
pub proof fn lemma_one_catalog_fetch_for_all(
    cache: CatalogCacheView,
    first: Seq<CatalogAsk>,
    again: Seq<CatalogAsk>,
    e: Error,
)
    requires
        cache.catalog is None,
        cache.flight is Idle,
        all_ask(first, false),
        all_ask(again, true),
        1 <= first.len() <= u64::MAX,
        again.len() == first.len() - 1,
    ensures
        ({
            let asked = after_catalog_requests(cache, first);
            let failed = CatalogCacheView { flight: reported(asked.flight, Some(e)), ..asked };
            let heard = after_catalog_requests(failed, again);
            &&& catalog_fetches(cache, first) == 1
            &&& catalog_answers(cache, first, Ok(CatalogStep::Wait)) == first.len() - 1
            &&& catalog_answers(failed, again, Err(e)) == again.len()
            &&& catalog_fetches(failed, again) == 0
            &&& heard.catalog is None
            &&& heard.flight == Flight::Idle
        }),
{
    lemma_cold_callers(cache, first);
    let asked = after_catalog_requests(cache, first);
    let failed = CatalogCacheView { flight: reported(asked.flight, Some(e)), ..asked };
    if again.len() > 0 {
        let waiters = again.len() as u64;
        lemma_all_asked_again(again);
        let earlier = again.drop_last();
        assert forall|i: int| 0 <= i < earlier.len() implies (#[trigger] earlier[i]).1
            == true by {
            assert(earlier[i] == again[i]);
        }
        lemma_all_asked_again(earlier);
        lemma_catalog_failure_reaches_waiters(failed, again, e, waiters);
    }
}

} // verus!
