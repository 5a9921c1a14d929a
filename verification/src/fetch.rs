//! Admission of fetches and the retry policy of one fetch.
//!
//! At most `throttle` fetches hold a permit at a time. One fetch is up to
//! [`RETRIES`] requests for the same address, one straight after the other;
//! the first body that arrives is its result.

use crate::records::{Error, ErrorView};
use vstd::prelude::*;

verus! {

/// Requests made for one page before the fetch is given up.
pub const RETRIES: u32 = 5;

/// Fetches that may hold a permit at the same time.
pub const THROTTLE: usize = 2;

/// What one request came to.
#[derive(Clone, Debug, PartialEq, Eq)]
pub enum Attempt {
    /// The page arrived and was decoded as text.
    Body(String),
    /// The request itself failed.
    TransportFailed,
    /// A response arrived that could not be decoded as text.
    DecodeFailed,
}

/// Mathematical value of an [`Attempt`].
pub enum AttemptView {
    Body(Seq<char>),
    TransportFailed,
    DecodeFailed,
}

impl View for Attempt {
    type V = AttemptView;

    open spec fn view(&self) -> AttemptView {
        match self {
            Attempt::Body(body) => AttemptView::Body(body@),
            Attempt::TransportFailed => AttemptView::TransportFailed,
            Attempt::DecodeFailed => AttemptView::DecodeFailed,
        }
    }
}

impl DeepView for Attempt {
    type V = AttemptView;

    open spec fn deep_view(&self) -> AttemptView {
        self@
    }
}

/// Mathematical value of a [`Fetch`].
pub struct FetchView {
    /// Address of the page.
    pub url: Seq<char>,
    /// Requests that may still be made, the one that is due included.
    pub remaining: nat,
}

/// Mathematical value of a [`FetchStep`].
pub enum FetchStepView {
    Retry(FetchView),
    Done(Result<Seq<char>, ErrorView>),
}

impl FetchView {
    /// What follows when the request that was due came to `attempt`: a body
    /// ends the fetch with that body; a failure of either sort uses up one
    /// request and ends the fetch once none is left.
    pub open spec fn advanced(self, attempt: AttemptView) -> FetchStepView {
        match attempt {
            AttemptView::Body(body) => FetchStepView::Done(Ok(body)),
            _ => if self.remaining <= 1 {
                FetchStepView::Done(Err(ErrorView::NetworkError))
            } else {
                FetchStepView::Retry(FetchView { remaining: (self.remaining - 1) as nat, ..self })
            },
        }
    }

    /// Where the fetch stands once its requests have come to `attempts`, in
    /// that order: its result, if it has ended, and the number of requests
    /// that were made. Attempts after the end are never asked for.
    pub open spec fn run(self, attempts: Seq<AttemptView>) -> (Option<Result<Seq<char>, ErrorView>>, nat)
        decreases attempts.len(),
    {
        if attempts.len() == 0 {
            (None, 0)
        } else {
            match self.advanced(attempts[0]) {
                FetchStepView::Done(result) => (Some(result), 1),
                FetchStepView::Retry(next) => {
                    let rest = next.run(attempts.drop_first());
                    (rest.0, rest.1 + 1)
                },
            }
        }
    }
}

/// A fetch in progress: one request for `url` is due.
#[derive(Debug)]
pub struct Fetch {
    url: String,
    remaining: u32,
}

impl View for Fetch {
    type V = FetchView;

    closed spec fn view(&self) -> FetchView {
        FetchView { url: self.url@, remaining: self.remaining as nat }
    }
}

/// What the caller does next for a fetch.
#[derive(Debug)]
pub enum FetchStep {
    /// Make one more request for the page; the fetch goes on.
    Retry(Fetch),
    /// The fetch has ended with this result.
    Done(Result<String, Error>),
}

impl View for FetchStep {
    type V = FetchStepView;

    open spec fn view(&self) -> FetchStepView {
        match self {
            FetchStep::Retry(fetch) => FetchStepView::Retry(fetch@),
            FetchStep::Done(Ok(body)) => FetchStepView::Done(Ok(body@)),
            FetchStep::Done(Err(error)) => FetchStepView::Done(Err(error@)),
        }
    }
}

impl Fetch {
    /// Address of the page to request.
    pub fn url(&self) -> (url: &str)
        ensures
            url@ == self@.url,
    {
        self.url.as_str()
    }

    /// Requests that may still be made, the one that is due included.
    pub fn remaining(&self) -> (remaining: u32)
        ensures
            remaining == self@.remaining,
    {
        self.remaining
    }

    /// Takes in what the request that was due came to and says what to do
    /// next.
    pub fn advance(self, attempt: Attempt) -> (step: FetchStep)
        ensures
            step@ == self@.advanced(attempt@),
    {
        match attempt {
            Attempt::Body(body) => FetchStep::Done(Ok(body)),
            _ => if self.remaining <= 1 {
                FetchStep::Done(Err(Error::NetworkError))
            } else {
                FetchStep::Retry(Fetch { url: self.url, remaining: self.remaining - 1 })
            },
        }
    }
}

/// Mathematical value of a [`FetchClient`].
pub struct ClientView {
    /// Permits that exist in all.
    pub throttle: nat,
    /// Permits that are held and not yet returned.
    pub in_use: nat,
}

/// What can be asked of the permits.
pub enum PermitEvent {
    /// A task asks for a permit.
    Acquire,
    /// A task returns the permit it holds.
    Release,
}

impl ClientView {
    /// Never more permits out than there are.
    pub open spec fn wf(self) -> bool {
        self.in_use <= self.throttle
    }

    /// Whether a permit is free.
    pub open spec fn has_free(self) -> bool {
        self.in_use < self.throttle
    }

    /// The state after a task has asked for a permit: one more is out if one
    /// was free, else nothing has changed.
    pub open spec fn acquired(self) -> ClientView {
        if self.has_free() {
            ClientView { in_use: self.in_use + 1, ..self }
        } else {
            self
        }
    }

    /// The state after one permit has come back.
    pub open spec fn released(self) -> ClientView {
        ClientView { in_use: (self.in_use - 1) as nat, ..self }
    }

    /// The state after the event. A permit that nobody holds cannot come
    /// back, so a release with none out changes nothing here.
    pub open spec fn step(self, event: PermitEvent) -> ClientView {
        match event {
            PermitEvent::Acquire => self.acquired(),
            PermitEvent::Release => if self.in_use > 0 {
                self.released()
            } else {
                self
            },
        }
    }

    /// The state after the events, one after the other.
    pub open spec fn run(self, events: Seq<PermitEvent>) -> ClientView
        decreases events.len(),
    {
        if events.len() == 0 {
            self
        } else {
            self.step(events[0]).run(events.drop_first())
        }
    }
}

/// In whatever order tasks ask for permits and return them, never more
/// permits are out than there are.
pub proof fn lemma_permits_bounded(client: ClientView, events: Seq<PermitEvent>)
    requires
        client.wf(),
    ensures
        client.run(events).wf(),
        client.run(events).throttle == client.throttle,
        client.run(events).in_use <= client.throttle,
    decreases events.len(),
{
    if events.len() > 0 {
        lemma_permits_bounded(client.step(events[0]), events.drop_first());
    }
}

/// Hands out the permits under which pages are fetched.
#[derive(Debug)]
pub struct FetchClient {
    throttle: usize,
    in_use: usize,
}

impl View for FetchClient {
    type V = ClientView;

    closed spec fn view(&self) -> ClientView {
        ClientView { throttle: self.throttle as nat, in_use: self.in_use as nat }
    }
}

impl FetchClient {
    /// Never more permits out than there are.
    #[verifier::type_invariant]
    spec fn bounded(self) -> bool {
        self.in_use <= self.throttle
    }

    /// A client with `throttle_count` permits, none of them held.
    pub fn new(throttle_count: usize) -> (client: FetchClient)
        ensures
            client@ == (ClientView { throttle: throttle_count as nat, in_use: 0 }),
            client@.wf(),
    {
        FetchClient { throttle: throttle_count, in_use: 0 }
    }

    /// Takes a permit if one is free, and says whether it did.
    pub fn acquire(&mut self) -> (granted: bool)
        ensures
            granted == old(self)@.has_free(),
            final(self)@ == old(self)@.acquired(),
            old(self)@.wf(),
            final(self)@.wf(),
    {
        proof {
            use_type_invariant(&*self);
        }
        if self.in_use < self.throttle {
            self.in_use = self.in_use + 1;
            true
        } else {
            false
        }
    }

    /// Returns one permit that is held.
    pub fn release(&mut self)
        requires
            old(self)@.in_use > 0,
        ensures
            final(self)@ == old(self)@.released(),
            old(self)@.wf(),
            final(self)@.wf(),
    {
        proof {
            use_type_invariant(&*self);
        }
        self.in_use = self.in_use - 1;
    }

    /// Permits that exist in all.
    pub fn throttle(&self) -> (throttle: usize)
        ensures
            throttle == self@.throttle,
    {
        self.throttle
    }

    /// Permits that are held and not yet returned: never more than there
    /// are.
    pub fn in_use(&self) -> (in_use: usize)
        ensures
            in_use == self@.in_use,
            self@.wf(),
    {
        proof {
            use_type_invariant(self);
        }
        self.in_use
    }

    /// Starts a fetch of the page at `url`: the first of [`RETRIES`] requests
    /// is due.
    pub fn fetch(&self, url: &str) -> (fetch: Fetch)
        ensures
            fetch@ == (FetchView { url: url@, remaining: RETRIES as nat }),
    {
        Fetch { url: url.to_owned(), remaining: RETRIES }
    }
}

/// Whether the first `k` of `attempts` all failed.
pub open spec fn all_failed(attempts: Seq<AttemptView>, k: nat) -> bool {
    forall|i: int| 0 <= i < k && i < attempts.len() ==> !(#[trigger] attempts[i] is Body)
}

/// A fetch whose first `k` requests fail and whose next one brings a body
/// ends with that body after `k + 1` requests, as long as `k` is less than
/// the number of requests it may make. A fetch whose requests fail as often
/// as it may make them ends with `NetworkError`, having made exactly that
/// many.
pub proof fn lemma_fetch_retries(fetch: FetchView, attempts: Seq<AttemptView>, k: nat)
    requires
        fetch.remaining >= 1,
        all_failed(attempts, k),
    ensures
        k < fetch.remaining && k < attempts.len() && attempts[k as int] is Body ==> fetch.run(
            attempts,
        ) == (Some(Ok::<Seq<char>, ErrorView>(attempts[k as int]->Body_0)), k + 1),
        k >= fetch.remaining && attempts.len() >= fetch.remaining ==> fetch.run(attempts) == (
            Some(Err::<Seq<char>, ErrorView>(ErrorView::NetworkError)),
            fetch.remaining,
        ),
    decreases attempts.len(),
{
    if attempts.len() > 0 && k > 0 {
        assert(!(attempts[0] is Body));
        if fetch.remaining > 1 {
            let next = FetchView { remaining: (fetch.remaining - 1) as nat, ..fetch };
            let rest = attempts.drop_first();
            assert forall|i: int| 0 <= i < k - 1 && i < rest.len() implies !(#[trigger] rest[i] is Body) by {
                assert(rest[i] == attempts[i + 1]);
            }
            lemma_fetch_retries(next, rest, (k - 1) as nat);
            if k < attempts.len() {
                assert(rest[k - 1] == attempts[k as int]);
            }
        }
    }
}

} // verus!
