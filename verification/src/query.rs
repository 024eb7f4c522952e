use vstd::prelude::*;
use vstd::string::StringExecFns;

use crate::collections::{PeerMap, PeerSet};
use crate::peers::PeerId;
use crate::text::{append_decimal, spec_decimal};

verus! {

/// Why a peer's answer was unusable.
#[derive(Clone, Debug)]
pub enum PeerError {
    /// The peer answered, but the answer failed the caller's check.
    InvalidResponse(String),
    /// The peer reported an internal failure.
    ServerError(String),
    /// The peer could not be reached.
    Transport(String),
}

/// What one peer returned: a response, or the error in its place.
pub type PeerResult<R> = Result<R, PeerError>;

/// The outcome of feeding one peer response to a query strategy.
pub enum QueryStep<R> {
    /// Re-dispatch the request to these peers.
    Retry(PeerSet),
    /// Keep waiting for more responses.
    Continue,
    /// The query is answered.
    Success(R),
    /// The query failed for good.
    Failure { general: Option<String>, peers: PeerMap<PeerError> },
}

/// A reducer over per-peer responses that decides when enough answers have
/// been seen.  Each implementation fixes its exact behaviour through the two
/// spec functions, which its `process` contract is stated over.
pub trait QueryStrategy<IR, OR>: Sized {
    /// What `process` asks of its caller.
    spec fn process_req(pre: Self, peer: PeerId, result: PeerResult<IR>) -> bool;

    /// How the step and the state after relate to the state before.
    spec fn process_ens(
        pre: Self,
        post: Self,
        peer: PeerId,
        result: PeerResult<IR>,
        step: QueryStep<OR>,
    ) -> bool;

    /// What the strategy's request timeout is, where it wants one.
    spec fn timeout_ens(&self, t: Option<u64>) -> bool;

    /// A per-request timeout, where the strategy wants one.
    fn request_timeout(&self) -> (t: Option<u64>)
        ensures
            self.timeout_ens(t),
    ;

    /// Feed one peer's response to the strategy.
    fn process(&mut self, peer_id: PeerId, response: PeerResult<IR>) -> (step: QueryStep<OR>)
        requires
            Self::process_req(*old(self), peer_id, response),
        ensures
            Self::process_ens(*old(self), *final(self), peer_id, response, step),
    ;
}

impl PeerError {
    /// The message inside, prefixed with the kind of failure.
    pub open spec fn describe_spec(&self) -> Seq<char> {
        match self {
            PeerError::InvalidResponse(m) => "invalid response: "@ + m@,
            PeerError::ServerError(m) => "server error: "@ + m@,
            PeerError::Transport(m) => "transport error: "@ + m@,
        }
    }

    /// Render the error for a diagnostic line.
    pub fn describe(&self) -> (r: String)
        ensures
            r@ == self.describe_spec(),
    {
        let mut s = String::new();
        match self {
            PeerError::InvalidResponse(m) => {
                s.append("invalid response: ");
                s.append(m.as_str());
            },
            PeerError::ServerError(m) => {
                s.append("server error: ");
                s.append(m.as_str());
            },
            PeerError::Transport(m) => {
                s.append("transport error: ");
                s.append(m.as_str());
            },
        }
        proof {
            assert(s@ =~= self.describe_spec());
        }
        s
    }
}

/// One `peer-<id>: <error>` fragment of the diagnostic.
pub open spec fn spec_error_line(peer: PeerId, e: PeerError) -> Seq<char> {
    "peer-"@ + spec_decimal(peer.0 as int) + ": "@ + e.describe_spec()
}

/// The diagnostic for a whole error list: the lines joined with `", "`.
pub open spec fn spec_error_summary(s: Seq<(PeerId, PeerError)>) -> Seq<char>
    decreases s.len(),
{
    if s.len() == 0 {
        Seq::empty()
    } else if s.len() == 1 {
        spec_error_line(s[0].0, s[0].1)
    } else {
        spec_error_summary(s.drop_last()) + ", "@ + spec_error_line(s.last().0, s.last().1)
    }
}

/// The `general` message of a `Failure` raised after `threshold` errors.
pub open spec fn spec_failure_message(threshold: int, s: Seq<(PeerId, PeerError)>) -> Seq<char> {
    "received errors from "@ + spec_decimal(threshold) + " peers: "@ + spec_error_summary(s)
}

/// Accumulates peer errors until their number reaches the error budget
/// `f + 1`, at which point the whole query fails with every collected error.
pub struct ErrorStrategy {
    errors: PeerMap<PeerError>,
    threshold: usize,
}

impl ErrorStrategy {
    /// The errors collected so far, in arrival order.
    pub closed spec fn errors_seq(&self) -> Seq<(PeerId, PeerError)> {
        self.errors.entries_seq()
    }

    /// The errors collected so far, as a map.
    pub open spec fn errors_map(&self) -> Map<PeerId, PeerError> {
        crate::collections::seq_to_map(self.errors_seq())
    }

    /// How many errors end the query.
    pub closed spec fn threshold_spec(&self) -> int {
        self.threshold as int
    }

    pub open spec fn wf(&self) -> bool {
        &&& crate::collections::distinct_keys(self.errors_seq())
        &&& self.threshold_spec() >= 1
        &&& self.errors_seq().len() < self.threshold_spec()
    }

    pub fn new(threshold: usize) -> (r: Self)
        requires
            threshold >= 1,
        ensures
            r.wf(),
            r.threshold_spec() == threshold,
            r.errors_seq() =~= Seq::<(PeerId, PeerError)>::empty(),
    {
        ErrorStrategy { errors: PeerMap::new(), threshold }
    }

    /// The collected errors joined into one diagnostic.
    pub fn format_errors(&self) -> (r: String)
        requires
            crate::collections::distinct_keys(self.errors_seq()),
        ensures
            r@ == spec_error_summary(self.errors_seq()),
    {
        let mut s = String::new();
        let entries = self.errors.entries();
        let mut i: usize = 0;
        while i < entries.len()
            invariant
                entries@ == self.errors_seq(),
                i <= entries@.len(),
                s@ == spec_error_summary(entries@.take(i as int)),
            decreases entries@.len() - i,
        {
            if i > 0 {
                s.append(", ");
            }
            s.append("peer-");
            append_decimal(&mut s, entries[i].0 .0 as u64);
            s.append(": ");
            let d = entries[i].1.describe();
            s.append(d.as_str());
            proof {
                let t = entries@.take(i as int + 1);
                assert(t.drop_last() =~= entries@.take(i as int));
                assert(t[i as int] == entries@[i as int]);
                assert(t.len() == i + 1);
                if i == 0 {
                    assert(s@ =~= spec_error_line(t[0].0, t[0].1));
                    assert(s@ =~= spec_error_summary(t));
                } else {
                    assert(s@ =~= spec_error_summary(t.drop_last()) + ", "@ + spec_error_line(
                        t.last().0,
                        t.last().1,
                    ));
                    assert(s@ =~= spec_error_summary(t));
                }
            }
            i = i + 1;
        }
        proof {
            assert(entries@.take(entries@.len() as int) =~= entries@);
        }
        s
    }

    /// How the state and step after one recorded error relate to the state
    /// before: `Continue` below the budget, a draining `Failure` at it.
    pub open spec fn step_ens<R>(
        pre: ErrorStrategy,
        post: ErrorStrategy,
        peer: PeerId,
        error: PeerError,
        step: QueryStep<R>,
    ) -> bool {
        &&& post.wf()
        &&& post.threshold_spec() == pre.threshold_spec()
        &&& if pre.errors_seq().len() + 1 == pre.threshold_spec() {
            &&& step matches QueryStep::Failure { general, peers }
                && general matches Some(g)
                && g@ == spec_failure_message(
                    pre.threshold_spec(),
                    pre.errors_seq().push((peer, error)),
                )
                && peers@ == pre.errors_map().insert(peer, error)
                && peers.wf()
            &&& post.errors_seq() =~= Seq::<(PeerId, PeerError)>::empty()
        } else {
            &&& step matches QueryStep::Continue
            &&& post.errors_seq() == pre.errors_seq().push((peer, error))
            &&& post.errors_map() == pre.errors_map().insert(peer, error)
        }
    }

    /// Record one peer error; fail the query when the budget is reached.
    pub fn process<R>(&mut self, peer: PeerId, error: PeerError) -> (step: QueryStep<R>)
        requires
            old(self).wf(),
            !old(self).errors_map().contains_key(peer),
        ensures
            Self::step_ens(*old(self), *final(self), peer, error, step),
    {
        proof {
            crate::collections::lemma_seq_to_map_domain(self.errors_seq(), peer);
        }
        let failure_message = if self.errors.len() + 1 == self.threshold {
            let mut m = String::new();
            m.append("received errors from ");
            append_decimal(&mut m, self.threshold as u64);
            m.append(" peers: ");
            Some(m)
        } else {
            None
        };
        self.errors.insert(peer, error);
        if self.errors.len() == self.threshold {
            let mut general = match failure_message {
                Some(m) => m,
                None => String::new(),  // never taken: the fresh insert grew the count by one
            };
            let summary = self.format_errors();
            general.append(summary.as_str());
            let peers = self.errors.take();
            proof {
                assert(general@ =~= spec_failure_message(
                    old(self).threshold_spec(),
                    old(self).errors_seq().push((peer, error)),
                ));
            }
            QueryStep::Failure { general: Some(general), peers }
        } else {
            QueryStep::Continue
        }
    }
}

/// Returns the first response that the filter accepts.  A peer's response is
/// taken as final, so there are no retries; the query fails once `f + 1`
/// peers have failed or answered unusably.
#[verifier::reject_recursive_types(R)]
#[verifier::reject_recursive_types(T)]
pub struct FilterMap<R, T, F> where F: Fn(R) -> Result<T, String> {
    filter_map: F,
    error_strategy: ErrorStrategy,
    response_types: core::marker::PhantomData<(R, T)>,
}

impl<R, T, F> FilterMap<R, T, F> where F: Fn(R) -> Result<T, String> {
    /// The filter the strategy was built with.
    pub closed spec fn filter_spec(&self) -> F {
        self.filter_map
    }

    /// The error accounting state.
    pub closed spec fn error_state(&self) -> ErrorStrategy {
        self.error_strategy
    }

    pub open spec fn wf(&self) -> bool {
        self.error_state().wf()
    }

    /// Strategy for returning the first response that is verifiable, as a
    /// self-certifying answer needs no quorum.
    pub fn new(filter_map: F, total_peers: usize) -> (r: Self)
        requires
            total_peers >= 1,
        ensures
            r.wf(),
            r.filter_spec() == filter_map,
            r.error_state().threshold_spec() == crate::peers::spec_error_threshold(
                total_peers as int,
            ),
            r.error_state().errors_seq() =~= Seq::<(PeerId, PeerError)>::empty(),
    {
        let max_evil = (total_peers - 1) / 3;
        FilterMap {
            filter_map,
            error_strategy: ErrorStrategy::new(max_evil + 1),
            response_types: core::marker::PhantomData,
        }
    }
}

impl<R, T, F> QueryStrategy<R, T> for FilterMap<R, T, F> where F: Fn(R) -> Result<T, String> {
    open spec fn process_req(pre: Self, peer: PeerId, result: PeerResult<R>) -> bool {
        &&& pre.wf()
        &&& !pre.error_state().errors_map().contains_key(peer)
        &&& result matches Ok(r) ==> call_requires(pre.filter_spec(), (r,))
    }

    open spec fn process_ens(
        pre: Self,
        post: Self,
        peer: PeerId,
        result: PeerResult<R>,
        step: QueryStep<T>,
    ) -> bool {
        match result {
            Ok(r) => {
                ||| {
                    &&& step matches QueryStep::Success(v) && call_ensures(
                        pre.filter_spec(),
                        (r,),
                        Ok(v),
                    )
                    &&& post == pre
                }
                ||| exists|m: String|
                    {
                        &&& #[trigger] call_ensures(pre.filter_spec(), (r,), Err(m))
                        &&& ErrorStrategy::step_ens(
                            pre.error_state(),
                            post.error_state(),
                            peer,
                            PeerError::InvalidResponse(m),
                            step,
                        )
                        &&& post.filter_spec() == pre.filter_spec()
                    }
            },
            Err(e) => {
                &&& ErrorStrategy::step_ens(pre.error_state(), post.error_state(), peer, e, step)
                &&& post.filter_spec() == pre.filter_spec()
            },
        }
    }

    open spec fn timeout_ens(&self, t: Option<u64>) -> bool {
        t is None
    }

    fn request_timeout(&self) -> (t: Option<u64>) {
        None
    }

    fn process(&mut self, peer_id: PeerId, response: PeerResult<R>) -> (step: QueryStep<T>) {
        match response {
            Ok(r) => match (self.filter_map)(r) {
                Ok(value) => QueryStep::Success(value),
                Err(m) => self.error_strategy.process(peer_id, PeerError::InvalidResponse(m)),
            },
            Err(e) => self.error_strategy.process(peer_id, e),
        }
    }
}

/// Returns once a threshold of responses passed the per-peer filter, keyed
/// by the peer that sent each.  Responses are final; no retries.
#[verifier::reject_recursive_types(R)]
#[verifier::reject_recursive_types(T)]
pub struct FilterMapThreshold<R, T, F> where F: Fn(PeerId, R) -> Result<T, String> {
    filter_map: F,
    error_strategy: ErrorStrategy,
    filtered_responses: PeerMap<T>,
    threshold: usize,
    response_type: core::marker::PhantomData<R>,
}

impl<R, T, F> FilterMapThreshold<R, T, F> where F: Fn(PeerId, R) -> Result<T, String> {
    /// The filter the strategy was built with.
    pub closed spec fn filter_spec(&self) -> F {
        self.filter_map
    }

    /// The error accounting state.
    pub closed spec fn error_state(&self) -> ErrorStrategy {
        self.error_strategy
    }

    /// The accepted responses so far, in arrival order.
    pub closed spec fn responses_seq(&self) -> Seq<(PeerId, T)> {
        self.filtered_responses.entries_seq()
    }

    /// The accepted responses so far, as a map.
    pub open spec fn responses_map(&self) -> Map<PeerId, T> {
        crate::collections::seq_to_map(self.responses_seq())
    }

    /// How many accepted responses make a result.
    pub closed spec fn threshold_spec(&self) -> int {
        self.threshold as int
    }

    pub open spec fn wf(&self) -> bool {
        &&& self.error_state().wf()
        &&& crate::collections::distinct_keys(self.responses_seq())
        &&& self.threshold_spec() >= 1
        &&& self.responses_seq().len() < self.threshold_spec()
    }

    pub fn new(verifier: F, total_peers: usize) -> (r: Self)
        requires
            total_peers >= 1,
        ensures
            r.wf(),
            r.filter_spec() == verifier,
            r.threshold_spec() == crate::peers::spec_honest_threshold(total_peers as int),
            r.error_state().threshold_spec() == crate::peers::spec_error_threshold(
                total_peers as int,
            ),
            r.error_state().errors_seq() =~= Seq::<(PeerId, PeerError)>::empty(),
            r.responses_seq() =~= Seq::<(PeerId, T)>::empty(),
    {
        let max_evil = (total_peers - 1) / 3;
        let threshold = total_peers - max_evil;
        FilterMapThreshold {
            filter_map: verifier,
            error_strategy: ErrorStrategy::new(max_evil + 1),
            filtered_responses: PeerMap::new(),
            threshold,
            response_type: core::marker::PhantomData,
        }
    }
}

impl<R, T, F> QueryStrategy<R, PeerMap<T>> for FilterMapThreshold<
    R,
    T,
    F,
> where F: Fn(PeerId, R) -> Result<T, String> {
    open spec fn process_req(pre: Self, peer: PeerId, result: PeerResult<R>) -> bool {
        &&& pre.wf()
        &&& !pre.error_state().errors_map().contains_key(peer)
        &&& result matches Ok(r) ==> call_requires(pre.filter_spec(), (peer, r))
    }

    open spec fn process_ens(
        pre: Self,
        post: Self,
        peer: PeerId,
        result: PeerResult<R>,
        step: QueryStep<PeerMap<T>>,
    ) -> bool {
        match result {
            Ok(r) => {
                ||| exists|t: T|
                    {
                        &&& #[trigger] call_ensures(pre.filter_spec(), (peer, r), Ok(t))
                        &&& if pre.responses_map().insert(peer, t).dom().len()
                            == pre.threshold_spec() {
                            &&& step matches QueryStep::Success(m) && m@ == pre.responses_map()
                                .insert(peer, t) && crate::collections::distinct_keys(
                                m.entries_seq(),
                            )
                            &&& post.responses_seq() =~= Seq::<(PeerId, T)>::empty()
                        } else {
                            &&& step matches QueryStep::Continue
                            &&& post.responses_map() == pre.responses_map().insert(peer, t)
                        }
                        &&& post.error_state() == pre.error_state()
                        &&& post.filter_spec() == pre.filter_spec()
                        &&& post.threshold_spec() == pre.threshold_spec()
                        &&& post.wf()
                    }
                ||| exists|m: String|
                    {
                        &&& #[trigger] call_ensures(pre.filter_spec(), (peer, r), Err(m))
                        &&& ErrorStrategy::step_ens(
                            pre.error_state(),
                            post.error_state(),
                            peer,
                            PeerError::InvalidResponse(m),
                            step,
                        )
                        &&& post.responses_seq() == pre.responses_seq()
                        &&& post.filter_spec() == pre.filter_spec()
                        &&& post.threshold_spec() == pre.threshold_spec()
                    }
            },
            Err(e) => {
                &&& ErrorStrategy::step_ens(pre.error_state(), post.error_state(), peer, e, step)
                &&& post.responses_seq() == pre.responses_seq()
                &&& post.filter_spec() == pre.filter_spec()
                &&& post.threshold_spec() == pre.threshold_spec()
            },
        }
    }

    open spec fn timeout_ens(&self, t: Option<u64>) -> bool {
        t is None
    }

    fn request_timeout(&self) -> (t: Option<u64>) {
        None
    }

    fn process(&mut self, peer_id: PeerId, response: PeerResult<R>) -> (step: QueryStep<
        PeerMap<T>,
    >) {
        match response {
            Ok(r) => match (self.filter_map)(peer_id, r) {
                Ok(t) => {
                    self.filtered_responses.insert(peer_id, t);
                    proof {
                        crate::collections::lemma_seq_to_map_len(
                            self.filtered_responses.entries_seq(),
                        );
                    }
                    if self.filtered_responses.len() == self.threshold {
                        let m = self.filtered_responses.take();
                        QueryStep::Success(m)
                    } else {
                        QueryStep::Continue
                    }
                },
                Err(m) => self.error_strategy.process(peer_id, PeerError::InvalidResponse(m)),
            },
            Err(e) => self.error_strategy.process(peer_id, e),
        }
    }
}

/// Equality of two responses, decided through their abstract values.
fn deep_eq<R: Eq + DeepView>(a: &R, b: &R) -> (r: bool)
    requires
        vstd::laws_eq::obeys_deep_eq::<R>(),
    ensures
        r == (a.deep_view() == b.deep_view()),
{
    proof {
        reveal(vstd::laws_eq::obeys_deep_eq);
    }
    a.eq(b)
}

/// How many entries of an association sequence carry this response value.
pub open spec fn dcount<R: DeepView>(s: Seq<(PeerId, R)>, v: <R as DeepView>::V) -> nat
    decreases s.len(),
{
    if s.len() == 0 {
        0
    } else {
        dcount(s.drop_last(), v) + if s.last().1.deep_view() == v {
            1nat
        } else {
            0nat
        }
    }
}

/// Returns once a threshold of peers returned one identical response: the
/// single fact the federation agrees on.
pub struct ThresholdConsensus<R> {
    error_strategy: ErrorStrategy,
    responses: PeerMap<R>,
    retry: PeerSet,
    threshold: usize,
}

impl<R> ThresholdConsensus<R> {
    /// The error accounting state.
    pub closed spec fn error_state(&self) -> ErrorStrategy {
        self.error_strategy
    }

    /// The responses recorded so far, in arrival order.
    pub closed spec fn responses_seq(&self) -> Seq<(PeerId, R)> {
        self.responses.entries_seq()
    }

    /// The peers that responded since the last retry.
    pub closed spec fn retry_seq(&self) -> Seq<PeerId> {
        self.retry.items_seq()
    }

    pub open spec fn retry_set(&self) -> Set<PeerId> {
        crate::collections::seq_to_set(self.retry_seq())
    }

    /// How many identical responses make a result.
    pub closed spec fn threshold_spec(&self) -> int {
        self.threshold as int
    }

    pub open spec fn wf(&self) -> bool {
        &&& self.error_state().wf()
        &&& crate::collections::distinct_keys(self.responses_seq())
        &&& crate::collections::distinct_peers(self.retry_seq())
        &&& self.threshold_spec() >= 1
    }

    pub fn new(total_peers: usize) -> (r: Self)
        requires
            total_peers >= 1,
        ensures
            r.wf(),
            r.threshold_spec() == crate::peers::spec_honest_threshold(total_peers as int),
            r.error_state().threshold_spec() == crate::peers::spec_error_threshold(
                total_peers as int,
            ),
            r.error_state().errors_seq() =~= Seq::<(PeerId, PeerError)>::empty(),
            r.responses_seq() =~= Seq::<(PeerId, R)>::empty(),
            r.retry_seq() =~= Seq::<PeerId>::empty(),
    {
        let max_evil = (total_peers - 1) / 3;
        let threshold = total_peers - max_evil;
        ThresholdConsensus {
            error_strategy: ErrorStrategy::new(max_evil + 1),
            responses: PeerMap::new(),
            retry: PeerSet::new(),
            threshold,
        }
    }
}

impl<R: Eq + DeepView> ThresholdConsensus<R> {
    /// The position and multiplicity of a response with the greatest
    /// multiplicity, or nothing where no response arrived yet.
    fn most_common_index(&self) -> (r: Option<(usize, usize)>)
        requires
            crate::collections::distinct_keys(self.responses_seq()),
            vstd::laws_eq::obeys_deep_eq::<R>(),
        ensures
            match r {
                Some(ic) => {
                    &&& ic.0 < self.responses_seq().len()
                    &&& ic.1 == dcount(
                        self.responses_seq(),
                        self.responses_seq()[ic.0 as int].1.deep_view(),
                    )
                    &&& forall|j: int|
                        0 <= j < self.responses_seq().len() ==> dcount(
                            self.responses_seq(),
                            (#[trigger] self.responses_seq()[j]).1.deep_view(),
                        ) <= ic.1
                },
                None => self.responses_seq().len() == 0,
            },
    {
        let entries = self.responses.entries();
        let n = entries.len();
        if n == 0 {
            return None;
        }
        let mut best_i: usize = 0;
        let mut best_c: usize = 0;
        let mut i: usize = 0;
        while i < n
            invariant
                entries@ == self.responses_seq(),
                n == entries@.len(),
                0 < n,
                i <= n,
                vstd::laws_eq::obeys_deep_eq::<R>(),
                i > 0 ==> best_i < i && best_c == dcount(
                    entries@,
                    entries@[best_i as int].1.deep_view(),
                ),
                i == 0 ==> best_c == 0,
                forall|j: int|
                    0 <= j < i ==> dcount(entries@, (#[trigger] entries@[j]).1.deep_view())
                        <= best_c,
            decreases n - i,
        {
            let mut c: usize = 0;
            let mut j: usize = 0;
            while j < n
                invariant
                    entries@ == self.responses_seq(),
                    n == entries@.len(),
                    i < n,
                    j <= n,
                    c <= j,
                    vstd::laws_eq::obeys_deep_eq::<R>(),
                    c == dcount(entries@.take(j as int), entries@[i as int].1.deep_view()),
                decreases n - j,
            {
                let same = deep_eq(&entries[j].1, &entries[i].1);
                proof {
                    let t = entries@.take(j as int + 1);
                    assert(t.drop_last() =~= entries@.take(j as int));
                    assert(t.last() == entries@[j as int]);
                }
                if same {
                    c = c + 1;
                }
                j = j + 1;
            }
            proof {
                assert(entries@.take(n as int) =~= entries@);
            }
            if c > best_c || i == 0 {
                best_i = i;
                best_c = c;
            }
            i = i + 1;
        }
        Some((best_i, best_c))
    }

    /// The most common response recorded so far.  On a tie the pick is
    /// arbitrary but deterministic for one call sequence.
    pub fn get_most_common_response(&self) -> (r: Option<&R>)
        requires
            crate::collections::distinct_keys(self.responses_seq()),
            vstd::laws_eq::obeys_deep_eq::<R>(),
        ensures
            match r {
                Some(v) => {
                    &&& self.responses_seq().len() > 0
                    &&& exists|i: int|
                        0 <= i < self.responses_seq().len()
                            && (#[trigger] self.responses_seq()[i]).1 == *v
                    &&& forall|j: int|
                        0 <= j < self.responses_seq().len() ==> dcount(
                            self.responses_seq(),
                            (#[trigger] self.responses_seq()[j]).1.deep_view(),
                        ) <= dcount(self.responses_seq(), v.deep_view())
                },
                None => self.responses_seq().len() == 0,
            },
    {
        match self.most_common_index() {
            Some((i, _c)) => {
                let entries = self.responses.entries();
                proof {
                    assert((self.responses_seq()[i as int]).1 == entries@[i as int].1);
                }
                Some(&entries[i].1)
            },
            None => None,
        }
    }
}

impl<R: Eq + DeepView> QueryStrategy<R, R> for ThresholdConsensus<R> {
    open spec fn process_req(pre: Self, peer: PeerId, result: PeerResult<R>) -> bool {
        &&& pre.wf()
        &&& vstd::laws_eq::obeys_deep_eq::<R>()
        &&& !pre.retry_set().contains(peer)
        &&& !pre.error_state().errors_map().contains_key(peer)
    }

    open spec fn process_ens(
        pre: Self,
        post: Self,
        peer: PeerId,
        result: PeerResult<R>,
        step: QueryStep<R>,
    ) -> bool {
        match result {
            Ok(resp) => {
                let s1 = crate::collections::seq_insert(pre.responses_seq(), peer, resp);
                &&& post.wf()
                &&& post.threshold_spec() == pre.threshold_spec()
                &&& post.error_state() == pre.error_state()
                &&& if exists|i: int|
                    0 <= i < s1.len() && dcount(s1, (#[trigger] s1[i]).1.deep_view())
                        >= pre.threshold_spec() {
                    step matches QueryStep::Success(v) && dcount(s1, v.deep_view())
                        >= pre.threshold_spec() && post.retry_seq() == pre.retry_seq().push(peer)
                        && (exists|i: int|
                        {
                            &&& 0 <= i < s1.len()
                            &&& (#[trigger] s1[i]).1 == v
                            &&& crate::collections::seq_to_map(post.responses_seq())
                                == crate::collections::seq_to_map(s1).remove(s1[i].0)
                        })
                } else if pre.retry_seq().len() + 1 == pre.threshold_spec() {
                    &&& step matches QueryStep::Retry(ps) && ps@ == pre.retry_set().insert(peer)
                        && crate::collections::distinct_peers(ps.items_seq())
                    &&& post.retry_seq() =~= Seq::<PeerId>::empty()
                    &&& post.responses_seq() == s1
                } else {
                    &&& step matches QueryStep::Continue
                    &&& post.responses_seq() == s1
                    &&& post.retry_seq() == pre.retry_seq().push(peer)
                }
            },
            Err(e) => {
                &&& ErrorStrategy::step_ens(pre.error_state(), post.error_state(), peer, e, step)
                &&& post.responses_seq() == pre.responses_seq()
                &&& post.retry_seq() == pre.retry_seq()
                &&& post.threshold_spec() == pre.threshold_spec()
            },
        }
    }

    open spec fn timeout_ens(&self, t: Option<u64>) -> bool {
        t is None
    }

    fn request_timeout(&self) -> (t: Option<u64>) {
        None
    }

    fn process(&mut self, peer_id: PeerId, response: PeerResult<R>) -> (step: QueryStep<R>) {
        match response {
            Ok(resp) => {
                self.responses.insert(peer_id, resp);
                proof {
                    crate::collections::lemma_seq_to_set_contains(self.retry.items_seq(), peer_id);
                }
                self.retry.insert(peer_id);
                let ghost s1 = self.responses_seq();
                match self.most_common_index() {
                    Some((idx, count)) => {
                        if count >= self.threshold {
                            proof {
                                assert(dcount(s1, (s1[idx as int]).1.deep_view())
                                    >= old(self).threshold_spec());
                            }
                            let winner = self.responses.remove_at(idx);
                            proof {
                                assert(winner == s1[idx as int]);
                                assert(crate::collections::seq_to_map(self.responses_seq())
                                    == crate::collections::seq_to_map(s1).remove(
                                    s1[idx as int].0,
                                ));
                            }
                            return QueryStep::Success(winner.1);
                        }
                    },
                    None => {},
                }
                if self.retry.len() == self.threshold {
                    QueryStep::Retry(self.retry.take())
                } else {
                    QueryStep::Continue
                }
            },
            Err(e) => self.error_strategy.process(peer_id, e),
        }
    }
}

/// Whether a sequence holds a response with this abstract value.
pub open spec fn dv_contains<R: DeepView>(s: Seq<R>, v: <R as DeepView>::V) -> bool {
    exists|i: int| 0 <= i < s.len() && (#[trigger] s[i]).deep_view() == v
}

/// One step of the deduplicated union: append the response unless an equal
/// one is already there.
pub open spec fn union_step<R: DeepView>(u: Seq<R>, r: R) -> Seq<R> {
    if dv_contains(u, r.deep_view()) {
        u
    } else {
        u.push(r)
    }
}

/// The union after a whole response list, first element first.
pub open spec fn union_extend<R: DeepView>(u: Seq<R>, items: Seq<R>) -> Seq<R>
    decreases items.len(),
{
    if items.len() == 0 {
        u
    } else {
        union_extend(union_step(u, items[0]), items.drop_first())
    }
}

pub proof fn lemma_union_extend_push<R: DeepView>(u: Seq<R>, items: Seq<R>, r: R)
    ensures
        union_extend(u, items.push(r)) == union_step(union_extend(u, items), r),
    decreases items.len(),
{
    let p = items.push(r);
    assert(p.len() == items.len() + 1);
    if items.len() == 0 {
        assert(p[0] == r);
        assert(union_extend(u, p) == union_extend(union_step(u, p[0]), p.drop_first()));
        assert(p.drop_first() =~= Seq::<R>::empty());
        assert(union_extend(union_step(u, r), p.drop_first()) == union_step(u, r));
        assert(union_extend(u, items) == u);
    } else {
        assert(p[0] == items[0]);
        assert(union_extend(u, p) == union_extend(union_step(u, p[0]), p.drop_first()));
        assert(p.drop_first() =~= items.drop_first().push(r));
        lemma_union_extend_push(union_step(u, items[0]), items.drop_first(), r);
        assert(union_extend(u, items) == union_extend(union_step(u, items[0]), items.drop_first()));
    }
}

/// Whether the vector holds a response equal to this one.
fn vec_dv_contains<R: Eq + DeepView>(v: &Vec<R>, x: &R) -> (r: bool)
    requires
        vstd::laws_eq::obeys_deep_eq::<R>(),
    ensures
        r == dv_contains(v@, x.deep_view()),
{
    let mut i: usize = 0;
    while i < v.len()
        invariant
            i <= v@.len(),
            vstd::laws_eq::obeys_deep_eq::<R>(),
            forall|j: int| 0 <= j < i ==> (#[trigger] v@[j]).deep_view() != x.deep_view(),
        decreases v@.len() - i,
    {
        if deep_eq(&v[i], x) {
            proof {
                assert((v@[i as int]).deep_view() == x.deep_view());
            }
            return true;
        }
        i = i + 1;
    }
    false
}

/// Returns the deduplicated union of a threshold of list-valued responses,
/// in the order the elements first arrived.
pub struct UnionResponses<R> {
    error_strategy: ErrorStrategy,
    responses: PeerSet,
    union: Vec<R>,
    threshold: usize,
}

impl<R> UnionResponses<R> {
    /// The error accounting state.
    pub closed spec fn error_state(&self) -> ErrorStrategy {
        self.error_strategy
    }

    /// The peers that contributed so far, in arrival order.
    pub closed spec fn responders_seq(&self) -> Seq<PeerId> {
        self.responses.items_seq()
    }

    /// The deduplicated union collected so far.
    pub closed spec fn union_seq(&self) -> Seq<R> {
        self.union@
    }

    /// How many contributing peers make a result.
    pub closed spec fn threshold_spec(&self) -> int {
        self.threshold as int
    }

    pub open spec fn wf(&self) -> bool {
        &&& self.error_state().wf()
        &&& crate::collections::distinct_peers(self.responders_seq())
        &&& self.threshold_spec() >= 1
    }

    pub fn new(total_peers: usize) -> (r: Self)
        requires
            total_peers >= 1,
        ensures
            r.wf(),
            r.threshold_spec() == crate::peers::spec_honest_threshold(total_peers as int),
            r.error_state().threshold_spec() == crate::peers::spec_error_threshold(
                total_peers as int,
            ),
            r.error_state().errors_seq() =~= Seq::<(PeerId, PeerError)>::empty(),
            r.responders_seq() =~= Seq::<PeerId>::empty(),
            r.union_seq() =~= Seq::<R>::empty(),
    {
        let max_evil = (total_peers - 1) / 3;
        let threshold = total_peers - max_evil;
        UnionResponses {
            error_strategy: ErrorStrategy::new(max_evil + 1),
            responses: PeerSet::new(),
            union: Vec::new(),
            threshold,
        }
    }
}

impl<R: Eq + DeepView> QueryStrategy<Vec<R>, Vec<R>> for UnionResponses<R> {
    open spec fn process_req(pre: Self, peer: PeerId, result: PeerResult<Vec<R>>) -> bool {
        &&& pre.wf()
        &&& vstd::laws_eq::obeys_deep_eq::<R>()
        &&& !crate::collections::seq_to_set(pre.responders_seq()).contains(peer)
        &&& !pre.error_state().errors_map().contains_key(peer)
    }

    open spec fn process_ens(
        pre: Self,
        post: Self,
        peer: PeerId,
        result: PeerResult<Vec<R>>,
        step: QueryStep<Vec<R>>,
    ) -> bool {
        match result {
            Ok(items) => {
                let u1 = union_extend(pre.union_seq(), items@);
                &&& post.wf()
                &&& post.threshold_spec() == pre.threshold_spec()
                &&& post.error_state() == pre.error_state()
                &&& post.responders_seq() == pre.responders_seq().push(peer)
                &&& if pre.responders_seq().len() + 1 == pre.threshold_spec() {
                    step matches QueryStep::Success(u) && u@ == u1 && post.union_seq()
                        =~= Seq::<R>::empty()
                } else {
                    step matches QueryStep::Continue && post.union_seq() == u1
                }
            },
            Err(e) => {
                &&& ErrorStrategy::step_ens(pre.error_state(), post.error_state(), peer, e, step)
                &&& post.responders_seq() == pre.responders_seq()
                &&& post.union_seq() == pre.union_seq()
                &&& post.threshold_spec() == pre.threshold_spec()
            },
        }
    }

    open spec fn timeout_ens(&self, t: Option<u64>) -> bool {
        t is None
    }

    fn request_timeout(&self) -> (t: Option<u64>) {
        None
    }

    fn process(&mut self, peer_id: PeerId, response: PeerResult<Vec<R>>) -> (step: QueryStep<
        Vec<R>,
    >) {
        match response {
            Ok(items) => {
                let ghost pre_self = *self;
                let ghost orig = items@;
                let mut items = items;
                while items.len() > 0
                    invariant
                        vstd::laws_eq::obeys_deep_eq::<R>(),
                        items@.len() <= orig.len(),
                        items@ =~= orig.skip(orig.len() - items@.len()),
                        self.union@ == union_extend(
                            pre_self.union@,
                            orig.take(orig.len() - items@.len()),
                        ),
                        self.error_strategy == pre_self.error_strategy,
                        self.responses == pre_self.responses,
                        self.threshold == pre_self.threshold,
                    decreases items@.len(),
                {
                    let ghost k = orig.len() - items@.len();
                    let r = items.remove(0);
                    proof {
                        assert(r == orig[k]);
                        assert(items@ =~= orig.skip(k + 1));
                        assert(orig.take(k + 1) =~= orig.take(k).push(orig[k]));
                        lemma_union_extend_push(pre_self.union@, orig.take(k), orig[k]);
                    }
                    if !vec_dv_contains(&self.union, &r) {
                        self.union.push(r);
                    }
                }
                proof {
                    assert(orig.take(orig.len() as int) =~= orig);
                    crate::collections::lemma_seq_to_set_contains(
                        self.responses.items_seq(),
                        peer_id,
                    );
                }
                self.responses.insert(peer_id);
                if self.responses.len() == self.threshold {
                    let mut u: Vec<R> = Vec::new();
                    core::mem::swap(&mut self.union, &mut u);
                    QueryStep::Success(u)
                } else {
                    QueryStep::Continue
                }
            },
            Err(e) => self.error_strategy.process(peer_id, e),
        }
    }
}

/// Returns the deduplicated union of a threshold of single-valued responses.
pub struct UnionResponsesSingle<R> {
    error_strategy: ErrorStrategy,
    responses: PeerSet,
    union: Vec<R>,
    threshold: usize,
}

impl<R> UnionResponsesSingle<R> {
    /// The error accounting state.
    pub closed spec fn error_state(&self) -> ErrorStrategy {
        self.error_strategy
    }

    /// The peers that contributed so far, in arrival order.
    pub closed spec fn responders_seq(&self) -> Seq<PeerId> {
        self.responses.items_seq()
    }

    /// The deduplicated union collected so far.
    pub closed spec fn union_seq(&self) -> Seq<R> {
        self.union@
    }

    /// How many contributing peers make a result.
    pub closed spec fn threshold_spec(&self) -> int {
        self.threshold as int
    }

    pub open spec fn wf(&self) -> bool {
        &&& self.error_state().wf()
        &&& crate::collections::distinct_peers(self.responders_seq())
        &&& self.threshold_spec() >= 1
    }

    pub fn new(total_peers: usize) -> (r: Self)
        requires
            total_peers >= 1,
        ensures
            r.wf(),
            r.threshold_spec() == crate::peers::spec_honest_threshold(total_peers as int),
            r.error_state().threshold_spec() == crate::peers::spec_error_threshold(
                total_peers as int,
            ),
            r.error_state().errors_seq() =~= Seq::<(PeerId, PeerError)>::empty(),
            r.responders_seq() =~= Seq::<PeerId>::empty(),
            r.union_seq() =~= Seq::<R>::empty(),
    {
        let max_evil = (total_peers - 1) / 3;
        let threshold = total_peers - max_evil;
        UnionResponsesSingle {
            error_strategy: ErrorStrategy::new(max_evil + 1),
            responses: PeerSet::new(),
            union: Vec::new(),
            threshold,
        }
    }
}

impl<R: Eq + DeepView> QueryStrategy<R, Vec<R>> for UnionResponsesSingle<R> {
    open spec fn process_req(pre: Self, peer: PeerId, result: PeerResult<R>) -> bool {
        &&& pre.wf()
        &&& vstd::laws_eq::obeys_deep_eq::<R>()
        &&& !crate::collections::seq_to_set(pre.responders_seq()).contains(peer)
        &&& !pre.error_state().errors_map().contains_key(peer)
    }

    open spec fn process_ens(
        pre: Self,
        post: Self,
        peer: PeerId,
        result: PeerResult<R>,
        step: QueryStep<Vec<R>>,
    ) -> bool {
        match result {
            Ok(resp) => {
                let u1 = union_step(pre.union_seq(), resp);
                &&& post.wf()
                &&& post.threshold_spec() == pre.threshold_spec()
                &&& post.error_state() == pre.error_state()
                &&& post.responders_seq() == pre.responders_seq().push(peer)
                &&& if pre.responders_seq().len() + 1 == pre.threshold_spec() {
                    step matches QueryStep::Success(u) && u@ == u1 && post.union_seq()
                        =~= Seq::<R>::empty()
                } else {
                    step matches QueryStep::Continue && post.union_seq() == u1
                }
            },
            Err(e) => {
                &&& ErrorStrategy::step_ens(pre.error_state(), post.error_state(), peer, e, step)
                &&& post.responders_seq() == pre.responders_seq()
                &&& post.union_seq() == pre.union_seq()
                &&& post.threshold_spec() == pre.threshold_spec()
            },
        }
    }

    open spec fn timeout_ens(&self, t: Option<u64>) -> bool {
        t is None
    }

    fn request_timeout(&self) -> (t: Option<u64>) {
        None
    }

    fn process(&mut self, peer_id: PeerId, response: PeerResult<R>) -> (step: QueryStep<Vec<R>>) {
        match response {
            Ok(resp) => {
                if !vec_dv_contains(&self.union, &resp) {
                    self.union.push(resp);
                }
                proof {
                    crate::collections::lemma_seq_to_set_contains(
                        self.responses.items_seq(),
                        peer_id,
                    );
                }
                self.responses.insert(peer_id);
                if self.responses.len() == self.threshold {
                    let mut u: Vec<R> = Vec::new();
                    core::mem::swap(&mut self.union, &mut u);
                    QueryStep::Success(u)
                } else {
                    QueryStep::Continue
                }
            },
            Err(e) => self.error_strategy.process(peer_id, e),
        }
    }
}

/// The time left until a deadline at the wall-clock reading `now`: zero
/// where the deadline is past.
pub open spec fn spec_remaining_millis(deadline: u64, now: u64) -> u64 {
    if deadline <= now {
        0u64
    } else {
        (deadline - now) as u64
    }
}

/// Compute the time left until a deadline from one clock reading.
pub fn remaining_millis(deadline: u64, now_ms: u64) -> (r: u64)
    ensures
        r == spec_remaining_millis(deadline, now_ms),
{
    if deadline <= now_ms {
        0
    } else {
        deadline - now_ms
    }
}

/// Accepts responses until every peer answered or a deadline passed,
/// whichever comes first.
pub struct AllOrDeadline<R> {
    deadline: u64,
    num_peers: usize,
    responses: PeerMap<R>,
}

impl<R> AllOrDeadline<R> {
    /// The absolute deadline, in milliseconds since the Unix epoch.
    pub closed spec fn deadline_spec(&self) -> int {
        self.deadline as int
    }

    /// How many peers are asked.
    pub closed spec fn num_peers_spec(&self) -> int {
        self.num_peers as int
    }

    /// The responses collected so far, in arrival order.
    pub closed spec fn responses_seq(&self) -> Seq<(PeerId, R)> {
        self.responses.entries_seq()
    }

    /// The responses collected so far, as a map.
    pub open spec fn responses_map(&self) -> Map<PeerId, R> {
        crate::collections::seq_to_map(self.responses_seq())
    }

    pub open spec fn wf(&self) -> bool {
        crate::collections::distinct_keys(self.responses_seq())
    }

    /// The configured deadline, in milliseconds since the Unix epoch.
    pub fn deadline(&self) -> (d: u64)
        ensures
            d == self.deadline_spec(),
    {
        self.deadline
    }

    pub fn new(num_peers: usize, deadline: u64) -> (r: Self)
        ensures
            r.wf(),
            r.num_peers_spec() == num_peers,
            r.deadline_spec() == deadline,
            r.responses_seq() =~= Seq::<(PeerId, R)>::empty(),
    {
        AllOrDeadline { deadline, num_peers, responses: PeerMap::new() }
    }

    /// How the state and step after one event at wall-clock time `now`
    /// relate to the state before.
    pub open spec fn step_at_ens(
        pre: Self,
        post: Self,
        peer: PeerId,
        result: PeerResult<R>,
        now: int,
        step: QueryStep<PeerMap<R>>,
    ) -> bool {
        &&& post.wf()
        &&& post.deadline_spec() == pre.deadline_spec()
        &&& post.num_peers_spec() == pre.num_peers_spec()
        &&& match result {
            Ok(resp) => {
                let s1 = pre.responses_seq().push((peer, resp));
                if s1.len() == pre.num_peers_spec() || pre.deadline_spec() <= now {
                    &&& step matches QueryStep::Success(m) && m.entries_seq() == s1
                        && crate::collections::distinct_keys(m.entries_seq())
                    &&& post.responses_seq() =~= Seq::<(PeerId, R)>::empty()
                } else {
                    &&& step matches QueryStep::Continue
                    &&& post.responses_seq() == s1
                }
            },
            Err(e) => {
                if pre.deadline_spec() <= now {
                    &&& step matches QueryStep::Success(m) && m.entries_seq()
                        == pre.responses_seq() && crate::collections::distinct_keys(
                        m.entries_seq(),
                    )
                    &&& post.responses_seq() =~= Seq::<(PeerId, R)>::empty()
                } else {
                    &&& step matches QueryStep::Retry(ps) && ps.items_seq() =~= seq![peer]
                    &&& post.responses_seq() == pre.responses_seq()
                }
            },
        }
    }

    /// Feed one event, with the wall-clock time passed in, so that the
    /// decision itself is deterministic.
    pub fn process_at(&mut self, peer: PeerId, result: PeerResult<R>, now_ms: u64) -> (step:
        QueryStep<PeerMap<R>>)
        requires
            old(self).wf(),
            result matches Ok(_) ==> !crate::collections::has_key(
                old(self).responses_seq(),
                peer,
            ),
        ensures
            Self::step_at_ens(*old(self), *final(self), peer, result, now_ms as int, step),
    {
        match result {
            Ok(resp) => {
                proof {
                    crate::collections::lemma_seq_to_map_domain(self.responses_seq(), peer);
                }
                self.responses.insert(peer, resp);
                if self.responses.len() == self.num_peers || self.deadline <= now_ms {
                    QueryStep::Success(self.responses.take())
                } else {
                    QueryStep::Continue
                }
            },
            Err(_) => {
                if self.deadline <= now_ms {
                    QueryStep::Success(self.responses.take())
                } else {
                    QueryStep::Retry(PeerSet::singleton(peer))
                }
            },
        }
    }
}

impl<R> QueryStrategy<R, PeerMap<R>> for AllOrDeadline<R> {
    open spec fn process_req(pre: Self, peer: PeerId, result: PeerResult<R>) -> bool {
        &&& pre.wf()
        &&& result matches Ok(_) ==> !crate::collections::has_key(pre.responses_seq(), peer)
    }

    open spec fn process_ens(
        pre: Self,
        post: Self,
        peer: PeerId,
        result: PeerResult<R>,
        step: QueryStep<PeerMap<R>>,
    ) -> bool {
        exists|now: int| Self::step_at_ens(pre, post, peer, result, now, step)
    }

    open spec fn timeout_ens(&self, t: Option<u64>) -> bool {
        t is None
    }

    fn request_timeout(&self) -> (t: Option<u64>) {
        None
    }

    fn process(&mut self, peer_id: PeerId, response: PeerResult<R>) -> (step: QueryStep<
        PeerMap<R>,
    >) {
        let now = crate::time::now_unix_millis();
        let step = self.process_at(peer_id, response, now);
        proof {
            assert(Self::step_at_ens(*old(self), *self, peer_id, response, now as int, step));
        }
        step
    }
}

// What follows are the library's standing laws about the query strategies,
// stated over the same spec functions the contracts use.

/// The error budget is exact: recording an error ends the query in
/// `Failure` when and only when it is the `f + 1`-st error; any earlier
/// error leaves the query running with `Continue`.
pub proof fn lemma_error_budget<R>(
    pre: ErrorStrategy,
    post: ErrorStrategy,
    peer: PeerId,
    error: PeerError,
    step: QueryStep<R>,
)
    requires
        pre.wf(),
        ErrorStrategy::step_ens(pre, post, peer, error, step),
    ensures
        (pre.errors_seq().len() + 1 == pre.threshold_spec()) <==> (step matches QueryStep::Failure
            { .. }),
        (pre.errors_seq().len() + 1 < pre.threshold_spec()) <==> (step matches
            QueryStep::Continue),
{
}

/// A well-formed response never makes a threshold-consensus query fail:
/// only the error budget can, and responses do not touch it.
pub proof fn lemma_consensus_response_never_fails<R: Eq + DeepView>(
    pre: ThresholdConsensus<R>,
    post: ThresholdConsensus<R>,
    peer: PeerId,
    resp: R,
    step: QueryStep<R>,
)
    requires
        pre.wf(),
        ThresholdConsensus::process_ens(pre, post, peer, Ok(resp), step),
    ensures
        !(step matches QueryStep::Failure { .. }),
{
}

/// Threshold consensus makes progress: once a threshold of identical
/// responses is in, the very step that completes it returns `Success`,
/// so no `Failure` can come first.
pub proof fn lemma_consensus_progress<R: Eq + DeepView>(
    pre: ThresholdConsensus<R>,
    post: ThresholdConsensus<R>,
    peer: PeerId,
    resp: R,
    step: QueryStep<R>,
)
    requires
        pre.wf(),
        ThresholdConsensus::process_ens(pre, post, peer, Ok(resp), step),
        dcount(
            crate::collections::seq_insert(pre.responses_seq(), peer, resp),
            resp.deep_view(),
        ) >= pre.threshold_spec(),
    ensures
        step matches QueryStep::Success(v) && dcount(
            crate::collections::seq_insert(pre.responses_seq(), peer, resp),
            v.deep_view(),
        ) >= pre.threshold_spec(),
{
    let s1 = crate::collections::seq_insert(pre.responses_seq(), peer, resp);
    assert(crate::collections::has_key(s1, peer)) by {
        if crate::collections::has_key(pre.responses_seq(), peer) {
            let i = crate::collections::key_index(pre.responses_seq(), peer);
            assert((s1[i]).0 == peer);
        } else {
            assert((s1[s1.len() - 1]).0 == peer);
        }
    }
    let w = choose|i: int| 0 <= i < s1.len() && (#[trigger] s1[i]).0 == peer;
    assert(exists|i: int|
        0 <= i < s1.len() && dcount(s1, (#[trigger] s1[i]).1.deep_view())
            >= pre.threshold_spec()) by {
        if crate::collections::has_key(pre.responses_seq(), peer) {
            let i = crate::collections::key_index(pre.responses_seq(), peer);
            assert(s1[i] == (peer, resp));
            assert(dcount(s1, (s1[i]).1.deep_view()) >= pre.threshold_spec());
        } else {
            assert(s1[s1.len() - 1] == (peer, resp));
            assert(dcount(s1, (s1[s1.len() - 1]).1.deep_view()) >= pre.threshold_spec());
        }
    }
}

/// Everything in the union stays, and everything fed in is in: the union
/// after an extension holds exactly the values of both sides.
pub proof fn lemma_union_extend_contains<R: DeepView>(
    u: Seq<R>,
    items: Seq<R>,
    v: <R as DeepView>::V,
)
    ensures
        dv_contains(union_extend(u, items), v) <==> dv_contains(u, v) || dv_contains(items, v),
    decreases items.len(),
{
    if items.len() == 0 {
        assert(!dv_contains(items, v));
    } else {
        let u1 = union_step(u, items[0]);
        lemma_union_extend_contains(u1, items.drop_first(), v);
        assert(dv_contains(u1, v) <==> dv_contains(u, v) || items[0].deep_view() == v) by {
            if items[0].deep_view() == v && !dv_contains(u, v) {
                assert(u1 == u.push(items[0]));
                assert(u1[u1.len() - 1].deep_view() == v);
            }
            if dv_contains(u, v) {
                let i = choose|i: int| 0 <= i < u.len() && (#[trigger] u[i]).deep_view() == v;
                assert((u1[i]).deep_view() == v);
            }
            if dv_contains(u1, v) && !dv_contains(u, v) && u1 != u {
                let i = choose|i: int| 0 <= i < u1.len() && (#[trigger] u1[i]).deep_view() == v;
                assert(u1 == u.push(items[0]));
                if i < u.len() {
                    assert((u[i]).deep_view() == v);
                } else {
                    assert(items[0].deep_view() == v);
                }
            }
        }
        assert(dv_contains(items, v) <==> items[0].deep_view() == v || dv_contains(
            items.drop_first(),
            v,
        )) by {
            if dv_contains(items, v) {
                let i = choose|i: int|
                    0 <= i < items.len() && (#[trigger] items[i]).deep_view() == v;
                if i > 0 {
                    assert((items.drop_first()[i - 1]).deep_view() == v);
                }
            }
            if dv_contains(items.drop_first(), v) {
                let i = choose|i: int|
                    0 <= i < items.drop_first().len() && (
                    #[trigger] items.drop_first()[i]).deep_view() == v;
                assert((items[i + 1]).deep_view() == v);
            }
            if items[0].deep_view() == v {
                assert((items[0]).deep_view() == v);
            }
        }
    }
}

/// Extending a union with values it already holds changes nothing.
pub proof fn lemma_union_extend_noop<R: DeepView>(u: Seq<R>, items: Seq<R>)
    requires
        forall|i: int| 0 <= i < items.len() ==> dv_contains(u, (#[trigger] items[i]).deep_view()),
    ensures
        union_extend(u, items) == u,
    decreases items.len(),
{
    if items.len() > 0 {
        assert(dv_contains(u, items[0].deep_view()));
        assert(union_step(u, items[0]) == u);
        assert forall|i: int|
            0 <= i < items.drop_first().len() implies dv_contains(
            u,
            (#[trigger] items.drop_first()[i]).deep_view(),
        ) by {
            assert(items.drop_first()[i] == items[i + 1]);
        }
        lemma_union_extend_noop(u, items.drop_first());
    }
}

/// Union idempotence: feeding the same response list twice never changes
/// the union's contents.
pub proof fn lemma_union_idempotent<R: DeepView>(u: Seq<R>, items: Seq<R>)
    ensures
        union_extend(union_extend(u, items), items) == union_extend(u, items),
{
    let w = union_extend(u, items);
    assert forall|i: int|
        0 <= i < items.len() implies dv_contains(w, (#[trigger] items[i]).deep_view()) by {
        lemma_union_extend_contains(u, items, items[i].deep_view());
        assert(dv_contains(items, items[i].deep_view()));
    }
    lemma_union_extend_noop(w, items);
}

} // verus!
