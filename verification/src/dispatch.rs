//! One analysis, from the image to its description, as a sequence of
//! attempts against the hosts that the manager chooses.
//!
//! Nothing here talks to the network. [`ImageAnalysis::next_attempt`] says
//! what to send and where, or how the analysis ended; the caller sends it
//! and hands what happened to [`ImageAnalysis::record_outcome`]. The manager
//! is only touched inside these two calls, never while a request is under
//! way.

use vstd::prelude::*;
use crate::database::{DescriptionView, ImageAnalysisResult};
use crate::error::ImageAnalysisError;
use crate::hosts::{marked, pruned, selection, LlamaCppHostManager, MarkView};
use crate::json::{json_document, parse_json, JsonValue};
use crate::request::{
    attempt_wait,
    bearer,
    bearer_of,
    endpoint_of,
    endpoint_url,
    request_body,
    request_text,
    wait_of,
};
use crate::response::{body_text, document_text, extract_from_document};
use crate::text::{
    all_whitespace,
    is_whitespace,
    lemma_trimmed_empty_iff_all_whitespace,
    trim,
    trimmed,
};

verus! {

/// What became of one request.
#[derive(Debug, Clone, PartialEq, Eq)]
pub enum AttemptOutcome {
    /// The connection failed, or the reply could not be read to its end.
    TransportFailure { detail: String },
    /// The bounded wait ran out.
    TimedOut,
    /// The host answered.
    Response { status: u16, body: String },
}

/// One request, ready to be sent.
#[derive(Debug, Clone, PartialEq, Eq)]
pub struct AttemptRequest {
    /// The host as the manager names it; hand it back with the outcome.
    pub host: String,
    /// Where to `POST` the body.
    pub url: String,
    /// The JSON body, the same for every attempt of one analysis.
    pub body: String,
    /// The value of the `Authorization` header, where a key is configured.
    pub authorization: Option<String>,
    /// How long to wait for the answer.
    pub wait_secs: u64,
}

/// What the caller does next.
#[derive(Debug, Clone, PartialEq, Eq)]
pub enum DispatchStep {
    /// Send this request and record its outcome.
    Attempt(AttemptRequest),
    /// The analysis is over without a description.
    Finished(ImageAnalysisError),
}

/// An analysis between two attempts.
#[derive(Debug)]
pub struct ImageAnalysis {
    asset_id: u128,
    body: String,
    wait_secs: u64,
    remaining: usize,
    last_error: Option<ImageAnalysisError>,
}

/// An [`ImageAnalysis`] as a value: the asset, the request body, the wait
/// per attempt, the attempts that are left, and the failure of the latest
/// attempt.
pub struct AnalysisView {
    pub asset_id: u128,
    pub body: Seq<char>,
    pub wait_secs: u64,
    pub remaining: nat,
    pub last_error: Option<ImageAnalysisError>,
}

/// An [`AttemptRequest`] as a value.
pub struct RequestView {
    pub host: Seq<char>,
    pub url: Seq<char>,
    pub body: Seq<char>,
    pub authorization: Option<Seq<char>>,
    pub wait_secs: u64,
}

/// A [`DispatchStep`] as a value.
pub enum StepView {
    Attempt(RequestView),
    Finished(ImageAnalysisError),
}

impl View for ImageAnalysis {
    type V = AnalysisView;

    closed spec fn view(&self) -> AnalysisView {
        AnalysisView {
            asset_id: self.asset_id,
            body: self.body@,
            wait_secs: self.wait_secs,
            remaining: self.remaining as nat,
            last_error: self.last_error,
        }
    }
}

impl View for AttemptRequest {
    type V = RequestView;

    open spec fn view(&self) -> RequestView {
        RequestView {
            host: self.host@,
            url: self.url@,
            body: self.body@,
            authorization: match self.authorization {
                Some(value) => Some(value@),
                None => None,
            },
            wait_secs: self.wait_secs,
        }
    }
}

impl View for DispatchStep {
    type V = StepView;

    open spec fn view(&self) -> StepView {
        match self {
            DispatchStep::Attempt(request) => StepView::Attempt(request@),
            DispatchStep::Finished(e) => StepView::Finished(*e),
        }
    }
}

/// Whether a status code reports success.
pub open spec fn is_success(status: u16) -> bool {
    200 <= status <= 299
}

/// What a text read from a reply counts as: the description, which is the
/// text once trimmed, or the failure `EmptyResponse` where nothing is left
/// of it.
pub open spec fn described(text: Seq<char>) -> Result<Seq<char>, ImageAnalysisError> {
    if trimmed(text).len() == 0 {
        Err(ImageAnalysisError::EmptyResponse)
    } else {
        Ok(trimmed(text))
    }
}

/// What the body of a successful reply counts as, given the document that
/// was parsed from it (`None` where it is no JSON): `MalformedResponse`
/// where neither shape yields a text, and otherwise what the text counts
/// as.
pub open spec fn judged_document(doc: Option<JsonValue>) -> Result<Seq<char>, ImageAnalysisError> {
    match doc {
        None => Err(ImageAnalysisError::MalformedResponse),
        Some(d) => match document_text(d) {
            None => Err(ImageAnalysisError::MalformedResponse),
            Some(text) => described(text),
        },
    }
}

/// How one outcome is judged: the description it yields, or the failure it
/// counts as.
///
/// A reply counts as a description only where its status reports success,
/// its body can be read under one of the two accepted shapes, and the text
/// read from it is not empty once trimmed; the description is the trimmed
/// text.
pub open spec fn judged(outcome: AttemptOutcome) -> Result<Seq<char>, ImageAnalysisError> {
    match outcome {
        AttemptOutcome::TransportFailure { detail } => Err(
            ImageAnalysisError::TransportError { detail },
        ),
        AttemptOutcome::TimedOut => Err(ImageAnalysisError::RequestTimeout),
        AttemptOutcome::Response { status, body } => if !is_success(status) {
            Err(ImageAnalysisError::ServerError { status, body })
        } else {
            judged_document(json_document(body@))
        },
    }
}

/// Judges a text read from a reply.
pub fn describe(text: &str) -> (r: Result<String, ImageAnalysisError>)
    ensures
        match r {
            Ok(description) => described(text@) == Ok::<Seq<char>, ImageAnalysisError>(
                description@,
            ),
            Err(e) => described(text@) == Err::<Seq<char>, ImageAnalysisError>(e),
        },
{
    let description = trim(text);
    if description.as_str().unicode_len() == 0 {
        Err(ImageAnalysisError::EmptyResponse)
    } else {
        Ok(description)
    }
}

/// Judges the body of a successful reply, given the document that was
/// parsed from it.
pub fn judge_document(doc: &Option<JsonValue>) -> (r: Result<String, ImageAnalysisError>)
    ensures
        match r {
            Ok(description) => judged_document(*doc) == Ok::<Seq<char>, ImageAnalysisError>(
                description@,
            ),
            Err(e) => judged_document(*doc) == Err::<Seq<char>, ImageAnalysisError>(e),
        },
{
    match doc {
        None => Err(ImageAnalysisError::MalformedResponse),
        Some(d) => match extract_from_document(d) {
            Err(e) => Err(e),
            Ok(text) => describe(text.as_str()),
        },
    }
}

/// Judges one outcome.
pub fn judge(outcome: AttemptOutcome) -> (r: Result<String, ImageAnalysisError>)
    ensures
        match r {
            Ok(text) => judged(outcome) == Ok::<Seq<char>, ImageAnalysisError>(text@),
            Err(e) => judged(outcome) == Err::<Seq<char>, ImageAnalysisError>(e),
        },
{
    match outcome {
        AttemptOutcome::TransportFailure { detail } => Err(
            ImageAnalysisError::TransportError { detail },
        ),
        AttemptOutcome::TimedOut => Err(ImageAnalysisError::RequestTimeout),
        AttemptOutcome::Response { status, body } => {
            if status < 200 || status > 299 {
                return Err(ImageAnalysisError::ServerError { status, body });
            }
            let doc = parse_json(body.as_str());
            judge_document(&doc)
        },
    }
}

/// The request that goes to `host`.
pub open spec fn request_for(
    host: Seq<char>,
    key: Option<String>,
    body: Seq<char>,
    wait_secs: u64,
) -> RequestView {
    RequestView {
        host,
        url: endpoint_of(host),
        body,
        authorization: match key {
            Some(k) => Some(bearer_of(k@)),
            None => None,
        },
        wait_secs,
    }
}

/// The error that an analysis ends with when its attempts are spent: the
/// failure of its latest attempt, or `NoHostsReachable` where it never made
/// one.
pub open spec fn final_error(analysis: AnalysisView) -> ImageAnalysisError {
    match analysis.last_error {
        Some(e) => e,
        None => ImageAnalysisError::NoHostsReachable,
    }
}

/// The record as [`ImageAnalysis::next_attempt`] leaves it: untouched where
/// no attempt is left, pruned at `now` otherwise.
pub open spec fn record_after_step(
    analysis: AnalysisView,
    marks: Seq<MarkView>,
    now: u64,
    window: u64,
) -> Seq<MarkView> {
    if analysis.remaining == 0 {
        marks
    } else {
        pruned(marks, now, window)
    }
}

/// The step that [`ImageAnalysis::next_attempt`] answers with.
pub open spec fn next_step(
    analysis: AnalysisView,
    hosts: Seq<Seq<char>>,
    key: Option<String>,
    marks: Seq<MarkView>,
    now: u64,
    window: u64,
) -> StepView {
    if analysis.remaining == 0 {
        StepView::Finished(final_error(analysis))
    } else {
        match selection(hosts, pruned(marks, now, window)) {
            Some(host) => StepView::Attempt(
                request_for(host, key, analysis.body, analysis.wait_secs),
            ),
            None => StepView::Finished(ImageAnalysisError::NoHostsReachable),
        }
    }
}

/// The analysis after an attempt that failed with `e`.
pub open spec fn after_failure(analysis: AnalysisView, e: ImageAnalysisError) -> AnalysisView {
    AnalysisView {
        remaining: if analysis.remaining > 0 {
            (analysis.remaining - 1) as nat
        } else {
            0
        },
        last_error: Some(e),
        ..analysis
    }
}

impl ImageAnalysis {
    /// Prepares the analysis of `image` for the asset `asset_id`. The
    /// request body is built once, here. The analysis may make as many
    /// attempts as `manager` has hosts configured.
    ///
    /// Fails with `EmptyInput` exactly when the image holds no bytes.
    pub fn start(
        asset_id: u128,
        image: &[u8],
        model: &str,
        prompt: &str,
        timeout: u64,
        manager: &LlamaCppHostManager,
    ) -> (r: Result<ImageAnalysis, ImageAnalysisError>)
        ensures
            match r {
                Ok(analysis) => image@.len() > 0 && analysis@ == (AnalysisView {
                    asset_id,
                    body: request_text(model@, prompt@, image@),
                    wait_secs: wait_of(timeout),
                    remaining: manager.host_names().len(),
                    last_error: None,
                }),
                Err(e) => image@.len() == 0 && e == ImageAnalysisError::EmptyInput,
            },
    {
        if image.len() == 0 {
            return Err(ImageAnalysisError::EmptyInput);
        }
        Ok(
            ImageAnalysis {
                asset_id,
                body: request_body(model, prompt, image),
                wait_secs: attempt_wait(timeout),
                remaining: manager.hosts().len(),
                last_error: None,
            },
        )
    }

    /// The number of attempts that are left.
    pub fn remaining(&self) -> (r: usize)
        ensures
            r == self@.remaining,
    {
        self.remaining
    }

    /// The asset that the analysis is for.
    pub fn asset_id(&self) -> (r: u128)
        ensures
            r == self@.asset_id,
    {
        self.asset_id
    }

    /// The request body.
    pub fn body(&self) -> (r: &String)
        ensures
            r@ == self@.body,
    {
        &self.body
    }

    /// The failure of the latest attempt, if one has failed.
    pub fn last_error(&self) -> (r: &Option<ImageAnalysisError>)
        ensures
            *r == self@.last_error,
    {
        &self.last_error
    }

    /// Says what to do next at time `now`.
    ///
    /// Where no attempt is left, the analysis is over with the failure of
    /// its latest attempt, and the manager is not touched. Otherwise the
    /// manager prunes its record and chooses a host, and the answer is the
    /// request for that host; where it can choose none, the analysis is
    /// over with `NoHostsReachable`.
    pub fn next_attempt(&self, manager: &mut LlamaCppHostManager, now: u64) -> (step: DispatchStep)
        ensures
            final(manager).host_names() == old(manager).host_names(),
            final(manager).configured_key() == old(manager).configured_key(),
            final(manager).window() == old(manager).window(),
            final(manager).marks() == record_after_step(
                self@,
                old(manager).marks(),
                now,
                old(manager).window(),
            ),
            step@ == next_step(
                self@,
                old(manager).host_names(),
                old(manager).configured_key(),
                old(manager).marks(),
                now,
                old(manager).window(),
            ),
    {
        if self.remaining == 0 {
            return DispatchStep::Finished(self.final_error());
        }
        match manager.get_available_host(now) {
            Ok(host) => {
                let url = endpoint_url(host.as_str());
                let authorization = match manager.api_key() {
                    Some(key) => Some(bearer(key.as_str())),
                    None => None,
                };
                DispatchStep::Attempt(
                    AttemptRequest {
                        host,
                        url,
                        body: self.body.clone(),
                        authorization,
                        wait_secs: self.wait_secs,
                    },
                )
            },
            Err(e) => DispatchStep::Finished(e),
        }
    }

    /// Takes in what became of the request to `host`, at time `now`.
    ///
    /// Where the outcome yields a description, that is the answer, and
    /// neither the analysis nor the manager changes: no host is penalized.
    /// Otherwise the answer is `None`, the failure becomes the latest one,
    /// one attempt fewer is left, and `host` is marked unavailable.
    pub fn record_outcome(
        &mut self,
        manager: &mut LlamaCppHostManager,
        host: &str,
        outcome: AttemptOutcome,
        now: u64,
    ) -> (r: Option<ImageAnalysisResult>)
        ensures
            final(manager).host_names() == old(manager).host_names(),
            final(manager).configured_key() == old(manager).configured_key(),
            final(manager).window() == old(manager).window(),
            match judged(outcome) {
                Ok(text) => {
                    &&& r matches Some(found)
                    &&& found@ == (DescriptionView {
                        description: text,
                        asset_id: old(self)@.asset_id,
                    })
                    &&& final(self)@ == old(self)@
                    &&& final(manager).marks() == old(manager).marks()
                },
                Err(e) => {
                    &&& r is None
                    &&& final(self)@ == after_failure(old(self)@, e)
                    &&& final(manager).marks() == marked(old(manager).marks(), host@, now)
                },
            },
    {
        match judge(outcome) {
            Ok(description) => Some(ImageAnalysisResult { description, asset_id: self.asset_id }),
            Err(e) => {
                self.last_error = Some(e);
                if self.remaining > 0 {
                    self.remaining = self.remaining - 1;
                }
                manager.mark_host_unavailable(host, now);
                None
            },
        }
    }
}

/// One request as a run meets it: the time at which the host is chosen, what
/// becomes of the request, and the time at which that is recorded.
#[derive(Debug, Clone, PartialEq, Eq)]
pub struct Exchange {
    pub asked_at: u64,
    pub outcome: AttemptOutcome,
    pub answered_at: u64,
}

/// Where a run stands: how many requests were sent, how it ended (`None`
/// while it has not), and the record that it leaves.
pub struct RunView {
    pub sent: nat,
    pub ended: Option<Result<DescriptionView, ImageAnalysisError>>,
    pub marks: Seq<MarkView>,
}

/// What a replay reports: how many requests the run sent, and how it ended
/// (`None` where the script ran out first).
#[derive(Debug, PartialEq, Eq)]
pub struct Replay {
    pub sent: usize,
    pub ended: Option<Result<ImageAnalysisResult, ImageAnalysisError>>,
}

impl Replay {
    /// How the run ended, as a value.
    pub open spec fn ended_view(self) -> Option<Result<DescriptionView, ImageAnalysisError>> {
        match self.ended {
            Some(Ok(found)) => Some(Ok(found@)),
            Some(Err(e)) => Some(Err(e)),
            None => None,
        }
    }
}

/// The run of an analysis in which the caller alternates
/// [`ImageAnalysis::next_attempt`] and [`ImageAnalysis::record_outcome`]
/// until one of them ends it, the requests meeting the fates that `script`
/// lists in turn. The run stops short, not ended, where the script runs out
/// while attempts are left.
pub open spec fn run(
    analysis: AnalysisView,
    hosts: Seq<Seq<char>>,
    key: Option<String>,
    window: u64,
    marks: Seq<MarkView>,
    script: Seq<Exchange>,
) -> RunView
    decreases script.len(),
{
    if script.len() == 0 {
        if analysis.remaining == 0 {
            RunView { sent: 0, ended: Some(Err(final_error(analysis))), marks }
        } else {
            RunView { sent: 0, ended: None, marks }
        }
    } else {
        let exchange = script[0];
        let record = record_after_step(analysis, marks, exchange.asked_at, window);
        match next_step(analysis, hosts, key, marks, exchange.asked_at, window) {
            StepView::Finished(e) => RunView { sent: 0, ended: Some(Err(e)), marks: record },
            StepView::Attempt(request) => match judged(exchange.outcome) {
                Ok(text) => RunView {
                    sent: 1,
                    ended: Some(
                        Ok(DescriptionView { description: text, asset_id: analysis.asset_id }),
                    ),
                    marks: record,
                },
                Err(e) => {
                    let rest = run(
                        after_failure(analysis, e),
                        hosts,
                        key,
                        window,
                        marked(record, request.host, exchange.answered_at),
                        script.drop_first(),
                    );
                    RunView { sent: rest.sent + 1, ..rest }
                },
            },
        }
    }
}

impl AttemptOutcome {
    /// A copy of the outcome, equal to it in every field.
    pub fn copied(&self) -> (r: Self)
        ensures
            r == *self,
    {
        match self {
            AttemptOutcome::TransportFailure { detail } => AttemptOutcome::TransportFailure {
                detail: detail.clone(),
            },
            AttemptOutcome::TimedOut => AttemptOutcome::TimedOut,
            AttemptOutcome::Response { status, body } => AttemptOutcome::Response {
                status: *status,
                body: body.clone(),
            },
        }
    }
}

impl ImageAnalysis {
    /// Runs the analysis to its end against exchanges that are already
    /// known, as a dry run does: each request that the analysis would send
    /// meets the next exchange of `script`. Nothing is sent.
    pub fn replay(self, manager: &mut LlamaCppHostManager, script: &Vec<Exchange>) -> (r: Replay)
        ensures
            final(manager).host_names() == old(manager).host_names(),
            final(manager).configured_key() == old(manager).configured_key(),
            final(manager).window() == old(manager).window(),
            ({
                let expected = run(
                    self@,
                    old(manager).host_names(),
                    old(manager).configured_key(),
                    old(manager).window(),
                    old(manager).marks(),
                    script@,
                );
                &&& r.sent == expected.sent
                &&& r.ended_view() == expected.ended
                &&& final(manager).marks() == expected.marks
            }),
    {
        let ghost hosts = manager.host_names();
        let ghost key = manager.configured_key();
        let ghost window = manager.window();
        let ghost expected = run(self@, hosts, key, window, manager.marks(), script@);
        let mut analysis = self;
        let mut sent: usize = 0;
        let mut i: usize = 0;
        assert(script@.skip(0) =~= script@);
        loop
            invariant
                manager.host_names() == hosts,
                manager.configured_key() == key,
                manager.window() == window,
                hosts == old(manager).host_names(),
                key == old(manager).configured_key(),
                window == old(manager).window(),
                expected == run(self@, hosts, key, window, old(manager).marks(), script@),
                i <= script@.len(),
                sent <= i,
                ({
                    let rest = run(
                        analysis@,
                        hosts,
                        key,
                        window,
                        manager.marks(),
                        script@.skip(i as int),
                    );
                    &&& expected.sent == sent + rest.sent
                    &&& expected.ended == rest.ended
                    &&& expected.marks == rest.marks
                }),
            decreases script@.len() - i,
        {
            if i >= script.len() {
                if analysis.remaining() == 0 {
                    return Replay { sent, ended: Some(Err(analysis.final_error())) };
                }
                return Replay { sent, ended: None };
            }
            proof {
                let rest = script@.skip(i as int);
                assert(rest[0] == script@[i as int]);
                assert(rest.drop_first() =~= script@.skip(i + 1));
            }
            match analysis.next_attempt(manager, script[i].asked_at) {
                DispatchStep::Finished(e) => {
                    return Replay { sent, ended: Some(Err(e)) };
                },
                DispatchStep::Attempt(request) => {
                    sent = sent + 1;
                    match analysis.record_outcome(
                        manager,
                        request.host.as_str(),
                        script[i].outcome.copied(),
                        script[i].answered_at,
                    ) {
                        Some(found) => {
                            return Replay { sent, ended: Some(Ok(found)) };
                        },
                        None => {
                            i = i + 1;
                        },
                    }
                },
            }
        }
    }

    /// The error that the analysis ends with once its attempts are spent.
    pub fn final_error(&self) -> (e: ImageAnalysisError)
        ensures
            e == final_error(self@),
    {
        match &self.last_error {
            Some(e) => e.copied(),
            None => ImageAnalysisError::NoHostsReachable,
        }
    }
}

/// An analysis sends at most as many requests as it has attempts left,
/// whatever becomes of each request; and once the script holds that many
/// exchanges, the run has ended.
pub proof fn lemma_run_within_budget(
    analysis: AnalysisView,
    hosts: Seq<Seq<char>>,
    key: Option<String>,
    window: u64,
    marks: Seq<MarkView>,
    script: Seq<Exchange>,
)
    ensures
        run(analysis, hosts, key, window, marks, script).sent <= analysis.remaining,
        run(analysis, hosts, key, window, marks, script).sent <= script.len(),
        script.len() >= analysis.remaining ==> run(
            analysis,
            hosts,
            key,
            window,
            marks,
            script,
        ).ended is Some,
    decreases script.len(),
{
    if script.len() > 0 {
        let exchange = script[0];
        let record = record_after_step(analysis, marks, exchange.asked_at, window);
        match next_step(analysis, hosts, key, marks, exchange.asked_at, window) {
            StepView::Finished(e) => {},
            StepView::Attempt(request) => match judged(exchange.outcome) {
                Ok(text) => {},
                Err(e) => {
                    lemma_run_within_budget(
                        after_failure(analysis, e),
                        hosts,
                        key,
                        window,
                        marked(record, request.host, exchange.answered_at),
                        script.drop_first(),
                    );
                },
            },
        }
    }
}

/// A run that ends in failure ends with `NoHostsReachable` or with a failure
/// of one of the per-host kinds: the one that its latest attempt met.
pub proof fn lemma_run_failure_is_latest(
    analysis: AnalysisView,
    hosts: Seq<Seq<char>>,
    key: Option<String>,
    window: u64,
    marks: Seq<MarkView>,
    script: Seq<Exchange>,
)
    requires
        analysis.last_error matches Some(e) ==> e.is_per_host(),
    ensures
        run(analysis, hosts, key, window, marks, script).ended matches Some(Err(e))
            ==> e.is_per_host() || e == ImageAnalysisError::NoHostsReachable,
    decreases script.len(),
{
    if script.len() > 0 {
        let exchange = script[0];
        let record = record_after_step(analysis, marks, exchange.asked_at, window);
        match next_step(analysis, hosts, key, marks, exchange.asked_at, window) {
            StepView::Finished(e) => {},
            StepView::Attempt(request) => match judged(exchange.outcome) {
                Ok(text) => {},
                Err(e) => {
                    lemma_run_failure_is_latest(
                        after_failure(analysis, e),
                        hosts,
                        key,
                        window,
                        marked(record, request.host, exchange.answered_at),
                        script.drop_first(),
                    );
                },
            },
        }
    }
}

/// No failure of a single attempt ends a run before the budget is spent: a
/// run that ends with a failure of one of the per-host kinds has sent as
/// many requests as it had attempts. A run that ends with a description has
/// sent at least one request.
pub proof fn lemma_failure_only_after_budget(
    analysis: AnalysisView,
    hosts: Seq<Seq<char>>,
    key: Option<String>,
    window: u64,
    marks: Seq<MarkView>,
    script: Seq<Exchange>,
)
    ensures
        run(analysis, hosts, key, window, marks, script).ended matches Some(Err(e))
            && e.is_per_host() ==> run(analysis, hosts, key, window, marks, script).sent
            == analysis.remaining,
        run(analysis, hosts, key, window, marks, script).ended matches Some(Ok(_)) ==> run(
            analysis,
            hosts,
            key,
            window,
            marks,
            script,
        ).sent >= 1,
    decreases script.len(),
{
    if script.len() > 0 {
        let exchange = script[0];
        let record = record_after_step(analysis, marks, exchange.asked_at, window);
        match next_step(analysis, hosts, key, marks, exchange.asked_at, window) {
            StepView::Finished(e) => {},
            StepView::Attempt(request) => match judged(exchange.outcome) {
                Ok(text) => {},
                Err(e) => {
                    lemma_failure_only_after_budget(
                        after_failure(analysis, e),
                        hosts,
                        key,
                        window,
                        marked(record, request.host, exchange.answered_at),
                        script.drop_first(),
                    );
                },
            },
        }
    }
}

/// A text that is empty or whitespace throughout counts as the failure
/// `EmptyResponse`, and only such a text does; every other text counts as
/// the description that trimming leaves of it, which is not empty and
/// neither begins nor ends with whitespace.
pub proof fn lemma_blank_text_is_failure(text: Seq<char>)
    ensures
        all_whitespace(text) <==> described(text) == Err::<Seq<char>, ImageAnalysisError>(
            ImageAnalysisError::EmptyResponse,
        ),
        !all_whitespace(text) <==> described(text) == Ok::<Seq<char>, ImageAnalysisError>(
            trimmed(text),
        ),
        described(text) matches Ok(description) ==> description.len() > 0 && !is_whitespace(
            description.first(),
        ) && !is_whitespace(description.last()),
{
    lemma_trimmed_empty_iff_all_whitespace(text);
}

/// A successful reply whose text is empty or whitespace throughout is a
/// failed attempt, whichever shape the text was read under.
pub proof fn lemma_blank_reply_is_failure(status: u16, body: String)
    requires
        is_success(status),
        body_text(body@) matches Some(text) && all_whitespace(text),
    ensures
        judged(AttemptOutcome::Response { status, body }) == Err::<Seq<char>, ImageAnalysisError>(
            ImageAnalysisError::EmptyResponse,
        ),
{
    lemma_blank_text_is_failure(body_text(body@)->0);
}

/// No outcome at all yields an empty description.
pub proof fn lemma_description_not_empty(outcome: AttemptOutcome)
    ensures
        judged(outcome) matches Ok(text) ==> text.len() > 0,
{
}

} // verus!
