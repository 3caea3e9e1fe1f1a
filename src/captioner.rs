//! Captioning many images through an outside service with a cap on the
//! requests in flight. The caller sends the requests and reports each
//! outcome; the scheduler decides what to launch next, when to retry, and
//! hands back one result per input, in input order.
use vstd::prelude::*;
use crate::text::{views, concat, trim_str, trim, push_decimal, decimal, chars_of, string_of, same_chars};

verus! {

pub const DEFAULT_TIMEOUT_SECS: u32 = 120;

pub const MAX_TIMEOUT_SECS: u32 = 600;

#[derive(Debug)]
pub struct BatchCaptionPayload {
    pub image_paths: Vec<String>,
    pub base_url: String,
    pub model: Option<String>,
    pub prompt: String,
    pub max_tokens: u32,
    /// Timeout of each request in seconds (taken within 1 to 600).
    pub timeout_secs: u32,
    /// Longest side an image is scaled down to before it is sent.
    pub max_image_dimension: Option<u32>,
    /// Requests in flight at most (taken within 1 to 8).
    pub concurrency: u32,
}

/// The outcome of captioning one image.
#[derive(Debug)]
pub struct CaptionResult {
    pub success: bool,
    pub caption: String,
    pub error: Option<String>,
}

/// The outcome for one input of a batch.
#[derive(Debug)]
pub struct BatchCaptionResult {
    pub path: String,
    pub success: bool,
    pub caption: String,
    pub error: Option<String>,
}

/// The cap on requests in flight: `concurrency` taken within 1 to 8.
pub open spec fn concurrency_limit(concurrency: u32) -> nat {
    if concurrency < 1 {
        1
    } else if concurrency > 8 {
        8
    } else {
        concurrency as nat
    }
}

/// The timeout of one request: `secs` taken within 1 to 600.
pub open spec fn clamped_timeout(secs: u32) -> u32 {
    if secs > MAX_TIMEOUT_SECS {
        MAX_TIMEOUT_SECS
    } else if secs < 1 {
        1
    } else {
        secs
    }
}

pub fn request_timeout_secs(secs: u32) -> (r: u32)
    ensures
        r == clamped_timeout(secs),
{
    if secs > MAX_TIMEOUT_SECS {
        MAX_TIMEOUT_SECS
    } else if secs < 1 {
        1
    } else {
        secs
    }
}

/// `t` occurs in `s` at index `i`.
pub open spec fn occurs_at(s: Seq<char>, t: Seq<char>, i: int) -> bool {
    0 <= i && i + t.len() <= s.len() && s.subrange(i, i + t.len()) == t
}

pub open spec fn contains_text(s: Seq<char>, t: Seq<char>) -> bool {
    exists|i: int| occurs_at(s, t, i)
}

/// Whether `t` occurs in `s`.
pub fn contains_str(s: &str, t: &str) -> (r: bool)
    ensures
        r == contains_text(s@, t@),
{
    let a = chars_of(s);
    let b = chars_of(t);
    if b.len() > a.len() {
        assert forall|i: int| !occurs_at(s@, t@, i) by {}
        return false;
    }
    if b.len() == 0 {
        assert(s@.subrange(0, 0) =~= t@);
        assert(occurs_at(s@, t@, 0));
        return true;
    }
    let count = a.len() - b.len() + 1;
    let mut i: usize = 0;
    while i < count
        invariant
            a@ == s@,
            b@ == t@,
            b@.len() <= a@.len(),
            count == a@.len() - b@.len() + 1,
            i <= count,
            forall|j: int| 0 <= j < i ==> !occurs_at(s@, t@, j),
        decreases count - i,
    {
        assert(i + b@.len() <= a@.len());
        let end: usize = a.len() - (a.len() - b.len() - i);
        let w = crate::paths::copy_range(&a, i, end);
        if same_chars(w.as_slice(), b.as_slice()) {
            assert(occurs_at(s@, t@, i as int));
            return true;
        }
        i += 1;
    }
    assert forall|j: int| !occurs_at(s@, t@, j) by {
        if j >= i {
            assert(j + t@.len() > s@.len());
        }
    }
    false
}

/// Whether a failed request failed by running out of time, going by its
/// message.
pub fn is_timeout_message(message: &str) -> (r: bool)
    ensures
        r == (contains_text(message@, "timed out"@) || contains_text(message@, "timeout"@)),
{
    contains_str(message, "timed out") || contains_str(message, "timeout")
}

/// How an attempt at a request failed.
pub enum RequestFailure {
    /// The request ran out of time, with the client's message.
    TimedOut(String),
    /// The request failed otherwise, with the client's message.
    Failed(String),
}

/// What to do after a failed attempt.
pub enum AttemptStep {
    /// Send the same request once more.
    Retry,
    /// Give up with this result.
    GiveUp(CaptionResult),
}

/// The message when both attempts of a request ran out of time.
pub open spec fn timed_out_message(timeout_secs: u32) -> Seq<char> {
    "Request timed out after "@ + decimal(timeout_secs as nat)
        + " seconds (tried 2 times). Try a larger timeout in settings or use smaller images."@
}

/// A failed result with `message`.
pub open spec fn failure(r: CaptionResult, message: Seq<char>) -> bool {
    !r.success && r.caption@.len() == 0 && (r.error matches Some(e) && e@ == message)
}

fn failed(message: String) -> (r: CaptionResult)
    ensures
        failure(r, message@),
{
    CaptionResult { success: false, caption: String::new(), error: Some(message) }
}

/// The retry policy: a first attempt that ran out of time is retried once;
/// any other failure of a first attempt is final. A second attempt that fails
/// in any way gives the timed-out result. An attempt that got an answer needs
/// no step: the answer is read.
pub fn after_failure(attempt: u32, outcome: RequestFailure, timeout_secs: u32) -> (r: AttemptStep)
    requires
        attempt == 1 || attempt == 2,
    ensures
        attempt == 1 && outcome is TimedOut ==> r is Retry,
        attempt == 1 ==> (outcome matches RequestFailure::Failed(e) ==> (r matches AttemptStep::GiveUp(c) && failure(c, "Request failed: "@ + e@))),
        attempt == 2 ==> (r matches AttemptStep::GiveUp(c) && failure(c, timed_out_message(timeout_secs))),
{
    match outcome {
        RequestFailure::TimedOut(_) if attempt == 1 => AttemptStep::Retry,
        RequestFailure::Failed(e) if attempt == 1 => AttemptStep::GiveUp(failed(concat("Request failed: ", e.as_str()))),
        _ => {
            let mut m: Vec<char> = chars_of("Request timed out after ");
            push_decimal(&mut m, timeout_secs as u128);
            let t = chars_of(" seconds (tried 2 times). Try a larger timeout in settings or use smaller images.");
            crate::paths::append_chars(&mut m, &t);
            AttemptStep::GiveUp(failed(string_of(m.as_slice())))
        },
    }
}

/// The result for an answer whose first choice holds `content` (`None`
/// where there is no choice): the caption is the content trimmed.
pub fn answered(content: Option<&str>) -> (r: CaptionResult)
    ensures
        r.success,
        r.error is None,
        content matches Some(c) ==> r.caption@ == trim(c@),
        content is None ==> r.caption@.len() == 0,
{
    match content {
        Some(c) => CaptionResult { success: true, caption: trim_str(c), error: None },
        None => CaptionResult { success: true, caption: String::new(), error: None },
    }
}

/// The batch record of `path` for the outcome of its request: an error of
/// the request itself becomes a failed record.
pub fn batch_result(path: String, outcome: Result<CaptionResult, String>) -> (r: BatchCaptionResult)
    ensures
        r.path@ == path@,
        outcome matches Ok(c) ==> r.success == c.success && r.caption@ == c.caption@ && r.error == c.error,
        outcome matches Err(e) ==> (!r.success && r.caption@.len() == 0 && (r.error matches Some(x) && x@ == e@)),
{
    match outcome {
        Ok(c) => BatchCaptionResult { path, success: c.success, caption: c.caption, error: c.error },
        Err(e) => BatchCaptionResult { path, success: false, caption: String::new(), error: Some(e) },
    }
}

/// The number of launched inputs (those before `next`) still without a result.
pub open spec fn pending(results: Seq<Option<BatchCaptionResult>>, next: int) -> nat
    decreases next,
{
    if next <= 0 {
        0
    } else {
        pending(results, next - 1) + if results[next - 1] is None { 1nat } else { 0nat }
    }
}

proof fn lemma_pending_fill(results: Seq<Option<BatchCaptionResult>>, next: int, i: int, v: BatchCaptionResult)
    requires
        0 <= i < next <= results.len(),
        results[i] is None,
    ensures
        pending(results, next) >= 1,
        pending(results.update(i, Some(v)), next) == pending(results, next) - 1,
    decreases next,
{
    if next - 1 > i {
        lemma_pending_fill(results, next - 1, i, v);
    } else {
        lemma_pending_same(results, i, i, v);
    }
}

proof fn lemma_pending_same(results: Seq<Option<BatchCaptionResult>>, upto: int, i: int, v: BatchCaptionResult)
    requires
        0 <= upto <= i < results.len(),
    ensures
        pending(results.update(i, Some(v)), upto) == pending(results, upto),
    decreases upto,
{
    if upto > 0 {
        lemma_pending_same(results, upto - 1, i, v);
    }
}

proof fn lemma_pending_bound(results: Seq<Option<BatchCaptionResult>>, next: int)
    requires
        0 <= next <= results.len(),
    ensures
        pending(results, next) <= next,
        pending(results, next) == 0 ==> forall|i: int| 0 <= i < next ==> #[trigger] results[i] is Some,
    decreases next,
{
    if next > 0 {
        lemma_pending_bound(results, next - 1);
    }
}

/// The state of a batch: which inputs were launched, which have results.
#[derive(Debug)]
pub struct CaptionScheduler {
    paths: Vec<String>,
    limit: usize,
    next: usize,
    in_flight: usize,
    results: Vec<Option<BatchCaptionResult>>,
}

impl CaptionScheduler {
    pub closed spec fn paths_spec(&self) -> Seq<Seq<char>> { views(self.paths@) }
    pub closed spec fn limit_spec(&self) -> nat { self.limit as nat }
    /// Inputs before this index have been launched.
    pub closed spec fn launched_spec(&self) -> nat { self.next as nat }
    pub closed spec fn in_flight_spec(&self) -> nat { self.in_flight as nat }
    /// The result recorded for each input so far.
    pub closed spec fn results_spec(&self) -> Seq<Option<BatchCaptionResult>> { self.results@ }

    pub closed spec fn wf(&self) -> bool {
        &&& self.results@.len() == self.paths@.len()
        &&& self.next <= self.paths@.len()
        &&& 1 <= self.limit <= 8
        &&& self.in_flight <= self.limit
        &&& self.in_flight == pending(self.results@, self.next as int)
        &&& forall|i: int| self.next <= i < self.results@.len() ==> #[trigger] self.results@[i] is None
        &&& forall|i: int| 0 <= i < self.results@.len() && #[trigger] self.results@[i] is Some ==> self.results@[i].unwrap().path@ == self.paths@[i]@
    }

    /// A batch over `paths` with at most `concurrency` (taken within 1 to 8)
    /// requests in flight.
    pub fn new(paths: Vec<String>, concurrency: u32) -> (r: Self)
        ensures
            r.wf(),
            r.paths_spec() == views(paths@),
            r.limit_spec() == concurrency_limit(concurrency),
            r.launched_spec() == 0,
            r.in_flight_spec() == 0,
            r.results_spec().len() == paths@.len(),
            forall|i: int| 0 <= i < r.results_spec().len() ==> #[trigger] r.results_spec()[i] is None,
    {
        let limit: usize = if concurrency < 1 { 1 } else if concurrency > 8 { 8 } else { concurrency as usize };
        let mut results: Vec<Option<BatchCaptionResult>> = Vec::new();
        let mut i: usize = 0;
        while i < paths.len()
            invariant
                i <= paths@.len(),
                results@.len() == i,
                forall|j: int| 0 <= j < i ==> #[trigger] results@[j] is None,
            decreases paths@.len() - i,
        {
            results.push(None);
            i += 1;
        }
        CaptionScheduler { paths, limit, next: 0, in_flight: 0, results }
    }

    /// The next input to send, if one is waiting and fewer than the cap are
    /// in flight; it then counts as in flight.
    pub fn launch(&mut self) -> (r: Option<usize>)
        requires
            old(self).wf(),
        ensures
            final(self).wf(),
            final(self).paths_spec() == old(self).paths_spec(),
            final(self).limit_spec() == old(self).limit_spec(),
            final(self).results_spec() == old(self).results_spec(),
            (old(self).in_flight_spec() < old(self).limit_spec() && old(self).launched_spec() < old(self).paths_spec().len())
                ==> (r == Some(old(self).launched_spec() as usize) && final(self).launched_spec() == old(self).launched_spec() + 1
                    && final(self).in_flight_spec() == old(self).in_flight_spec() + 1),
            !(old(self).in_flight_spec() < old(self).limit_spec() && old(self).launched_spec() < old(self).paths_spec().len())
                ==> (r is None && final(self).launched_spec() == old(self).launched_spec() && final(self).in_flight_spec() == old(self).in_flight_spec()),
    {
        if self.in_flight < self.limit && self.next < self.paths.len() {
            let i = self.next;
            assert(self.results@[i as int] is None);
            self.next = self.next + 1;
            self.in_flight = self.in_flight + 1;
            Some(i)
        } else {
            None
        }
    }

    /// The path of input `i`.
    pub fn path(&self, i: usize) -> (r: &String)
        requires
            self.wf(),
            i < self.paths_spec().len(),
        ensures
            r@ == self.paths_spec()[i as int],
    {
        &self.paths[i]
    }

    /// Records the outcome of the request for input `i`, which was launched
    /// and has no result yet; it no longer counts as in flight.
    pub fn complete(&mut self, i: usize, outcome: Result<CaptionResult, String>)
        requires
            old(self).wf(),
            i < old(self).launched_spec(),
            old(self).results_spec()[i as int] is None,
        ensures
            final(self).wf(),
            final(self).paths_spec() == old(self).paths_spec(),
            final(self).limit_spec() == old(self).limit_spec(),
            final(self).launched_spec() == old(self).launched_spec(),
            final(self).in_flight_spec() + 1 == old(self).in_flight_spec(),
            final(self).results_spec().len() == old(self).results_spec().len(),
            forall|j: int| 0 <= j < old(self).results_spec().len() && j != i ==> #[trigger] final(self).results_spec()[j] == old(self).results_spec()[j],
            final(self).results_spec()[i as int] matches Some(b) && b.path@ == old(self).paths_spec()[i as int] && match outcome {
                Ok(c) => b.success == c.success && b.caption@ == c.caption@ && b.error == c.error,
                Err(e) => !b.success && b.caption@.len() == 0 && (b.error matches Some(x) && x@ == e@),
            },
    {
        let b = batch_result(self.paths[i].clone(), outcome);
        proof {
            lemma_pending_fill(self.results@, self.next as int, i as int, b);
        }
        self.results.set(i, Some(b));
        self.in_flight = self.in_flight - 1;
    }

    /// Whether every input has its result.
    pub fn is_done(&self) -> (r: bool)
        requires
            self.wf(),
        ensures
            r ==> forall|i: int| 0 <= i < self.results_spec().len() ==> #[trigger] self.results_spec()[i] is Some,
            r == (self.launched_spec() == self.paths_spec().len() && self.in_flight_spec() == 0),
    {
        proof {
            lemma_pending_bound(self.results@, self.next as int);
        }
        self.next == self.paths.len() && self.in_flight == 0
    }

    /// The results, one per input and in input order, however the requests
    /// finished.
    pub fn finish(self) -> (r: Vec<BatchCaptionResult>)
        requires
            self.wf(),
            forall|i: int| 0 <= i < self.results_spec().len() ==> #[trigger] self.results_spec()[i] is Some,
        ensures
            r@.len() == self.paths_spec().len(),
            forall|i: int| 0 <= i < r@.len() ==> #[trigger] r@[i].path@ == self.paths_spec()[i],
            forall|i: int| 0 <= i < r@.len() ==> Some(#[trigger] r@[i]) == self.results_spec()[i],
    {
        let ghost all = self.results_spec();
        let mut results = self.results;
        assert(results@ == all);
        let mut out: Vec<BatchCaptionResult> = Vec::new();
        let mut i: usize = 0;
        let n = results.len();
        while i < n
            invariant
                n == all.len(),
                results@.len() == n,
                i <= n,
                out@.len() == i,
                forall|j: int| i <= j < n ==> #[trigger] results@[j] == all[j],
                forall|j: int| 0 <= j < i ==> Some(#[trigger] out@[j]) == all[j],
                forall|j: int| 0 <= j < n ==> #[trigger] all[j] is Some,
            decreases n - i,
        {
            let mut slot: Option<BatchCaptionResult> = None;
            std::mem::swap(&mut slot, &mut results[i]);
            match slot {
                Some(b) => out.push(b),
                None => {},
            }
            i += 1;
        }
        out
    }
}

} // verus!
