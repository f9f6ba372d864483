//! Scheduling of a batch of archive rewrites: at most a fixed number run at
//! once, every target runs to its end, and the first failure is reported.
//!
//! The scheduler only decides; whoever owns the workers asks it what to do
//! next, runs the rewrite it names, and reports each outcome back.

use vstd::prelude::*;
use crate::comic_info::{clone_opt_decimal, empty_record, ComicInfo, ComicInfoModel};
use crate::error::{BatchError, ErrorKind};
use crate::filename::{Chapter, ChapterModel};
use crate::text::{join_strings, join_with, nat_text, push_text, push_uint, strings_view};

verus! {

/// What the scheduler asks for next.
#[derive(Debug, Clone, Copy, PartialEq, Eq, Structural)]
pub enum BatchAction {
    /// Start the rewrite of this target.
    Start(usize),
    /// Wait for a running rewrite to finish.
    Wait,
    /// Every target has finished; the batch's outcome.
    Done(Option<BatchError>),
}

/// The state of a batch: how many targets, how many may run at once, how
/// many have been started, how many are running and finished, how many
/// failed, and the first failure.
#[derive(Debug)]
pub struct BatchScheduler {
    total: usize,
    limit: usize,
    next: usize,
    running: usize,
    finished: usize,
    failures: usize,
    first_error: Option<BatchError>,
    done: Vec<bool>,
    failed: Vec<bool>,
}

/// The content of a [`BatchScheduler`].
pub struct BatchModel {
    pub total: nat,
    pub limit: nat,
    pub next: nat,
    pub running: nat,
    pub finished: nat,
    pub failures: nat,
    pub first_error: Option<BatchError>,
    pub done: Seq<bool>,
    pub failed: Seq<bool>,
}

/// The number of finished targets among the first `k`.
pub open spec fn count_true(done: Seq<bool>, k: int) -> nat
    decreases k,
{
    if k <= 0 {
        0
    } else {
        count_true(done, k - 1) + if done[k - 1] { 1nat } else { 0nat }
    }
}

/// The scheduler's invariant: targets are started in order, each started
/// target is running or finished, never more than `limit` run, and a failure
/// is on record exactly when one was reported.
pub open spec fn batch_wf(m: BatchModel) -> bool {
    &&& m.limit >= 1
    &&& m.next <= m.total
    &&& m.done.len() == m.total
    &&& m.running <= m.limit
    &&& m.running + m.finished == m.next
    &&& m.finished == count_true(m.done, m.total as int)
    &&& forall|i: int| m.next <= i < m.total ==> !#[trigger] m.done[i]
    &&& m.failed.len() == m.total
    &&& forall|i: int| 0 <= i < m.total && #[trigger] m.failed[i] ==> m.done[i]
    &&& m.failures == count_true(m.failed, m.total as int)
    &&& (m.first_error is Some <==> m.failures > 0)
    &&& (m.first_error matches Some(e) ==> e.target < m.next && m.failed[e.target as int])
}

impl View for BatchScheduler {
    type V = BatchModel;

    closed spec fn view(&self) -> BatchModel {
        BatchModel {
            total: self.total as nat,
            limit: self.limit as nat,
            next: self.next as nat,
            running: self.running as nat,
            finished: self.finished as nat,
            failures: self.failures as nat,
            first_error: self.first_error,
            done: self.done@,
            failed: self.failed@,
        }
    }
}

proof fn lemma_count_true_bound(done: Seq<bool>, k: int)
    requires
        0 <= k <= done.len(),
    ensures
        count_true(done, k) <= k,
    decreases k,
{
    if k > 0 {
        lemma_count_true_bound(done, k - 1);
    }
}

proof fn lemma_count_true_update(done: Seq<bool>, i: int, k: int)
    requires
        0 <= i < done.len(),
        0 <= k <= done.len(),
        !done[i],
    ensures
        count_true(done.update(i, true), k) == count_true(done, k) + if i < k { 1nat } else { 0nat },
    decreases k,
{
    if k > 0 {
        lemma_count_true_update(done, i, k - 1);
        assert(done.update(i, true)[k - 1] == if k - 1 == i { true } else { done[k - 1] });
    }
}

proof fn lemma_count_true_none(done: Seq<bool>, k: int)
    requires
        0 <= k <= done.len(),
        forall|i: int| 0 <= i < k ==> !#[trigger] done[i],
    ensures
        count_true(done, k) == 0,
    decreases k,
{
    if k > 0 {
        lemma_count_true_none(done, k - 1);
    }
}

/// All of the first `k` are finished when `k` of them are.
proof fn lemma_count_true_all(done: Seq<bool>, k: int)
    requires
        0 <= k <= done.len(),
        count_true(done, k) == k,
    ensures
        forall|i: int| 0 <= i < k ==> #[trigger] done[i],
    decreases k,
{
    if k > 0 {
        lemma_count_true_bound(done, k - 1);
        lemma_count_true_all(done, k - 1);
    }
}

impl BatchScheduler {
    /// A batch of `total` targets of which at most `limit` run at once (at
    /// least one, whatever `limit` says).
    pub fn new(total: usize, limit: usize) -> (r: BatchScheduler)
        ensures
            batch_wf(r@),
            r@.total == total,
            r@.limit == if limit == 0 { 1 } else { limit },
            r@.next == 0,
            r@.running == 0,
            r@.finished == 0,
            r@.failures == 0,
    {
        let done = all_false(total);
        let failed = all_false(total);
        BatchScheduler {
            total,
            limit: if limit == 0 { 1 } else { limit },
            next: 0,
            running: 0,
            finished: 0,
            failures: 0,
            first_error: None,
            done,
            failed,
        }
    }

    /// A batch of `total` targets that runs as many at once as the machine
    /// has processors.
    pub fn with_host_parallelism(total: usize) -> (r: BatchScheduler)
        ensures
            batch_wf(r@),
            r@.total == total,
            r@.next == 0,
            r@.running == 0,
            r@.finished == 0,
    {
        BatchScheduler::new(total, host_parallelism())
    }

    /// The number of targets.
    pub fn total(&self) -> (r: usize)
        ensures
            r == self@.total,
    {
        self.total
    }

    /// The number of rewrites running now.
    pub fn running(&self) -> (r: usize)
        ensures
            r == self@.running,
    {
        self.running
    }

    /// The most rewrites that run at once.
    pub fn limit(&self) -> (r: usize)
        ensures
            r == self@.limit,
    {
        self.limit
    }

    /// What to do next: start the next target while a slot is free, wait
    /// while rewrites run, and once every target has finished, the outcome
    /// (the first failure, if any).
    pub fn next_action(&mut self) -> (r: BatchAction)
        requires
            batch_wf(old(self)@),
        ensures
            batch_wf(final(self)@),
            match r {
                BatchAction::Start(i) => {
                    &&& old(self)@.next < old(self)@.total
                    &&& old(self)@.running < old(self)@.limit
                    &&& i == old(self)@.next
                    &&& final(self)@ == (BatchModel { next: old(self)@.next + 1, running: old(self)@.running + 1, ..old(self)@ })
                },
                BatchAction::Wait => {
                    &&& final(self)@ == old(self)@
                    &&& old(self)@.running > 0
                    &&& (old(self)@.next == old(self)@.total || old(self)@.running == old(self)@.limit)
                },
                BatchAction::Done(e) => {
                    &&& final(self)@ == old(self)@
                    &&& old(self)@.next == old(self)@.total
                    &&& old(self)@.running == 0
                    &&& old(self)@.finished == old(self)@.total
                    &&& e == old(self)@.first_error
                },
            },
    {
        if self.next < self.total && self.running < self.limit {
            let i = self.next;
            self.next = self.next + 1;
            self.running = self.running + 1;
            BatchAction::Start(i)
        } else if self.running > 0 {
            BatchAction::Wait
        } else {
            BatchAction::Done(self.first_error)
        }
    }

    /// Records that the rewrite of `target` has finished with `outcome`.
    /// Returns `false`, and changes nothing, when `target` is not running.
    pub fn complete(&mut self, target: usize, outcome: Result<(), ErrorKind>) -> (r: bool)
        requires
            batch_wf(old(self)@),
        ensures
            batch_wf(final(self)@),
            r == (target < old(self)@.next && !old(self)@.done[target as int]),
            !r ==> final(self)@ == old(self)@,
            r ==> {
                &&& final(self)@.done == old(self)@.done.update(target as int, true)
                &&& final(self)@.running == old(self)@.running - 1
                &&& final(self)@.finished == old(self)@.finished + 1
                &&& final(self)@.next == old(self)@.next
                &&& final(self)@.total == old(self)@.total
                &&& final(self)@.limit == old(self)@.limit
                &&& final(self)@.failures == old(self)@.failures + if outcome is Err { 1nat } else { 0nat }
                &&& final(self)@.failed == if outcome is Err { old(self)@.failed.update(target as int, true) } else { old(self)@.failed }
                &&& final(self)@.first_error == match (old(self)@.first_error, outcome) {
                    (None, Err(kind)) => Some(BatchError { target, kind }),
                    _ => old(self)@.first_error,
                }
            },
    {
        if target >= self.next || self.done[target] {
            return false;
        }
        proof {
            lemma_count_true_update(self.done@, target as int, self.total as int);
            lemma_count_true_bound(self.done@, self.total as int);
            lemma_count_true_bound(self.failed@, self.total as int);
            lemma_some_running(self@, target as int);
        }
        self.done.set(target, true);
        self.running = self.running - 1;
        self.finished = self.finished + 1;
        match outcome {
            Ok(()) => {},
            Err(kind) => {
                proof {
                    assert(!self.failed@[target as int]);
                    lemma_count_true_update(self.failed@, target as int, self.total as int);
                    lemma_count_true_bound(self.failed@.update(target as int, true), self.total as int);
                }
                self.failed.set(target, true);
                self.failures = self.failures + 1;
                if self.first_error.is_none() {
                    self.first_error = Some(BatchError { target, kind });
                }
            },
        }
        true
    }
}

/// A target that has not finished but was started is running, so there is a
/// running one.
proof fn lemma_some_running(m: BatchModel, target: int)
    requires
        batch_wf(m),
        0 <= target < m.next,
        !m.done[target],
    ensures
        m.running > 0,
{
    if m.running == 0 {
        assert(count_true(m.done, m.total as int) == count_true(m.done, m.next as int)) by {
            lemma_count_true_prefix(m.done, m.next as int, m.total as int);
        }
        lemma_count_true_all(m.done, m.next as int);
    }
}

proof fn lemma_count_true_prefix(done: Seq<bool>, j: int, k: int)
    requires
        0 <= j <= k <= done.len(),
        forall|i: int| j <= i < k ==> !#[trigger] done[i],
    ensures
        count_true(done, k) == count_true(done, j),
    decreases k - j,
{
    if j < k {
        lemma_count_true_prefix(done, j, k - 1);
    }
}

fn all_false(n: usize) -> (r: Vec<bool>)
    ensures
        r@.len() == n,
        forall|j: int| 0 <= j < n ==> !#[trigger] r@[j],
        count_true(r@, n as int) == 0,
{
    let mut r: Vec<bool> = Vec::new();
    let mut i: usize = 0;
    while i < n
        invariant
            i <= n,
            r@.len() == i,
            forall|j: int| 0 <= j < i ==> !#[trigger] r@[j],
        decreases n - i,
    {
        r.push(false);
        i += 1;
    }
    proof {
        lemma_count_true_none(r@, n as int);
    }
    r
}

/// Two marked positions count at least two.
proof fn lemma_count_true_two(s: Seq<bool>, a: int, b: int, k: int)
    requires
        0 <= a < b < k <= s.len(),
        s[a],
        s[b],
    ensures
        count_true(s, k) >= 2,
    decreases k,
{
    if b < k - 1 {
        lemma_count_true_two(s, a, b, k - 1);
    } else {
        lemma_count_true_one(s, a, k - 1);
    }
}

proof fn lemma_count_true_one(s: Seq<bool>, a: int, k: int)
    requires
        0 <= a < k <= s.len(),
        s[a],
    ensures
        count_true(s, k) >= 1,
    decreases k,
{
    if a < k - 1 {
        lemma_count_true_one(s, a, k - 1);
    }
}

/// Relies on `num_cpus::get`: the number of processors available to this
/// process, at least 1.
#[verifier::external_body]
fn host_parallelism() -> (r: usize)
    ensures
        r >= 1,
{
    num_cpus::get()
}

/// However the scheduler is driven, never more than its limit of rewrites
/// run at once.
pub proof fn lemma_never_over_limit(m: BatchModel)
    requires
        batch_wf(m),
    ensures
        m.running <= m.limit,
{
}

/// When the batch is done, every target was started and has finished, and
/// the outcome is a failure exactly when some target failed; it names the
/// first target that did.
pub proof fn lemma_done_after_every_target(m: BatchModel)
    requires
        batch_wf(m),
        m.next == m.total,
        m.running == 0,
    ensures
        forall|i: int| 0 <= i < m.total ==> #[trigger] m.done[i],
        m.first_error is Some <==> m.failures > 0,
        m.first_error matches Some(e) ==> e.target < m.total && m.failed[e.target as int],
{
    lemma_count_true_all(m.done, m.total as int);
}

/// A failing target does not stop the others: when exactly one target has
/// failed and the batch is done, every other target has finished without
/// failure, and the batch's outcome names the failed one.
pub proof fn lemma_single_failure_isolated(m: BatchModel, t: int)
    requires
        batch_wf(m),
        m.next == m.total,
        m.running == 0,
        0 <= t < m.total,
        m.failed[t],
        m.failures == 1,
    ensures
        forall|i: int| 0 <= i < m.total && i != t ==> #[trigger] m.done[i] && !m.failed[i],
        m.first_error matches Some(e) && e.target == t,
{
    lemma_count_true_all(m.done, m.total as int);
    assert forall|i: int| 0 <= i < m.total && i != t implies #[trigger] m.done[i] && !m.failed[i] by {
        if m.failed[i] {
            if i < t {
                lemma_count_true_two(m.failed, i, t, m.total as int);
            } else {
                lemma_count_true_two(m.failed, t, i, m.total as int);
            }
        }
    }
    let e = m.first_error->Some_0;
    if e.target != t {
        if (e.target as int) < t {
            lemma_count_true_two(m.failed, e.target as int, t, m.total as int);
        } else {
            lemma_count_true_two(m.failed, t, e.target as int, m.total as int);
        }
    }
}


/// The name under which a chapter is reported: its title, or its path.
pub open spec fn chapter_label(c: ChapterModel) -> Seq<char> {
    match c.title {
        Some(t) => t,
        None => c.path,
    }
}

/// The name under which a chapter is reported: its title, or its path when
/// it has none.
pub fn get_title(chapter: &Chapter) -> (r: String)
    ensures
        r@ == chapter_label(chapter@),
{
    match &chapter.title {
        Some(t) => t.clone(),
        None => chapter.path.clone(),
    }
}

/// The status line sent when target `i` of `n` starts.
pub open spec fn progress_text(i: nat, n: nat, title: Seq<char>) -> Seq<char> {
    "Processing "@ + nat_text(i + 1) + "/"@ + nat_text(n) + ": "@ + title
}

/// The status line sent when target `i` (counted from 0) of `n` starts:
/// `Processing {i + 1}/{n}: {title}`.
pub fn progress_message(i: usize, n: usize, title: &str) -> (r: String)
    requires
        i < n,
    ensures
        r@ == progress_text(i as nat, n as nat, title@),
{
    let mut r = String::new();
    push_text(&mut r, "Processing ");
    push_uint(&mut r, (i + 1) as u64);
    push_text(&mut r, "/");
    push_uint(&mut r, n as u64);
    push_text(&mut r, ": ");
    push_text(&mut r, title);
    assert(r@ =~= progress_text(i as nat, n as nat, title@));
    r
}

/// The status line sent when a batch of `n` targets has finished, after
/// `elapsed` (a duration already written out).
pub open spec fn summary_text(n: nat, elapsed: Seq<char>) -> Seq<char> {
    "All done~ processed "@ + nat_text(n) + " chapters in "@ + elapsed + " 🎉"@
}

/// The status line sent when a batch of `n` targets has finished.
pub fn summary_message(n: usize, elapsed: &str) -> (r: String)
    ensures
        r@ == summary_text(n as nat, elapsed@),
{
    let mut r = String::new();
    push_text(&mut r, "All done~ processed ");
    push_uint(&mut r, n as u64);
    push_text(&mut r, " chapters in ");
    push_text(&mut r, elapsed);
    push_text(&mut r, " 🎉");
    assert(r@ =~= summary_text(n as nat, elapsed@));
    r
}

/// The status line sent when the record of a single chapter has been
/// replaced.
pub open spec fn chapter_summary_text(elapsed: Seq<char>) -> Seq<char> {
    "All done~ processed chapter in "@ + elapsed + " 🎉"@
}

/// The status line sent when the record of a single chapter has been
/// replaced, after `elapsed` (a duration already written out).
pub fn chapter_summary_message(elapsed: &str) -> (r: String)
    ensures
        r@ == chapter_summary_text(elapsed@),
{
    let mut r = String::new();
    push_text(&mut r, "All done~ processed chapter in ");
    push_text(&mut r, elapsed);
    push_text(&mut r, " 🎉");
    assert(r@ =~= chapter_summary_text(elapsed@));
    r
}

/// The candidate record that a chapter's file name gives: its volume,
/// number and title, and its translators joined by commas; every other
/// field empty. It is applied with [`MergePolicy::DeriveFromFilename`].
pub open spec fn chapter_record(c: ChapterModel, translators: Seq<Seq<char>>) -> ComicInfoModel {
    ComicInfoModel {
        title: match c.title {
            Some(t) => t,
            None => Seq::empty(),
        },
        number: c.chapter,
        volume: c.volume,
        translator: Some(join_with(translators, ","@)),
        ..empty_record()
    }
}

/// The candidate record that a chapter's file name gives.
pub fn chapter_comic_info(chapter: &Chapter) -> (r: ComicInfo)
    ensures
        r@ == chapter_record(chapter@, strings_view(chapter.translators@)),
{
    let mut info = ComicInfo::empty();
    info.volume = chapter.volume;
    info.number = clone_opt_decimal(&chapter.chapter);
    info.translator = Some(join_strings(&chapter.translators, ","));
    match &chapter.title {
        Some(t) => {
            info.title = t.clone();
        },
        None => {},
    }
    info
}

} // verus!
