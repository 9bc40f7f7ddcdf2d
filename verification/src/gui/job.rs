//! A download job: the offers that were selected, one after another.

use crate::gui::event::{Ev, EvModel};
use crate::gui::rows::sizes;
use crate::ngx::feature::title_of;
use crate::ngx::offer::{offer_models, Offer, OfferModel};
use crate::size::{human_size, human_size_spec};
use crate::text::{copy_text, join, join_spec, views};
use vstd::prelude::*;

verus! {

/// The state of a job.
pub struct JobModel {
    pub offers: Seq<OfferModel>,
    pub dest: Seq<char>,
    pub total: u64,
    /// The offer that is downloaded.
    pub at: int,
    /// The size of what succeeded.
    pub overall: u64,
    pub successes: int,
}

/// A state that a job can be in.
pub open spec fn job_wf(m: JobModel) -> bool {
    &&& m.total == sizes(m.offers)
    &&& 0 <= m.at <= m.offers.len()
    &&& m.overall <= sizes(m.offers.take(m.at))
    &&& 0 <= m.successes <= m.at
}

/// A download job.
#[derive(Debug)]
pub struct Job {
    offers: Vec<Offer>,
    dest: String,
    total: u64,
    at: usize,
    overall: u64,
    successes: usize,
}

impl View for Job {
    type V = JobModel;

    closed spec fn view(&self) -> JobModel {
        JobModel {
            offers: offer_models(self.offers@),
            dest: self.dest@,
            total: self.total,
            at: self.at as int,
            overall: self.overall,
            successes: self.successes as int,
        }
    }
}

/// How an offer is called while it is downloaded.
pub open spec fn label_spec(o: OfferModel) -> Seq<char> {
    title_of(o.dir) + " "@ + o.version
}

/// The job with which the download of some offers begins.
pub open spec fn job_start(offers: Seq<OfferModel>, dest: Seq<char>) -> JobModel {
    JobModel { offers, dest, total: sizes(offers) as u64, at: 0, overall: 0, successes: 0 }
}

/// The report on the progress: `done` bytes of the offer that is downloaded.
pub open spec fn progress_spec(m: JobModel, done: u64) -> EvModel {
    EvModel::Prog {
        done: (m.overall + done) as u64,
        total: m.total,
        label: label_spec(m.offers[m.at]),
    }
}

/// The report on an offer: the files, or the message of the failure.
pub open spec fn item_spec(o: OfferModel, result: Result<Seq<Seq<char>>, Seq<char>>) -> EvModel {
    match result {
        Ok(files) => EvModel::Item(
            Ok(
                "✓ "@ + label_spec(o) + " "@ + human_size_spec(o.size as nat) + ": "@ + join_spec(
                    files,
                    ", "@,
                ),
            ),
        ),
        Err(e) => EvModel::Item(Err("✗ "@ + label_spec(o) + " failed: "@ + e)),
    }
}

/// The state behind an offer, which succeeded or not.
pub open spec fn item_step(m: JobModel, success: bool) -> JobModel {
    if success {
        JobModel {
            at: m.at + 1,
            overall: (m.overall + m.offers[m.at].size) as u64,
            successes: m.successes + 1,
            ..m
        }
    } else {
        JobModel { at: m.at + 1, ..m }
    }
}

/// The report at the end of a job: where the files are, if anything succeeded.
pub open spec fn end_spec(m: JobModel) -> EvModel {
    if m.successes > 0 {
        EvModel::Done(Ok(m.dest))
    } else {
        EvModel::Done(Err("all downloads failed"@))
    }
}

/// The size of the first offers is part of the size of all.
proof fn lemma_sizes_grow(offers: Seq<OfferModel>, i: int)
    requires
        0 <= i <= offers.len(),
    ensures
        sizes(offers.take(i)) <= sizes(offers),
    decreases offers.len() - i,
{
    if i == offers.len() {
        assert(offers.take(i) =~= offers);
    } else {
        assert(offers.take(i + 1).drop_last() =~= offers.take(i));
        lemma_sizes_grow(offers, i + 1);
    }
}

/// How an offer is called while it is downloaded.
fn label(o: &Offer) -> (r: String)
    ensures
        r@ == label_spec(o@),
{
    let mut out = o.feature.title();
    out.append(" ");
    out.append(o.version.as_str());
    out
}

impl Job {
    #[verifier::type_invariant]
    spec fn wf(self) -> bool {
        job_wf(self@)
    }

    /// Begins a job.
    pub fn new(offers: Vec<Offer>, dest: &str, total: u64) -> (r: Job)
        requires
            total == sizes(offer_models(offers@)),
        ensures
            r@ == job_start(offer_models(offers@), dest@),
            job_wf(r@),
    {
        assert(offer_models(offers@).take(0) =~= seq![]);
        Job { offers, dest: copy_text(dest), total, at: 0, overall: 0, successes: 0 }
    }

    /// The offer that is to be downloaded, if one is left.
    pub fn current(&self) -> (r: Option<&Offer>)
        ensures
            match r {
                Some(o) => self@.at < self@.offers.len() && o@ == self@.offers[self@.at],
                None => self@.at == self@.offers.len(),
            },
    {
        proof {
            use_type_invariant(self);
        }
        assert(self@.offers.len() == self.offers@.len());
        if self.at < self.offers.len() {
            assert(self@.offers[self.at as int] == self.offers@[self.at as int]@);
            Some(&self.offers[self.at])
        } else {
            None
        }
    }

    /// The size of what succeeded so far.
    pub fn overall(&self) -> (r: u64)
        ensures
            r == self@.overall,
            r <= self@.total,
    {
        proof {
            use_type_invariant(self);
            lemma_sizes_grow(self@.offers, self@.at);
        }
        self.overall
    }

    /// The report on the progress: `done` bytes of the offer that is
    /// downloaded. With none, it is the report with which the offer begins.
    pub fn progress(&self, done: u64) -> (r: Ev)
        requires
            self@.at < self@.offers.len(),
            self@.overall + done <= u64::MAX,
        ensures
            r@ == progress_spec(self@, done),
    {
        proof {
            use_type_invariant(self);
        }
        assert(self@.offers.len() == self.offers@.len());
        assert(self@.offers[self.at as int] == self.offers@[self.at as int]@);
        Ev::Prog {
            done: self.overall + done,
            total: self.total,
            label: label(&self.offers[self.at]),
        }
    }

    /// Takes what came of the offer that was downloaded: its files, or the
    /// message of the failure. Gives the report on it.
    pub fn finish(self, result: Result<Vec<String>, String>) -> (r: (Job, Ev))
        requires
            self@.at < self@.offers.len(),
        ensures
            r.0@ == item_step(self@, result is Ok),
            r.1@ == item_spec(
                self@.offers[self@.at],
                match result {
                    Ok(files) => Ok(views(files@)),
                    Err(e) => Err(e@),
                },
            ),
            job_wf(r.0@),
    {
        let ghost m = self@;
        proof {
            use_type_invariant(&self);
            assert(m.offers.len() == self.offers@.len());
            assert(m.offers[m.at] == self.offers@[self.at as int]@);
            assert(m.offers.take(m.at + 1).drop_last() =~= m.offers.take(m.at));
            lemma_sizes_grow(m.offers, m.at + 1);
        }
        assert(self.at < self.offers.len());
        let size: u64 = self.offers[self.at].size;
        let name = label(&self.offers[self.at]);
        match result {
            Ok(files) => {
                let mut text = copy_text("✓ ");
                text.append(name.as_str());
                text.append(" ");
                text.append(human_size(size).as_str());
                text.append(": ");
                text.append(join(&files, ", ").as_str());
                let job = Job {
                    at: self.at + 1,
                    overall: self.overall + size,
                    successes: self.successes + 1,
                    ..self
                };
                (job, Ev::Item(Ok(text)))
            },
            Err(e) => {
                let mut text = copy_text("✗ ");
                text.append(name.as_str());
                text.append(" failed: ");
                text.append(e.as_str());
                (Job { at: self.at + 1, ..self }, Ev::Item(Err(text)))
            },
        }
    }

    /// The report at the end of the job.
    pub fn end(&self) -> (r: Ev)
        ensures
            r@ == end_spec(self@),
    {
        if self.successes > 0 {
            Ev::Done(Ok(copy_text(self.dest.as_str())))
        } else {
            Ev::Done(Err(copy_text("all downloads failed")))
        }
    }
}

// ---------------------------------------------------------------------------
// Laws
// ---------------------------------------------------------------------------

/// What is left of a job gets less with every offer, and what counts as done
/// is never more than the total.
pub proof fn law_progress_within_total(m: JobModel, success: bool)
    requires
        job_wf(m),
    ensures
        m.overall <= m.total,
        m.at < m.offers.len() ==> job_wf(item_step(m, success)),
        m.at < m.offers.len() ==> item_step(m, success).overall <= item_step(m, success).total,
        m.at < m.offers.len() && success ==> item_step(m, success).overall == m.overall
            + m.offers[m.at].size,
{
    lemma_sizes_grow(m.offers, m.at);
    if m.at < m.offers.len() {
        lemma_sizes_grow(m.offers, m.at + 1);
        assert(m.offers.take(m.at + 1).drop_last() =~= m.offers.take(m.at));
    }
}

/// The states of a job, one for each result so far: whether the offer succeeded.
pub open spec fn job_run(m: JobModel, results: Seq<bool>) -> JobModel
    decreases results.len(),
{
    if results.len() == 0 {
        m
    } else {
        item_step(job_run(m, results.drop_last()), results.last())
    }
}

/// The size of the offers that succeeded.
pub open spec fn sizes_of_successes(offers: Seq<OfferModel>, results: Seq<bool>) -> nat
    decreases results.len(),
{
    if results.len() == 0 {
        0
    } else {
        sizes_of_successes(offers, results.drop_last()) + if results.last() {
            offers[results.len() - 1].size as nat
        } else {
            0nat
        }
    }
}

/// A job ends well if and only if an offer succeeded, and what counts as done
/// is the size of the offers that did.
pub proof fn law_job_outcome(offers: Seq<OfferModel>, dest: Seq<char>, results: Seq<bool>)
    requires
        sizes(offers) <= u64::MAX,
        results.len() <= offers.len(),
    ensures
        ({
            let m = job_run(job_start(offers, dest), results);
            &&& job_wf(m)
            &&& m.offers == offers
            &&& m.dest == dest
            &&& m.at == results.len()
            &&& m.overall == sizes_of_successes(offers, results)
            &&& (end_spec(m) == EvModel::Done(Ok(dest)) <==> results.contains(true))
            &&& (end_spec(m) == EvModel::Done(Err("all downloads failed"@)) <==> !results.contains(
                true,
            ))
        }),
    decreases results.len(),
{
    let start = job_start(offers, dest);
    if results.len() == 0 {
        assert(offers.take(0) =~= seq![]);
    } else {
        let front = results.drop_last();
        law_job_outcome(offers, dest, front);
        law_progress_within_total(job_run(start, front), results.last());
        if front.contains(true) {
            let k = choose|k: int| 0 <= k < front.len() && front[k] == true;
            assert(results[k] == true);
        }
        if results.last() {
            assert(results[results.len() - 1] == true);
        }
        if results.contains(true) && !front.contains(true) {
            let k = choose|k: int| 0 <= k < results.len() && results[k] == true;
            if k < front.len() {
                assert(front[k] == true);
            }
        }
    }
}

} // verus!
