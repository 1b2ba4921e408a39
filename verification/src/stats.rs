//! Counts of the strings translated for one target, and their report.
use crate::text::{chars_of, decimal, push_all, push_decimal, string_of};
use std::time::{Duration, Instant};
use vstd::prelude::*;

verus! {

/// `std::time::Instant`, carried through unchanged.
#[verifier::external_type_specification]
#[verifier::external_body]
pub struct ExInstant(Instant);

/// `Instant::now`: the current time, of which nothing is stated.
#[verifier::external_body]
fn instant_now() -> Instant {
    Instant::now()
}

/// How a run of translations went.
pub struct TranslationStats {
    label: String,
    total: usize,
    succeeded: usize,
    failed: usize,
    start: Instant,
    per_item: Vec<Duration>,
}

impl TranslationStats {
    pub closed spec fn label_view(&self) -> Seq<char> {
        self.label@
    }

    pub closed spec fn total_view(&self) -> nat {
        self.total as nat
    }

    pub closed spec fn succeeded_view(&self) -> nat {
        self.succeeded as nat
    }

    pub closed spec fn failed_view(&self) -> nat {
        self.failed as nat
    }

    pub closed spec fn durations_view(&self) -> Seq<Duration> {
        self.per_item@
    }

    /// The instant the run started at.
    pub closed spec fn start_view(&self) -> Instant {
        self.start
    }

    /// Nothing counted yet, the clock started now.
    pub fn new(label: String, total: usize) -> (r: Self)
        ensures
            r.label_view() == label@,
            r.total_view() == total,
            r.succeeded_view() == 0,
            r.failed_view() == 0,
            r.durations_view().len() == 0,
    {
        TranslationStats {
            label,
            total,
            succeeded: 0,
            failed: 0,
            start: instant_now(),
            per_item: Vec::new(),
        }
    }

    /// One string translated, in `duration`.
    pub fn record_ok(&mut self, duration: Duration)
        requires
            old(self).succeeded_view() < usize::MAX,
        ensures
            final(self).succeeded_view() == old(self).succeeded_view() + 1,
            final(self).durations_view() == old(self).durations_view().push(duration),
            final(self).failed_view() == old(self).failed_view(),
            final(self).total_view() == old(self).total_view(),
            final(self).label_view() == old(self).label_view(),
    {
        self.succeeded = self.succeeded + 1;
        self.per_item.push(duration);
    }

    /// `count` strings translated together.
    pub fn record_ok_batch(&mut self, count: usize)
        requires
            old(self).succeeded_view() + count <= usize::MAX,
        ensures
            final(self).succeeded_view() == old(self).succeeded_view() + count,
            final(self).durations_view() == old(self).durations_view(),
            final(self).failed_view() == old(self).failed_view(),
            final(self).total_view() == old(self).total_view(),
            final(self).label_view() == old(self).label_view(),
    {
        self.succeeded = self.succeeded + count;
    }

    /// One string that could not be translated.
    pub fn record_fail(&mut self)
        requires
            old(self).failed_view() < usize::MAX,
        ensures
            final(self).failed_view() == old(self).failed_view() + 1,
            final(self).succeeded_view() == old(self).succeeded_view(),
            final(self).durations_view() == old(self).durations_view(),
            final(self).total_view() == old(self).total_view(),
            final(self).label_view() == old(self).label_view(),
    {
        self.failed = self.failed + 1;
    }

    pub fn succeeded(&self) -> (r: usize)
        ensures
            r == self.succeeded_view(),
    {
        self.succeeded
    }

    pub fn failed(&self) -> (r: usize)
        ensures
            r == self.failed_view(),
    {
        self.failed
    }

    pub fn total(&self) -> (r: usize)
        ensures
            r == self.total_view(),
    {
        self.total
    }

    /// When the run started.
    pub fn started(&self) -> (r: &Instant)
        ensures
            *r == self.start_view(),
    {
        &self.start
    }

    /// The time each string recorded one by one took.
    pub fn durations(&self) -> (r: &Vec<Duration>)
        ensures
            r@ == self.durations_view(),
    {
        &self.per_item
    }

    /// The report, given the elapsed time and the average time per string as
    /// they are to be shown; the average shows as `-` when no string was
    /// timed.
    pub fn report_with(&self, elapsed: &str, avg: &str) -> (r: String)
        ensures
            r@ == report_text(
                self.label_view(),
                self.total_view(),
                self.succeeded_view(),
                self.failed_view(),
                elapsed@,
                if self.durations_view().len() == 0 {
                    "-"@
                } else {
                    avg@
                },
            ),
    {
        let mut out = chars_of("── ");
        let l = chars_of(self.label.as_str());
        push_all(&mut out, &l);
        let s1 = chars_of(" ──\n  ");
        push_all(&mut out, &s1);
        push_decimal(&mut out, self.total as u64);
        let s2 = if self.total == 1 {
            chars_of(" string in ")
        } else {
            chars_of(" strings in ")
        };
        push_all(&mut out, &s2);
        let e = chars_of(elapsed);
        push_all(&mut out, &e);
        let s3 = chars_of(" (avg ");
        push_all(&mut out, &s3);
        let a = if self.per_item.len() == 0 {
            chars_of("-")
        } else {
            chars_of(avg)
        };
        push_all(&mut out, &a);
        let s4 = chars_of(", ");
        push_all(&mut out, &s4);
        push_decimal(&mut out, self.succeeded as u64);
        if self.failed == 0 {
            let s5 = chars_of(" ok)");
            push_all(&mut out, &s5);
        } else {
            let s5 = chars_of(" ok, ");
            push_all(&mut out, &s5);
            push_decimal(&mut out, self.failed as u64);
            let s6 = chars_of(" failed)");
            push_all(&mut out, &s6);
        }
        assert(out@ =~= report_text(
            self.label_view(),
            self.total_view(),
            self.succeeded_view(),
            self.failed_view(),
            elapsed@,
            if self.durations_view().len() == 0 {
                "-"@
            } else {
                avg@
            },
        ));
        string_of(&out)
    }
}

/// `── label ──`, then the number of strings, the time, the average, and how
/// many succeeded and failed.
pub open spec fn report_text(
    label: Seq<char>,
    total: nat,
    succeeded: nat,
    failed: nat,
    elapsed: Seq<char>,
    avg: Seq<char>,
) -> Seq<char> {
    "── "@ + label + " ──\n  "@ + decimal(total) + (if total == 1 {
        " string in "@
    } else {
        " strings in "@
    }) + elapsed + " (avg "@ + avg + ", "@ + decimal(succeeded) + if failed == 0 {
        " ok)"@
    } else {
        " ok, "@ + decimal(failed) + " failed)"@
    }
}


/// A call that counts: `record_ok`, `record_ok_batch` with its count, or
/// `record_fail`.
pub enum Recorded {
    Translated,
    Batch(nat),
    Failed,
}

/// What the call `r` does to the counts of `a`, giving `b`, as the
/// contracts of the `record_*` methods state it.
pub open spec fn recorded(a: TranslationStats, b: TranslationStats, r: Recorded) -> bool {
    &&& b.label_view() == a.label_view()
    &&& b.total_view() == a.total_view()
    &&& match r {
        Recorded::Translated => {
            &&& b.succeeded_view() == a.succeeded_view() + 1
            &&& b.failed_view() == a.failed_view()
            &&& b.durations_view().len() == a.durations_view().len() + 1
        },
        Recorded::Batch(n) => {
            &&& b.succeeded_view() == a.succeeded_view() + n
            &&& b.failed_view() == a.failed_view()
            &&& b.durations_view().len() == a.durations_view().len()
        },
        Recorded::Failed => {
            &&& b.succeeded_view() == a.succeeded_view()
            &&& b.failed_view() == a.failed_view() + 1
            &&& b.durations_view().len() == a.durations_view().len()
        },
    }
}

/// The strings that the calls `rs` count as translated, those they count as
/// failed, and whether one of them was timed on its own.
pub open spec fn counted(rs: Seq<Recorded>) -> (nat, nat, bool)
    decreases rs.len(),
{
    if rs.len() == 0 {
        (0, 0, false)
    } else {
        let (k, f, t) = counted(rs.drop_last());
        match rs.last() {
            Recorded::Translated => (k + 1, f, true),
            Recorded::Batch(n) => (k + n, f, t),
            Recorded::Failed => (k, f + 1, t),
        }
    }
}

/// The counts at the end of a run are what its calls counted.
proof fn lemma_run_counts(run: Seq<TranslationStats>, rs: Seq<Recorded>)
    requires
        run.len() == rs.len() + 1,
        run[0].succeeded_view() == 0,
        run[0].failed_view() == 0,
        run[0].durations_view().len() == 0,
        forall|i: int| 0 <= i < rs.len() ==> recorded(#[trigger] run[i], run[i + 1], rs[i]),
    ensures
        run.last().succeeded_view() == counted(rs).0,
        run.last().failed_view() == counted(rs).1,
        (run.last().durations_view().len() > 0) == counted(rs).2,
        run.last().label_view() == run[0].label_view(),
        run.last().total_view() == run[0].total_view(),
    decreases rs.len(),
{
    if rs.len() > 0 {
        let n = rs.len() - 1;
        let pre = run.drop_last();
        assert forall|i: int| 0 <= i < rs.drop_last().len() implies recorded(
            #[trigger] pre[i],
            pre[i + 1],
            rs.drop_last()[i],
        ) by {
            assert(recorded(run[i], run[i + 1], rs[i]));
        }
        lemma_run_counts(pre, rs.drop_last());
        assert(recorded(run[n], run[n + 1], rs[n]));
        assert(pre.last() == run[n]);
    }
}

/// A run's report shows what its calls counted: after `new(label, total)`
/// and the calls `rs` (the states in between being `run`), the report
/// names the label and the total, counts the successes and the failures of
/// `rs`, and shows `-` for the average when no string was timed on its own.
pub proof fn law_report_counts(
    run: Seq<TranslationStats>,
    rs: Seq<Recorded>,
    label: Seq<char>,
    total: nat,
    elapsed: Seq<char>,
    avg: Seq<char>,
)
    requires
        run.len() == rs.len() + 1,
        run[0].label_view() == label,
        run[0].total_view() == total,
        run[0].succeeded_view() == 0,
        run[0].failed_view() == 0,
        run[0].durations_view().len() == 0,
        forall|i: int| 0 <= i < rs.len() ==> recorded(#[trigger] run[i], run[i + 1], rs[i]),
    ensures
        run.last().succeeded_view() == counted(rs).0,
        run.last().failed_view() == counted(rs).1,
        (run.last().durations_view().len() > 0) == counted(rs).2,
        report_text(
            run.last().label_view(),
            run.last().total_view(),
            run.last().succeeded_view(),
            run.last().failed_view(),
            elapsed,
            if run.last().durations_view().len() == 0 {
                "-"@
            } else {
                avg
            },
        ) == report_text(
            label,
            total,
            counted(rs).0,
            counted(rs).1,
            elapsed,
            if counted(rs).2 {
                avg
            } else {
                "-"@
            },
        ),
{
    lemma_run_counts(run, rs);
}

} // verus!
