//! How a sweep runs: which of its sources are still to be done, what each result adds to its
//! tally, and when it has succeeded.

use crate::report::CompletedSources;
use crate::sweep::{is_systemic_youtube_auth_error, systemic_auth_error};
use crate::text;
use vstd::prelude::*;

verus! {

/// The sources that are still to be done, each with its position.
pub open spec fn pending(urls: Seq<Seq<char>>, done: Set<Seq<char>>) -> Seq<(nat, Seq<char>)>
    decreases urls.len(),
{
    if urls.len() == 0 {
        Seq::empty()
    } else {
        let before = pending(urls.drop_last(), done);
        if done.contains(urls.last()) {
            before
        } else {
            before.push(((urls.len() - 1) as nat, urls.last()))
        }
    }
}

/// The values of a list of sources with their positions.
pub open spec fn positions(sources: Seq<(usize, String)>) -> Seq<(nat, Seq<char>)> {
    sources.map_values(|source: (usize, String)| (source.0 as nat, source.1@))
}

/// What has become of the sources of a sweep so far.
#[derive(Debug, Clone, Copy, PartialEq, Eq, Structural)]
pub struct SweepTally {
    /// The number of sources.
    pub total: usize,
    /// The sources that were completed before the sweep.
    pub skipped: usize,
    /// The sources that the sweep has transcribed.
    pub completed: usize,
    /// The sources that the sweep has failed on.
    pub failed: usize,
    /// The words of the transcripts.
    pub transcript_words: usize,
}

impl SweepTally {
    /// The number of sources with a result.
    pub open spec fn settled(self) -> int {
        self.skipped + self.completed + self.failed
    }

    /// No more sources have a result than there are.
    pub open spec fn well_formed(self) -> bool {
        self.settled() <= self.total
    }
}

/// The plan of a sweep.
#[derive(Debug)]
pub struct SweepPlan {
    pub pending: Vec<(usize, String)>,
    pub tally: SweepTally,
}

/// Plans a sweep: the sources that are completed are skipped, the others are pending in their
/// order.
pub fn plan_sweep(urls: &Vec<String>, completed: &CompletedSources) -> (plan: SweepPlan)
    ensures
        positions(plan.pending@) == pending(text::texts(urls@), completed@),
        plan.tally == (SweepTally {
            total: urls@.len() as usize,
            skipped: (urls@.len() - plan.pending@.len()) as usize,
            completed: 0,
            failed: 0,
            transcript_words: 0,
        }),
        plan.pending@.len() <= urls@.len(),
        plan.tally.well_formed(),
        plan.tally.settled() + plan.pending@.len() == plan.tally.total,
{
    let ghost all = text::texts(urls@);
    let mut sources: Vec<(usize, String)> = Vec::new();
    let mut skipped: usize = 0;
    assert(positions(sources@) =~= pending(all.take(0), completed@));
    for i in 0..urls.len()
        invariant
            all == text::texts(urls@),
            positions(sources@) == pending(all.take(i as int), completed@),
            skipped + sources@.len() == i,
    {
        assert(all[i as int] == urls@[i as int]@);
        assert(all.take(i + 1).drop_last() =~= all.take(i as int));
        if completed.contains(urls[i].as_str()) {
            skipped = skipped + 1;
        } else {
            let ghost before = sources@;
            let url = urls[i].clone();
            sources.push((i, url));
            assert(positions(sources@) =~= positions(before).push((i as nat, url@)));
        }
    }
    assert(all.take(all.len() as int) =~= all);
    SweepPlan {
        pending: sources,
        tally: SweepTally {
            total: urls.len(),
            skipped,
            completed: 0,
            failed: 0,
            transcript_words: 0,
        },
    }
}

/// What a sweep does about a source that it failed on.
#[derive(Debug, Clone, Copy, PartialEq, Eq, Structural)]
pub enum FailureAction {
    /// It stops with the error.
    Stop,
    /// It reports the error and then stops, since every other source would fail as well.
    ReportAndStop,
    /// It reports the error and goes on.
    ReportAndContinue,
}

/// What a sweep does about a failure.
pub open spec fn failure_action(error: Seq<char>, continue_on_error: bool) -> FailureAction {
    if !continue_on_error {
        FailureAction::Stop
    } else if systemic_auth_error(error) {
        FailureAction::ReportAndStop
    } else {
        FailureAction::ReportAndContinue
    }
}

impl SweepTally {
    /// Adds a transcribed source.
    pub fn add_success(&mut self, words: usize)
        requires
            old(self).settled() < old(self).total,
            old(self).transcript_words + words <= usize::MAX,
        ensures
            *final(self) == (SweepTally {
                completed: (old(self).completed + 1) as usize,
                transcript_words: (old(self).transcript_words + words) as usize,
                ..*old(self)
            }),
            final(self).well_formed(),
            final(self).settled() == old(self).settled() + 1,
    {
        self.completed = self.completed + 1;
        self.transcript_words = self.transcript_words + words;
    }

    /// Adds a source that the sweep failed on, and decides what it does about it.
    pub fn add_failure(&mut self, error: &str, continue_on_error: bool) -> (action: FailureAction)
        requires
            old(self).settled() < old(self).total,
        ensures
            action == failure_action(error@, continue_on_error),
            systemic_auth_error(error@) ==> !(action is ReportAndContinue),
            action is Stop <==> !continue_on_error,
            action is ReportAndContinue <==> (continue_on_error && !text::contains(
                error@,
                "Sign in to confirm you’re not a bot"@,
            ) && !text::contains(error@, "Sign in to confirm you're not a bot"@) && !text::contains(
                error@,
                "cannot decrypt v10 cookies"@,
            ) && !text::contains(error@, "find-generic-password failed"@)),
            action is Stop ==> *final(self) == *old(self),
            !(action is Stop) ==> *final(self) == (SweepTally {
                failed: (old(self).failed + 1) as usize,
                ..*old(self)
            }),
            final(self).well_formed(),
    {
        if !continue_on_error {
            return FailureAction::Stop;
        }
        self.failed = self.failed + 1;
        if is_systemic_youtube_auth_error(error) {
            FailureAction::ReportAndStop
        } else {
            FailureAction::ReportAndContinue
        }
    }

    /// Whether a sweep that has come to its end has succeeded; if not, how many sources it
    /// failed on.
    pub fn finish(&self) -> (result: Result<(), usize>)
        requires
            self.settled() == self.total,
        ensures
            match result {
                Ok(_) => self.failed == 0,
                Err(failed) => failed == self.failed && failed > 0,
            },
    {
        if self.failed == 0 {
            Ok(())
        } else {
            Err(self.failed)
        }
    }
}

/// Every source is either completed already or pending: a pending source is one of the sweep's
/// at its position and is not completed, and every source that is not completed is pending.
pub proof fn law_pending_is_what_is_not_completed(urls: Seq<Seq<char>>, done: Set<Seq<char>>)
    ensures
        pending(urls, done).len() <= urls.len(),
        forall|i: int|
            0 <= i < pending(urls, done).len() ==> {
                let source = #[trigger] pending(urls, done)[i];
                &&& source.0 < urls.len()
                &&& urls[source.0 as int] == source.1
                &&& !done.contains(source.1)
            },
        forall|at: int|
            0 <= at < urls.len() && !done.contains(#[trigger] urls[at]) ==> pending(
                urls,
                done,
            ).contains((at as nat, urls[at])),
    decreases urls.len(),
{
    if urls.len() > 0 {
        let shorter = urls.drop_last();
        law_pending_is_what_is_not_completed(shorter, done);
        let before = pending(shorter, done);
        let all = pending(urls, done);
        assert forall|i: int| 0 <= i < all.len() implies {
            let source = #[trigger] all[i];
            &&& source.0 < urls.len()
            &&& urls[source.0 as int] == source.1
            &&& !done.contains(source.1)
        } by {
            if i < before.len() {
                assert(all[i] == before[i]);
                assert(shorter[before[i].0 as int] == urls[before[i].0 as int]);
            }
        }
        assert forall|at: int| 0 <= at < urls.len() && !done.contains(
            #[trigger] urls[at],
        ) implies all.contains((at as nat, urls[at])) by {
            if at < shorter.len() {
                assert(shorter[at] == urls[at]);
                assert(before.contains((at as nat, urls[at])));
                let found = choose|i: int|
                    0 <= i < before.len() && before[i] == (at as nat, urls[at]);
                assert(all[found] == (at as nat, urls[at]));
            } else {
                assert(all[all.len() - 1] == (at as nat, urls[at]));
            }
        }
    }
}

/// The pending sources stand in their order: of two of them, the earlier one has the lower
/// position, so none is done twice.
pub proof fn law_pending_is_in_order(
    urls: Seq<Seq<char>>,
    done: Set<Seq<char>>,
    first: int,
    second: int,
)
    requires
        0 <= first < second < pending(urls, done).len(),
    ensures
        pending(urls, done)[first].0 < pending(urls, done)[second].0,
    decreases urls.len(),
{
    let shorter = urls.drop_last();
    let before = pending(shorter, done);
    law_pending_is_what_is_not_completed(shorter, done);
    if second < before.len() {
        law_pending_is_in_order(shorter, done, first, second);
    } else {
        assert(before[first].0 < shorter.len());
    }
}

/// A source that is completed is not done again, and completing one more leaves the others
/// pending: what is left is what was pending, without that source.
pub proof fn law_resumed_sweep_does_the_rest(
    urls: Seq<Seq<char>>,
    done: Set<Seq<char>>,
    url: Seq<char>,
)
    ensures
        pending(urls, done.insert(url)) == pending(urls, done).filter(
            |source: (nat, Seq<char>)| source.1 != url,
        ),
    decreases urls.len(),
{
    let others = |source: (nat, Seq<char>)| source.1 != url;
    reveal(Seq::filter);
    if urls.len() > 0 {
        let before = pending(urls.drop_last(), done);
        law_resumed_sweep_does_the_rest(urls.drop_last(), done, url);
        if !done.contains(urls.last()) {
            let all = pending(urls, done);
            assert(all.drop_last() =~= before);
        }
    }
}

/// The tally after results, where `true` is a transcribed source and `false` one that the
/// sweep failed on and went on after.
pub open spec fn after_results(tally: SweepTally, results: Seq<bool>) -> SweepTally
    decreases results.len(),
{
    if results.len() == 0 {
        tally
    } else {
        let before = after_results(tally, results.drop_last());
        if results.last() {
            SweepTally { completed: (before.completed + 1) as usize, ..before }
        } else {
            SweepTally { failed: (before.failed + 1) as usize, ..before }
        }
    }
}

/// A sweep that goes on after errors accounts for every source: once each pending source has
/// its result, those skipped, transcribed and failed on make up the sources of the sweep, and
/// the sweep has succeeded exactly if it failed on none.
pub proof fn law_sweep_accounts_for_every_source(tally: SweepTally, results: Seq<bool>)
    requires
        tally.completed == 0,
        tally.failed == 0,
        tally.settled() + results.len() <= tally.total,
    ensures
        after_results(tally, results).settled() == tally.settled() + results.len(),
        after_results(tally, results).total == tally.total,
        after_results(tally, results).skipped == tally.skipped,
        after_results(tally, results).failed == 0 <==> forall|i: int|
            0 <= i < results.len() ==> #[trigger] results[i],
    decreases results.len(),
{
    if results.len() > 0 {
        let shorter = results.drop_last();
        law_sweep_accounts_for_every_source(tally, shorter);
        assert(forall|i: int| 0 <= i < shorter.len() ==> shorter[i] == #[trigger] results[i]);
        assert(results.last() == results[results.len() - 1]);
        if forall|i: int| 0 <= i < shorter.len() ==> #[trigger] shorter[i] {
            if results.last() {
                assert forall|i: int| 0 <= i < results.len() implies #[trigger] results[i] by {
                    if i < shorter.len() {
                        assert(shorter[i]);
                    }
                }
            }
        } else {
            let at = choose|i: int| 0 <= i < shorter.len() && !(#[trigger] shorter[i]);
            assert(!results[at]);
        }
    }
}

} // verus!
