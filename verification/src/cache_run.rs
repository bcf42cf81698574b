//! How the cache process runs: what it starts with, what each job adds to its tally, and when
//! it has succeeded.

use crate::sweep::systemic_auth_error;
use crate::text::{self, contains_text};
use vstd::prelude::*;

verus! {

/// Why the cache process does not start.
#[derive(Debug, Clone, Copy, PartialEq, Eq, Structural)]
pub enum CacheRunError {
    /// No job may run at a time.
    NoConcurrency,
    /// There is nothing to cache.
    NoUrls,
}

impl CacheRunError {
    /// What the error says.
    pub open spec fn spec_message(self) -> Seq<char> {
        match self {
            CacheRunError::NoConcurrency => "cache concurrency must be positive"@,
            CacheRunError::NoUrls => "source manifest contains no URLs"@,
        }
    }

    /// What the error says.
    pub fn message(&self) -> (message: String)
        ensures
            message@ == self.spec_message(),
    {
        match self {
            CacheRunError::NoConcurrency => "cache concurrency must be positive".to_owned(),
            CacheRunError::NoUrls => "source manifest contains no URLs".to_owned(),
        }
    }
}

/// Checks how many jobs may run at a time.
pub fn check_concurrency(concurrency: usize) -> (checked: Result<(), CacheRunError>)
    ensures
        concurrency > 0 ==> checked == Ok::<(), CacheRunError>(()),
        concurrency == 0 ==> checked == Err::<(), CacheRunError>(CacheRunError::NoConcurrency),
{
    if concurrency > 0 {
        Ok(())
    } else {
        Err(CacheRunError::NoConcurrency)
    }
}

/// Whether an error tells that every job will fail, because the session is not authenticated.
pub open spec fn systemic_cache_error(error: Seq<char>) -> bool {
    ||| text::contains(error, "Sign in to confirm you’re not a bot"@)
    ||| text::contains(error, "Sign in to confirm you're not a bot"@)
}

/// Whether an error tells that every job will fail.
pub fn is_systemic_youtube_auth_error(error: &str) -> (found: bool)
    ensures
        found == systemic_cache_error(error@),
        found <==> (text::contains(error@, "Sign in to confirm you’re not a bot"@)
            || text::contains(error@, "Sign in to confirm you're not a bot"@)),
{
    contains_text(error, "Sign in to confirm you’re not a bot") || contains_text(
        error,
        "Sign in to confirm you're not a bot",
    )
}

/// An error that stops the cache process stops a sweep as well.
pub proof fn law_cache_error_is_sweep_error(error: Seq<char>)
    requires
        systemic_cache_error(error),
    ensures
        systemic_auth_error(error),
{
}

/// What has become of the jobs of the cache process so far.
#[derive(Debug, Clone, Copy, PartialEq, Eq, Structural)]
pub struct CacheTally {
    /// The number of sources.
    pub total: usize,
    /// The sources that are in the cache.
    pub ready: usize,
    /// Those of them that were there before.
    pub reused: usize,
    /// The sources that could not be cached.
    pub failed: usize,
}

/// What the cache process does about a job that failed.
#[derive(Debug, Clone, Copy, PartialEq, Eq, Structural)]
pub enum JobFailureAction {
    /// It stops, since every other job would fail as well.
    Stop,
    /// It goes on.
    Continue,
}

impl CacheTally {
    /// No more jobs have a result than there are, and no more sources were there before than
    /// there are now.
    pub open spec fn well_formed(self) -> bool {
        &&& self.ready + self.failed <= self.total
        &&& self.reused <= self.ready
    }

    /// The tally of sources before the first job.
    pub fn new(sources: usize) -> (tally: Result<CacheTally, CacheRunError>)
        ensures
            sources == 0 ==> tally == Err::<CacheTally, CacheRunError>(CacheRunError::NoUrls),
            sources > 0 ==> tally == Ok::<CacheTally, CacheRunError>(
                CacheTally { total: sources, ready: 0, reused: 0, failed: 0 },
            ),
    {
        if sources == 0 {
            Err(CacheRunError::NoUrls)
        } else {
            Ok(CacheTally { total: sources, ready: 0, reused: 0, failed: 0 })
        }
    }

    /// Adds a source that is in the cache.
    pub fn add_ready(&mut self, reused: bool)
        requires
            old(self).well_formed(),
            old(self).ready + old(self).failed < old(self).total,
        ensures
            *final(self) == (CacheTally {
                ready: (old(self).ready + 1) as usize,
                reused: if reused {
                    (old(self).reused + 1) as usize
                } else {
                    old(self).reused
                },
                ..*old(self)
            }),
            final(self).well_formed(),
    {
        self.ready = self.ready + 1;
        if reused {
            self.reused = self.reused + 1;
        }
    }

    /// Adds a source that could not be cached, and decides how the process goes on.
    pub fn add_failure(&mut self, error: &str) -> (action: JobFailureAction)
        requires
            old(self).well_formed(),
            old(self).ready + old(self).failed < old(self).total,
        ensures
            *final(self) == (CacheTally {
                failed: (old(self).failed + 1) as usize,
                ..*old(self)
            }),
            action == (if systemic_cache_error(error@) {
                JobFailureAction::Stop
            } else {
                JobFailureAction::Continue
            }),
            action is Continue <==> (!text::contains(
                error@,
                "Sign in to confirm you’re not a bot"@,
            ) && !text::contains(error@, "Sign in to confirm you're not a bot"@)),
            final(self).well_formed(),
    {
        self.failed = self.failed + 1;
        if is_systemic_youtube_auth_error(error) {
            JobFailureAction::Stop
        } else {
            JobFailureAction::Continue
        }
    }

    /// Whether a process that has come to its end has succeeded; if not, how many jobs failed.
    pub fn finish(&self) -> (result: Result<(), usize>)
        ensures
            match result {
                Ok(_) => self.failed == 0,
                Err(failed) => failed == self.failed && failed > 0,
            },
    {
        if self.failed == 0 {
            Ok(())
        } else {
            Err(self.failed)
        }
    }
}

} // verus!
