//! The run-wide degradation controller: past a failure rate it narrows what is checked.
use vstd::prelude::*;
use crate::extractor::{CodeExample, Profile};
use crate::text::{chars_of, count_matches, count_of, lines, split_lines, views};

verus! {

/// A way to narrow a run while failures are frequent.
#[derive(Debug, Clone, Copy, PartialEq, Eq, Structural)]
pub enum DegradationStrategy {
    /// Skip fragments whose complexity score is high.
    SkipComplexExamples,
    /// Do not compile hardware fragments.
    DisableHardwareTesting,
    /// Check syntax only.
    SyntaxOnlyValidation,
    /// Shorten the compilation limit.
    ReduceTimeout,
    /// Leave embedded targets out.
    SkipEmbeddedTargets,
}

/// The weighted count of constructs that make code hard to compile in isolation.
pub open spec fn complexity_score(code: Seq<char>) -> nat {
    count_matches(code, "unsafe"@) * 3 + count_matches(code, "impl"@) * 2 + count_matches(code, "trait"@) * 2
        + count_matches(code, "macro_rules!"@) * 3 + count_matches(code, "async"@) * 2 + count_matches(
        code,
        "await"@,
    ) * 2
}

/// Code whose complexity score is over five, or that runs over fifty lines.
pub open spec fn is_complex(code: Seq<char>) -> bool {
    complexity_score(code) > 5 || lines(code).len() > 50
}

/// The first strategy of `strategies` that applies to a fragment in degraded mode.
pub open spec fn first_strategy(strategies: Seq<DegradationStrategy>, code: Seq<char>, profile: Profile) -> Option<
    DegradationStrategy,
>
    decreases strategies.len(),
{
    if strategies.len() == 0 {
        None
    } else {
        let s = strategies[0];
        if (s == DegradationStrategy::SkipComplexExamples && is_complex(code)) || (s
            == DegradationStrategy::DisableHardwareTesting && profile is Hardware) || s
            == DegradationStrategy::SyntaxOnlyValidation {
            Some(s)
        } else {
            first_strategy(strategies.drop_first(), code, profile)
        }
    }
}

/// Tracks the failure rate of a run; enters degraded mode above a threshold and leaves it
/// below half of it.
#[derive(Debug, Clone)]
pub struct GracefulDegradationManager {
    /// The threshold, in percent.
    failure_threshold: u8,
    /// Successes in the last observation.
    last_successful: u64,
    /// Attempts in the last observation; zero before any.
    last_total: u64,
    degraded_mode: bool,
    degradation_strategies: Vec<DegradationStrategy>,
}

/// A failure rate `(total - successful) / total` is above `pct` percent.
pub open spec fn rate_above(successful: int, total: int, pct: int) -> bool {
    (total - successful) * 100 > pct * total
}

/// A failure rate is below half of `pct` percent.
pub open spec fn rate_below_half(successful: int, total: int, pct: int) -> bool {
    (total - successful) * 200 < pct * total
}

impl GracefulDegradationManager {
    pub closed spec fn threshold(&self) -> int {
        self.failure_threshold as int
    }

    pub closed spec fn degraded(&self) -> bool {
        self.degraded_mode
    }

    pub closed spec fn strategies(&self) -> Seq<DegradationStrategy> {
        self.degradation_strategies@
    }

    /// The counts of the last observation with attempts: successes and attempts.
    pub closed spec fn observed(&self) -> (int, int) {
        (self.last_successful as int, self.last_total as int)
    }

    /// A controller with a fifty percent threshold, not degraded, whose strategies are to skip
    /// complex fragments, then to disable hardware fragments, then to check syntax only.
    pub fn new() -> (r: GracefulDegradationManager)
        ensures
            r.threshold() == 50,
            !r.degraded(),
            r.strategies() == seq![
                DegradationStrategy::SkipComplexExamples,
                DegradationStrategy::DisableHardwareTesting,
                DegradationStrategy::SyntaxOnlyValidation,
            ],
            r.observed() == (0int, 0int),
    {
        let v = vec![
            DegradationStrategy::SkipComplexExamples,
            DegradationStrategy::DisableHardwareTesting,
            DegradationStrategy::SyntaxOnlyValidation,
        ];
        let r = GracefulDegradationManager {
            failure_threshold: 50,
            last_successful: 0,
            last_total: 0,
            degraded_mode: false,
            degradation_strategies: v,
        };
        assert(r.strategies() =~= seq![
            DegradationStrategy::SkipComplexExamples,
            DegradationStrategy::DisableHardwareTesting,
            DegradationStrategy::SyntaxOnlyValidation,
        ]);
        r
    }

    /// Takes in the counts of a run so far. With no attempts nothing changes. Otherwise the
    /// controller enters degraded mode when the failure rate is above the threshold, and
    /// leaves it when the rate is below half the threshold.
    pub fn update_failure_rate(&mut self, successful: usize, total: usize)
        ensures
            final(self).threshold() == old(self).threshold(),
            final(self).strategies() == old(self).strategies(),
            total == 0 ==> final(self).degraded() == old(self).degraded() && final(self).observed() == old(self).observed(),
            total > 0 ==> final(self).observed() == (successful as int, total as int),
            total > 0 ==> final(self).degraded() == if rate_above(successful as int, total as int, old(self).threshold()) {
                true
            } else if rate_below_half(successful as int, total as int, old(self).threshold()) {
                false
            } else {
                old(self).degraded()
            },
    {
        if total > 0 {
            let s = successful as i128;
            let t = total as i128;
            let pct = self.failure_threshold as i128;
            assert(0 <= pct * t <= 255 * 0xffff_ffff_ffff_ffff) by (nonlinear_arith)
                requires
                    0 <= pct <= 255,
                    0 <= t <= 0xffff_ffff_ffff_ffff,
            ;
            self.last_successful = successful as u64;
            self.last_total = total as u64;
            if (t - s) * 100 > pct * t {
                self.degraded_mode = true;
            } else if (t - s) * 200 < pct * t {
                self.degraded_mode = false;
            }
        }
    }

    /// Whether the controller is in degraded mode.
    pub fn is_degraded(&self) -> (r: bool)
        ensures
            r == self.degraded(),
    {
        self.degraded_mode
    }

    /// The last observed failure rate in hundredths of a percent, rounded down; zero before
    /// any attempt and where more successes than attempts were reported.
    pub fn failure_rate_basis_points(&self) -> (r: u64)
        ensures
            r <= 10000,
            ({
                let (s, t) = self.observed();
                r == if t == 0 || s > t {
                    0
                } else {
                    ((t - s) * 10000) / t
                }
            }),
    {
        if self.last_total == 0 || self.last_successful > self.last_total {
            0
        } else {
            let f = (self.last_total - self.last_successful) as u128;
            let t = self.last_total as u128;
            let q = (f * 10000) / t;
            assert(q <= 10000) by (nonlinear_arith)
                requires
                    q as int == (f as int * 10000) / (t as int),
                    f <= t,
                    t > 0,
            ;
            q as u64
        }
    }

    /// Whether `example` is complex enough to skip.
    pub fn is_complex_example(&self, example: &CodeExample) -> (r: bool)
        ensures
            r == is_complex(example.code@),
    {
        let c = chars_of(example.code.as_str());
        let u = count_of(&c, "unsafe") as u128;
        let i = count_of(&c, "impl") as u128;
        let t = count_of(&c, "trait") as u128;
        let m = count_of(&c, "macro_rules!") as u128;
        let a = count_of(&c, "async") as u128;
        let w = count_of(&c, "await") as u128;
        let score = u * 3 + i * 2 + t * 2 + m * 3 + a * 2 + w * 2;
        let ls = split_lines(&c);
        proof {
            assert(ls@.len() == views(ls@).len());
        }
        score > 5 || ls.len() > 50
    }

    /// In degraded mode, the first strategy that applies to `example`; `None` otherwise.
    pub fn should_degrade_example(&self, example: &CodeExample) -> (r: Option<DegradationStrategy>)
        ensures
            !self.degraded() ==> r is None,
            self.degraded() ==> r == first_strategy(self.strategies(), example.code@, example.context@),
    {
        if !self.degraded_mode {
            return None;
        }
        let ghost all = self.degradation_strategies@;
        let mut i: usize = 0;
        assert(all.subrange(0, all.len() as int) =~= all);
        while i < self.degradation_strategies.len()
            invariant
                i <= all.len(),
                all == self.degradation_strategies@,
                self.degraded(),
                first_strategy(all, example.code@, example.context@) == first_strategy(
                    all.subrange(i as int, all.len() as int),
                    example.code@,
                    example.context@,
                ),
            decreases all.len() - i,
        {
            let s = self.degradation_strategies[i];
            let ghost rest = all.subrange(i as int, all.len() as int);
            assert(rest[0] == s);
            assert(rest.drop_first() =~= all.subrange(i + 1, all.len() as int));
            match s {
                DegradationStrategy::SkipComplexExamples => {
                    if self.is_complex_example(example) {
                        return Some(s);
                    }
                },
                DegradationStrategy::DisableHardwareTesting => {
                    if matches!(example.context, crate::extractor::ExampleContext::Hardware { .. }) {
                        return Some(s);
                    }
                },
                DegradationStrategy::SyntaxOnlyValidation => {
                    return Some(s);
                },
                _ => {},
            }
            i = i + 1;
        }
        None
    }
}


impl Default for GracefulDegradationManager {
    fn default() -> (r: GracefulDegradationManager)
        ensures
            r.threshold() == 50,
            !r.degraded(),
            r.strategies() == seq![
                DegradationStrategy::SkipComplexExamples,
                DegradationStrategy::DisableHardwareTesting,
                DegradationStrategy::SyntaxOnlyValidation,
            ],
            r.observed() == (0int, 0int),
    {
        GracefulDegradationManager::new()
    }
}

} // verus!
