//! Build configurations, compilation results and the run report.
use vstd::prelude::*;
use crate::text::{chars_of, decimal, digit, equals, owned, push_all, push_decimal, push_str, string_of};

verus! {

/// A compilation failure, by kind.
#[derive(Debug, Clone)]
pub enum CompilationError {
    SyntaxError { message: String, line: Option<usize>, column: Option<usize> },
    DependencyError { missing: Vec<String> },
    FeatureError { unsupported: Vec<String> },
    TargetError { incompatible_target: String, reason: String },
    /// The limit that was exceeded, in milliseconds.
    TimeoutError { duration: u64 },
    CompilationFailed { exit_code: i32, message: String },
    IoError { message: String },
}

/// The names of `s` separated by `sep`.
pub open spec fn join_with(s: Seq<Seq<char>>, sep: Seq<char>) -> Seq<char>
    decreases s.len(),
{
    if s.len() == 0 {
        Seq::empty()
    } else if s.len() == 1 {
        s[0]
    } else {
        join_with(s.drop_last(), sep) + sep + s.last()
    }
}

/// Appends the strings of `items`, separated by `sep`.
pub fn push_joined(out: &mut Vec<char>, items: &Vec<String>, sep: &str)
    ensures
        final(out)@ == old(out)@ + join_with(items.deep_view(), sep@),
{
    let ghost base = out@;
    let ghost all = items.deep_view();
    let mut i: usize = 0;
    assert(all.subrange(0, 0) =~= Seq::<Seq<char>>::empty());
    assert(base =~= base + join_with(all.subrange(0, 0), sep@));
    while i < items.len()
        invariant
            i <= items.len(),
            all == items.deep_view(),
            out@ == base + join_with(all.subrange(0, i as int), sep@),
        decreases items.len() - i,
    {
        let ghost sub = all.subrange(0, i as int + 1);
        assert(sub.drop_last() =~= all.subrange(0, i as int));
        if i > 0 {
            push_str(out, sep);
        } else {
            assert(sub =~= seq![all[0]]);
        }
        let c = chars_of(items[i].as_str());
        push_all(out, &c);
        i = i + 1;
        assert(out@ =~= base + join_with(all.subrange(0, i as int), sep@));
    }
    assert(all.subrange(0, all.len() as int) =~= all);
}

/// The decimal text of a signed number.
pub open spec fn signed_text(n: int) -> Seq<char> {
    if n < 0 {
        "-"@ + decimal((-n) as nat)
    } else {
        decimal(n as nat)
    }
}

/// The fractional digits of `f` thousandths, without trailing zeros.
pub open spec fn thousandths_text(f: nat) -> Seq<char> {
    if f % 100 == 0 {
        seq![digit(f / 100)]
    } else if f % 10 == 0 {
        seq![digit(f / 100), digit((f / 10) % 10)]
    } else {
        seq![digit(f / 100), digit((f / 10) % 10), digit(f % 10)]
    }
}

/// A duration of `ms` milliseconds written as seconds or milliseconds.
pub open spec fn duration_text(ms: nat) -> Seq<char> {
    if ms == 0 {
        "0ns"@
    } else if ms < 1000 {
        decimal(ms) + "ms"@
    } else if ms % 1000 == 0 {
        decimal(ms / 1000) + "s"@
    } else {
        decimal(ms / 1000) + "."@ + thousandths_text(ms % 1000) + "s"@
    }
}

pub fn push_duration(out: &mut Vec<char>, ms: u64)
    ensures
        final(out)@ == old(out)@ + duration_text(ms as nat),
{
    let ghost base = out@;
    if ms == 0 {
        push_str(out, "0ns");
    } else if ms < 1000 {
        push_decimal(out, ms);
        push_str(out, "ms");
    } else if ms % 1000 == 0 {
        push_decimal(out, ms / 1000);
        push_str(out, "s");
    } else {
        push_decimal(out, ms / 1000);
        push_str(out, ".");
        let f = ms % 1000;
        let ghost mid = out@;
        assert(decimal((f / 100) as nat) == seq![digit((f / 100) as nat)]);
        assert(decimal(((f / 10) % 10) as nat) == seq![digit(((f / 10) % 10) as nat)]);
        assert(decimal((f % 10) as nat) == seq![digit((f % 10) as nat)]);
        if f % 100 == 0 {
            push_decimal(out, f / 100);
        } else if f % 10 == 0 {
            push_decimal(out, f / 100);
            push_decimal(out, (f / 10) % 10);
        } else {
            push_decimal(out, f / 100);
            push_decimal(out, (f / 10) % 10);
            push_decimal(out, f % 10);
        }
        assert(out@ =~= mid + thousandths_text(f as nat));
        push_str(out, "s");
    }
    assert(out@ =~= base + duration_text(ms as nat));
}

pub fn push_signed(out: &mut Vec<char>, n: i32)
    ensures
        final(out)@ == old(out)@ + signed_text(n as int),
{
    let ghost base = out@;
    if n < 0 {
        push_str(out, "-");
        let m: i64 = -(n as i64);
        push_decimal(out, m as u64);
    } else {
        push_decimal(out, n as u64);
    }
    assert(out@ =~= base + signed_text(n as int));
}

/// The text that describes a compilation failure.
pub open spec fn error_text(e: CompilationError) -> Seq<char> {
    match e {
        CompilationError::SyntaxError { message, line, column } => "Syntax error"@ + match line {
            Some(l) => " at line "@ + decimal(l as nat) + match column {
                Some(c) => ", column "@ + decimal(c as nat),
                None => Seq::empty(),
            },
            None => Seq::empty(),
        } + ": "@ + message@,
        CompilationError::DependencyError { missing } => "Missing dependencies: "@ + join_with(
            missing.deep_view(),
            ", "@,
        ),
        CompilationError::FeatureError { unsupported } => "Unsupported features: "@ + join_with(
            unsupported.deep_view(),
            ", "@,
        ),
        CompilationError::TargetError { incompatible_target, reason } => "Target '"@ + incompatible_target@
            + "' incompatible: "@ + reason@,
        CompilationError::TimeoutError { duration } => "Compilation timeout after "@ + duration_text(
            duration as nat,
        ),
        CompilationError::CompilationFailed { exit_code, message } => "Compilation failed (exit code "@
            + signed_text(exit_code as int) + "): "@ + message@,
        CompilationError::IoError { message } => "IO error: "@ + message@,
    }
}

impl CompilationError {
    /// A one-line description of the failure.
    pub fn message(&self) -> (r: String)
        ensures
            r@ == error_text(*self),
    {
        let mut out: Vec<char> = Vec::new();
        match self {
            CompilationError::SyntaxError { message, line, column } => {
                push_str(&mut out, "Syntax error");
                match line {
                    Some(l) => {
                        push_str(&mut out, " at line ");
                        push_decimal(&mut out, *l as u64);
                        match column {
                            Some(c) => {
                                push_str(&mut out, ", column ");
                                push_decimal(&mut out, *c as u64);
                            },
                            None => {},
                        }
                    },
                    None => {},
                }
                push_str(&mut out, ": ");
                push_str(&mut out, message.as_str());
            },
            CompilationError::DependencyError { missing } => {
                push_str(&mut out, "Missing dependencies: ");
                push_joined(&mut out, missing, ", ");
            },
            CompilationError::FeatureError { unsupported } => {
                push_str(&mut out, "Unsupported features: ");
                push_joined(&mut out, unsupported, ", ");
            },
            CompilationError::TargetError { incompatible_target, reason } => {
                push_str(&mut out, "Target '");
                push_str(&mut out, incompatible_target.as_str());
                push_str(&mut out, "' incompatible: ");
                push_str(&mut out, reason.as_str());
            },
            CompilationError::TimeoutError { duration } => {
                push_str(&mut out, "Compilation timeout after ");
                push_duration(&mut out, *duration);
            },
            CompilationError::CompilationFailed { exit_code, message } => {
                push_str(&mut out, "Compilation failed (exit code ");
                push_signed(&mut out, *exit_code);
                push_str(&mut out, "): ");
                push_str(&mut out, message.as_str());
            },
            CompilationError::IoError { message } => {
                push_str(&mut out, "IO error: ");
                push_str(&mut out, message.as_str());
            },
        }
        proof {
            assert(out@ =~= error_text(*self));
        }
        string_of(&out)
    }
}


/// How fragments are compiled: for which targets, with which features, and for how long.
#[derive(Debug, Clone)]
pub struct TestConfig {
    pub targets: Vec<String>,
    pub features: Vec<String>,
    pub no_std: bool,
    pub embedded_mode: bool,
    /// The limit on one compilation, in milliseconds.
    pub compilation_timeout: u64,
    /// The directory under which isolated build projects are made.
    pub work_dir: String,
}

/// The host target triple.
pub open spec fn host_target() -> Seq<char> {
    "x86_64-unknown-linux-gnu"@
}

/// The default limit on one compilation: thirty seconds.
pub open spec fn default_timeout() -> u64 {
    30_000
}

impl TestConfig {
    /// The default configuration: the host target, no features, a full runtime, thirty seconds.
    pub fn default_config() -> (r: TestConfig)
        ensures
            r.targets.deep_view() == seq![host_target()],
            r.features@.len() == 0,
            !r.no_std,
            !r.embedded_mode,
            r.compilation_timeout == default_timeout(),
            r.work_dir@ == "rust_example_tests"@,
            r@ == default_config_view(),
    {
        let targets = vec![owned("x86_64-unknown-linux-gnu")];
        assert(targets.deep_view() =~= seq![host_target()]);
        let r = TestConfig {
            targets,
            features: Vec::new(),
            no_std: false,
            embedded_mode: false,
            compilation_timeout: 30_000,
            work_dir: owned("rust_example_tests"),
        };
        assert(r.features.deep_view() =~= Seq::<Seq<char>>::empty());
        r
    }

    /// The configuration for embedded fragments: two Cortex-M targets and the `embedded` feature.
    pub fn embedded() -> (r: TestConfig)
        ensures
            r.targets.deep_view() == seq!["thumbv7em-none-eabihf"@, "thumbv6m-none-eabi"@],
            r.features.deep_view() == seq!["embedded"@],
            r.no_std,
            r.embedded_mode,
            r.compilation_timeout == default_timeout(),
    {
        let targets = vec![owned("thumbv7em-none-eabihf"), owned("thumbv6m-none-eabi")];
        let features = vec![owned("embedded")];
        assert(targets.deep_view() =~= seq!["thumbv7em-none-eabihf"@, "thumbv6m-none-eabi"@]);
        assert(features.deep_view() =~= seq!["embedded"@]);
        TestConfig {
            targets,
            features,
            no_std: true,
            embedded_mode: true,
            compilation_timeout: 30_000,
            work_dir: owned("rust_example_tests"),
        }
    }

    /// The configuration for cryptographic fragments: the default one with the `crypto` and
    /// `zeroize` features.
    pub fn crypto() -> (r: TestConfig)
        ensures
            r.targets.deep_view() == seq![host_target()],
            r.features.deep_view() == seq!["crypto"@, "zeroize"@],
            !r.no_std,
            !r.embedded_mode,
            r.compilation_timeout == default_timeout(),
    {
        let mut c = TestConfig::default_config();
        let features = vec![owned("crypto"), owned("zeroize")];
        assert(features.deep_view() =~= seq!["crypto"@, "zeroize"@]);
        c.features = features;
        c
    }
}

impl Default for TestConfig {
    fn default() -> (r: TestConfig)
        ensures
            r.targets.deep_view() == seq![host_target()],
            r.features@.len() == 0,
            !r.no_std,
            !r.embedded_mode,
            r.compilation_timeout == default_timeout(),
    {
        TestConfig::default_config()
    }
}

/// The outcome of compiling one fragment for one target.
#[derive(Debug, Clone)]
pub struct TestResult {
    pub example_id: String,
    pub success: bool,
    /// Milliseconds the attempt took.
    pub compilation_time: u64,
    pub target: String,
    pub error: Option<CompilationError>,
    pub warnings: Vec<String>,
    pub stdout: String,
    pub stderr: String,
}

impl TestResult {
    /// A successful attempt, with no output.
    pub fn success(example_id: String, target: String, compilation_time: u64) -> (r: TestResult)
        ensures
            r.example_id@ == example_id@,
            r.success,
            r.compilation_time == compilation_time,
            r.target@ == target@,
            r.error is None,
            r.warnings@.len() == 0,
            r.stdout@.len() == 0,
            r.stderr@.len() == 0,
    {
        TestResult {
            example_id,
            success: true,
            compilation_time,
            target,
            error: None,
            warnings: Vec::new(),
            stdout: String::new(),
            stderr: String::new(),
        }
    }

    /// A failed attempt with its error and error output.
    pub fn failure(example_id: String, target: String, compilation_time: u64, error: CompilationError, stderr: String) -> (r: TestResult)
        ensures
            r.example_id@ == example_id@,
            !r.success,
            r.compilation_time == compilation_time,
            r.target@ == target@,
            r.error == Some(error),
            r.warnings@.len() == 0,
            r.stdout@.len() == 0,
            r.stderr@ == stderr@,
    {
        TestResult {
            example_id,
            success: false,
            compilation_time,
            target,
            error: Some(error),
            warnings: Vec::new(),
            stdout: String::new(),
            stderr,
        }
    }
}

/// Counts of the recovery actions taken during a run.
#[derive(Debug, Clone, Copy, PartialEq, Eq, Structural)]
pub struct RecoveryStatistics {
    pub successful_recoveries: usize,
    pub failed_recoveries: usize,
    pub marked_as_snippets: usize,
    pub fallback_attempts: usize,
    pub feature_disabling_attempts: usize,
    pub timeout_extensions: usize,
}

impl Default for RecoveryStatistics {
    fn default() -> (r: RecoveryStatistics)
        ensures
            r.successful_recoveries == 0,
            r.failed_recoveries == 0,
            r.marked_as_snippets == 0,
            r.fallback_attempts == 0,
            r.feature_disabling_attempts == 0,
            r.timeout_extensions == 0,
    {
        RecoveryStatistics {
            successful_recoveries: 0,
            failed_recoveries: 0,
            marked_as_snippets: 0,
            fallback_attempts: 0,
            feature_disabling_attempts: 0,
            timeout_extensions: 0,
        }
    }
}

/// The results of a run, with its counts.
#[derive(Debug, Clone)]
pub struct ValidationReport {
    pub total_examples: usize,
    pub successful: usize,
    pub failed: usize,
    pub skipped: usize,
    pub snippets: usize,
    pub recovered: usize,
    pub results: Vec<TestResult>,
    /// Milliseconds spent compiling, summed over the results.
    pub total_duration: u64,
    pub recovery_stats: RecoveryStatistics,
}

impl ValidationReport {
    /// Every result is counted once, as a success, a failure, a skip or an excerpt.
    pub open spec fn counts_agree(&self) -> bool {
        self.total_examples == self.successful + self.failed + self.skipped + self.snippets
            && self.results@.len() == self.total_examples
    }

    /// An empty report.
    pub fn new() -> (r: ValidationReport)
        ensures
            r.total_examples == 0,
            r.successful == 0,
            r.failed == 0,
            r.skipped == 0,
            r.snippets == 0,
            r.recovered == 0,
            r.results@.len() == 0,
            r.total_duration == 0,
            r.recovery_stats == (RecoveryStatistics {
                successful_recoveries: 0,
                failed_recoveries: 0,
                marked_as_snippets: 0,
                fallback_attempts: 0,
                feature_disabling_attempts: 0,
                timeout_extensions: 0,
            }),
            r.counts_agree(),
    {
        ValidationReport {
            total_examples: 0,
            successful: 0,
            failed: 0,
            skipped: 0,
            snippets: 0,
            recovered: 0,
            results: Vec::new(),
            total_duration: 0,
            recovery_stats: RecoveryStatistics::default(),
        }
    }

    /// Appends a compilation result and counts it as a success or a failure.
    pub fn add_result(&mut self, result: TestResult)
        requires
            old(self).total_examples < usize::MAX,
            old(self).total_duration + result.compilation_time <= u64::MAX,
            old(self).counts_agree(),
        ensures
            final(self).total_examples == old(self).total_examples + 1,
            final(self).total_duration == old(self).total_duration + result.compilation_time,
            final(self).successful == old(self).successful + if result.success { 1int } else { 0 },
            final(self).failed == old(self).failed + if result.success { 0int } else { 1 },
            final(self).skipped == old(self).skipped,
            final(self).snippets == old(self).snippets,
            final(self).recovered == old(self).recovered,
            final(self).recovery_stats == old(self).recovery_stats,
            final(self).results@ == old(self).results@.push(result),
            final(self).counts_agree(),
    {
        self.total_examples = self.total_examples + 1;
        self.total_duration = self.total_duration + result.compilation_time;
        if result.success {
            self.successful = self.successful + 1;
        } else {
            self.failed = self.failed + 1;
        }
        self.results.push(result);
    }

    /// Records a fragment that was not compiled, with the reason.
    pub fn skip_example(&mut self, example_id: String, reason: String)
        requires
            old(self).total_examples < usize::MAX,
            old(self).counts_agree(),
        ensures
            final(self).total_examples == old(self).total_examples + 1,
            final(self).skipped == old(self).skipped + 1,
            final(self).successful == old(self).successful,
            final(self).failed == old(self).failed,
            final(self).snippets == old(self).snippets,
            final(self).recovered == old(self).recovered,
            final(self).total_duration == old(self).total_duration,
            final(self).recovery_stats == old(self).recovery_stats,
            final(self).results@.len() == old(self).results@.len() + 1,
            final(self).results@.drop_last() == old(self).results@,
            ({
                let r = final(self).results@.last();
                &&& r.example_id@ == example_id@
                &&& !r.success
                &&& r.compilation_time == 0
                &&& r.target@ == "skipped"@
                &&& r.error matches Some(CompilationError::CompilationFailed { exit_code, message })
                    && exit_code == 0 && message@ == "Skipped: "@ + reason@
            }),
            final(self).counts_agree(),
    {
        self.total_examples = self.total_examples + 1;
        self.skipped = self.skipped + 1;
        let mut m: Vec<char> = Vec::new();
        push_str(&mut m, "Skipped: ");
        push_str(&mut m, reason.as_str());
        let result = TestResult {
            example_id,
            success: false,
            compilation_time: 0,
            target: owned("skipped"),
            error: Some(CompilationError::CompilationFailed { exit_code: 0, message: string_of(&m) }),
            warnings: Vec::new(),
            stdout: String::new(),
            stderr: String::new(),
        };
        self.results.push(result);
        assert(self.results@.drop_last() =~= old(self).results@);
    }

    /// Records a fragment as an excerpt: counted, and considered successful, but not compiled.
    pub fn mark_as_snippet(&mut self, example_id: String, reason: String)
        requires
            old(self).total_examples < usize::MAX,
            old(self).counts_agree(),
        ensures
            final(self).total_examples == old(self).total_examples + 1,
            final(self).snippets == old(self).snippets + 1,
            final(self).successful == old(self).successful,
            final(self).failed == old(self).failed,
            final(self).skipped == old(self).skipped,
            final(self).recovered == old(self).recovered,
            final(self).total_duration == old(self).total_duration,
            final(self).recovery_stats == old(self).recovery_stats,
            final(self).results@.len() == old(self).results@.len() + 1,
            final(self).results@.drop_last() == old(self).results@,
            ({
                let r = final(self).results@.last();
                &&& r.example_id@ == example_id@
                &&& r.success
                &&& r.compilation_time == 0
                &&& r.target@ == "snippet"@
                &&& r.error is None
                &&& r.stdout@ == "Marked as snippet: "@ + reason@
            }),
            final(self).counts_agree(),
    {
        self.total_examples = self.total_examples + 1;
        self.snippets = self.snippets + 1;
        let mut m: Vec<char> = Vec::new();
        push_str(&mut m, "Marked as snippet: ");
        push_str(&mut m, reason.as_str());
        let result = TestResult {
            example_id,
            success: true,
            compilation_time: 0,
            target: owned("snippet"),
            error: None,
            warnings: Vec::new(),
            stdout: string_of(&m),
            stderr: String::new(),
        };
        self.results.push(result);
        assert(self.results@.drop_last() =~= old(self).results@);
    }

    /// Counts a recovery of the given kind: `snippet`, `fallback`, `feature_disable` or
    /// `timeout_extend` also count under their own heading; other kinds only in the total.
    pub fn record_recovery(&mut self, example_id: String, recovery_type: &str)
        requires
            old(self).recovered < usize::MAX,
            old(self).recovery_stats.marked_as_snippets < usize::MAX,
            old(self).recovery_stats.fallback_attempts < usize::MAX,
            old(self).recovery_stats.feature_disabling_attempts < usize::MAX,
            old(self).recovery_stats.timeout_extensions < usize::MAX,
        ensures
            final(self).recovered == old(self).recovered + 1,
            final(self).recovery_stats.marked_as_snippets == old(self).recovery_stats.marked_as_snippets
                + if recovery_type@ == "snippet"@ { 1int } else { 0 },
            final(self).recovery_stats.fallback_attempts == old(self).recovery_stats.fallback_attempts
                + if recovery_type@ == "fallback"@ { 1int } else { 0 },
            final(self).recovery_stats.feature_disabling_attempts == old(self).recovery_stats.feature_disabling_attempts
                + if recovery_type@ == "feature_disable"@ { 1int } else { 0 },
            final(self).recovery_stats.timeout_extensions == old(self).recovery_stats.timeout_extensions
                + if recovery_type@ == "timeout_extend"@ { 1int } else { 0 },
            final(self).recovery_stats.successful_recoveries == old(self).recovery_stats.successful_recoveries,
            final(self).recovery_stats.failed_recoveries == old(self).recovery_stats.failed_recoveries,
            final(self).total_examples == old(self).total_examples,
            final(self).successful == old(self).successful,
            final(self).failed == old(self).failed,
            final(self).skipped == old(self).skipped,
            final(self).snippets == old(self).snippets,
            final(self).total_duration == old(self).total_duration,
            final(self).results@ == old(self).results@,
    {
        self.recovered = self.recovered + 1;
        proof {
            reveal_strlit("snippet");
            reveal_strlit("fallback");
            reveal_strlit("feature_disable");
            reveal_strlit("timeout_extend");
            assert("snippet"@.len() == 7 && "fallback"@.len() == 8);
            assert("feature_disable"@.len() == 15 && "timeout_extend"@.len() == 14);
        }
        let t = chars_of(recovery_type);
        if equals(&t, "snippet") {
            self.recovery_stats.marked_as_snippets = self.recovery_stats.marked_as_snippets + 1;
        } else if equals(&t, "fallback") {
            self.recovery_stats.fallback_attempts = self.recovery_stats.fallback_attempts + 1;
        } else if equals(&t, "feature_disable") {
            self.recovery_stats.feature_disabling_attempts = self.recovery_stats.feature_disabling_attempts + 1;
        } else if equals(&t, "timeout_extend") {
            self.recovery_stats.timeout_extensions = self.recovery_stats.timeout_extensions + 1;
        }
    }

    /// Counts a recovery that did not help.
    pub fn record_failed_recovery(&mut self)
        requires
            old(self).recovery_stats.failed_recoveries < usize::MAX,
        ensures
            final(self).recovery_stats.failed_recoveries == old(self).recovery_stats.failed_recoveries + 1,
            final(self).recovery_stats.successful_recoveries == old(self).recovery_stats.successful_recoveries,
            final(self).recovery_stats.marked_as_snippets == old(self).recovery_stats.marked_as_snippets,
            final(self).recovery_stats.fallback_attempts == old(self).recovery_stats.fallback_attempts,
            final(self).recovery_stats.feature_disabling_attempts == old(self).recovery_stats.feature_disabling_attempts,
            final(self).recovery_stats.timeout_extensions == old(self).recovery_stats.timeout_extensions,
            final(self).recovered == old(self).recovered,
            final(self).total_examples == old(self).total_examples,
            final(self).results@ == old(self).results@,
    {
        self.recovery_stats.failed_recoveries = self.recovery_stats.failed_recoveries + 1;
    }

    /// Counts a recovery that led to a success.
    pub fn record_successful_recovery(&mut self)
        requires
            old(self).recovery_stats.successful_recoveries < usize::MAX,
        ensures
            final(self).recovery_stats.successful_recoveries == old(self).recovery_stats.successful_recoveries + 1,
            final(self).recovery_stats.failed_recoveries == old(self).recovery_stats.failed_recoveries,
            final(self).recovery_stats.marked_as_snippets == old(self).recovery_stats.marked_as_snippets,
            final(self).recovery_stats.fallback_attempts == old(self).recovery_stats.fallback_attempts,
            final(self).recovery_stats.feature_disabling_attempts == old(self).recovery_stats.feature_disabling_attempts,
            final(self).recovery_stats.timeout_extensions == old(self).recovery_stats.timeout_extensions,
            final(self).recovered == old(self).recovered,
            final(self).total_examples == old(self).total_examples,
            final(self).results@ == old(self).results@,
    {
        self.recovery_stats.successful_recoveries = self.recovery_stats.successful_recoveries + 1;
    }

    /// The share of successes among all counted fragments, in hundredths of a percent
    /// (rounded down); zero for an empty report.
    pub fn success_rate_basis_points(&self) -> (r: u64)
        ensures
            self.total_examples == 0 ==> r == 0,
            self.total_examples > 0 && self.successful <= self.total_examples ==> r == (self.successful as int * 10000) / (self.total_examples as int),
    {
        if self.total_examples == 0 || self.successful > self.total_examples {
            0
        } else {
            let s = self.successful as u128;
            let t = self.total_examples as u128;
            let q = (s * 10000) / t;
            assert(q <= 10000) by (nonlinear_arith)
                requires
                    q as int == (s as int * 10000) / (t as int),
                    s <= t,
                    t > 0,
            ;
            q as u64
        }
    }

    /// Whether nothing failed and at least one fragment succeeded.
    pub fn all_passed(&self) -> (r: bool)
        ensures
            r == (self.failed == 0 && self.successful > 0),
    {
        self.failed == 0 && self.successful > 0
    }
}

impl Default for ValidationReport {
    fn default() -> (r: ValidationReport)
        ensures
            r.total_examples == 0,
            r.results@.len() == 0,
            r.counts_agree(),
    {
        ValidationReport::new()
    }
}


/// A configuration as plain values.
pub ghost struct ConfigView {
    pub targets: Seq<Seq<char>>,
    pub features: Seq<Seq<char>>,
    pub no_std: bool,
    pub embedded_mode: bool,
    pub compilation_timeout: u64,
    pub work_dir: Seq<char>,
}

impl View for TestConfig {
    type V = ConfigView;

    open spec fn view(&self) -> ConfigView {
        ConfigView {
            targets: self.targets.deep_view(),
            features: self.features.deep_view(),
            no_std: self.no_std,
            embedded_mode: self.embedded_mode,
            compilation_timeout: self.compilation_timeout,
            work_dir: self.work_dir@,
        }
    }
}

/// The default configuration as plain values.
pub open spec fn default_config_view() -> ConfigView {
    ConfigView {
        targets: seq![host_target()],
        features: Seq::empty(),
        no_std: false,
        embedded_mode: false,
        compilation_timeout: default_timeout(),
        work_dir: "rust_example_tests"@,
    }
}


/// A copy of a list of names.
pub fn clone_names(v: &Vec<String>) -> (r: Vec<String>)
    ensures
        r.deep_view() == v.deep_view(),
{
    let mut out: Vec<String> = Vec::new();
    let mut i: usize = 0;
    while i < v.len()
        invariant
            i <= v@.len(),
            out.deep_view() =~= v.deep_view().subrange(0, i as int),
        decreases v.len() - i,
    {
        let ghost before = out.deep_view();
        let s = v[i].clone();
        out.push(s);
        assert(out.deep_view() =~= before.push(v@[i as int]@));
        i = i + 1;
    }
    assert(v.deep_view().subrange(0, v@.len() as int) =~= v.deep_view());
    out
}

impl TestConfig {
    /// A copy of this configuration.
    pub fn clone_config(&self) -> (r: TestConfig)
        ensures
            r@ == self@,
    {
        TestConfig {
            targets: clone_names(&self.targets),
            features: clone_names(&self.features),
            no_std: self.no_std,
            embedded_mode: self.embedded_mode,
            compilation_timeout: self.compilation_timeout,
            work_dir: self.work_dir.clone(),
        }
    }
}

} // verus!
