//! The decisions around compiling one fragment: whether and for which targets, what source
//! to compile, and how to read the compiler's output.
use vstd::prelude::*;
use crate::extractor::{CodeExample, Profile};
use crate::test_config::{CompilationError, TestConfig, TestResult};
use crate::text::{
    chars_of, contains, lines, occurs, owned, push_all, push_str, slice_of, split_lines, string_of, views,
};
use crate::cache::{cache_key, cache_key_of, still_valid, ResultCache};
use crate::degradation::{first_strategy, DegradationStrategy, GracefulDegradationManager};
use crate::dependency_resolver::assoc_get;
use crate::toolchain_manager::{available_targets, ToolchainManager};

verus! {

/// Whether a profile assumes no standard runtime.
pub open spec fn minimal_profile(p: Profile) -> bool {
    p is NoStd || p is Hardware || p is Crypto
}

/// The panic handler added to minimal-runtime code that has none.
pub open spec fn panic_handler_text() -> Seq<char> {
    "\n\n#[panic_handler]\nfn panic(_info: &core::panic::PanicInfo) -> ! {\n    loop {}\n}\n"@
}

/// The source compiled for a fragment: minimal-runtime code gets the attribute that disables
/// the standard runtime and a panic handler where it lacks them; code without any function
/// is wrapped in one.
pub open spec fn prepared_code(code: Seq<char>, minimal: bool) -> Seq<char> {
    let c1 = if minimal && !occurs(code, "#![no_std]"@) {
        "#![no_std]\n"@ + code
    } else {
        code
    };
    let c2 = if minimal && !occurs(c1, "panic_handler"@) && !occurs(c1, "panic-halt"@) {
        c1 + panic_handler_text()
    } else {
        c1
    };
    if !occurs(c2, "fn main"@) && !occurs(c2, "#[entry]"@) && !occurs(c2, "fn "@) {
        "fn example_code() {\n"@ + c2 + "\n}"@
    } else {
        c2
    }
}

/// The file a fragment is compiled from: a binary's where it has an entry point, a
/// library's otherwise.
pub open spec fn source_name(code: Seq<char>) -> Seq<char> {
    if occurs(code, "fn main"@) || occurs(code, "#[entry]"@) {
        "main.rs"@
    } else {
        "lib.rs"@
    }
}

/// The value of a run of decimal digits.
pub open spec fn digits_value(s: Seq<char>) -> nat
    decreases s.len(),
{
    if s.len() == 0 {
        0
    } else {
        digits_value(s.drop_last()) * 10 + ((s.last() as u32) - ('0' as u32)) as nat
    }
}

/// Every character of `s` is an ASCII digit.
pub open spec fn all_digits(s: Seq<char>) -> bool {
    forall|i: int| 0 <= i < s.len() ==> '0' <= #[trigger] s[i] && s[i] <= '9'
}

/// The number that `s` writes as `usize::from_str` reads it: an optional `+`, then one or
/// more decimal digits, with a value that fits.
pub open spec fn parsed_number(s: Seq<char>) -> Option<nat> {
    let d = if s.len() > 0 && s[0] == '+' {
        s.drop_first()
    } else {
        s
    };
    if d.len() > 0 && all_digits(d) && digits_value(d) <= usize::MAX {
        Some(digits_value(d))
    } else {
        None
    }
}

/// The number between the first and the second colon of a diagnostic line, if there is one.
pub open spec fn line_number_in(line: Seq<char>) -> Option<nat> {
    let a = crate::text::first_sep(line, ':');
    if a >= line.len() {
        None
    } else {
        let after = line.subrange(a as int + 1, line.len() as int);
        let b = crate::text::first_sep(after, ':');
        if b >= after.len() {
            None
        } else {
            parsed_number(after.subrange(0, b as int))
        }
    }
}

/// The first line number that the lines of `ls` give.
pub open spec fn first_line_number(ls: Seq<Seq<char>>) -> Option<nat>
    decreases ls.len(),
{
    if ls.len() == 0 {
        None
    } else {
        match line_number_in(ls[0]) {
            Some(n) => Some(n),
            None => first_line_number(ls.drop_first()),
        }
    }
}

/// The lines of compiler output that carry a warning, in order.
pub open spec fn warning_lines(ls: Seq<Seq<char>>) -> Seq<Seq<char>>
    decreases ls.len(),
{
    if ls.len() == 0 {
        Seq::empty()
    } else {
        warning_lines(ls.drop_last()) + if occurs(ls.last(), "warning:"@) {
            seq![ls.last()]
        } else {
            Seq::empty()
        }
    }
}

proof fn lemma_digits_value_grows(s: Seq<char>, k: int)
    requires
        0 <= k <= s.len(),
        all_digits(s),
    ensures
        digits_value(s.subrange(0, k)) <= digits_value(s),
    decreases s.len() - k,
{
    if k < s.len() {
        lemma_digits_value_grows(s, k + 1);
        assert(s.subrange(0, k + 1).drop_last() =~= s.subrange(0, k));
    } else {
        assert(s.subrange(0, k) =~= s);
    }
}

/// Reads a number as `parsed_number` describes.
pub fn parse_number(s: &Vec<char>) -> (r: Option<usize>)
    ensures
        match r {
            Some(n) => parsed_number(s@) == Some(n as nat),
            None => parsed_number(s@) is None,
        },
{
    let start: usize = if s.len() > 0 && s[0] == '+' { 1 } else { 0 };
    let ghost d = if s@.len() > 0 && s@[0] == '+' { s@.drop_first() } else { s@ };
    assert(d =~= s@.subrange(start as int, s.len() as int));
    if start >= s.len() {
        return None;
    }
    let mut acc: usize = 0;
    let mut i = start;
    assert(d.subrange(0, 0) =~= Seq::<char>::empty());
    while i < s.len()
        invariant
            start <= i <= s.len(),
            start < s.len(),
            d == s@.subrange(start as int, s.len() as int),
            d == (if s@.len() > 0 && s@[0] == '+' { s@.drop_first() } else { s@ }),
            all_digits(d.subrange(0, i - start)),
            acc as nat == digits_value(d.subrange(0, i - start)),
        decreases s.len() - i,
    {
        let c = s[i];
        assert(d[i - start] == c);
        if !('0' <= c && c <= '9') {
            assert(!('0' <= d[i - start] && d[i - start] <= '9'));
            assert(!all_digits(d));
            assert(parsed_number(s@) is None);
            return None;
        }
        let v = (c as u32 - '0' as u32) as usize;
        assert(d.subrange(0, i - start + 1).drop_last() =~= d.subrange(0, i - start));
        if acc > (usize::MAX - v) / 10 {
            proof {
                let p = d.subrange(0, i - start + 1);
                assert(p.last() == c);
                assert(digits_value(p) == digits_value(p.drop_last()) * 10 + ((c as u32) - ('0' as u32)) as nat);
                assert(digits_value(d.subrange(0, i - start + 1)) == acc * 10 + v);
                assert(acc * 10 + v > usize::MAX) by (nonlinear_arith)
                    requires
                        acc > (usize::MAX - v) / 10,
                        v <= 9,
                ;
                if all_digits(d) {
                    lemma_digits_value_grows(d, i - start + 1);
                }
                assert(parsed_number(s@) is None);
            }
            return None;
        }
        assert(acc * 10 + v <= usize::MAX) by (nonlinear_arith)
            requires
                acc <= (usize::MAX - v) / 10,
                v <= 9,
        ;
        acc = acc * 10 + v;
        i = i + 1;
    }
    assert(d.subrange(0, d.len() as int) =~= d);
    Some(acc)
}

fn line_number_of(line: &Vec<char>) -> (r: Option<usize>)
    ensures
        match r {
            Some(n) => line_number_in(line@) == Some(n as nat),
            None => line_number_in(line@) is None,
        },
{
    let mut a_exec: usize = 0;
    while a_exec < line.len() && line[a_exec] != ':'
        invariant
            a_exec <= line.len(),
            forall|j: int| 0 <= j < a_exec ==> line@[j] != ':',
        decreases line.len() - a_exec,
    {
        a_exec = a_exec + 1;
    }
    proof {
        crate::text::lemma_first_sep_is(line@, ':', a_exec as int);
    }
    if a_exec >= line.len() {
        return None;
    }
    let after = slice_of(line, a_exec + 1, line.len());
    let mut b: usize = 0;
    while b < after.len() && after[b] != ':'
        invariant
            b <= after.len(),
            forall|j: int| 0 <= j < b ==> after@[j] != ':',
        decreases after.len() - b,
    {
        b = b + 1;
    }
    proof {
        crate::text::lemma_first_sep_is(after@, ':', b as int);
    }
    if b >= after.len() {
        return None;
    }
    let number = slice_of(&after, 0, b);
    parse_number(&number)
}

/// Compiles fragments for their targets: this part decides what to compile and reads what the
/// compiler printed; running the compiler is left to the caller.
pub struct RustExampleTester {
    config: TestConfig,
    toolchain_manager: ToolchainManager,
}

impl RustExampleTester {
    /// The first line number that a line of `stderr` gives between its first two colons.
    pub fn extract_line_number(&self, stderr: &str) -> (r: Option<usize>)
        ensures
            match r {
                Some(n) => first_line_number(lines(stderr@)) == Some(n as nat),
                None => first_line_number(lines(stderr@)) is None,
            },
    {
        let ls = split_lines(&chars_of(stderr));
        let ghost all = views(ls@);
        let mut i: usize = 0;
        assert(all.subrange(0, all.len() as int) =~= all);
        while i < ls.len()
            invariant
                i <= ls.len(),
                all == views(ls@),
                all == lines(stderr@),
                first_line_number(all) == first_line_number(all.subrange(i as int, all.len() as int)),
            decreases ls.len() - i,
        {
            let ghost rest = all.subrange(i as int, all.len() as int);
            assert(rest.drop_first() =~= all.subrange(i + 1, all.len() as int));
            assert(rest[0] == ls@[i as int]@);
            match line_number_of(&ls[i]) {
                Some(n) => {
                    return Some(n);
                },
                None => {},
            }
            i = i + 1;
        }
        None
    }

    /// The lines of `stderr` that carry a warning, in order.
    pub fn extract_warnings(&self, stderr: &str) -> (r: Vec<String>)
        ensures
            r.deep_view() == warning_lines(lines(stderr@)),
    {
        let ls = split_lines(&chars_of(stderr));
        let ghost all = views(ls@);
        let mut out: Vec<String> = Vec::new();
        let mut i: usize = 0;
        assert(out.deep_view() =~= warning_lines(all.subrange(0, 0)));
        while i < ls.len()
            invariant
                i <= ls.len(),
                all == views(ls@),
                out.deep_view() == warning_lines(all.subrange(0, i as int)),
            decreases ls.len() - i,
        {
            assert(all.subrange(0, i + 1).drop_last() =~= all.subrange(0, i as int));
            assert(all[i as int] == ls@[i as int]@);
            let ghost before = out.deep_view();
            if contains(&ls[i], "warning:") {
                let w = string_of(&ls[i]);
                out.push(w);
                assert(out.deep_view() =~= before + seq![all[i as int]]);
            } else {
                assert(out.deep_view() =~= before + Seq::<Seq<char>>::empty());
            }
            i = i + 1;
        }
        assert(all.subrange(0, all.len() as int) =~= all);
        out
    }
}


/// Output that reports a coded diagnostic or a parse error.
pub open spec fn reports_syntax(stderr: Seq<char>) -> bool {
    occurs(stderr, "error[E"@) || occurs(stderr, "error: expected"@) || occurs(stderr, "error: unexpected"@)
        || occurs(stderr, "error: this file contains an unclosed delimiter"@)
}

/// The failure that compiler output describes: a coded diagnostic or a parse error is a syntax
/// error at the first line number given, a missing manifest entry a dependency error, anything
/// else a failed compilation with the exit code (-1 where there was none).
pub open spec fn classify_output(stderr: Seq<char>, exit_code: Option<i32>) -> ErrorView {
    if reports_syntax(stderr) {
        ErrorView::Syntax {
            message: if lines(stderr).len() > 0 {
                lines(stderr)[0]
            } else {
                "Unknown syntax error"@
            },
            line: first_line_number(lines(stderr)),
        }
    } else if occurs(stderr, "could not find"@) && occurs(stderr, "Cargo.toml"@) {
        ErrorView::Dependency
    } else {
        ErrorView::Failed {
            exit_code: match exit_code {
                Some(c) => c,
                None => -1i32,
            },
            message: stderr,
        }
    }
}

/// The kinds of failure that compiler output can describe.
pub ghost enum ErrorView {
    Syntax { message: Seq<char>, line: Option<nat> },
    Dependency,
    Failed { exit_code: i32, message: Seq<char> },
}

/// `e` is the failure that `v` describes: a syntax error has no column, a dependency error
/// names one unknown package.
pub open spec fn error_matches(e: CompilationError, v: ErrorView) -> bool {
    match v {
        ErrorView::Syntax { message, line } => e matches CompilationError::SyntaxError { message: m, line: l, column: c }
            && m@ == message && c is None && match line {
            Some(n) => l == Some(n as usize),
            None => l is None,
        },
        ErrorView::Dependency => e matches CompilationError::DependencyError { missing } && missing.deep_view()
            == seq!["Unknown dependency"@],
        ErrorView::Failed { exit_code, message } => e matches CompilationError::CompilationFailed {
            exit_code: x,
            message: m,
        } && x == exit_code && m@ == message,
    }
}

impl RustExampleTester {
    /// A tester for `config` with a fresh target table.
    pub fn new(config: TestConfig) -> (r: Result<RustExampleTester, CompilationError>)
        ensures
            r matches Ok(t) && t.config_view() == config@ && t.toolchain_view() == crate::toolchain_manager::known_targets(),
    {
        match ToolchainManager::new() {
            Ok(toolchain_manager) => Ok(RustExampleTester { config, toolchain_manager }),
            Err(e) => Err(e),
        }
    }

    /// A tester for `config` with the given target table.
    pub fn with_toolchain_manager(config: TestConfig, toolchain_manager: ToolchainManager) -> (r: RustExampleTester)
        ensures
            r.config_view() == config@,
            r.toolchain_view() == toolchain_manager.table(),
    {
        RustExampleTester { config, toolchain_manager }
    }

    pub closed spec fn config_view(&self) -> crate::test_config::ConfigView {
        self.config@
    }

    pub closed spec fn toolchain_view(&self) -> Seq<crate::toolchain_manager::TargetView> {
        self.toolchain_manager.table()
    }

    /// Whether the tester can work; it always can once made.
    pub fn is_ready(&self) -> (r: bool)
        ensures
            r,
    {
        true
    }

    /// The target table.
    pub fn toolchain_manager(&self) -> (r: &ToolchainManager)
        ensures
            r.table() == self.toolchain_view(),
    {
        &self.toolchain_manager
    }

    /// The target table, to record which targets are installed.
    pub fn toolchain_manager_mut(&mut self) -> &mut ToolchainManager {
        &mut self.toolchain_manager
    }

    /// The targets to compile `example` for: `Err` with the result to record where nothing is
    /// compiled. An excerpt is recorded as a success for the target `skipped`, without any
    /// target being asked for; a fragment with no suitable target as a target failure.
    pub fn plan(&self, example: &CodeExample) -> (r: Result<Vec<String>, TestResult>)
        ensures
            example.context@ is Snippet ==> (r matches Err(t) && t.success && t.target@ == "skipped"@
                && t.example_id@ == example.id@ && t.error is None && t.compilation_time == 0),
            !(example.context@ is Snippet) ==> match r {
                Ok(ts) => ts.deep_view() == available_targets(self.toolchain_view(), self.config_view())
                    && ts@.len() > 0,
                Err(t) => available_targets(self.toolchain_view(), self.config_view()).len() == 0 && !t.success
                    && t.target@ == "none"@ && t.example_id@ == example.id@ && (t.error matches Some(
                    CompilationError::TargetError { .. },
                )),
            },
    {
        if !example.should_compile() {
            return Err(TestResult {
                example_id: example.id.clone(),
                success: true,
                compilation_time: 0,
                target: owned("skipped"),
                error: None,
                warnings: Vec::new(),
                stdout: owned("Skipped (marked as snippet)"),
                stderr: String::new(),
            });
        }
        let targets = self.toolchain_manager.get_available_targets(&self.config);
        if targets.len() == 0 {
            return Err(TestResult::failure(
                example.id.clone(),
                owned("none"),
                0,
                CompilationError::TargetError {
                    incompatible_target: owned("none"),
                    reason: owned("No compatible targets available"),
                },
                owned("No targets available for testing"),
            ));
        }
        proof {
            assert(targets@.len() == targets.deep_view().len());
        }
        Ok(targets)
    }

    /// The source compiled for `example`, by `prepared_code`.
    pub fn prepare_code_for_compilation(&self, example: &CodeExample) -> (r: String)
        ensures
            r@ == prepared_code(example.code@, minimal_profile(example.context@)),
    {
        let minimal = example.context.is_no_std();
        let mut c: Vec<char> = chars_of(example.code.as_str());
        if minimal && !contains(&c, "#![no_std]") {
            let mut d: Vec<char> = Vec::new();
            push_str(&mut d, "#![no_std]\n");
            push_all(&mut d, &c);
            c = d;
        }
        if minimal && !contains(&c, "panic_handler") && !contains(&c, "panic-halt") {
            push_str(&mut c, "\n\n#[panic_handler]\nfn panic(_info: &core::panic::PanicInfo) -> ! {\n    loop {}\n}\n");
        }
        if !contains(&c, "fn main") && !contains(&c, "#[entry]") && !contains(&c, "fn ") {
            let mut d: Vec<char> = Vec::new();
            push_str(&mut d, "fn example_code() {\n");
            push_all(&mut d, &c);
            push_str(&mut d, "\n}");
            c = d;
        }
        string_of(&c)
    }

    /// The name of the file `example` is compiled from, by `source_name`.
    pub fn source_file_name(&self, example: &CodeExample) -> (r: &'static str)
        ensures
            r@ == source_name(example.code@),
    {
        let c = chars_of(example.code.as_str());
        if contains(&c, "fn main") || contains(&c, "#[entry]") {
            "main.rs"
        } else {
            "lib.rs"
        }
    }

    /// The failure that `stderr` and the exit code describe, by `classify_output`.
    pub fn parse_compilation_error(&self, stderr: &str, exit_code: Option<i32>) -> (r: CompilationError)
        ensures
            error_matches(r, classify_output(stderr@, exit_code)),
    {
        let c = chars_of(stderr);
        if contains(&c, "error[E") || contains(&c, "error: expected") || contains(&c, "error: unexpected") || contains(
            &c,
            "error: this file contains an unclosed delimiter",
        ) {
            let ls = split_lines(&c);
            let message = if ls.len() > 0 {
                string_of(&ls[0])
            } else {
                owned("Unknown syntax error")
            };
            proof {
                assert(ls@.len() == views(ls@).len());
                if ls@.len() > 0 {
                    assert(views(ls@)[0] == ls@[0]@);
                }
            }
            let line = self.extract_line_number(stderr);
            return CompilationError::SyntaxError { message, line, column: None };
        }
        if contains(&c, "could not find") && contains(&c, "Cargo.toml") {
            let mut missing: Vec<String> = Vec::new();
            missing.push(owned("Unknown dependency"));
            assert(missing.deep_view() =~= seq!["Unknown dependency"@]);
            return CompilationError::DependencyError { missing };
        }
        CompilationError::CompilationFailed {
            exit_code: match exit_code {
                Some(x) => x,
                None => -1,
            },
            message: owned(stderr),
        }
    }

    /// The result of one compilation: a success with the compiler's output and the warnings
    /// it printed, or a failure with the error.
    pub fn result_for(
        &self,
        example: &CodeExample,
        target: &str,
        outcome: Result<(String, String), CompilationError>,
        elapsed_ms: u64,
    ) -> (r: TestResult)
        ensures
            r.example_id@ == example.id@,
            r.target@ == target@,
            r.compilation_time == elapsed_ms,
            match outcome {
                Ok((out, err)) => r.success && r.error is None && r.stdout@ == out@ && r.stderr@ == err@
                    && r.warnings.deep_view() == warning_lines(lines(err@)),
                Err(e) => !r.success && r.error == Some(e) && r.stderr@.len() == 0,
            },
    {
        match outcome {
            Ok((stdout, stderr)) => {
                let warnings = self.extract_warnings(stderr.as_str());
                TestResult {
                    example_id: example.id.clone(),
                    success: true,
                    compilation_time: elapsed_ms,
                    target: owned(target),
                    error: None,
                    warnings,
                    stdout,
                    stderr,
                }
            },
            Err(error) => TestResult::failure(example.id.clone(), owned(target), elapsed_ms, error, String::new()),
        }
    }
}


/// What to do with one fragment of a run.
#[derive(Debug)]
pub enum FragmentStep {
    /// Dispatch nothing more: fail-fast mode saw a failure.
    Stop,
    /// Use the cached result; the fragment is unchanged.
    Reuse,
    /// Record the fragment as skipped, with this reason.
    Skip { reason: String },
    /// Record this result without compiling.
    Record { result: TestResult },
    /// Compile for these targets.
    Compile { targets: Vec<String> },
}

/// The strategy degraded mode applies to a fragment now, if any.
pub open spec fn strategy_now(deg: &GracefulDegradationManager, e: &CodeExample) -> Option<DegradationStrategy> {
    if deg.degraded() {
        first_strategy(deg.strategies(), e.code@, e.context@)
    } else {
        None
    }
}

impl RustExampleTester {
    /// The next step for fragment `e`, whose current content hash and document time are `hash`
    /// and `time`: stop where fail-fast mode saw a failure; reuse the cached result where
    /// caching is on and the stored entry is still valid; skip where degraded mode skips
    /// complex or hardware fragments; otherwise the plan, limited to its first target where
    /// degraded mode checks syntax only.
    pub fn fragment_step(
        &self,
        cache: &ResultCache,
        deg: &GracefulDegradationManager,
        e: &CodeExample,
        hash: &str,
        time: u64,
        use_cache: bool,
        fail_fast: bool,
        failed: bool,
    ) -> (r: FragmentStep)
        ensures
            fail_fast && failed ==> r is Stop,
            !(fail_fast && failed) && use_cache && still_valid(
                assoc_get(cache.stamps(), cache_key(e.source_file@, e.id@)),
                hash@,
                time,
            ) ==> r is Reuse,
            !(fail_fast && failed) && !(use_cache && still_valid(
                assoc_get(cache.stamps(), cache_key(e.source_file@, e.id@)),
                hash@,
                time,
            )) ==> {
                let avail = available_targets(self.toolchain_view(), self.config_view());
                match strategy_now(deg, e) {
                    Some(DegradationStrategy::SkipComplexExamples) => r matches FragmentStep::Skip { reason }
                        && reason@ == "degraded mode: complex example"@,
                    Some(DegradationStrategy::DisableHardwareTesting) => r matches FragmentStep::Skip { reason }
                        && reason@ == "degraded mode: hardware testing disabled"@,
                    _ => if e.context@ is Snippet {
                        r matches FragmentStep::Record { result } && result.success && result.target@ == "skipped"@
                    } else if avail.len() == 0 {
                        r matches FragmentStep::Record { result } && !result.success && result.target@ == "none"@
                    } else {
                        r matches FragmentStep::Compile { targets } && targets.deep_view() == if strategy_now(deg, e)
                            == Some(DegradationStrategy::SyntaxOnlyValidation) {
                            seq![avail[0]]
                        } else {
                            avail
                        }
                    },
                }
            },
    {
        if fail_fast && failed {
            return FragmentStep::Stop;
        }
        if use_cache && !cache.needs_testing(e, hash, time) {
            return FragmentStep::Reuse;
        }
        let strategy = deg.should_degrade_example(e);
        match strategy {
            Some(DegradationStrategy::SkipComplexExamples) => {
                return FragmentStep::Skip { reason: owned("degraded mode: complex example") };
            },
            Some(DegradationStrategy::DisableHardwareTesting) => {
                return FragmentStep::Skip { reason: owned("degraded mode: hardware testing disabled") };
            },
            _ => {},
        }
        match self.plan(e) {
            Err(result) => FragmentStep::Record { result },
            Ok(targets) => {
                if strategy == Some(DegradationStrategy::SyntaxOnlyValidation) {
                    let mut first: Vec<String> = Vec::new();
                    first.push(targets[0].clone());
                    assert(first.deep_view() =~= seq![targets.deep_view()[0]]);
                    FragmentStep::Compile { targets: first }
                } else {
                    FragmentStep::Compile { targets }
                }
            },
        }
    }
}

} // verus!
