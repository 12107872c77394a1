//! Recovery decisions for compilation failures, memoized by error signature.
use vstd::prelude::*;
use crate::dependency_resolver::{assoc_get, lemma_assoc_at, lemma_assoc_none};
use crate::extractor::{snippet_code, snippet_code_in, CodeExample, ExampleContext, Profile};
use crate::test_config::{
    default_config_view, duration_text, join_with, push_joined, signed_text, CompilationError, ConfigView, TestConfig,
};
use crate::text::{chars_of, contains, decimal, equals, occurs, owned, push_all, push_decimal, push_str, string_of};

verus! {

/// What to do after a compilation failure.
#[derive(Debug, Clone)]
pub enum RecoveryAction {
    /// Compile again with another configuration.
    Retry { config: TestConfig, reason: String },
    /// Give the fragment up.
    Skip { reason: String },
    /// Compile for another target, with some features turned off.
    Fallback { target: String, disable_features: Vec<String> },
    /// Treat the fragment as an excerpt that is not compiled.
    MarkAsSnippet { reason: String },
    /// Stop the run.
    Abort { message: String },
}

/// A recovery action as plain values.
pub ghost enum ActionView {
    Retry { config: ConfigView, reason: Seq<char> },
    Skip { reason: Seq<char> },
    Fallback { target: Seq<char>, disable_features: Seq<Seq<char>> },
    MarkAsSnippet { reason: Seq<char> },
    Abort { message: Seq<char> },
}

impl View for RecoveryAction {
    type V = ActionView;

    open spec fn view(&self) -> ActionView {
        match self {
            RecoveryAction::Retry { config, reason } => ActionView::Retry { config: config@, reason: reason@ },
            RecoveryAction::Skip { reason } => ActionView::Skip { reason: reason@ },
            RecoveryAction::Fallback { target, disable_features } => ActionView::Fallback {
                target: target@,
                disable_features: disable_features.deep_view(),
            },
            RecoveryAction::MarkAsSnippet { reason } => ActionView::MarkAsSnippet { reason: reason@ },
            RecoveryAction::Abort { message } => ActionView::Abort { message: message@ },
        }
    }
}

/// `Some(n)` or `None`, written out.
pub open spec fn optional_number_text(n: Option<usize>) -> Seq<char> {
    match n {
        Some(v) => "Some("@ + decimal(v as nat) + ")"@,
        None => "None"@,
    }
}

/// The coarse features that one missing package asks for, added to `fs` where absent:
/// `embedded` for embedded, Cortex or HAL packages, `crypto` for crypto, AES or SHA ones.
pub open spec fn bucket_step(fs: Seq<Seq<char>>, dep: Seq<char>) -> Seq<Seq<char>> {
    let fs1 = if (occurs(dep, "embedded"@) || occurs(dep, "cortex"@) || occurs(dep, "hal"@)) && !fs.contains(
        "embedded"@,
    ) {
        fs.push("embedded"@)
    } else {
        fs
    };
    if (occurs(dep, "crypto"@) || occurs(dep, "aes"@) || occurs(dep, "sha"@)) && !fs1.contains("crypto"@) {
        fs1.push("crypto"@)
    } else {
        fs1
    }
}

/// `fs` with the features that the packages of `missing` ask for, in order.
pub open spec fn add_buckets(fs: Seq<Seq<char>>, missing: Seq<Seq<char>>) -> Seq<Seq<char>>
    decreases missing.len(),
{
    if missing.len() == 0 {
        fs
    } else {
        bucket_step(add_buckets(fs, missing.drop_last()), missing.last())
    }
}

/// Every name of `s` is listed in `allow`.
pub open spec fn all_listed(s: Seq<Seq<char>>, allow: Seq<Seq<char>>) -> bool {
    forall|i: int| 0 <= i < s.len() ==> allow.contains(#[trigger] s[i])
}

/// The names of `s` that `deny` does not list, in order.
pub open spec fn drop_listed(s: Seq<Seq<char>>, deny: Seq<Seq<char>>) -> Seq<Seq<char>>
    decreases s.len(),
{
    if s.len() == 0 {
        Seq::empty()
    } else {
        drop_listed(s.drop_last(), deny) + if deny.contains(s.last()) {
            Seq::empty()
        } else {
            seq![s.last()]
        }
    }
}

/// The first of `fallbacks` that is not the failing target and was not attempted.
pub open spec fn pick_fallback(fallbacks: Seq<Seq<char>>, failing: Seq<char>, attempted: Seq<Seq<char>>) -> Option<
    Seq<char>,
>
    decreases fallbacks.len(),
{
    if fallbacks.len() == 0 {
        None
    } else if fallbacks[0] != failing && !attempted.contains(fallbacks[0]) {
        Some(fallbacks[0])
    } else {
        pick_fallback(fallbacks.drop_first(), failing, attempted)
    }
}

/// Features that do not build for a target.
pub open spec fn incompatible_features(target: Seq<char>) -> Seq<Seq<char>> {
    if target == "x86_64-unknown-linux-gnu"@ {
        seq!["embedded"@, "hardware"@]
    } else if target == "thumbv7em-none-eabihf"@ || target == "thumbv6m-none-eabi"@ {
        seq!["std"@]
    } else {
        Seq::empty()
    }
}

/// The settings a recovery manager decides with.
pub ghost struct Settings {
    pub max_retries: nat,
    pub fallback_targets: Seq<Seq<char>>,
    pub optional_features: Seq<Seq<char>>,
}

/// The decision for one failure, before memoization.
pub open spec fn decision(s: Settings, e: CompilationError, code: Seq<char>, config: ConfigView, retry: nat) -> ActionView {
    match e {
        CompilationError::SyntaxError { message, line, column } => {
            if snippet_code(code) {
                ActionView::MarkAsSnippet { reason: "Syntax error suggests incomplete code snippet: "@ + message@ }
            } else if occurs(message@, "expected item"@) || occurs(message@, "unexpected end of file"@) || occurs(
                message@,
                "expected `fn`, `mod`, `struct`"@,
            ) {
                ActionView::MarkAsSnippet { reason: "Code appears to be a fragment rather than complete example"@ }
            } else if retry >= s.max_retries {
                ActionView::Skip {
                    reason: "Syntax error persists after "@ + decimal(retry) + " retries: "@ + message@,
                }
            } else {
                ActionView::Skip {
                    reason: "Syntax error at line "@ + optional_number_text(line) + ", column "@
                        + optional_number_text(column) + ": "@ + message@,
                }
            }
        },
        CompilationError::DependencyError { missing } => {
            if retry >= s.max_retries {
                ActionView::Skip {
                    reason: "Missing dependencies after "@ + decimal(retry) + " retries: "@ + join_with(
                        missing.deep_view(),
                        ", "@,
                    ),
                }
            } else {
                ActionView::Retry {
                    config: ConfigView { features: add_buckets(config.features, missing.deep_view()), ..config },
                    reason: "Adding features to resolve missing dependencies: "@ + join_with(missing.deep_view(), ", "@),
                }
            }
        },
        CompilationError::FeatureError { unsupported } => {
            let u = unsupported.deep_view();
            if u.len() > 0 && all_listed(u, s.optional_features) && retry < s.max_retries {
                ActionView::Retry {
                    config: ConfigView { features: drop_listed(config.features, u), ..config },
                    reason: "Disabling optional features: "@ + join_with(u, ", "@),
                }
            } else {
                ActionView::Skip { reason: "Unsupported features required: "@ + join_with(u, ", "@) }
            }
        },
        CompilationError::TargetError { incompatible_target, reason } => {
            match pick_fallback(s.fallback_targets, incompatible_target@, config.targets) {
                Some(t) => if retry < s.max_retries {
                    ActionView::Fallback { target: t, disable_features: incompatible_features(t) }
                } else {
                    ActionView::Skip { reason: "No compatible target found. Original error: "@ + reason@ }
                },
                None => ActionView::Skip { reason: "No compatible target found. Original error: "@ + reason@ },
            }
        },
        CompilationError::TimeoutError { duration } => {
            if retry < s.max_retries {
                ActionView::Retry {
                    config: ConfigView { compilation_timeout: (2 * duration) as u64, ..config },
                    reason: "Increasing timeout from "@ + duration_text(duration as nat) + " to "@ + duration_text(
                        (2 * duration) as nat,
                    ),
                }
            } else {
                ActionView::Skip {
                    reason: "Compilation timeout after "@ + duration_text(duration as nat) + " (tried "@ + decimal(retry)
                        + " times)"@,
                }
            }
        },
        CompilationError::CompilationFailed { exit_code, message } => {
            if occurs(message@, "cannot find function `main`"@) || occurs(message@, "binary target"@) {
                ActionView::MarkAsSnippet { reason: "Code appears to be a library snippet without main function"@ }
            } else if (occurs(message@, "linker"@) || occurs(message@, "undefined reference"@)) && retry
                < s.max_retries {
                ActionView::Fallback { target: "x86_64-unknown-linux-gnu"@, disable_features: seq!["embedded"@] }
            } else {
                ActionView::Skip {
                    reason: "Compilation failed (exit code "@ + signed_text(exit_code as int) + "): "@ + message@,
                }
            }
        },
        CompilationError::IoError { message } => {
            if retry < s.max_retries {
                ActionView::Retry { config: default_config_view(), reason: "Retrying after I/O error: "@ + message@ }
            } else {
                ActionView::Skip { reason: "Persistent I/O error: "@ + message@ }
            }
        },
    }
}

/// A fresh decision retries only while attempts remain.
pub proof fn lemma_retry_below_limit(s: Settings, e: CompilationError, code: Seq<char>, config: ConfigView, retry: nat)
    ensures
        decision(s, e, code, config, retry) is Retry ==> retry < s.max_retries,
        decision(s, e, code, config, retry) is Fallback ==> retry < s.max_retries,
{
}

/// The number of `Retry` decisions among attempts `0..n` of one failure.
pub open spec fn retries_among(s: Settings, e: CompilationError, code: Seq<char>, configs: Seq<ConfigView>, n: nat) -> nat
    decreases n,
{
    if n == 0 {
        0
    } else {
        retries_among(s, e, code, configs, (n - 1) as nat) + if decision(
            s,
            e,
            code,
            configs[n - 1],
            (n - 1) as nat,
        ) is Retry {
            1nat
        } else {
            0
        }
    }
}

/// Deciding attempt after attempt of the same failure, numbered from zero, yields at most
/// `max_retries` retries, whatever configurations the attempts used.
pub proof fn lemma_retries_bounded(s: Settings, e: CompilationError, code: Seq<char>, configs: Seq<ConfigView>, n: nat)
    requires
        n <= configs.len(),
    ensures
        retries_among(s, e, code, configs, n) <= s.max_retries,
        retries_among(s, e, code, configs, n) <= n,
    decreases n,
{
    if n > 0 {
        lemma_retries_bounded(s, e, code, configs, (n - 1) as nat);
        lemma_retry_below_limit(s, e, code, configs[n - 1], (n - 1) as nat);
        if n > s.max_retries {
            lemma_retries_capped(s, e, code, configs, n);
        }
    }
}

proof fn lemma_retries_capped(s: Settings, e: CompilationError, code: Seq<char>, configs: Seq<ConfigView>, n: nat)
    requires
        n <= configs.len(),
        n >= s.max_retries,
    ensures
        retries_among(s, e, code, configs, n) == retries_among(s, e, code, configs, s.max_retries),
    decreases n,
{
    if n > s.max_retries {
        lemma_retry_below_limit(s, e, code, configs[n - 1], (n - 1) as nat);
        lemma_retries_capped(s, e, code, configs, (n - 1) as nat);
    }
}


/// The features of a profile joined by commas, in brackets.
pub open spec fn bracketed(fs: Seq<Seq<char>>) -> Seq<char> {
    "["@ + join_with(fs, ","@) + "]"@
}

/// A text that identifies a profile.
pub open spec fn profile_key(p: Profile) -> Seq<char> {
    match p {
        Profile::Std { features } => "Std"@ + bracketed(features),
        Profile::NoStd { target, features } => "NoStd("@ + target + ")"@ + bracketed(features),
        Profile::Hardware { platform, features } => "Hardware("@ + platform + ")"@ + bracketed(features),
        Profile::Crypto { algorithm, features } => "Crypto("@ + match algorithm {
            Some(a) => a,
            None => Seq::empty(),
        } + ")"@ + bracketed(features),
        Profile::Snippet { reason } => "Snippet("@ + reason + ")"@,
    }
}

/// At most the first fifty characters of `m`.
pub open spec fn truncated(m: Seq<char>) -> Seq<char> {
    if m.len() <= 50 {
        m
    } else {
        m.subrange(0, 50)
    }
}

/// The memo key of a failure: its kind, a short detail, and the fragment's profile.
pub open spec fn error_key(e: CompilationError, p: Profile) -> Seq<char> {
    (match e {
        CompilationError::SyntaxError { message, .. } => "syntax:"@ + truncated(message@),
        CompilationError::DependencyError { missing } => "deps:"@ + join_with(missing.deep_view(), ","@),
        CompilationError::FeatureError { unsupported } => "features:"@ + join_with(unsupported.deep_view(), ","@),
        CompilationError::TargetError { incompatible_target, .. } => "target:"@ + incompatible_target@,
        CompilationError::TimeoutError { .. } => "timeout"@,
        CompilationError::CompilationFailed { exit_code, .. } => "failed:"@ + signed_text(exit_code as int),
        CompilationError::IoError { .. } => "io"@,
    }) + ":"@ + profile_key(p)
}

pub(crate) fn push_profile_key(out: &mut Vec<char>, ctx: &ExampleContext)
    ensures
        final(out)@ == old(out)@ + profile_key(ctx@),
{
    let ghost base = out@;
    match ctx {
        ExampleContext::Std { features } => {
            push_str(out, "Std");
            push_str(out, "[");
            push_joined(out, features, ",");
            push_str(out, "]");
        },
        ExampleContext::NoStd { target, features } => {
            push_str(out, "NoStd(");
            push_str(out, target.as_str());
            push_str(out, ")");
            push_str(out, "[");
            push_joined(out, features, ",");
            push_str(out, "]");
        },
        ExampleContext::Hardware { platform, features } => {
            push_str(out, "Hardware(");
            push_str(out, platform.as_str());
            push_str(out, ")");
            push_str(out, "[");
            push_joined(out, features, ",");
            push_str(out, "]");
        },
        ExampleContext::Crypto { algorithm, features } => {
            push_str(out, "Crypto(");
            match algorithm {
                Some(a) => push_str(out, a.as_str()),
                None => {},
            }
            push_str(out, ")");
            push_str(out, "[");
            push_joined(out, features, ",");
            push_str(out, "]");
        },
        ExampleContext::Snippet { reason } => {
            push_str(out, "Snippet(");
            push_str(out, reason.as_str());
            push_str(out, ")");
        },
    }
    assert(out@ =~= base + profile_key(ctx@));
}

fn error_key_of(e: &CompilationError, ctx: &ExampleContext) -> (r: Vec<char>)
    ensures
        r@ == error_key(*e, ctx@),
{
    let mut out: Vec<char> = Vec::new();
    match e {
        CompilationError::SyntaxError { message, .. } => {
            push_str(&mut out, "syntax:");
            let m = chars_of(message.as_str());
            let k = if m.len() <= 50 { m.len() } else { 50 };
            let t = crate::text::slice_of(&m, 0, k);
            assert(m@.len() <= 50 ==> t@ =~= m@);
            push_all(&mut out, &t);
        },
        CompilationError::DependencyError { missing } => {
            push_str(&mut out, "deps:");
            push_joined(&mut out, missing, ",");
        },
        CompilationError::FeatureError { unsupported } => {
            push_str(&mut out, "features:");
            push_joined(&mut out, unsupported, ",");
        },
        CompilationError::TargetError { incompatible_target, .. } => {
            push_str(&mut out, "target:");
            push_str(&mut out, incompatible_target.as_str());
        },
        CompilationError::TimeoutError { .. } => {
            push_str(&mut out, "timeout");
        },
        CompilationError::CompilationFailed { exit_code, .. } => {
            push_str(&mut out, "failed:");
            crate::test_config::push_signed(&mut out, *exit_code);
        },
        CompilationError::IoError { .. } => {
            push_str(&mut out, "io");
        },
    }
    push_str(&mut out, ":");
    push_profile_key(&mut out, ctx);
    assert(out@ =~= error_key(*e, ctx@));
    out
}

fn names_contain(v: &Vec<String>, name: &str) -> (r: bool)
    ensures
        r == v.deep_view().contains(name@),
{
    let n = chars_of(name);
    names_contain_chars(v, &n)
}

fn names_contain_chars(v: &Vec<String>, n: &Vec<char>) -> (r: bool)
    ensures
        r == v.deep_view().contains(n@),
{
    let ghost dv = v.deep_view();
    let mut i: usize = 0;
    while i < v.len()
        invariant
            i <= v@.len(),
            dv == v.deep_view(),
            forall|j: int| 0 <= j < i ==> dv[j] != n@,
        decreases v.len() - i,
    {
        if equals(n, v[i].as_str()) {
            assert(dv[i as int] == n@);
            return true;
        }
        i = i + 1;
    }
    false
}

fn push_string(v: &mut Vec<String>, name: &str)
    ensures
        final(v).deep_view() == old(v).deep_view().push(name@),
{
    let ghost before = v.deep_view();
    v.push(owned(name));
    assert(v.deep_view() =~= before.push(name@));
}

fn push_optional_number(out: &mut Vec<char>, n: Option<usize>)
    ensures
        final(out)@ == old(out)@ + optional_number_text(n),
{
    let ghost base = out@;
    match n {
        Some(v) => {
            push_str(out, "Some(");
            push_decimal(out, v as u64);
            push_str(out, ")");
        },
        None => push_str(out, "None"),
    }
    assert(out@ =~= base + optional_number_text(n));
}

fn with_buckets(features: &mut Vec<String>, missing: &Vec<String>)
    ensures
        final(features).deep_view() == add_buckets(old(features).deep_view(), missing.deep_view()),
{
    let ghost f0 = features.deep_view();
    let ghost ms = missing.deep_view();
    let mut i: usize = 0;
    assert(ms.subrange(0, 0) =~= Seq::<Seq<char>>::empty());
    while i < missing.len()
        invariant
            i <= missing@.len(),
            ms == missing.deep_view(),
            features.deep_view() == add_buckets(f0, ms.subrange(0, i as int)),
        decreases missing.len() - i,
    {
        let d = chars_of(missing[i].as_str());
        assert(ms.subrange(0, i + 1).drop_last() =~= ms.subrange(0, i as int));
        if (contains(&d, "embedded") || contains(&d, "cortex") || contains(&d, "hal")) && !names_contain(features, "embedded") {
            push_string(features, "embedded");
        }
        if (contains(&d, "crypto") || contains(&d, "aes") || contains(&d, "sha")) && !names_contain(features, "crypto") {
            push_string(features, "crypto");
        }
        i = i + 1;
    }
    assert(ms.subrange(0, ms.len() as int) =~= ms);
}

fn all_listed_in(s: &Vec<String>, allow: &Vec<String>) -> (r: bool)
    ensures
        r == all_listed(s.deep_view(), allow.deep_view()),
{
    let ghost sv = s.deep_view();
    let mut i: usize = 0;
    while i < s.len()
        invariant
            i <= s@.len(),
            sv == s.deep_view(),
            forall|j: int| 0 <= j < i ==> allow.deep_view().contains(#[trigger] sv[j]),
        decreases s.len() - i,
    {
        let n = chars_of(s[i].as_str());
        if !names_contain_chars(allow, &n) {
            assert(sv[i as int] == n@);
            assert(!allow.deep_view().contains(sv[i as int]));
            return false;
        }
        i = i + 1;
    }
    true
}

fn drop_listed_of(s: &Vec<String>, deny: &Vec<String>) -> (r: Vec<String>)
    ensures
        r.deep_view() == drop_listed(s.deep_view(), deny.deep_view()),
{
    let ghost sv = s.deep_view();
    let mut out: Vec<String> = Vec::new();
    let mut i: usize = 0;
    assert(sv.subrange(0, 0) =~= Seq::<Seq<char>>::empty());
    assert(out.deep_view() =~= Seq::<Seq<char>>::empty());
    while i < s.len()
        invariant
            i <= s@.len(),
            sv == s.deep_view(),
            out.deep_view() == drop_listed(sv.subrange(0, i as int), deny.deep_view()),
        decreases s.len() - i,
    {
        assert(sv.subrange(0, i + 1).drop_last() =~= sv.subrange(0, i as int));
        let n = chars_of(s[i].as_str());
        let ghost before = out.deep_view();
        if !names_contain_chars(deny, &n) {
            out.push(s[i].clone());
            assert(out.deep_view() =~= before + seq![sv[i as int]]);
        } else {
            assert(out.deep_view() =~= before + Seq::<Seq<char>>::empty());
        }
        i = i + 1;
    }
    assert(sv.subrange(0, sv.len() as int) =~= sv);
    out
}

fn pick_fallback_of(fallbacks: &Vec<String>, failing: &String, attempted: &Vec<String>) -> (r: Option<String>)
    ensures
        r.deep_view() == pick_fallback(fallbacks.deep_view(), failing@, attempted.deep_view()),
{
    let ghost fv = fallbacks.deep_view();
    let fc = chars_of(failing.as_str());
    let mut i: usize = 0;
    assert(fv.subrange(0, fv.len() as int) =~= fv);
    while i < fallbacks.len()
        invariant
            i <= fv.len(),
            fv == fallbacks.deep_view(),
            fc@ == failing@,
            pick_fallback(fv, failing@, attempted.deep_view()) == pick_fallback(
                fv.subrange(i as int, fv.len() as int),
                failing@,
                attempted.deep_view(),
            ),
        decreases fv.len() - i,
    {
        let ghost rest = fv.subrange(i as int, fv.len() as int);
        assert(rest.drop_first() =~= fv.subrange(i + 1, fv.len() as int));
        let c = chars_of(fallbacks[i].as_str());
        if !equals(&fc, fallbacks[i].as_str()) && !names_contain_chars(attempted, &c) {
            return Some(fallbacks[i].clone());
        }
        i = i + 1;
    }
    None
}

fn incompatible_features_of(target: &String) -> (r: Vec<String>)
    ensures
        r.deep_view() == incompatible_features(target@),
{
    let t = chars_of(target.as_str());
    let mut v: Vec<String> = Vec::new();
    assert(v.deep_view() =~= Seq::<Seq<char>>::empty());
    if equals(&t, "x86_64-unknown-linux-gnu") {
        push_string(&mut v, "embedded");
        push_string(&mut v, "hardware");
        assert(v.deep_view() =~= seq!["embedded"@, "hardware"@]);
    } else if equals(&t, "thumbv7em-none-eabihf") || equals(&t, "thumbv6m-none-eabi") {
        push_string(&mut v, "std");
        assert(v.deep_view() =~= seq!["std"@]);
    }
    v
}


/// Decides how to recover from compilation failures, reusing one decision per error
/// signature.
#[derive(Debug)]
pub struct ErrorRecoveryManager {
    max_retries: usize,
    fallback_targets: Vec<String>,
    optional_features: Vec<String>,
    recovery_cache: Vec<(String, RecoveryAction)>,
}

/// The view of memoized decisions.
pub open spec fn memo_view(v: Seq<(String, RecoveryAction)>) -> Seq<(Seq<char>, ActionView)> {
    v.map_values(|e: (String, RecoveryAction)| (e.0@, e.1@))
}

/// A failure whose retry would not overflow the doubled time limit.
pub open spec fn error_in_range(e: CompilationError) -> bool {
    match e {
        CompilationError::TimeoutError { duration } => duration <= u64::MAX / 2,
        _ => true,
    }
}

impl ErrorRecoveryManager {
    /// The settings decisions are made with.
    pub closed spec fn settings(&self) -> Settings {
        Settings {
            max_retries: self.max_retries as nat,
            fallback_targets: self.fallback_targets.deep_view(),
            optional_features: self.optional_features.deep_view(),
        }
    }

    /// The decisions made so far, by memo key.
    pub closed spec fn memo(&self) -> Seq<(Seq<char>, ActionView)> {
        memo_view(self.recovery_cache@)
    }

    /// A manager with the given settings and no decisions yet.
    pub fn new(max_retries: usize, fallback_targets: Vec<String>, optional_features: Vec<String>) -> (r: ErrorRecoveryManager)
        ensures
            r.settings() == (Settings {
                max_retries: max_retries as nat,
                fallback_targets: fallback_targets.deep_view(),
                optional_features: optional_features.deep_view(),
            }),
            r.memo().len() == 0,
    {
        ErrorRecoveryManager { max_retries, fallback_targets, optional_features, recovery_cache: Vec::new() }
    }

    /// The default manager: three retries; the host target, then two Cortex-M targets, as
    /// fallbacks; `hardware`, `crypto-hardware` and `advanced` as features safe to disable.
    pub fn default_manager() -> (r: ErrorRecoveryManager)
        ensures
            r.settings() == (Settings {
                max_retries: 3,
                fallback_targets: seq!["x86_64-unknown-linux-gnu"@, "thumbv7em-none-eabihf"@, "thumbv6m-none-eabi"@],
                optional_features: seq!["hardware"@, "crypto-hardware"@, "advanced"@],
            }),
            r.memo().len() == 0,
    {
        let mut t: Vec<String> = Vec::new();
        push_string(&mut t, "x86_64-unknown-linux-gnu");
        push_string(&mut t, "thumbv7em-none-eabihf");
        push_string(&mut t, "thumbv6m-none-eabi");
        let mut f: Vec<String> = Vec::new();
        push_string(&mut f, "hardware");
        push_string(&mut f, "crypto-hardware");
        push_string(&mut f, "advanced");
        assert(t.deep_view() =~= seq!["x86_64-unknown-linux-gnu"@, "thumbv7em-none-eabihf"@, "thumbv6m-none-eabi"@]);
        assert(f.deep_view() =~= seq!["hardware"@, "crypto-hardware"@, "advanced"@]);
        ErrorRecoveryManager::new(3, t, f)
    }

    fn find(&self, key: &Vec<char>) -> (r: Option<usize>)
        ensures
            match r {
                Some(i) => i < self.recovery_cache@.len() && assoc_get(self.memo(), key@) == Some(self.memo()[i as int].1),
                None => assoc_get(self.memo(), key@) is None,
            },
    {
        let ghost m = self.memo();
        let mut i: usize = 0;
        while i < self.recovery_cache.len()
            invariant
                i <= self.recovery_cache@.len(),
                m == self.memo(),
                forall|j: int| 0 <= j < i ==> m[j].0 != key@,
            decreases self.recovery_cache.len() - i,
        {
            if equals(key, self.recovery_cache[i].0.as_str()) {
                proof {
                    lemma_assoc_at(m, key@, i as int);
                }
                return Some(i);
            }
            i = i + 1;
        }
        proof {
            lemma_assoc_none(m, key@);
        }
        None
    }

    /// The fresh decision for one failure, by `decision`.
    pub fn decide(&self, error: &CompilationError, code: &str, config: &TestConfig, retry_count: usize) -> (r: RecoveryAction)
        requires
            error_in_range(*error),
        ensures
            r@ == decision(self.settings(), *error, code@, config@, retry_count as nat),
    {
        let mut out: Vec<char> = Vec::new();
        match error {
            CompilationError::SyntaxError { message, line, column } => {
                if snippet_code_in(&chars_of(code)) {
                    push_str(&mut out, "Syntax error suggests incomplete code snippet: ");
                    push_str(&mut out, message.as_str());
                    return RecoveryAction::MarkAsSnippet { reason: string_of(&out) };
                }
                let m = chars_of(message.as_str());
                if contains(&m, "expected item") || contains(&m, "unexpected end of file") || contains(
                    &m,
                    "expected `fn`, `mod`, `struct`",
                ) {
                    return RecoveryAction::MarkAsSnippet {
                        reason: owned("Code appears to be a fragment rather than complete example"),
                    };
                }
                if retry_count >= self.max_retries {
                    push_str(&mut out, "Syntax error persists after ");
                    push_decimal(&mut out, retry_count as u64);
                    push_str(&mut out, " retries: ");
                    push_str(&mut out, message.as_str());
                } else {
                    push_str(&mut out, "Syntax error at line ");
                    push_optional_number(&mut out, *line);
                    push_str(&mut out, ", column ");
                    push_optional_number(&mut out, *column);
                    push_str(&mut out, ": ");
                    push_str(&mut out, message.as_str());
                }
                RecoveryAction::Skip { reason: string_of(&out) }
            },
            CompilationError::DependencyError { missing } => {
                if retry_count >= self.max_retries {
                    push_str(&mut out, "Missing dependencies after ");
                    push_decimal(&mut out, retry_count as u64);
                    push_str(&mut out, " retries: ");
                    push_joined(&mut out, missing, ", ");
                    return RecoveryAction::Skip { reason: string_of(&out) };
                }
                let mut new_config = config.clone_config();
                with_buckets(&mut new_config.features, missing);
                push_str(&mut out, "Adding features to resolve missing dependencies: ");
                push_joined(&mut out, missing, ", ");
                RecoveryAction::Retry { config: new_config, reason: string_of(&out) }
            },
            CompilationError::FeatureError { unsupported } => {
                if unsupported.len() > 0 && all_listed_in(unsupported, &self.optional_features) && retry_count < self.max_retries {
                    let mut new_config = config.clone_config();
                    new_config.features = drop_listed_of(&config.features, unsupported);
                    push_str(&mut out, "Disabling optional features: ");
                    push_joined(&mut out, unsupported, ", ");
                    return RecoveryAction::Retry { config: new_config, reason: string_of(&out) };
                }
                proof {
                    assert(unsupported@.len() == unsupported.deep_view().len());
                }
                push_str(&mut out, "Unsupported features required: ");
                push_joined(&mut out, unsupported, ", ");
                RecoveryAction::Skip { reason: string_of(&out) }
            },
            CompilationError::TargetError { incompatible_target, reason } => {
                match pick_fallback_of(&self.fallback_targets, incompatible_target, &config.targets) {
                    Some(t) => {
                        if retry_count < self.max_retries {
                            let disable_features = incompatible_features_of(&t);
                            return RecoveryAction::Fallback { target: t, disable_features };
                        }
                    },
                    None => {},
                }
                push_str(&mut out, "No compatible target found. Original error: ");
                push_str(&mut out, reason.as_str());
                RecoveryAction::Skip { reason: string_of(&out) }
            },
            CompilationError::TimeoutError { duration } => {
                if retry_count < self.max_retries {
                    let mut new_config = config.clone_config();
                    let doubled = *duration * 2;
                    new_config.compilation_timeout = doubled;
                    push_str(&mut out, "Increasing timeout from ");
                    crate::test_config::push_duration(&mut out, *duration);
                    push_str(&mut out, " to ");
                    crate::test_config::push_duration(&mut out, doubled);
                    RecoveryAction::Retry { config: new_config, reason: string_of(&out) }
                } else {
                    push_str(&mut out, "Compilation timeout after ");
                    crate::test_config::push_duration(&mut out, *duration);
                    push_str(&mut out, " (tried ");
                    push_decimal(&mut out, retry_count as u64);
                    push_str(&mut out, " times)");
                    RecoveryAction::Skip { reason: string_of(&out) }
                }
            },
            CompilationError::CompilationFailed { exit_code, message } => {
                let m = chars_of(message.as_str());
                if contains(&m, "cannot find function `main`") || contains(&m, "binary target") {
                    return RecoveryAction::MarkAsSnippet {
                        reason: owned("Code appears to be a library snippet without main function"),
                    };
                }
                if (contains(&m, "linker") || contains(&m, "undefined reference")) && retry_count < self.max_retries {
                    let mut d: Vec<String> = Vec::new();
                    push_string(&mut d, "embedded");
                    assert(d.deep_view() =~= seq!["embedded"@]);
                    return RecoveryAction::Fallback { target: owned("x86_64-unknown-linux-gnu"), disable_features: d };
                }
                push_str(&mut out, "Compilation failed (exit code ");
                crate::test_config::push_signed(&mut out, *exit_code);
                push_str(&mut out, "): ");
                push_str(&mut out, message.as_str());
                RecoveryAction::Skip { reason: string_of(&out) }
            },
            CompilationError::IoError { message } => {
                if retry_count < self.max_retries {
                    push_str(&mut out, "Retrying after I/O error: ");
                    push_str(&mut out, message.as_str());
                    RecoveryAction::Retry { config: TestConfig::default_config(), reason: string_of(&out) }
                } else {
                    push_str(&mut out, "Persistent I/O error: ");
                    push_str(&mut out, message.as_str());
                    RecoveryAction::Skip { reason: string_of(&out) }
                }
            },
        }
    }

    /// The recovery action for `error` on `example`. A failure with the same key decided before
    /// gets the remembered decision, unless that decision would try again (a retry or a
    /// fallback) and no attempts remain; otherwise the decision is made afresh, and remembered
    /// where the key is new. So a retry or a fallback comes only while attempts remain.
    pub fn determine_recovery_action(
        &mut self,
        error: &CompilationError,
        example: &CodeExample,
        config: &TestConfig,
        retry_count: usize,
    ) -> (r: RecoveryAction)
        requires
            error_in_range(*error),
        ensures
            final(self).settings() == old(self).settings(),
            match assoc_get(old(self).memo(), error_key(*error, example.context@)) {
                Some(a) => final(self).memo() == old(self).memo() && if retry_count < old(
                    self,
                ).settings().max_retries || !(a is Retry || a is Fallback) {
                    r@ == a
                } else {
                    r@ == decision(old(self).settings(), *error, example.code@, config@, retry_count as nat)
                },
                None => r@ == decision(old(self).settings(), *error, example.code@, config@, retry_count as nat)
                    && final(self).memo() == old(self).memo().push((error_key(*error, example.context@), r@)),
            },
            (r@ is Retry || r@ is Fallback) ==> retry_count < old(self).settings().max_retries,
    {
        let key = error_key_of(error, &example.context);
        match self.find(&key) {
            Some(i) => {
                let stored = &self.recovery_cache[i].1;
                let again = match stored {
                    RecoveryAction::Retry { .. } => true,
                    RecoveryAction::Fallback { .. } => true,
                    _ => false,
                };
                if retry_count < self.max_retries || !again {
                    return stored.clone_action();
                }
                let fresh = self.decide(error, example.code.as_str(), config, retry_count);
                proof {
                    lemma_retry_below_limit(self.settings(), *error, example.code@, config@, retry_count as nat);
                }
                return fresh;
            },
            None => {},
        }
        proof {
            lemma_retry_below_limit(self.settings(), *error, example.code@, config@, retry_count as nat);
        }
        let action = self.decide(error, example.code.as_str(), config, retry_count);
        let ghost before = self.memo();
        let stored = action.clone_action();
        self.recovery_cache.push((string_of(&key), stored));
        assert(self.memo() =~= before.push((key@, action@)));
        action
    }
}

impl RecoveryAction {
    /// A copy of this action.
    pub fn clone_action(&self) -> (r: RecoveryAction)
        ensures
            r@ == self@,
    {
        match self {
            RecoveryAction::Retry { config, reason } => RecoveryAction::Retry {
                config: config.clone_config(),
                reason: reason.clone(),
            },
            RecoveryAction::Skip { reason } => RecoveryAction::Skip { reason: reason.clone() },
            RecoveryAction::Fallback { target, disable_features } => RecoveryAction::Fallback {
                target: target.clone(),
                disable_features: crate::test_config::clone_names(disable_features),
            },
            RecoveryAction::MarkAsSnippet { reason } => RecoveryAction::MarkAsSnippet { reason: reason.clone() },
            RecoveryAction::Abort { message } => RecoveryAction::Abort { message: message.clone() },
        }
    }
}


impl ErrorRecoveryManager {
    /// How many retries a failure is given.
    pub fn max_retries(&self) -> (r: usize)
        ensures
            r == self.settings().max_retries,
    {
        self.max_retries
    }

    /// The targets tried in turn when one is unavailable.
    pub fn fallback_targets(&self) -> (r: &Vec<String>)
        ensures
            r.deep_view() == self.settings().fallback_targets,
    {
        &self.fallback_targets
    }
}

impl Default for ErrorRecoveryManager {
    fn default() -> (r: ErrorRecoveryManager)
        ensures
            r.settings() == (Settings {
                max_retries: 3,
                fallback_targets: seq!["x86_64-unknown-linux-gnu"@, "thumbv7em-none-eabihf"@, "thumbv6m-none-eabi"@],
                optional_features: seq!["hardware"@, "crypto-hardware"@, "advanced"@],
            }),
            r.memo().len() == 0,
    {
        ErrorRecoveryManager::default_manager()
    }
}


/// One compilation attempt of a fragment: its number (from zero), its target and configuration.
#[derive(Debug)]
pub struct Attempt {
    pub number: usize,
    pub target: String,
    pub config: TestConfig,
}

/// What follows a failed attempt.
#[derive(Debug)]
pub enum AttemptStep {
    /// Compile again; `recovery_type` names the kind of recovery for the report.
    Again { attempt: Attempt, recovery_type: String },
    /// Give the fragment up; the report records it as skipped with this reason.
    Skipped { reason: String },
    /// The report records the fragment as an excerpt with this reason.
    Snippet { reason: String },
    /// Stop the run.
    Abort { message: String },
}

/// The kind of recovery a retry after `e` counts as.
pub open spec fn retry_kind(e: CompilationError) -> Seq<char> {
    match e {
        CompilationError::TimeoutError { .. } => "timeout_extend"@,
        CompilationError::FeatureError { .. } => "feature_disable"@,
        _ => "retry"@,
    }
}

/// The step that a recovery action gives after attempt `number` with `target` and `config`.
pub open spec fn step_matches(step: AttemptStep, action: ActionView, e: CompilationError, number: nat, target: Seq<char>, config: ConfigView) -> bool {
    match action {
        ActionView::Retry { config: c, .. } => step matches AttemptStep::Again { attempt, recovery_type }
            && attempt.number == number + 1 && attempt.target@ == target
            && attempt.config@ == (ConfigView { work_dir: config.work_dir, ..c })
            && recovery_type@ == retry_kind(e),
        ActionView::Fallback { target: t, disable_features: d } => step matches AttemptStep::Again {
            attempt,
            recovery_type,
        } && attempt.number == number + 1 && attempt.target@ == t
            && attempt.config@ == (ConfigView { features: drop_listed(config.features, d), ..config })
            && recovery_type@ == "fallback"@,
        ActionView::Skip { reason } => step matches AttemptStep::Skipped { reason: r } && r@ == reason,
        ActionView::MarkAsSnippet { reason } => step matches AttemptStep::Snippet { reason: r } && r@ == reason,
        ActionView::Abort { message } => step matches AttemptStep::Abort { message: m } && m@ == message,
    }
}

impl ErrorRecoveryManager {
    /// After attempt `a` of `example` failed with `error`: the recovery action (as
    /// `determine_recovery_action` gives it) and the step it leads to. A new attempt is
    /// numbered one more and never past `max_retries`; a retry takes the action's configuration
    /// in the same working directory; a fallback changes the target and turns off the
    /// features the action names.
    pub fn next_attempt(&mut self, a: &Attempt, error: &CompilationError, example: &CodeExample) -> (r: (RecoveryAction, AttemptStep))
        requires
            error_in_range(*error),
        ensures
            final(self).settings() == old(self).settings(),
            match assoc_get(old(self).memo(), error_key(*error, example.context@)) {
                Some(m) => final(self).memo() == old(self).memo() && if a.number < old(self).settings().max_retries
                    || !(m is Retry || m is Fallback) {
                    r.0@ == m
                } else {
                    r.0@ == decision(old(self).settings(), *error, example.code@, a.config@, a.number as nat)
                },
                None => r.0@ == decision(old(self).settings(), *error, example.code@, a.config@, a.number as nat)
                    && final(self).memo() == old(self).memo().push((error_key(*error, example.context@), r.0@)),
            },
            step_matches(r.1, r.0@, *error, a.number as nat, a.target@, a.config@),
            r.1 matches AttemptStep::Again { attempt, .. } ==> attempt.number <= old(self).settings().max_retries,
    {
        let action = self.determine_recovery_action(error, example, &a.config, a.number);
        let step = match &action {
            RecoveryAction::Retry { config, .. } => {
                let mut c = config.clone_config();
                c.work_dir = a.config.work_dir.clone();
                let kind = match error {
                    CompilationError::TimeoutError { .. } => owned("timeout_extend"),
                    CompilationError::FeatureError { .. } => owned("feature_disable"),
                    _ => owned("retry"),
                };
                AttemptStep::Again {
                    attempt: Attempt { number: a.number + 1, target: a.target.clone(), config: c },
                    recovery_type: kind,
                }
            },
            RecoveryAction::Fallback { target, disable_features } => {
                let mut c = a.config.clone_config();
                c.features = drop_listed_of(&a.config.features, disable_features);
                AttemptStep::Again {
                    attempt: Attempt { number: a.number + 1, target: target.clone(), config: c },
                    recovery_type: owned("fallback"),
                }
            },
            RecoveryAction::Skip { reason } => AttemptStep::Skipped { reason: reason.clone() },
            RecoveryAction::MarkAsSnippet { reason } => AttemptStep::Snippet { reason: reason.clone() },
            RecoveryAction::Abort { message } => AttemptStep::Abort { message: message.clone() },
        };
        (action, step)
    }
}

} // verus!
