//! Build dependencies that fragments need, from a static catalog.
use vstd::prelude::*;
use crate::extractor::{CodeExample, ExampleContext, Profile, profile_features};
use crate::sorted::{insert_sorted, lemma_is_sorted_list, sorted_list, strictly_sorted, strings_of};
use crate::test_config::{join_with, push_joined};
use crate::text::{
    before_first, begins, chars_of, contains, equals, first_occurrence, first_word, first_word_of, hyphenate,
    hyphenated, lines, occurs, owned, push_all, push_str, slice_of, split_lines, starts_with, string_of,
    trim, trim_end_char, trim_end_of, trimmed, views,
};

verus! {

/// A package that a fragment depends on.
#[derive(Debug, Clone)]
pub struct Dependency {
    pub name: String,
    /// The version requirement.
    pub version: String,
    pub features: Vec<String>,
    pub optional: bool,
    /// The one target triple the dependency is restricted to, if any.
    pub target: Option<String>,
    pub default_features: bool,
}

/// A dependency as plain values.
pub ghost struct DependencyView {
    pub name: Seq<char>,
    pub version: Seq<char>,
    pub features: Seq<Seq<char>>,
    pub optional: bool,
    pub target: Option<Seq<char>>,
    pub default_features: bool,
}

impl View for Dependency {
    type V = DependencyView;

    open spec fn view(&self) -> DependencyView {
        DependencyView {
            name: self.name@,
            version: self.version@,
            features: self.features.deep_view(),
            optional: self.optional,
            target: self.target.deep_view(),
            default_features: self.default_features,
        }
    }
}

/// `s` in double quotes.
pub open spec fn quoted(s: Seq<char>) -> Seq<char> {
    "\""@ + s + "\""@
}

/// The manifest value of a dependency: the quoted version alone where nothing else is set,
/// an inline table otherwise.
pub open spec fn toml_value(d: DependencyView) -> Seq<char> {
    if d.features.len() == 0 && d.default_features && !d.optional && d.target is None {
        quoted(d.version)
    } else {
        "{ "@ + "version = "@ + quoted(d.version) + (if !d.default_features {
            ", default-features = false"@
        } else {
            Seq::empty()
        }) + (if d.features.len() > 0 {
            ", features = ["@ + join_with(d.features.map_values(|f: Seq<char>| quoted(f)), ", "@) + "]"@
        } else {
            Seq::empty()
        }) + (if d.optional {
            ", optional = true"@
        } else {
            Seq::empty()
        }) + " }"@
    }
}

fn push_quoted_list(out: &mut Vec<char>, items: &Vec<String>)
    ensures
        final(out)@ == old(out)@ + join_with(items.deep_view().map_values(|f: Seq<char>| quoted(f)), ", "@),
{
    let ghost base = out@;
    let ghost all = items.deep_view().map_values(|f: Seq<char>| quoted(f));
    let mut i: usize = 0;
    assert(all.subrange(0, 0) =~= Seq::<Seq<char>>::empty());
    assert(base =~= base + join_with(all.subrange(0, 0), ", "@));
    while i < items.len()
        invariant
            i <= items.len(),
            all == items.deep_view().map_values(|f: Seq<char>| quoted(f)),
            out@ == base + join_with(all.subrange(0, i as int), ", "@),
        decreases items.len() - i,
    {
        let ghost sub = all.subrange(0, i as int + 1);
        assert(sub.drop_last() =~= all.subrange(0, i as int));
        let ghost before = out@;
        if i > 0 {
            push_str(out, ", ");
        } else {
            assert(sub =~= seq![all[0]]);
        }
        let ghost mid = out@;
        push_str(out, "\"");
        push_str(out, items[i].as_str());
        push_str(out, "\"");
        assert(out@ =~= mid + quoted(items@[i as int]@));
        i = i + 1;
        assert(out@ =~= base + join_with(all.subrange(0, i as int), ", "@));
    }
    assert(all.subrange(0, all.len() as int) =~= all);
}

impl Dependency {
    /// A required dependency with default features and no feature list.
    pub fn new(name: &str, version: &str) -> (r: Dependency)
        ensures
            r@ == (DependencyView {
                name: name@,
                version: version@,
                features: Seq::empty(),
                optional: false,
                target: None,
                default_features: true,
            }),
    {
        let r = Dependency {
            name: owned(name),
            version: owned(version),
            features: Vec::new(),
            optional: false,
            target: None,
            default_features: true,
        };
        assert(r.features.deep_view() =~= Seq::<Seq<char>>::empty());
        r
    }

    /// This dependency with its feature list replaced.
    pub fn with_features(self, features: Vec<String>) -> (r: Dependency)
        ensures
            r@ == (DependencyView { features: features.deep_view(), ..self@ }),
    {
        let mut d = self;
        d.features = features;
        d
    }

    /// This dependency marked optional.
    pub fn optional(self) -> (r: Dependency)
        ensures
            r@ == (DependencyView { optional: true, ..self@ }),
    {
        let mut d = self;
        d.optional = true;
        d
    }

    /// This dependency restricted to one target triple.
    pub fn for_target(self, target: &str) -> (r: Dependency)
        ensures
            r@ == (DependencyView { target: Some(target@), ..self@ }),
    {
        let mut d = self;
        d.target = Some(owned(target));
        d
    }

    /// This dependency with default features disabled.
    pub fn no_default_features(self) -> (r: Dependency)
        ensures
            r@ == (DependencyView { default_features: false, ..self@ }),
    {
        let mut d = self;
        d.default_features = false;
        d
    }

    /// The manifest value of this dependency.
    pub fn to_toml_value(&self) -> (r: String)
        ensures
            r@ == toml_value(self@),
    {
        let mut out: Vec<char> = Vec::new();
        if self.features.len() == 0 && self.default_features && !self.optional && self.target.is_none() {
            push_str(&mut out, "\"");
            push_str(&mut out, self.version.as_str());
            push_str(&mut out, "\"");
        } else {
            push_str(&mut out, "{ ");
            push_str(&mut out, "version = ");
            push_str(&mut out, "\"");
            push_str(&mut out, self.version.as_str());
            push_str(&mut out, "\"");
            if !self.default_features {
                push_str(&mut out, ", default-features = false");
            }
            if self.features.len() > 0 {
                push_str(&mut out, ", features = [");
                push_quoted_list(&mut out, &self.features);
                push_str(&mut out, "]");
            }
            if self.optional {
                push_str(&mut out, ", optional = true");
            }
            push_str(&mut out, " }");
        }
        assert(out@ =~= toml_value(self@));
        string_of(&out)
    }
}

/// Path roots that name no outside package.
pub open spec fn is_local_root(n: Seq<char>) -> bool {
    n == "std"@ || n == "core"@ || n == "alloc"@ || n == "self"@ || n == "super"@ || n == "crate"@
}

/// The package that a `use` line names: the first word of its first path segment, without
/// trailing semicolons, with `_` written `-`; none for a line that is not a `use` line, has
/// no word, or names a local root.
pub open spec fn crate_of_use(line: Seq<char>) -> Option<Seq<char>> {
    if !begins(line, "use "@) {
        None
    } else {
        let content = line.subrange(4, line.len() as int);
        let first = content.subrange(0, first_occurrence(content, "::"@));
        match first_word(first) {
            None => None,
            Some(w) => {
                let n = hyphenated(trim_end_char(w, ';'));
                if is_local_root(n) {
                    None
                } else {
                    Some(n)
                }
            },
        }
    }
}

/// The package an `extern crate` line names, if it names one.
pub open spec fn crate_of_extern(line: Seq<char>) -> Option<Seq<char>> {
    if !begins(line, "extern crate "@) {
        None
    } else {
        let rest = line.subrange(13, line.len() as int);
        let n = match first_word(rest) {
            Some(w) => trim_end_char(w, ';'),
            None => Seq::empty(),
        };
        if n.len() == 0 {
            None
        } else {
            Some(n)
        }
    }
}

/// A trimmed line that imports from outside the standard library.
pub open spec fn outside_use(t: Seq<char>) -> bool {
    begins(t, "use "@) && !begins(t, "use std::"@) && !begins(t, "use core::"@) && !begins(t, "use alloc::"@)
}

/// The package named by one trimmed line, by `use` or by `extern crate`.
pub open spec fn crates_of_line(t: Seq<char>) -> Set<Seq<char>> {
    Set::new(
        |n: Seq<char>|
            (outside_use(t) && crate_of_use(t) == Some(n)) || crate_of_extern(t) == Some(n),
    )
}

/// The packages that the first `k` implicit markers of `code` imply, in order.
pub open spec fn implied_by(code: Seq<char>, k: nat) -> Seq<Seq<char>>
    decreases k,
{
    if k == 0 {
        Seq::empty()
    } else {
        implied_by(code, (k - 1) as nat) + marker_name(code, (k - 1) as nat)
    }
}

/// The package that implicit marker `k` of `code` implies, if the marker is present.
pub open spec fn marker_name(code: Seq<char>, k: nat) -> Seq<Seq<char>> {
    if k == 0 {
        if occurs(code, "#[panic_handler]"@) || occurs(code, "panic_halt"@) { seq!["panic-halt"@] } else { seq![] }
    } else if k == 1 {
        if occurs(code, "panic_abort"@) { seq!["panic-abort"@] } else { seq![] }
    } else if k == 2 {
        if occurs(code, "#[entry]"@) || occurs(code, "cortex_m_rt::entry"@) { seq!["cortex-m-rt"@] } else { seq![] }
    } else if k == 3 {
        if occurs(code, "embedded_hal"@) { seq!["embedded-hal"@] } else { seq![] }
    } else if k == 4 {
        if occurs(code, "stm32f4"@) || occurs(code, "STM32F4"@) { seq!["stm32f4xx-hal"@] } else { seq![] }
    } else if k == 5 {
        if occurs(code, "stm32f3"@) || occurs(code, "STM32F3"@) { seq!["stm32f3xx-hal"@] } else { seq![] }
    } else if k == 6 {
        if occurs(code, "nrf52"@) || occurs(code, "NRF52"@) { seq!["nrf52840-hal"@] } else { seq![] }
    } else if k == 7 {
        if occurs(code, "Aes"@) || occurs(code, "aes::"@) { seq!["aes"@] } else { seq![] }
    } else if k == 8 {
        if occurs(code, "Sha"@) || occurs(code, "sha2::"@) { seq!["sha2"@] } else { seq![] }
    } else if k == 9 {
        if occurs(code, "ChaCha"@) || occurs(code, "chacha20::"@) { seq!["chacha20"@] } else { seq![] }
    } else if k == 10 {
        if occurs(code, "Ed25519"@) || occurs(code, "ed25519"@) { seq!["ed25519-dalek"@] } else { seq![] }
    } else if k == 11 {
        if occurs(code, "rand::"@) || occurs(code, "Rng"@) { seq!["rand"@] } else { seq![] }
    } else if k == 12 {
        if occurs(code, "rand_core::"@) || occurs(code, "RngCore"@) { seq!["rand_core"@] } else { seq![] }
    } else {
        seq![]
    }
}

/// The packages that markers in `code` imply, in the order they are tested.
pub open spec fn implicit_names(code: Seq<char>) -> Seq<Seq<char>> {
    implied_by(code, 13)
}

/// Every package that `code` needs: those its lines import and those its markers imply.
pub open spec fn detected_set(code: Seq<char>) -> Set<Seq<char>> {
    Set::new(
        |n: Seq<char>|
            (exists|i: int| 0 <= i < lines(code).len() && #[trigger] crates_of_line(trim(lines(code)[i])).contains(n))
                || implicit_names(code).contains(n),
    )
}

/// The packages that `code` needs, sorted and without duplicates.
pub open spec fn detected(code: Seq<char>) -> Seq<Seq<char>> {
    sorted_list(detected_set(code))
}

fn push_name(v: &mut Vec<String>, name: &str)
    ensures
        final(v).deep_view() == old(v).deep_view().push(name@),
{
    let ghost before = v.deep_view();
    let s = owned(name);
    v.push(s);
    assert(v.deep_view() =~= before.push(name@));
}


/// The first value filed under `k`.
pub open spec fn assoc_get<V>(es: Seq<(Seq<char>, V)>, k: Seq<char>) -> Option<V>
    decreases es.len(),
{
    if es.len() == 0 {
        None
    } else if es[0].0 == k {
        Some(es[0].1)
    } else {
        assoc_get(es.drop_first(), k)
    }
}

pub proof fn lemma_assoc_at<V>(es: Seq<(Seq<char>, V)>, k: Seq<char>, i: int)
    requires
        0 <= i < es.len(),
        es[i].0 == k,
        forall|j: int| 0 <= j < i ==> es[j].0 != k,
    ensures
        assoc_get(es, k) == Some(es[i].1),
    decreases i,
{
    if i > 0 {
        lemma_assoc_at(es.drop_first(), k, i - 1);
    }
}

pub proof fn lemma_assoc_none<V>(es: Seq<(Seq<char>, V)>, k: Seq<char>)
    requires
        forall|j: int| 0 <= j < es.len() ==> es[j].0 != k,
    ensures
        assoc_get(es, k) is None,
    decreases es.len(),
{
    if es.len() > 0 {
        lemma_assoc_none(es.drop_first(), k);
    }
}

/// What the catalog knows of a package.
#[derive(Debug, Clone)]
pub struct DependencyInfo {
    /// The version requirement to use.
    pub version: String,
    /// Features to enable, by profile: `std`, `no_std`, `hardware` or `crypto`.
    pub default_features: Vec<(String, Vec<String>)>,
    /// Whether default features are disabled outside a full runtime.
    pub no_default_features: bool,
    /// Target triples the package is meant for; non-empty means it is restricted to one.
    pub targets: Vec<String>,
}

/// A catalog entry as plain values.
pub ghost struct InfoView {
    pub version: Seq<char>,
    pub context_features: Seq<(Seq<char>, Seq<Seq<char>>)>,
    pub no_default_features: bool,
    pub targets: Seq<Seq<char>>,
}

impl View for DependencyInfo {
    type V = InfoView;

    open spec fn view(&self) -> InfoView {
        InfoView {
            version: self.version@,
            context_features: self.default_features.deep_view(),
            no_default_features: self.no_default_features,
            targets: self.targets.deep_view(),
        }
    }
}

/// The packages the resolver knows from the start, with their settings.
pub open spec fn default_catalog() -> Seq<(Seq<char>, InfoView)> {
    seq![
        ("heapless"@, InfoView { version: "0.8"@, context_features: seq![], no_default_features: false, targets: seq!["thumbv*"@] }),
        ("cortex-m"@, InfoView { version: "0.7"@, context_features: seq![], no_default_features: false, targets: seq!["thumbv*"@] }),
        ("cortex-m-rt"@, InfoView { version: "0.7"@, context_features: seq![], no_default_features: false, targets: seq!["thumbv*"@] }),
        ("embedded-hal"@, InfoView { version: "1.0"@, context_features: seq![], no_default_features: false, targets: seq!["thumbv*"@] }),
        ("panic-halt"@, InfoView { version: "0.2"@, context_features: seq![], no_default_features: false, targets: seq!["thumbv*"@] }),
        ("panic-abort"@, InfoView { version: "0.3"@, context_features: seq![], no_default_features: false, targets: seq!["thumbv*"@] }),
        ("zeroize"@, InfoView { version: "1.7"@, context_features: seq![("std"@, seq!["derive"@]), ("crypto"@, seq!["derive"@])], no_default_features: false, targets: seq![] }),
        ("aes"@, InfoView { version: "0.8"@, context_features: seq![], no_default_features: true, targets: seq![] }),
        ("sha2"@, InfoView { version: "0.10"@, context_features: seq![], no_default_features: true, targets: seq![] }),
        ("chacha20"@, InfoView { version: "0.9"@, context_features: seq![], no_default_features: true, targets: seq![] }),
        ("ed25519-dalek"@, InfoView { version: "2.0"@, context_features: seq![], no_default_features: true, targets: seq![] }),
        ("rand"@, InfoView { version: "0.8"@, context_features: seq![("std"@, seq!["std"@]), ("no_std"@, seq!["small_rng"@])], no_default_features: false, targets: seq![] }),
        ("rand_core"@, InfoView { version: "0.6"@, context_features: seq![], no_default_features: true, targets: seq![] }),
        ("stm32f4xx-hal"@, InfoView { version: "0.19"@, context_features: seq![("hardware"@, seq!["stm32f407"@])], no_default_features: false, targets: seq!["thumbv7em-none-eabihf"@] }),
        ("stm32f3xx-hal"@, InfoView { version: "0.10"@, context_features: seq![("hardware"@, seq!["stm32f303xc"@])], no_default_features: false, targets: seq!["thumbv7em-none-eabihf"@] }),
        ("nrf52840-hal"@, InfoView { version: "0.16"@, context_features: seq![], no_default_features: false, targets: seq!["thumbv7em-none-eabihf"@] }),
    ]
}

/// The catalog key of a profile's feature defaults.
pub open spec fn context_key(p: Profile) -> Seq<char> {
    match p {
        Profile::Std { .. } => "std"@,
        Profile::NoStd { .. } => "no_std"@,
        Profile::Hardware { .. } => "hardware"@,
        Profile::Crypto { .. } => "crypto"@,
        Profile::Snippet { .. } => ""@,
    }
}

/// The dependency on package `name` for a fragment of profile `p`. A known package takes its
/// version, the catalog's features for the profile together with the fragment's own
/// (sorted, without duplicates), default features off where the catalog says so outside a
/// full runtime, and the fragment's target where the package is restricted and the profile
/// is minimal-runtime. An unknown package takes the wildcard version `*`, with default features off for
/// minimal-runtime and hardware profiles.
pub open spec fn resolve_one(info: Option<InfoView>, name: Seq<char>, p: Profile) -> DependencyView {
    match info {
        Some(i) => {
            let base = match assoc_get(i.context_features, context_key(p)) {
                Some(f) => f,
                None => Seq::empty(),
            };
            DependencyView {
                name,
                version: i.version,
                features: sorted_list(base.to_set() + profile_features(p).to_set()),
                optional: false,
                target: match p {
                    Profile::NoStd { target, .. } => if i.targets.len() > 0 {
                        Some(target)
                    } else {
                        None
                    },
                    _ => None,
                },
                default_features: !(i.no_default_features && !(p is Std)),
            }
        },
        None => DependencyView {
            name,
            version: "*"@,
            features: Seq::empty(),
            optional: false,
            target: None,
            default_features: !(p is NoStd || p is Hardware),
        },
    }
}

/// The dependencies of a fragment: none for an excerpt, else one for each package it needs,
/// in name order.
pub open spec fn resolution(catalog: Seq<(Seq<char>, InfoView)>, code: Seq<char>, p: Profile) -> Seq<DependencyView> {
    if p is Snippet {
        Seq::empty()
    } else {
        detected(code).map_values(|n: Seq<char>| resolve_one(assoc_get(catalog, n), n, p))
    }
}

/// The views of a list of dependencies.
pub open spec fn dependency_views(v: Seq<Dependency>) -> Seq<DependencyView> {
    v.map_values(|d: Dependency| d@)
}

/// Infers and resolves the dependencies of fragments.
pub struct DependencyResolver {
    dependency_catalog: Vec<(String, DependencyInfo)>,
}

fn add_entry(
    catalog: &mut Vec<(String, DependencyInfo)>,
    name: &str,
    version: &str,
    context_features: Vec<(String, Vec<String>)>,
    no_default_features: bool,
    targets: Vec<String>,
)
    ensures
        catalog_view(final(catalog)@) == catalog_view(old(catalog)@).push(
            (
                name@,
                InfoView {
                    version: version@,
                    context_features: context_features.deep_view(),
                    no_default_features,
                    targets: targets.deep_view(),
                },
            ),
        ),
{
    let ghost before = catalog_view(catalog@);
    let info = DependencyInfo { version: owned(version), default_features: context_features, no_default_features, targets };
    catalog.push((owned(name), info));
    assert(catalog_view(catalog@) =~= before.push((name@, info@)));
}

fn no_names() -> (r: Vec<String>)
    ensures
        r.deep_view() == Seq::<Seq<char>>::empty(),
{
    let r: Vec<String> = Vec::new();
    assert(r.deep_view() =~= Seq::<Seq<char>>::empty());
    r
}

fn one_name(a: &str) -> (r: Vec<String>)
    ensures
        r.deep_view() == seq![a@],
{
    let mut r: Vec<String> = Vec::new();
    r.push(owned(a));
    assert(r.deep_view() =~= seq![a@]);
    r
}

fn ctx_none() -> (r: Vec<(String, Vec<String>)>)
    ensures
        r.deep_view() == Seq::<(Seq<char>, Seq<Seq<char>>)>::empty(),
{
    let r: Vec<(String, Vec<String>)> = Vec::new();
    assert(r.deep_view() =~= Seq::<(Seq<char>, Seq<Seq<char>>)>::empty());
    r
}

fn ctx_one(k: &str, a: &str) -> (r: Vec<(String, Vec<String>)>)
    ensures
        r.deep_view() == seq![(k@, seq![a@])],
{
    let mut r: Vec<(String, Vec<String>)> = Vec::new();
    let e = (owned(k), one_name(a));
    r.push(e);
    assert(r.deep_view() =~= seq![(k@, seq![a@])]);
    r
}

fn ctx_two(k1: &str, a1: &str, k2: &str, a2: &str) -> (r: Vec<(String, Vec<String>)>)
    ensures
        r.deep_view() == seq![(k1@, seq![a1@]), (k2@, seq![a2@])],
{
    let mut r: Vec<(String, Vec<String>)> = Vec::new();
    r.push((owned(k1), one_name(a1)));
    r.push((owned(k2), one_name(a2)));
    assert(r.deep_view() =~= seq![(k1@, seq![a1@]), (k2@, seq![a2@])]);
    r
}

/// The view of a list of catalog entries.
pub open spec fn catalog_view(v: Seq<(String, DependencyInfo)>) -> Seq<(Seq<char>, InfoView)> {
    v.map_values(|e: (String, DependencyInfo)| (e.0@, e.1@))
}

/// Adds every name of `items` to the sorted list `v`.
fn add_all(v: &mut Vec<Vec<char>>, items: &[String])
    requires
        strictly_sorted(views(old(v)@)),
    ensures
        strictly_sorted(views(final(v)@)),
        views(final(v)@).to_set() == views(old(v)@).to_set() + items@.map_values(|f: String| f@).to_set(),
{
    let ghost base = views(v@).to_set();
    let ghost all = items@.map_values(|f: String| f@);
    let mut i: usize = 0;
    while i < items.len()
        invariant
            i <= items@.len(),
            all == items@.map_values(|f: String| f@),
            strictly_sorted(views(v@)),
            views(v@).to_set() == base + all.subrange(0, i as int).to_set(),
        decreases items.len() - i,
    {
        let ghost before = views(v@).to_set();
        insert_sorted(v, chars_of(items[i].as_str()));
        assert(all.subrange(0, i + 1).to_set() =~= all.subrange(0, i as int).to_set().insert(all[i as int])) by {
            assert(all.subrange(0, i + 1) =~= all.subrange(0, i as int).push(all[i as int]));
            all.subrange(0, i as int).lemma_push_to_set_commute(all[i as int]);
        }
        i = i + 1;
        assert(views(v@).to_set() =~= base + all.subrange(0, i as int).to_set());
    }
    assert(all.subrange(0, all.len() as int) =~= all);
}

impl DependencyResolver {
    /// A resolver holding the default catalog.
    pub fn new() -> (r: DependencyResolver)
        ensures
            r.catalog() == default_catalog(),
    {
        let mut catalog: Vec<(String, DependencyInfo)> = Vec::new();
        add_entry(&mut catalog, "heapless", "0.8", ctx_none(), false, one_name("thumbv*"));
        add_entry(&mut catalog, "cortex-m", "0.7", ctx_none(), false, one_name("thumbv*"));
        add_entry(&mut catalog, "cortex-m-rt", "0.7", ctx_none(), false, one_name("thumbv*"));
        add_entry(&mut catalog, "embedded-hal", "1.0", ctx_none(), false, one_name("thumbv*"));
        add_entry(&mut catalog, "panic-halt", "0.2", ctx_none(), false, one_name("thumbv*"));
        add_entry(&mut catalog, "panic-abort", "0.3", ctx_none(), false, one_name("thumbv*"));
        add_entry(&mut catalog, "zeroize", "1.7", ctx_two("std", "derive", "crypto", "derive"), false, no_names());
        add_entry(&mut catalog, "aes", "0.8", ctx_none(), true, no_names());
        add_entry(&mut catalog, "sha2", "0.10", ctx_none(), true, no_names());
        add_entry(&mut catalog, "chacha20", "0.9", ctx_none(), true, no_names());
        add_entry(&mut catalog, "ed25519-dalek", "2.0", ctx_none(), true, no_names());
        add_entry(&mut catalog, "rand", "0.8", ctx_two("std", "std", "no_std", "small_rng"), false, no_names());
        add_entry(&mut catalog, "rand_core", "0.6", ctx_none(), true, no_names());
        add_entry(&mut catalog, "stm32f4xx-hal", "0.19", ctx_one("hardware", "stm32f407"), false, one_name("thumbv7em-none-eabihf"));
        add_entry(&mut catalog, "stm32f3xx-hal", "0.10", ctx_one("hardware", "stm32f303xc"), false, one_name("thumbv7em-none-eabihf"));
        add_entry(&mut catalog, "nrf52840-hal", "0.16", ctx_none(), false, one_name("thumbv7em-none-eabihf"));
        let r = DependencyResolver { dependency_catalog: catalog };
        assert(r.catalog() =~= default_catalog());
        r
    }

    /// The catalog as plain values.
    pub closed spec fn catalog(&self) -> Seq<(Seq<char>, InfoView)> {
        catalog_view(self.dependency_catalog@)
    }

    fn find(&self, name: &Vec<char>) -> (r: Option<usize>)
        ensures
            match r {
                Some(i) => i < self.dependency_catalog@.len() && assoc_get(self.catalog(), name@) == Some(
                    self.catalog()[i as int].1,
                ) && self.catalog()[i as int].0 == name@ && (forall|j: int|
                    0 <= j < i ==> self.catalog()[j].0 != name@),
                None => assoc_get(self.catalog(), name@) is None,
            },
    {
        let ghost cat = self.catalog();
        let mut i: usize = 0;
        while i < self.dependency_catalog.len()
            invariant
                i <= self.dependency_catalog@.len(),
                cat == self.catalog(),
                forall|j: int| 0 <= j < i ==> cat[j].0 != name@,
            decreases self.dependency_catalog.len() - i,
        {
            let n = chars_of(self.dependency_catalog[i].0.as_str());
            if crate::sorted::compare(&n, name) == 0 {
                proof {
                    lemma_assoc_at(cat, name@, i as int);
                }
                return Some(i);
            }
            i = i + 1;
        }
        proof {
            lemma_assoc_none(cat, name@);
        }
        None
    }

    /// Files `info` under `name`, replacing what the catalog held for it.
    pub fn add_dependency_info(&mut self, name: String, info: DependencyInfo)
        ensures
            assoc_get(final(self).catalog(), name@) == Some(info@),
            forall|k: Seq<char>| k != name@ ==> assoc_get(final(self).catalog(), k) == assoc_get(old(self).catalog(), k),
    {
        let ghost cat = self.catalog();
        let key = chars_of(name.as_str());
        match self.find(&key) {
            Some(i) => {
                self.dependency_catalog.set(i, (name, info));
                proof {
                    let ns = self.catalog();
                    assert(ns =~= cat.update(i as int, (name@, info@)));
                    assert forall|k: Seq<char>| k != name@ implies assoc_get(ns, k) == assoc_get(cat, k) by {
                        lemma_assoc_update(cat, i as int, info@, k);
                    }
                    assert forall|j: int| 0 <= j < i implies ns[j].0 != name@ by {
                        assert(ns[j] == cat[j]);
                    }
                    lemma_assoc_at(ns, name@, i as int);
                }
            },
            None => {
                self.dependency_catalog.insert(0, (name, info));
                proof {
                    let ns = self.catalog();
                    assert(ns =~= seq![(name@, info@)] + cat);
                    assert(ns.drop_first() =~= cat);
                }
            },
        }
    }

    /// The names the catalog knows, in catalog order.
    pub fn known_dependencies(&self) -> (r: Vec<String>)
        ensures
            r.deep_view() == self.catalog().map_values(|e: (Seq<char>, InfoView)| e.0),
    {
        let mut out: Vec<String> = Vec::new();
        let mut i: usize = 0;
        while i < self.dependency_catalog.len()
            invariant
                i <= self.dependency_catalog@.len(),
                out.deep_view() =~= self.catalog().map_values(|e: (Seq<char>, InfoView)| e.0).subrange(0, i as int),
            decreases self.dependency_catalog.len() - i,
        {
            let ghost before = out.deep_view();
            let n = self.dependency_catalog[i].0.clone();
            out.push(n);
            assert(out.deep_view() =~= before.push(self.dependency_catalog@[i as int].0@));
            i = i + 1;
        }
        out
    }
}

pub proof fn lemma_assoc_update<V>(es: Seq<(Seq<char>, V)>, i: int, v: V, k: Seq<char>)
    requires
        0 <= i < es.len(),
        k != es[i].0,
    ensures
        assoc_get(es.update(i, (es[i].0, v)), k) == assoc_get(es, k),
    decreases i,
{
    if i > 0 {
        assert(es.update(i, (es[i].0, v)).drop_first() =~= es.drop_first().update(i - 1, (es[i].0, v)));
        lemma_assoc_update(es.drop_first(), i - 1, v, k);
    } else {
        assert(es.update(i, (es[i].0, v)).drop_first() =~= es.drop_first());
    }
}



fn push_marker_name(dependencies: &mut Vec<String>, c: &Vec<char>, k: u64)
    ensures
        final(dependencies).deep_view() == old(dependencies).deep_view() + marker_name(c@, k as nat),
{
    let ghost base = dependencies.deep_view();
    if k == 0 {
        if contains(c, "#[panic_handler]") || contains(c, "panic_halt") {
            push_name(dependencies, "panic-halt");
        }
    } else if k == 1 {
        if contains(c, "panic_abort") {
            push_name(dependencies, "panic-abort");
        }
    } else if k == 2 {
        if contains(c, "#[entry]") || contains(c, "cortex_m_rt::entry") {
            push_name(dependencies, "cortex-m-rt");
        }
    } else if k == 3 {
        if contains(c, "embedded_hal") {
            push_name(dependencies, "embedded-hal");
        }
    } else if k == 4 {
        if contains(c, "stm32f4") || contains(c, "STM32F4") {
            push_name(dependencies, "stm32f4xx-hal");
        }
    } else if k == 5 {
        if contains(c, "stm32f3") || contains(c, "STM32F3") {
            push_name(dependencies, "stm32f3xx-hal");
        }
    } else if k == 6 {
        if contains(c, "nrf52") || contains(c, "NRF52") {
            push_name(dependencies, "nrf52840-hal");
        }
    } else if k == 7 {
        if contains(c, "Aes") || contains(c, "aes::") {
            push_name(dependencies, "aes");
        }
    } else if k == 8 {
        if contains(c, "Sha") || contains(c, "sha2::") {
            push_name(dependencies, "sha2");
        }
    } else if k == 9 {
        if contains(c, "ChaCha") || contains(c, "chacha20::") {
            push_name(dependencies, "chacha20");
        }
    } else if k == 10 {
        if contains(c, "Ed25519") || contains(c, "ed25519") {
            push_name(dependencies, "ed25519-dalek");
        }
    } else if k == 11 {
        if contains(c, "rand::") || contains(c, "Rng") {
            push_name(dependencies, "rand");
        }
    } else if k == 12 {
        if contains(c, "rand_core::") || contains(c, "RngCore") {
            push_name(dependencies, "rand_core");
        }
    }
    assert(dependencies.deep_view() =~= base + marker_name(c@, k as nat));
}

fn is_local_root_exec(n: &Vec<char>) -> (r: bool)
    ensures
        r == is_local_root(n@),
{
    equals(n, "std") || equals(n, "core") || equals(n, "alloc") || equals(n, "self") || equals(n, "super") || equals(
        n,
        "crate",
    )
}

fn crate_of_use_chars(line: &Vec<char>) -> (r: Option<Vec<char>>)
    ensures
        match r {
            Some(n) => crate_of_use(line@) == Some(n@),
            None => crate_of_use(line@) is None,
        },
{
    if !starts_with(line, "use ") {
        return None;
    }
    proof {
        reveal_strlit("use ");
    }
    let content = slice_of(line, 4, line.len());
    let first = before_first(&content, "::");
    match first_word_of(&first) {
        None => None,
        Some(w) => {
            let n = hyphenate(&trim_end_of(&w, ';'));
            if is_local_root_exec(&n) {
                None
            } else {
                Some(n)
            }
        },
    }
}

fn crate_of_extern_chars(line: &Vec<char>) -> (r: Option<Vec<char>>)
    ensures
        match r {
            Some(n) => crate_of_extern(line@) == Some(n@),
            None => crate_of_extern(line@) is None,
        },
{
    if !starts_with(line, "extern crate ") {
        return None;
    }
    proof {
        reveal_strlit("extern crate ");
    }
    let rest = slice_of(line, 13, line.len());
    let n = match first_word_of(&rest) {
        Some(w) => trim_end_of(&w, ';'),
        None => Vec::new(),
    };
    if n.len() == 0 {
        None
    } else {
        Some(n)
    }
}

impl DependencyResolver {
    /// The package that a `use` line names, by `crate_of_use`.
    pub fn extract_crate_name_from_use(&self, use_line: &str) -> (r: Option<String>)
        ensures
            r.deep_view() == crate_of_use(use_line@),
    {
        match crate_of_use_chars(&chars_of(use_line)) {
            Some(n) => Some(string_of(&n)),
            None => None,
        }
    }

    /// Appends the packages that markers in `code` imply, in the order of `implicit_names`.
    pub fn detect_implicit_dependencies(&self, code: &str, dependencies: &mut Vec<String>)
        ensures
            final(dependencies).deep_view() == old(dependencies).deep_view() + implicit_names(code@),
    {
        let c = chars_of(code);
        let ghost base = dependencies.deep_view();
        let mut k: u64 = 0;
        assert(base + implied_by(code@, 0) =~= base);
        while k < 13
            invariant
                k <= 13,
                c@ == code@,
                dependencies.deep_view() == base + implied_by(code@, k as nat),
            decreases 13 - k,
        {
            push_marker_name(dependencies, &c, k);
            k = k + 1;
            assert(dependencies.deep_view() =~= base + implied_by(code@, k as nat));
        }
    }

    /// The packages that `code` needs, sorted and without duplicates.
    pub fn detect_dependencies_from_code(&self, code: &str) -> (r: Vec<String>)
        ensures
            r.deep_view() == detected(code@),
            strictly_sorted(r.deep_view()),
    {
        let c = chars_of(code);
        let ls = split_lines(&c);
        let ghost lv = lines(code@);
        let mut v: Vec<Vec<char>> = Vec::new();
        let mut i: usize = 0;
        while i < ls.len()
            invariant
                i <= ls.len(),
                views(ls@) == lv,
                lv == lines(code@),
                strictly_sorted(views(v@)),
                views(v@).to_set() == Set::new(
                    |n: Seq<char>| exists|j: int| 0 <= j < i && #[trigger] crates_of_line(trim(lv[j])).contains(n),
                ),
            decreases ls.len() - i,
        {
            let t = trimmed(&ls[i]);
            assert(ls@[i as int]@ == lv[i as int]);
            let ghost before = views(v@).to_set();
            let ghost tv = t@;
            let mut found_use: Option<Vec<char>> = None;
            if starts_with(&t, "use ") && !starts_with(&t, "use std::") && !starts_with(&t, "use core::")
                && !starts_with(&t, "use alloc::") {
                found_use = crate_of_use_chars(&t);
            }
            let found_extern = if starts_with(&t, "extern crate ") {
                crate_of_extern_chars(&t)
            } else {
                None
            };
            proof {
                if !begins(tv, "extern crate "@) {
                    assert(crate_of_extern(tv) is None);
                }
            }
            match found_use {
                Some(n) => insert_sorted(&mut v, n),
                None => {},
            }
            match found_extern {
                Some(n) => insert_sorted(&mut v, n),
                None => {},
            }
            i = i + 1;
            assert(views(v@).to_set() =~= Set::new(
                |n: Seq<char>| exists|j: int| 0 <= j < i && #[trigger] crates_of_line(trim(lv[j])).contains(n),
            )) by {
                assert forall|n: Seq<char>| (exists|j: int| 0 <= j < i && #[trigger] crates_of_line(trim(lv[j])).contains(n))
                    implies views(v@).to_set().contains(n) by {
                    let j = choose|j: int| 0 <= j < i && #[trigger] crates_of_line(trim(lv[j])).contains(n);
                    if j < i - 1 {
                        assert(before.contains(n));
                    }
                }
                assert forall|n: Seq<char>| views(v@).to_set().contains(n)
                    implies (exists|j: int| 0 <= j < i && #[trigger] crates_of_line(trim(lv[j])).contains(n)) by {
                    if !before.contains(n) {
                        assert(crates_of_line(trim(lv[i - 1])).contains(n));
                    }
                }
            }
        }
        let mut extra: Vec<String> = Vec::new();
        self.detect_implicit_dependencies(code, &mut extra);
        assert(extra.deep_view() =~= implicit_names(code@));
        add_all(&mut v, extra.as_slice());
        proof {
            assert(extra@.map_values(|f: String| f@) =~= extra.deep_view());
            assert(views(v@).to_set() =~= detected_set(code@));
            lemma_is_sorted_list(views(v@));
        }
        strings_of(&v)
    }
}


fn context_key_of(ctx: &ExampleContext) -> (r: &'static str)
    ensures
        r@ == context_key(ctx@),
{
    match ctx {
        ExampleContext::Std { .. } => "std",
        ExampleContext::NoStd { .. } => "no_std",
        ExampleContext::Hardware { .. } => "hardware",
        ExampleContext::Crypto { .. } => "crypto",
        ExampleContext::Snippet { .. } => "",
    }
}

fn context_features_of<'a>(entries: &'a Vec<(String, Vec<String>)>, key: &str) -> (r: Option<&'a Vec<String>>)
    ensures
        match r {
            Some(f) => assoc_get(entries.deep_view(), key@) == Some(f.deep_view()),
            None => assoc_get(entries.deep_view(), key@) is None,
        },
{
    let ghost es = entries.deep_view();
    let k = chars_of(key);
    let mut i: usize = 0;
    while i < entries.len()
        invariant
            i <= entries@.len(),
            es == entries.deep_view(),
            k@ == key@,
            forall|j: int| 0 <= j < i ==> es[j].0 != key@,
        decreases entries.len() - i,
    {
        if equals(&k, entries[i].0.as_str()) {
            proof {
                lemma_assoc_at(es, key@, i as int);
            }
            return Some(&entries[i].1);
        }
        i = i + 1;
    }
    proof {
        lemma_assoc_none(es, key@);
    }
    None
}

impl DependencyResolver {
    fn resolve_name(&self, name: &Vec<char>, ctx: &ExampleContext) -> (r: Dependency)
        requires
            !(ctx@ is Snippet),
        ensures
            r@ == resolve_one(assoc_get(self.catalog(), name@), name@, ctx@),
            strictly_sorted(r@.features),
    {
        let n = string_of(name);
        match self.find(name) {
            Some(i) => {
                let info = &self.dependency_catalog[i].1;
                assert(self.catalog()[i as int].1 == info@);
                let mut v: Vec<Vec<char>> = Vec::new();
                let ghost spec_base = match assoc_get(info@.context_features, context_key(ctx@)) {
                    Some(f) => f,
                    None => Seq::<Seq<char>>::empty(),
                };
                assert(views(v@) =~= Seq::<Seq<char>>::empty());
                match context_features_of(&info.default_features, context_key_of(ctx)) {
                    Some(f) => {
                        add_all(&mut v, f.as_slice());
                        proof {
                            assert(f@.map_values(|x: String| x@) =~= f.deep_view());
                            assert(views(v@).to_set() =~= spec_base.to_set());
                        }
                    },
                    None => {
                        assert(views(v@).to_set() =~= spec_base.to_set());
                    },
                }
                let ghost base = views(v@).to_set();
                add_all(&mut v, ctx.features());
                proof {
                    assert(views(v@).to_set() =~= spec_base.to_set() + profile_features(ctx@).to_set());
                    lemma_is_sorted_list(views(v@));
                }
                let features = strings_of(&v);
                let target = match ctx {
                    ExampleContext::NoStd { target, .. } => if info.targets.len() > 0 {
                        Some(target.clone())
                    } else {
                        None
                    },
                    _ => None,
                };
                let d = Dependency {
                    name: n,
                    version: info.version.clone(),
                    features,
                    optional: false,
                    target,
                    default_features: !(info.no_default_features && !matches!(ctx, ExampleContext::Std { .. })),
                };
                proof {
                    assert(info.targets@.len() == info.targets.deep_view().len());
                    assert(d@.features == resolve_one(assoc_get(self.catalog(), name@), name@, ctx@).features);
                    assert(d@.target == resolve_one(assoc_get(self.catalog(), name@), name@, ctx@).target);
                    assert(d@.version == resolve_one(assoc_get(self.catalog(), name@), name@, ctx@).version);
                }
                d
            },
            None => {
                let mut d = Dependency::new(n.as_str(), "*");
                if matches!(ctx, ExampleContext::NoStd { .. } | ExampleContext::Hardware { .. }) {
                    d = d.no_default_features();
                }
                d
            },
        }
    }

    /// The dependencies of `example`, by `resolution`: none for an excerpt.
    pub fn resolve_dependencies(&self, example: &CodeExample) -> (r: Vec<Dependency>)
        ensures
            dependency_views(r@) == resolution(self.catalog(), example.code@, example.context@),
            strictly_sorted(dependency_views(r@).map_values(|d: DependencyView| d.name)),
            forall|i: int| 0 <= i < r@.len() ==> strictly_sorted(#[trigger] r@[i]@.features),
    {
        let mut out: Vec<Dependency> = Vec::new();
        if !example.should_compile() {
            assert(dependency_views(out@) =~= Seq::<DependencyView>::empty());
            return out;
        }
        let names = self.detect_dependencies_from_code(example.code.as_str());
        let ghost want = resolution(self.catalog(), example.code@, example.context@);
        let mut i: usize = 0;
        while i < names.len()
            invariant
                i <= names@.len(),
                !(example.context@ is Snippet),
                names.deep_view() == detected(example.code@),
                strictly_sorted(names.deep_view()),
                want == resolution(self.catalog(), example.code@, example.context@),
                dependency_views(out@) =~= want.subrange(0, i as int),
                forall|j: int| 0 <= j < out@.len() ==> strictly_sorted(#[trigger] out@[j]@.features),
            decreases names.len() - i,
        {
            let n = chars_of(names[i].as_str());
            let d = self.resolve_name(&n, &example.context);
            let ghost before = dependency_views(out@);
            out.push(d);
            assert(dependency_views(out@) =~= before.push(d@));
            i = i + 1;
        }
        assert(dependency_views(out@).map_values(|d: DependencyView| d.name) =~= names.deep_view());
        out
    }
}

/// An excerpt has no dependencies.
pub proof fn lemma_excerpt_has_no_dependencies(catalog: Seq<(Seq<char>, InfoView)>, code: Seq<char>, reason: Seq<char>)
    ensures
        resolution(catalog, code, Profile::Snippet { reason }).len() == 0,
{
}


/// The dependencies of each fragment in turn, by `resolution`.
pub open spec fn all_dependencies(catalog: Seq<(Seq<char>, InfoView)>, examples: Seq<CodeExample>) -> Seq<DependencyView>
    decreases examples.len(),
{
    if examples.len() == 0 {
        Seq::empty()
    } else {
        all_dependencies(catalog, examples.drop_last()) + resolution(
            catalog,
            examples.last().code@,
            examples.last().context@,
        )
    }
}

/// The names of the dependencies of `all` whose target restriction is `t`.
pub open spec fn names_under(all: Seq<DependencyView>, t: Option<Seq<char>>) -> Set<Seq<char>> {
    Set::new(|n: Seq<char>| exists|j: int| 0 <= j < all.len() && #[trigger] all[j].name == n && all[j].target == t)
}

/// The targets that dependencies of `all` are restricted to.
pub open spec fn restricted_targets(all: Seq<DependencyView>) -> Set<Seq<char>> {
    Set::new(|t: Seq<char>| exists|j: int| 0 <= j < all.len() && #[trigger] all[j].target == Some(t))
}

/// The last dependency of `all` with name `n` and target restriction `t`: a later fragment's
/// entry replaces an earlier one.
pub open spec fn last_with(all: Seq<DependencyView>, n: Seq<char>, t: Option<Seq<char>>) -> DependencyView
    decreases all.len(),
{
    if all.len() == 0 {
        DependencyView { name: n, version: Seq::empty(), features: Seq::empty(), optional: false, target: t, default_features: true }
    } else if all.last().name == n && all.last().target == t {
        all.last()
    } else {
        last_with(all.drop_last(), n, t)
    }
}

/// One manifest line per name, in the order given.
pub open spec fn dependency_lines(all: Seq<DependencyView>, names: Seq<Seq<char>>, t: Option<Seq<char>>) -> Seq<char>
    decreases names.len(),
{
    if names.len() == 0 {
        Seq::empty()
    } else {
        dependency_lines(all, names.drop_last(), t) + names.last() + " = "@ + toml_value(last_with(all, names.last(), t))
            + "\n"@
    }
}

/// One section per target, in the order given.
pub open spec fn target_sections(all: Seq<DependencyView>, targets: Seq<Seq<char>>) -> Seq<char>
    decreases targets.len(),
{
    if targets.len() == 0 {
        Seq::empty()
    } else {
        target_sections(all, targets.drop_last()) + "[target.'cfg(target = \""@ + targets.last()
            + "\")'.dependencies]\n"@ + dependency_lines(all, sorted_list(names_under(all, Some(targets.last()))), Some(targets.last()))
            + "\n"@
    }
}

/// Some fragment assumes a minimal runtime, on a target triple or on a board.
pub open spec fn any_minimal(examples: Seq<CodeExample>) -> bool {
    exists|i: int| 0 <= i < examples.len() && (#[trigger] examples[i].context@ is NoStd || examples[i].context@ is Hardware)
}

/// The release profile tuned for size, for minimal-runtime builds.
pub open spec fn size_profile_text() -> Seq<char> {
    "[profile.dev]\ndebug = true\nopt-level = 0\n\n[profile.release]\ndebug = true\nopt-level = \"s\"\nlto = true\ncodegen-units = 1\n\n"@
}

/// The manifest for a set of fragments: a package header; for minimal-runtime fragments a
/// static-library section; the unrestricted dependencies in name order; one section per
/// restricted target in target order, its dependencies in name order; and for minimal-runtime
/// fragments the size-tuned profiles.
pub open spec fn manifest_text(catalog: Seq<(Seq<char>, InfoView)>, examples: Seq<CodeExample>, package_name: Seq<char>) -> Seq<char> {
    let all = all_dependencies(catalog, examples);
    let general = sorted_list(names_under(all, None));
    let minimal = any_minimal(examples);
    "[package]\nname = \""@ + package_name + "\"\nversion = \"0.1.0\"\nedition = \"2021\"\n\n"@ + (if minimal {
        "[lib]\nname = \"lib\"\ncrate-type = [\"staticlib\"]\n\n"@
    } else {
        Seq::empty()
    }) + (if general.len() > 0 {
        "[dependencies]\n"@ + dependency_lines(all, general, None) + "\n"@
    } else {
        Seq::empty()
    }) + target_sections(all, sorted_list(restricted_targets(all))) + (if minimal {
        size_profile_text()
    } else {
        Seq::empty()
    })
}

fn same_target(a: &Option<String>, b: &Option<String>) -> (r: bool)
    ensures
        r == (a.deep_view() == b.deep_view()),
{
    match (a, b) {
        (None, None) => true,
        (Some(x), Some(y)) => {
            let xs = chars_of(x.as_str());
            equals(&xs, y.as_str())
        },
        _ => false,
    }
}

fn last_index_with(all: &Vec<Dependency>, name: &Vec<char>, t: &Option<String>) -> (r: usize)
    requires
        exists|j: int| 0 <= j < all@.len() && #[trigger] dependency_views(all@)[j].name == name@ && dependency_views(all@)[j].target == t.deep_view(),
    ensures
        r < all@.len(),
        last_with(dependency_views(all@), name@, t.deep_view()) == all@[r as int]@,
{
    let ghost dv = dependency_views(all@);
    let mut k: usize = all.len();
    assert(dv.subrange(0, k as int) =~= dv);
    while k > 0
        invariant
            k <= all@.len(),
            dv == dependency_views(all@),
            last_with(dv, name@, t.deep_view()) == last_with(dv.subrange(0, k as int), name@, t.deep_view()),
            exists|j: int| 0 <= j < k && #[trigger] dv[j].name == name@ && dv[j].target == t.deep_view(),
        decreases k,
    {
        let ghost sub = dv.subrange(0, k as int);
        assert(sub.drop_last() =~= dv.subrange(0, k - 1));
        assert(sub.last() == all@[k - 1]@);
        let n = chars_of(all[k - 1].name.as_str());
        if crate::sorted::compare(&n, name) == 0 && same_target(&all[k - 1].target, t) {
            return k - 1;
        }
        k = k - 1;
    }
    assert(false);
    0
}

fn push_dependency_lines(out: &mut Vec<char>, all: &Vec<Dependency>, names: &Vec<Vec<char>>, t: &Option<String>)
    requires
        forall|i: int| 0 <= i < names@.len() ==> names_under(dependency_views(all@), t.deep_view()).contains(#[trigger] names@[i]@),
    ensures
        final(out)@ == old(out)@ + dependency_lines(dependency_views(all@), views(names@), t.deep_view()),
{
    let ghost base = out@;
    let ghost nv = views(names@);
    let mut i: usize = 0;
    assert(nv.subrange(0, 0) =~= Seq::<Seq<char>>::empty());
    assert(out@ =~= base + dependency_lines(dependency_views(all@), nv.subrange(0, 0), t.deep_view()));
    while i < names.len()
        invariant
            i <= names@.len(),
            nv == views(names@),
            forall|i: int| 0 <= i < names@.len() ==> names_under(dependency_views(all@), t.deep_view()).contains(#[trigger] names@[i]@),
            out@ == base + dependency_lines(dependency_views(all@), nv.subrange(0, i as int), t.deep_view()),
        decreases names.len() - i,
    {
        assert(nv.subrange(0, i + 1).drop_last() =~= nv.subrange(0, i as int));
        assert(nv[i as int] == names@[i as int]@);
        assert(names_under(dependency_views(all@), t.deep_view()).contains(names@[i as int]@));
        let k = last_index_with(all, &names[i], t);
        push_all(out, &names[i]);
        push_str(out, " = ");
        let v = all[k].to_toml_value();
        push_str(out, v.as_str());
        push_str(out, "\n");
        i = i + 1;
        assert(out@ =~= base + dependency_lines(dependency_views(all@), nv.subrange(0, i as int), t.deep_view()));
    }
    assert(nv.subrange(0, nv.len() as int) =~= nv);
}

fn names_with_target(all: &Vec<Dependency>, t: &Option<String>) -> (r: Vec<Vec<char>>)
    ensures
        strictly_sorted(views(r@)),
        views(r@).to_set() == names_under(dependency_views(all@), t.deep_view()),
{
    let ghost dv = dependency_views(all@);
    let mut v: Vec<Vec<char>> = Vec::new();
    let mut i: usize = 0;
    while i < all.len()
        invariant
            i <= all@.len(),
            dv == dependency_views(all@),
            strictly_sorted(views(v@)),
            views(v@).to_set() == Set::new(|n: Seq<char>| exists|j: int| 0 <= j < i && #[trigger] dv[j].name == n && dv[j].target == t.deep_view()),
        decreases all.len() - i,
    {
        let ghost before = views(v@).to_set();
        assert(dv[i as int] == all@[i as int]@);
        if same_target(&all[i].target, t) {
            insert_sorted(&mut v, chars_of(all[i].name.as_str()));
        }
        i = i + 1;
        assert(views(v@).to_set() =~= Set::new(|n: Seq<char>| exists|j: int| 0 <= j < i && #[trigger] dv[j].name == n && dv[j].target == t.deep_view())) by {
            assert forall|n: Seq<char>| (exists|j: int| 0 <= j < i && #[trigger] dv[j].name == n && dv[j].target == t.deep_view()) implies views(v@).to_set().contains(n) by {
                let j = choose|j: int| 0 <= j < i && #[trigger] dv[j].name == n && dv[j].target == t.deep_view();
                if j < i - 1 {
                    assert(before.contains(n));
                }
            }
            assert forall|n: Seq<char>| views(v@).to_set().contains(n) implies (exists|j: int| 0 <= j < i && #[trigger] dv[j].name == n && dv[j].target == t.deep_view()) by {
                if !before.contains(n) {
                    assert(dv[i - 1].name == n && dv[i - 1].target == t.deep_view());
                }
            }
        }
    }
    assert(views(v@).to_set() =~= names_under(dv, t.deep_view()));
    v
}

fn restricted_targets_of(all: &Vec<Dependency>) -> (r: Vec<Vec<char>>)
    ensures
        strictly_sorted(views(r@)),
        views(r@).to_set() == restricted_targets(dependency_views(all@)),
{
    let ghost dv = dependency_views(all@);
    let mut v: Vec<Vec<char>> = Vec::new();
    let mut i: usize = 0;
    while i < all.len()
        invariant
            i <= all@.len(),
            dv == dependency_views(all@),
            strictly_sorted(views(v@)),
            views(v@).to_set() == Set::new(|t: Seq<char>| exists|j: int| 0 <= j < i && #[trigger] dv[j].target == Some(t)),
        decreases all.len() - i,
    {
        let ghost before = views(v@).to_set();
        assert(dv[i as int] == all@[i as int]@);
        match &all[i].target {
            Some(t) => insert_sorted(&mut v, chars_of(t.as_str())),
            None => {},
        }
        i = i + 1;
        assert(views(v@).to_set() =~= Set::new(|t: Seq<char>| exists|j: int| 0 <= j < i && #[trigger] dv[j].target == Some(t))) by {
            assert forall|t: Seq<char>| (exists|j: int| 0 <= j < i && #[trigger] dv[j].target == Some(t)) implies views(v@).to_set().contains(t) by {
                let j = choose|j: int| 0 <= j < i && #[trigger] dv[j].target == Some(t);
                if j < i - 1 {
                    assert(before.contains(t));
                }
            }
            assert forall|t: Seq<char>| views(v@).to_set().contains(t) implies (exists|j: int| 0 <= j < i && #[trigger] dv[j].target == Some(t)) by {
                if !before.contains(t) {
                    assert(dv[i - 1].target == Some(t));
                }
            }
        }
    }
    assert(views(v@).to_set() =~= restricted_targets(dv));
    v
}

impl DependencyResolver {
    fn collect_dependencies(&self, examples: &Vec<CodeExample>) -> (r: (Vec<Dependency>, bool))
        ensures
            dependency_views(r.0@) == all_dependencies(self.catalog(), examples@),
            r.1 == any_minimal(examples@),
    {
        let mut all: Vec<Dependency> = Vec::new();
        let mut minimal = false;
        let mut i: usize = 0;
        assert(examples@.subrange(0, 0) =~= Seq::<CodeExample>::empty());
        assert(dependency_views(all@) =~= Seq::<DependencyView>::empty());
        while i < examples.len()
            invariant
                i <= examples@.len(),
                dependency_views(all@) == all_dependencies(self.catalog(), examples@.subrange(0, i as int)),
                minimal == exists|j: int| 0 <= j < i && (#[trigger] examples@[j].context@ is NoStd || examples@[j].context@ is Hardware),
            decreases examples.len() - i,
        {
            assert(examples@.subrange(0, i + 1).drop_last() =~= examples@.subrange(0, i as int));
            let deps = self.resolve_dependencies(&examples[i]);
            let ghost before = dependency_views(all@);
            let mut k: usize = 0;
            assert(before =~= before + dependency_views(deps@).subrange(0, 0));
            while k < deps.len()
                invariant
                    k <= deps@.len(),
                    dependency_views(all@) == before + dependency_views(deps@).subrange(0, k as int),
                decreases deps.len() - k,
            {
                let ghost b2 = dependency_views(all@);
                let d = deps[k].clone_dependency();
                all.push(d);
                assert(dependency_views(all@) =~= b2.push(d@));
                k = k + 1;
                assert(dependency_views(all@) =~= before + dependency_views(deps@).subrange(0, k as int));
            }
            assert(dependency_views(deps@).subrange(0, deps@.len() as int) =~= dependency_views(deps@));
            if matches!(examples[i].context, ExampleContext::NoStd { .. } | ExampleContext::Hardware { .. }) {
                minimal = true;
            }
            i = i + 1;
        }
        assert(examples@.subrange(0, examples@.len() as int) =~= examples@);
        (all, minimal)
    }

    /// The manifest for `examples`, by `manifest_text`.
    pub fn generate_cargo_toml(&self, examples: &Vec<CodeExample>, package_name: &str) -> (r: String)
        ensures
            r@ == manifest_text(self.catalog(), examples@, package_name@),
    {
        let (all, minimal) = self.collect_dependencies(examples);
        let ghost allv = dependency_views(all@);
        let mut out: Vec<char> = Vec::new();
        push_str(&mut out, "[package]\nname = \"");
        push_str(&mut out, package_name);
        push_str(&mut out, "\"\nversion = \"0.1.0\"\nedition = \"2021\"\n\n");
        if minimal {
            push_str(&mut out, "[lib]\nname = \"lib\"\ncrate-type = [\"staticlib\"]\n\n");
        }
        let none: Option<String> = None;
        let general = names_with_target(&all, &none);
        proof {
            lemma_is_sorted_list(views(general@));
            assert forall|i: int| 0 <= i < general@.len() implies names_under(allv, none.deep_view()).contains(#[trigger] general@[i]@) by {
                assert(views(general@)[i] == general@[i]@);
                assert(views(general@).to_set().contains(views(general@)[i]));
            }
        }
        if general.len() > 0 {
            push_str(&mut out, "[dependencies]\n");
            push_dependency_lines(&mut out, &all, &general, &none);
            push_str(&mut out, "\n");
        }
        proof {
            assert(general@.len() == views(general@).len());
        }
        push_target_sections(&mut out, &all);
        if minimal {
            push_str(&mut out, "[profile.dev]\ndebug = true\nopt-level = 0\n\n[profile.release]\ndebug = true\nopt-level = \"s\"\nlto = true\ncodegen-units = 1\n\n");
        }
        assert(out@ =~= manifest_text(self.catalog(), examples@, package_name@));
        string_of(&out)
    }
}

fn push_target_sections(out: &mut Vec<char>, all: &Vec<Dependency>)
    ensures
        final(out)@ == old(out)@ + target_sections(dependency_views(all@), sorted_list(restricted_targets(dependency_views(all@)))),
{
    let ghost allv = dependency_views(all@);
    let targets = restricted_targets_of(all);
    proof {
        lemma_is_sorted_list(views(targets@));
    }
    let ghost tv = views(targets@);
    let ghost mark = out@;
    let mut j: usize = 0;
    assert(tv.subrange(0, 0) =~= Seq::<Seq<char>>::empty());
    assert(out@ =~= mark + target_sections(allv, tv.subrange(0, 0)));
    while j < targets.len()
        invariant
            j <= targets@.len(),
            tv == views(targets@),
            allv == dependency_views(all@),
            out@ == mark + target_sections(allv, tv.subrange(0, j as int)),
        decreases targets.len() - j,
    {
        assert(tv.subrange(0, j + 1).drop_last() =~= tv.subrange(0, j as int));
        assert(tv[j as int] == targets@[j as int]@);
        let t = Some(string_of(&targets[j]));
        push_str(out, "[target.'cfg(target = \"");
        push_all(out, &targets[j]);
        push_str(out, "\")'.dependencies]\n");
        let names = names_with_target(all, &t);
        proof {
            lemma_is_sorted_list(views(names@));
            assert forall|i: int| 0 <= i < names@.len() implies names_under(allv, t.deep_view()).contains(#[trigger] names@[i]@) by {
                assert(views(names@)[i] == names@[i]@);
                assert(views(names@).to_set().contains(views(names@)[i]));
            }
        }
        push_dependency_lines(out, all, &names, &t);
        push_str(out, "\n");
        j = j + 1;
        assert(out@ =~= mark + target_sections(allv, tv.subrange(0, j as int)));
    }
    assert(tv.subrange(0, tv.len() as int) =~= tv);
}

impl Dependency {
    /// A copy of this dependency.
    pub fn clone_dependency(&self) -> (r: Dependency)
        ensures
            r@ == self@,
    {
        Dependency {
            name: self.name.clone(),
            version: self.version.clone(),
            features: crate::test_config::clone_names(&self.features),
            optional: self.optional,
            target: match &self.target {
                Some(t) => Some(t.clone()),
                None => None,
            },
            default_features: self.default_features,
        }
    }
}


impl DependencyResolver {
    /// The manifest for one fragment, for a package named `example_` and the fragment's id.
    pub fn generate_example_cargo_toml(&self, example: &CodeExample) -> (r: String)
        ensures
            r@ == manifest_text(self.catalog(), seq![*example], "example_"@ + example.id@),
    {
        let copy = example.clone_example();
        let mut name: Vec<char> = Vec::new();
        push_str(&mut name, "example_");
        push_str(&mut name, example.id.as_str());
        let name = string_of(&name);
        let ghost c = copy;
        let mut v: Vec<CodeExample> = Vec::new();
        v.push(copy);
        assert(v@ =~= seq![c]);
        proof {
            let one = seq![*example];
            assert(seq![c].drop_last() =~= Seq::<CodeExample>::empty());
            assert(one.drop_last() =~= Seq::<CodeExample>::empty());
            assert(all_dependencies(self.catalog(), seq![c]) == all_dependencies(self.catalog(), one));
            assert(any_minimal(seq![c]) == any_minimal(one)) by {
                if any_minimal(one) {
                    assert(seq![c][0].context@ == one[0].context@);
                }
                if any_minimal(seq![c]) {
                    assert(seq![c][0].context@ == one[0].context@);
                }
            }
        }
        self.generate_cargo_toml(&v, name.as_str())
    }
}


/// `examples` without its excerpts, in order.
pub open spec fn without_excerpts(examples: Seq<CodeExample>) -> Seq<CodeExample>
    decreases examples.len(),
{
    if examples.len() == 0 {
        Seq::empty()
    } else if examples.last().context@ is Snippet {
        without_excerpts(examples.drop_last())
    } else {
        without_excerpts(examples.drop_last()).push(examples.last())
    }
}

proof fn lemma_minimal_without_excerpts(examples: Seq<CodeExample>)
    ensures
        any_minimal(examples) == any_minimal(without_excerpts(examples)),
    decreases examples.len(),
{
    if examples.len() > 0 {
        let init = examples.drop_last();
        lemma_minimal_without_excerpts(init);
        let w = without_excerpts(init);
        if any_minimal(examples) {
            let i = choose|i: int| 0 <= i < examples.len() && (#[trigger] examples[i].context@ is NoStd || examples[i].context@ is Hardware);
            if i < examples.len() - 1 {
                assert(init[i] == examples[i]);
                let j = choose|j: int| 0 <= j < w.len() && (#[trigger] w[j].context@ is NoStd || w[j].context@ is Hardware);
                if !(examples.last().context@ is Snippet) {
                    assert(w.push(examples.last())[j] == w[j]);
                }
            } else {
                assert(without_excerpts(examples).last() == examples.last());
            }
        }
        if any_minimal(without_excerpts(examples)) {
            let we = without_excerpts(examples);
            let j = choose|j: int| 0 <= j < we.len() && (#[trigger] we[j].context@ is NoStd || we[j].context@ is Hardware);
            if examples.last().context@ is Snippet || j < w.len() {
                if !(examples.last().context@ is Snippet) {
                    assert(we[j] == w[j]);
                }
                let i = choose|i: int| 0 <= i < init.len() && (#[trigger] init[i].context@ is NoStd || init[i].context@ is Hardware);
                assert(examples[i] == init[i]);
            } else {
                assert(examples[examples.len() - 1] == examples.last());
            }
        }
    }
}

proof fn lemma_dependencies_without_excerpts(catalog: Seq<(Seq<char>, InfoView)>, examples: Seq<CodeExample>)
    ensures
        all_dependencies(catalog, examples) == all_dependencies(catalog, without_excerpts(examples)),
    decreases examples.len(),
{
    if examples.len() > 0 {
        let init = examples.drop_last();
        lemma_dependencies_without_excerpts(catalog, init);
        if examples.last().context@ is Snippet {
            assert(all_dependencies(catalog, examples) =~= all_dependencies(catalog, init));
        } else {
            let w = without_excerpts(init);
            assert(w.push(examples.last()).drop_last() =~= w);
        }
    }
}

/// Excerpts leave the manifest unchanged: no dependency line, no target section and no
/// profile comes from a fragment that is never compiled.
pub proof fn lemma_manifest_ignores_excerpts(catalog: Seq<(Seq<char>, InfoView)>, examples: Seq<CodeExample>, package_name: Seq<char>)
    ensures
        manifest_text(catalog, examples, package_name) == manifest_text(catalog, without_excerpts(examples), package_name),
{
    lemma_dependencies_without_excerpts(catalog, examples);
    lemma_minimal_without_excerpts(examples);
}

} // verus!
