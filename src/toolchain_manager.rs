//! The compilation targets the toolchain offers, and which of them suit a configuration.
use vstd::prelude::*;
use crate::extractor::{ExampleContext, Profile};
use crate::test_config::{CompilationError, ConfigView, TestConfig, host_target};
use crate::test_config::{join_with, push_joined};
use crate::text::{chars_of, equals, lines, owned, split_lines, string_of, trim, trimmed, views};

verus! {

/// The kind of runtime a target provides.
#[derive(Debug, Clone, Copy, PartialEq, Eq, Structural)]
pub enum TargetType {
    /// A full standard runtime.
    Std,
    /// A minimal runtime.
    NoStd,
    /// A minimal runtime on a board or chip.
    Embedded,
}

/// A compilation target and what it needs.
#[derive(Debug, Clone)]
pub struct TargetInfo {
    pub target: String,
    pub installed: bool,
    pub target_type: TargetType,
    pub required_features: Vec<String>,
    pub default_dependencies: Vec<String>,
}

/// A target as plain values.
pub ghost struct TargetView {
    pub target: Seq<char>,
    pub installed: bool,
    pub target_type: TargetType,
    pub required_features: Seq<Seq<char>>,
    pub default_dependencies: Seq<Seq<char>>,
}

impl View for TargetInfo {
    type V = TargetView;

    open spec fn view(&self) -> TargetView {
        TargetView {
            target: self.target@,
            installed: self.installed,
            target_type: self.target_type,
            required_features: self.required_features.deep_view(),
            default_dependencies: self.default_dependencies.deep_view(),
        }
    }
}

/// The targets the manager knows, none of them yet known to be installed.
pub open spec fn known_targets() -> Seq<TargetView> {
    seq![
        TargetView { target: "x86_64-unknown-linux-gnu"@, installed: false, target_type: TargetType::Std, required_features: seq![], default_dependencies: seq!["std"@] },
        TargetView { target: "x86_64-pc-windows-msvc"@, installed: false, target_type: TargetType::Std, required_features: seq![], default_dependencies: seq!["std"@] },
        TargetView { target: "x86_64-apple-darwin"@, installed: false, target_type: TargetType::Std, required_features: seq![], default_dependencies: seq!["std"@] },
        TargetView { target: "thumbv7em-none-eabihf"@, installed: false, target_type: TargetType::Embedded, required_features: seq!["cortex-m"@], default_dependencies: seq!["cortex-m"@, "cortex-m-rt"@, "panic-halt"@] },
        TargetView { target: "thumbv6m-none-eabi"@, installed: false, target_type: TargetType::Embedded, required_features: seq!["cortex-m"@], default_dependencies: seq!["cortex-m"@, "cortex-m-rt"@, "panic-halt"@] },
        TargetView { target: "thumbv7m-none-eabi"@, installed: false, target_type: TargetType::Embedded, required_features: seq!["cortex-m"@], default_dependencies: seq!["cortex-m"@, "cortex-m-rt"@, "panic-halt"@] },
        TargetView { target: "thumbv8m.main-none-eabihf"@, installed: false, target_type: TargetType::Embedded, required_features: seq!["cortex-m"@], default_dependencies: seq!["cortex-m"@, "cortex-m-rt"@, "panic-halt"@] },
        TargetView { target: "riscv32imac-unknown-none-elf"@, installed: false, target_type: TargetType::Embedded, required_features: seq!["riscv"@], default_dependencies: seq!["riscv"@, "riscv-rt"@, "panic-halt"@] },
        TargetView { target: "riscv64gc-unknown-none-elf"@, installed: false, target_type: TargetType::Embedded, required_features: seq!["riscv"@], default_dependencies: seq!["riscv"@, "riscv-rt"@, "panic-halt"@] },
    ]
}

/// The views of a list of targets.
pub open spec fn target_views(v: Seq<TargetInfo>) -> Seq<TargetView> {
    v.map_values(|t: TargetInfo| t@)
}

/// Versions of the tools, for diagnostics.
#[derive(Debug, Clone)]
pub struct SystemInfo {
    pub cargo_version: String,
    pub rustc_version: String,
    pub rustup_version: Option<String>,
    pub installed_targets: usize,
    pub available_targets: usize,
}

/// Knows the compilation targets and which of them are installed.
#[derive(Debug, Clone)]
pub struct ToolchainManager {
    installed_targets: Vec<TargetInfo>,
    default_toolchain: String,
}

fn names0() -> (r: Vec<String>)
    ensures
        r.deep_view() == Seq::<Seq<char>>::empty(),
{
    let r: Vec<String> = Vec::new();
    assert(r.deep_view() =~= Seq::<Seq<char>>::empty());
    r
}

fn names1(a: &str) -> (r: Vec<String>)
    ensures
        r.deep_view() == seq![a@],
{
    let mut r: Vec<String> = Vec::new();
    r.push(owned(a));
    assert(r.deep_view() =~= seq![a@]);
    r
}

fn names3(a: &str, b: &str, c: &str) -> (r: Vec<String>)
    ensures
        r.deep_view() == seq![a@, b@, c@],
{
    let mut r: Vec<String> = Vec::new();
    r.push(owned(a));
    r.push(owned(b));
    r.push(owned(c));
    assert(r.deep_view() =~= seq![a@, b@, c@]);
    r
}

fn add_target(v: &mut Vec<TargetInfo>, target: &str, target_type: TargetType, required_features: Vec<String>, default_dependencies: Vec<String>)
    ensures
        target_views(final(v)@) == target_views(old(v)@).push(
            TargetView {
                target: target@,
                installed: false,
                target_type,
                required_features: required_features.deep_view(),
                default_dependencies: default_dependencies.deep_view(),
            },
        ),
{
    let ghost before = target_views(v@);
    let t = TargetInfo { target: owned(target), installed: false, target_type, required_features, default_dependencies };
    v.push(t);
    assert(target_views(v@) =~= before.push(t@));
}

/// Whether a target of type `t` suits a configuration: a full-runtime target one without
/// the minimal-runtime and embedded flags, a minimal-runtime target one with the minimal-runtime
/// flag, an embedded target one with both.
pub open spec fn suits(t: TargetType, no_std: bool, embedded_mode: bool) -> bool {
    (t == TargetType::Std && !no_std && !embedded_mode) || (t == TargetType::NoStd && no_std) || (t
        == TargetType::Embedded && no_std && embedded_mode)
}

/// The first entry of `table` for `target`.
pub open spec fn entry_for(table: Seq<TargetView>, target: Seq<char>) -> Option<TargetView>
    decreases table.len(),
{
    if table.len() == 0 {
        None
    } else if table[0].target == target {
        Some(table[0])
    } else {
        entry_for(table.drop_first(), target)
    }
}

/// The requested targets that are installed and suit the configuration, in request order.
pub open spec fn suitable(table: Seq<TargetView>, requested: Seq<Seq<char>>, no_std: bool, embedded_mode: bool) -> Seq<Seq<char>>
    decreases requested.len(),
{
    if requested.len() == 0 {
        Seq::empty()
    } else {
        suitable(table, requested.drop_last(), no_std, embedded_mode) + match entry_for(table, requested.last()) {
            Some(e) => if e.installed && suits(e.target_type, no_std, embedded_mode) {
                seq![requested.last()]
            } else {
                Seq::empty()
            },
            None => Seq::empty(),
        }
    }
}

/// The first installed embedded target of the table.
pub open spec fn first_installed_embedded(table: Seq<TargetView>) -> Option<Seq<char>>
    decreases table.len(),
{
    if table.len() == 0 {
        None
    } else if table[0].installed && table[0].target_type == TargetType::Embedded {
        Some(table[0].target)
    } else {
        first_installed_embedded(table.drop_first())
    }
}

/// The targets to compile for: the suitable requested ones; where there are none, the first
/// installed embedded target in embedded mode (or none at all), and the host target otherwise.
pub open spec fn available_targets(table: Seq<TargetView>, c: ConfigView) -> Seq<Seq<char>> {
    let found = suitable(table, c.targets, c.no_std, c.embedded_mode);
    if found.len() > 0 {
        found
    } else if c.embedded_mode {
        match first_installed_embedded(table) {
            Some(t) => seq![t],
            None => Seq::empty(),
        }
    } else {
        seq![host_target()]
    }
}

/// The installed entries of the table, of type `t` where `by_type` holds, in table order.
pub open spec fn installed_entries(table: Seq<TargetView>, by_type: bool, t: TargetType) -> Seq<TargetView>
    decreases table.len(),
{
    if table.len() == 0 {
        Seq::empty()
    } else {
        installed_entries(table.drop_last(), by_type, t) + if table.last().installed && (!by_type
            || table.last().target_type == t) {
            seq![table.last()]
        } else {
            Seq::empty()
        }
    }
}

/// Whether a listing of installed targets (one per line) holds `target` on a line of its own.
pub open spec fn listed(listing: Seq<char>, target: Seq<char>) -> bool {
    exists|i: int| 0 <= i < lines(listing).len() && trim(#[trigger] lines(listing)[i]) == target
}

impl ToolchainManager {
    /// The target table as plain values.
    pub closed spec fn table(&self) -> Seq<TargetView> {
        target_views(self.installed_targets@)
    }

    /// A manager that knows the standard targets; installation status is filled in from a
    /// listing of installed targets.
    pub fn new() -> (r: Result<ToolchainManager, CompilationError>)
        ensures
            r matches Ok(m) && m.table() == known_targets(),
    {
        let mut v: Vec<TargetInfo> = Vec::new();
        add_target(&mut v, "x86_64-unknown-linux-gnu", TargetType::Std, names0(), names1("std"));
        add_target(&mut v, "x86_64-pc-windows-msvc", TargetType::Std, names0(), names1("std"));
        add_target(&mut v, "x86_64-apple-darwin", TargetType::Std, names0(), names1("std"));
        add_target(&mut v, "thumbv7em-none-eabihf", TargetType::Embedded, names1("cortex-m"), names3("cortex-m", "cortex-m-rt", "panic-halt"));
        add_target(&mut v, "thumbv6m-none-eabi", TargetType::Embedded, names1("cortex-m"), names3("cortex-m", "cortex-m-rt", "panic-halt"));
        add_target(&mut v, "thumbv7m-none-eabi", TargetType::Embedded, names1("cortex-m"), names3("cortex-m", "cortex-m-rt", "panic-halt"));
        add_target(&mut v, "thumbv8m.main-none-eabihf", TargetType::Embedded, names1("cortex-m"), names3("cortex-m", "cortex-m-rt", "panic-halt"));
        add_target(&mut v, "riscv32imac-unknown-none-elf", TargetType::Embedded, names1("riscv"), names3("riscv", "riscv-rt", "panic-halt"));
        add_target(&mut v, "riscv64gc-unknown-none-elf", TargetType::Embedded, names1("riscv"), names3("riscv", "riscv-rt", "panic-halt"));
        let m = ToolchainManager { installed_targets: v, default_toolchain: owned("stable") };
        assert(m.table() =~= known_targets());
        Ok(m)
    }

    /// Marks as installed exactly the known targets that `listing` (the toolchain's list of
    /// installed targets, one per line) names.
    pub fn record_installed(&mut self, listing: &str)
        ensures
            final(self).table().len() == old(self).table().len(),
            forall|i: int| 0 <= i < final(self).table().len() ==> #[trigger] final(self).table()[i] == (TargetView {
                installed: listed(listing@, old(self).table()[i].target),
                ..old(self).table()[i]
            }),
    {
        let text = chars_of(listing);
        let ls = split_lines(&text);
        let mut trimmed_lines: Vec<Vec<char>> = Vec::new();
        let mut k: usize = 0;
        while k < ls.len()
            invariant
                k <= ls.len(),
                views(ls@) == lines(listing@),
                trimmed_lines@.len() == k,
                forall|j: int| 0 <= j < k ==> #[trigger] trimmed_lines@[j]@ == trim(lines(listing@)[j]),
            decreases ls.len() - k,
        {
            assert(ls@[k as int]@ == lines(listing@)[k as int]);
            trimmed_lines.push(trimmed(&ls[k]));
            k = k + 1;
        }
        let ghost old_table = self.table();
        let n = self.installed_targets.len();
        let mut i: usize = 0;
        while i < n
            invariant
                i <= n,
                n == self.installed_targets@.len(),
                n == old_table.len(),
                trimmed_lines@.len() == lines(listing@).len(),
                forall|j: int| 0 <= j < trimmed_lines@.len() ==> #[trigger] trimmed_lines@[j]@ == trim(lines(listing@)[j]),
                forall|j: int| 0 <= j < i ==> #[trigger] self.table()[j] == (TargetView {
                    installed: listed(listing@, old_table[j].target),
                    ..old_table[j]
                }),
                forall|j: int| i <= j < n ==> #[trigger] self.table()[j] == old_table[j],
            decreases n - i,
        {
            assert(self.table()[i as int] == old_table[i as int]);
            assert(self.installed_targets@[i as int]@ == self.table()[i as int]);
            let mut found = false;
            let mut k: usize = 0;
            while k < trimmed_lines.len()
                invariant
                    k <= trimmed_lines@.len(),
                    i < n,
                    n == self.installed_targets@.len(),
                    trimmed_lines@.len() == lines(listing@).len(),
                    forall|j: int| 0 <= j < trimmed_lines@.len() ==> #[trigger] trimmed_lines@[j]@ == trim(lines(listing@)[j]),
                    self.installed_targets@[i as int].target@ == old_table[i as int].target,
                    found <==> exists|j: int| 0 <= j < k && trim(#[trigger] lines(listing@)[j]) == old_table[i as int].target,
                decreases trimmed_lines.len() - k,
            {
                if equals(&trimmed_lines[k], self.installed_targets[i].target.as_str()) {
                    found = true;
                }
                k = k + 1;
            }
            let ghost before = self.installed_targets@;
            let mut entry = self.installed_targets[i].clone_info();
            entry.installed = found;
            self.installed_targets.set(i, entry);
            assert forall|j: int| 0 <= j < n && j != i implies #[trigger] self.table()[j] == target_views(before)[j] by {
                assert(self.installed_targets@[j] == before[j]);
            }
            assert(self.table()[i as int] == (TargetView { installed: listed(listing@, old_table[i as int].target), ..old_table[i as int] }));
            i = i + 1;
        }
    }

    /// The entry for `target`, if the manager knows it.
    pub fn get_target_info(&self, target: &str) -> (r: Option<&TargetInfo>)
        ensures
            match r {
                Some(t) => entry_for(self.table(), target@) == Some(t@),
                None => entry_for(self.table(), target@) is None,
            },
    {
        let ghost table = self.table();
        let t = chars_of(target);
        let mut i: usize = 0;
        assert(table.subrange(0, table.len() as int) =~= table);
        while i < self.installed_targets.len()
            invariant
                i <= table.len(),
                table == self.table(),
                t@ == target@,
                entry_for(table, target@) == entry_for(table.subrange(i as int, table.len() as int), target@),
            decreases table.len() - i,
        {
            let ghost rest = table.subrange(i as int, table.len() as int);
            assert(rest.drop_first() =~= table.subrange(i + 1, table.len() as int));
            if equals(&t, self.installed_targets[i].target.as_str()) {
                return Some(&self.installed_targets[i]);
            }
            i = i + 1;
        }
        None
    }

    /// The default dependencies of `target`; none for an unknown target.
    pub fn get_recommended_dependencies(&self, target: &str) -> (r: Vec<String>)
        ensures
            r.deep_view() == match entry_for(self.table(), target@) {
                Some(e) => e.default_dependencies,
                None => Seq::empty(),
            },
    {
        match self.get_target_info(target) {
            Some(info) => crate::test_config::clone_names(&info.default_dependencies),
            None => names0(),
        }
    }

    /// The installed targets, in table order.
    pub fn get_installed_targets(&self) -> (r: Vec<TargetInfo>)
        ensures
            target_views(r@) == installed_entries(self.table(), false, TargetType::Std),
    {
        self.select(false, TargetType::Std)
    }

    /// The installed targets of one type, in table order.
    pub fn get_targets_by_type(&self, target_type: TargetType) -> (r: Vec<TargetInfo>)
        ensures
            target_views(r@) == installed_entries(self.table(), true, target_type),
    {
        self.select(true, target_type)
    }

    fn select(&self, by_type: bool, target_type: TargetType) -> (r: Vec<TargetInfo>)
        ensures
            target_views(r@) == installed_entries(self.table(), by_type, target_type),
    {
        let ghost table = self.table();
        let mut out: Vec<TargetInfo> = Vec::new();
        let mut i: usize = 0;
        assert(target_views(out@) =~= installed_entries(table.subrange(0, 0), by_type, target_type));
        while i < self.installed_targets.len()
            invariant
                i <= table.len(),
                table == self.table(),
                target_views(out@) == installed_entries(table.subrange(0, i as int), by_type, target_type),
            decreases table.len() - i,
        {
            assert(table.subrange(0, i + 1).drop_last() =~= table.subrange(0, i as int));
            let info = &self.installed_targets[i];
            assert(table[i as int] == info@);
            let ghost before = target_views(out@);
            if info.installed && (!by_type || info.target_type == target_type) {
                out.push(info.clone_info());
                assert(target_views(out@) =~= before + seq![info@]);
            } else {
                assert(target_views(out@) =~= before + Seq::<TargetView>::empty());
            }
            i = i + 1;
        }
        assert(table.subrange(0, table.len() as int) =~= table);
        out
    }

    /// The targets to compile for under `config`, by `available_targets`.
    pub fn get_available_targets(&self, config: &TestConfig) -> (r: Vec<String>)
        ensures
            r.deep_view() == available_targets(self.table(), config@),
    {
        let ghost table = self.table();
        let ghost req = config.targets.deep_view();
        let mut out: Vec<String> = Vec::new();
        let mut i: usize = 0;
        assert(req.subrange(0, 0) =~= Seq::<Seq<char>>::empty());
        assert(out.deep_view() =~= Seq::<Seq<char>>::empty());
        while i < config.targets.len()
            invariant
                i <= req.len(),
                req == config.targets.deep_view(),
                table == self.table(),
                out.deep_view() == suitable(table, req.subrange(0, i as int), config.no_std, config.embedded_mode),
            decreases req.len() - i,
        {
            assert(req.subrange(0, i + 1).drop_last() =~= req.subrange(0, i as int));
            let ghost before = out.deep_view();
            match self.get_target_info(config.targets[i].as_str()) {
                Some(info) => {
                    let t = info.target_type;
                    let ok = (t == TargetType::Std && !config.no_std && !config.embedded_mode) || (t == TargetType::NoStd
                        && config.no_std) || (t == TargetType::Embedded && config.no_std && config.embedded_mode);
                    if info.installed && ok {
                        out.push(config.targets[i].clone());
                        assert(out.deep_view() =~= before + seq![req[i as int]]);
                    } else {
                        assert(out.deep_view() =~= before + Seq::<Seq<char>>::empty());
                    }
                },
                None => {
                    assert(out.deep_view() =~= before + Seq::<Seq<char>>::empty());
                },
            }
            i = i + 1;
        }
        assert(req.subrange(0, req.len() as int) =~= req);
        if out.len() > 0 {
            return out;
        }
        assert(out.deep_view().len() == 0);
        if config.embedded_mode {
            let mut k: usize = 0;
            assert(table.subrange(0, table.len() as int) =~= table);
            while k < self.installed_targets.len()
                invariant
                    k <= table.len(),
                    table == self.table(),
                    config.embedded_mode,
                    suitable(table, config.targets.deep_view(), config.no_std, config.embedded_mode).len() == 0,
                    first_installed_embedded(table) == first_installed_embedded(table.subrange(k as int, table.len() as int)),
                decreases table.len() - k,
            {
                let ghost rest = table.subrange(k as int, table.len() as int);
                assert(rest.drop_first() =~= table.subrange(k + 1, table.len() as int));
                let info = &self.installed_targets[k];
                assert(table[k as int] == info@);
                if info.installed && info.target_type == TargetType::Embedded {
                    let mut r: Vec<String> = Vec::new();
                    r.push(info.target.clone());
                    assert(r.deep_view() =~= seq![info.target@]);
                    return r;
                }
                k = k + 1;
            }
            assert(out.deep_view() =~= Seq::<Seq<char>>::empty());
            out
        } else {
            names1("x86_64-unknown-linux-gnu")
        }
    }

    /// A summary for diagnostics from the tool versions the caller read; an error where the
    /// build tool or the compiler did not report a version.
    pub fn get_system_info(&self, cargo_version: Option<String>, rustc_version: Option<String>, rustup_version: Option<String>) -> (r: Result<SystemInfo, CompilationError>)
        ensures
            (cargo_version is Some && rustc_version is Some) <==> r is Ok,
            r matches Ok(info) ==> info.available_targets == self.table().len()
                && info.installed_targets == installed_entries(self.table(), false, TargetType::Std).len()
                && info.cargo_version@ == cargo_version->0@ && info.rustc_version@ == rustc_version->0@
                && info.rustup_version.deep_view() == rustup_version.deep_view(),
    {
        let cargo = match cargo_version {
            Some(v) => v,
            None => return Err(CompilationError::IoError { message: owned("cargo not available") }),
        };
        let rustc = match rustc_version {
            Some(v) => v,
            None => return Err(CompilationError::IoError { message: owned("rustc not available") }),
        };
        let installed = self.get_installed_targets();
        proof {
            assert(installed@.len() == target_views(installed@).len());
        }
        Ok(SystemInfo {
            cargo_version: cargo,
            rustc_version: rustc,
            rustup_version,
            installed_targets: installed.len(),
            available_targets: self.installed_targets.len(),
        })
    }
}

impl TargetInfo {
    /// A copy of this entry.
    pub fn clone_info(&self) -> (r: TargetInfo)
        ensures
            r@ == self@,
    {
        TargetInfo {
            target: self.target.clone(),
            installed: self.installed,
            target_type: self.target_type,
            required_features: crate::test_config::clone_names(&self.required_features),
            default_dependencies: crate::test_config::clone_names(&self.default_dependencies),
        }
    }
}


/// The target type a profile compiles for: a full runtime for full-runtime and cryptographic
/// code, a minimal runtime for minimal-runtime code, a board for hardware code; none for an
/// excerpt.
pub open spec fn target_type_for(p: Profile) -> Option<TargetType> {
    match p {
        Profile::Std { .. } => Some(TargetType::Std),
        Profile::Crypto { .. } => Some(TargetType::Std),
        Profile::NoStd { .. } => Some(TargetType::NoStd),
        Profile::Hardware { .. } => Some(TargetType::Embedded),
        Profile::Snippet { .. } => None,
    }
}

/// The requested targets that are installed and of type `t`, in request order.
pub open spec fn installed_of_type(table: Seq<TargetView>, requested: Seq<Seq<char>>, t: TargetType) -> Seq<Seq<char>>
    decreases requested.len(),
{
    if requested.len() == 0 {
        Seq::empty()
    } else {
        installed_of_type(table, requested.drop_last(), t) + match entry_for(table, requested.last()) {
            Some(e) => if e.installed && e.target_type == t {
                seq![requested.last()]
            } else {
                Seq::empty()
            },
            None => Seq::empty(),
        }
    }
}

/// The targets for a profile: the requested ones that are installed and of its type; failing
/// those, the host target for a full runtime, or else the first installed board target.
/// `None` where none of these exists; an excerpt gets no target.
pub open spec fn compatible(table: Seq<TargetView>, p: Profile, requested: Seq<Seq<char>>) -> Option<Seq<Seq<char>>> {
    match target_type_for(p) {
        None => Some(Seq::empty()),
        Some(t) => {
            let found = installed_of_type(table, requested, t);
            if found.len() > 0 {
                Some(found)
            } else if t == TargetType::Std {
                Some(seq![host_target()])
            } else {
                match first_installed_embedded(table) {
                    Some(e) => Some(seq![e]),
                    None => None,
                }
            }
        },
    }
}

impl ToolchainManager {
    fn first_embedded(&self) -> (r: Option<String>)
        ensures
            r.deep_view() == first_installed_embedded(self.table()),
    {
        let ghost table = self.table();
        let mut k: usize = 0;
        assert(table.subrange(0, table.len() as int) =~= table);
        while k < self.installed_targets.len()
            invariant
                k <= table.len(),
                table == self.table(),
                first_installed_embedded(table) == first_installed_embedded(table.subrange(k as int, table.len() as int)),
            decreases table.len() - k,
        {
            let ghost rest = table.subrange(k as int, table.len() as int);
            assert(rest.drop_first() =~= table.subrange(k + 1, table.len() as int));
            let info = &self.installed_targets[k];
            assert(table[k as int] == info@);
            if info.installed && info.target_type == TargetType::Embedded {
                return Some(info.target.clone());
            }
            k = k + 1;
        }
        None
    }

    /// The targets to compile a fragment of profile `profile` for, by `compatible`; a target
    /// error where there is none.
    pub fn compatible_targets(&self, profile: &ExampleContext, requested: &Vec<String>) -> (r: Result<Vec<String>, CompilationError>)
        ensures
            match compatible(self.table(), profile@, requested.deep_view()) {
                Some(ts) => r matches Ok(v) && v.deep_view() == ts,
                None => r matches Err(CompilationError::TargetError { .. }),
            },
    {
        let t = match profile {
            ExampleContext::Std { .. } => TargetType::Std,
            ExampleContext::Crypto { .. } => TargetType::Std,
            ExampleContext::NoStd { .. } => TargetType::NoStd,
            ExampleContext::Hardware { .. } => TargetType::Embedded,
            ExampleContext::Snippet { .. } => {
                return Ok(names0());
            },
        };
        let ghost table = self.table();
        let ghost req = requested.deep_view();
        let mut out: Vec<String> = Vec::new();
        let mut i: usize = 0;
        assert(req.subrange(0, 0) =~= Seq::<Seq<char>>::empty());
        assert(out.deep_view() =~= Seq::<Seq<char>>::empty());
        while i < requested.len()
            invariant
                i <= req.len(),
                req == requested.deep_view(),
                table == self.table(),
                out.deep_view() == installed_of_type(table, req.subrange(0, i as int), t),
            decreases req.len() - i,
        {
            assert(req.subrange(0, i + 1).drop_last() =~= req.subrange(0, i as int));
            let ghost before = out.deep_view();
            match self.get_target_info(requested[i].as_str()) {
                Some(info) => {
                    if info.installed && info.target_type == t {
                        out.push(requested[i].clone());
                        assert(out.deep_view() =~= before + seq![req[i as int]]);
                    } else {
                        assert(out.deep_view() =~= before + Seq::<Seq<char>>::empty());
                    }
                },
                None => {
                    assert(out.deep_view() =~= before + Seq::<Seq<char>>::empty());
                },
            }
            i = i + 1;
        }
        assert(req.subrange(0, req.len() as int) =~= req);
        if out.len() > 0 {
            return Ok(out);
        }
        assert(out.deep_view().len() == 0);
        if t == TargetType::Std {
            return Ok(names1("x86_64-unknown-linux-gnu"));
        }
        match self.first_embedded() {
            Some(e) => {
                let mut v: Vec<String> = Vec::new();
                let ghost ev = e@;
                v.push(e);
                assert(v.deep_view() =~= seq![ev]);
                Ok(v)
            },
            None => Err(CompilationError::TargetError {
                incompatible_target: owned("none"),
                reason: owned("No compatible targets available"),
            }),
        }
    }
}


/// The targets of `targets` whose flag in `available` is set, in order.
pub open spec fn kept_targets(targets: Seq<Seq<char>>, available: Seq<bool>) -> Seq<Seq<char>>
    decreases targets.len(),
{
    if targets.len() == 0 || available.len() != targets.len() {
        Seq::empty()
    } else {
        kept_targets(targets.drop_last(), available.drop_last()) + if available.last() {
            seq![targets.last()]
        } else {
            Seq::empty()
        }
    }
}

impl ToolchainManager {
    /// The configured targets that are available once the missing ones were offered for
    /// installation (`available[i]` tells whether target `i` is installed now), in
    /// configuration order; a target error naming all of them where none is.
    pub fn ensure_targets_for_config(&self, config: &TestConfig, available: &Vec<bool>) -> (r: Result<Vec<String>, CompilationError>)
        requires
            available@.len() == config.targets@.len(),
        ensures
            kept_targets(config.targets.deep_view(), available@).len() > 0 ==> (r matches Ok(v) && v.deep_view()
                == kept_targets(config.targets.deep_view(), available@)),
            kept_targets(config.targets.deep_view(), available@).len() == 0 ==> (r matches Err(
                CompilationError::TargetError { incompatible_target, reason },
            ) && incompatible_target@ == join_with(config.targets.deep_view(), ", "@)
                && reason@ == "No targets could be installed or are available"@),
    {
        let ghost req = config.targets.deep_view();
        let mut out: Vec<String> = Vec::new();
        let mut i: usize = 0;
        assert(req.subrange(0, 0) =~= Seq::<Seq<char>>::empty());
        assert(out.deep_view() =~= Seq::<Seq<char>>::empty());
        while i < config.targets.len()
            invariant
                i <= req.len(),
                req == config.targets.deep_view(),
                available@.len() == req.len(),
                out.deep_view() == kept_targets(req.subrange(0, i as int), available@.subrange(0, i as int)),
            decreases req.len() - i,
        {
            assert(req.subrange(0, i + 1).drop_last() =~= req.subrange(0, i as int));
            assert(available@.subrange(0, i + 1).drop_last() =~= available@.subrange(0, i as int));
            let ghost before = out.deep_view();
            if available[i] {
                out.push(config.targets[i].clone());
                assert(out.deep_view() =~= before + seq![req[i as int]]);
            } else {
                assert(out.deep_view() =~= before + Seq::<Seq<char>>::empty());
            }
            i = i + 1;
        }
        assert(req.subrange(0, req.len() as int) =~= req);
        assert(available@.subrange(0, available@.len() as int) =~= available@);
        if out.len() == 0 {
            assert(out.deep_view().len() == 0);
            let mut names: Vec<char> = Vec::new();
            push_joined(&mut names, &config.targets, ", ");
            assert(names@ =~= join_with(req, ", "@));
            return Err(CompilationError::TargetError {
                incompatible_target: string_of(&names),
                reason: owned("No targets could be installed or are available"),
            });
        }
        proof {
            assert(out@.len() == out.deep_view().len());
        }
        Ok(out)
    }
}

} // verus!
