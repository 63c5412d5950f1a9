use vstd::prelude::*;
use vstd::string::*;

use crate::model::{copy_strings, deps_view, strings_view, DepView, ResolvedDependency};

verus! {

/// The comment that heads the written manifest.
pub const DISCLAIMER: &'static str = "# This file is automatically @generated by the top-crates script.
# Do not edit it manually. Any pull requests changing this file will likely be closed.
# See https://github.com/rust-lang/rust-playground/blob/main/CRATE_POLICY.md for details.
#
";

/// Settings for build scripts, procedural macros and their dependencies.
#[derive(Clone, Copy, Debug, PartialEq, Eq, Structural)]
pub struct BuildOverride {
    pub codegen_units: u32,
    pub debug: bool,
}

/// One build profile of the manifest.
#[derive(Clone, Copy, Debug, PartialEq, Eq, Structural)]
pub struct Profile {
    pub codegen_units: u32,
    pub incremental: bool,
    pub build_override: BuildOverride,
}

/// The two build profiles of the manifest.
#[derive(Clone, Copy, Debug, PartialEq, Eq, Structural)]
pub struct Profiles {
    pub dev: Profile,
    pub release: Profile,
}

/// The fixed profile table: one codegen unit and no incremental build in both
/// profiles; build scripts get one codegen unit, with debug information in
/// `dev` only.
pub open spec fn fixed_profiles() -> Profiles {
    Profiles {
        dev: Profile {
            codegen_units: 1,
            incremental: false,
            build_override: BuildOverride { codegen_units: 1, debug: true },
        },
        release: Profile {
            codegen_units: 1,
            incremental: false,
            build_override: BuildOverride { codegen_units: 1, debug: false },
        },
    }
}

/// Builds the fixed profile table.
pub fn build_profiles() -> (p: Profiles)
    ensures
        p == fixed_profiles(),
{
    Profiles {
        dev: Profile {
            codegen_units: 1,
            incremental: false,
            build_override: BuildOverride { codegen_units: 1, debug: true },
        },
        release: Profile {
            codegen_units: 1,
            incremental: false,
            build_override: BuildOverride { codegen_units: 1, debug: false },
        },
    }
}

/// The `[package]` table of the manifest.
#[derive(Clone, Debug)]
pub struct PackageHeader {
    pub name: String,
    pub version: String,
    pub authors: Vec<String>,
    pub resolver: String,
}

/// The fixed identity of the manifest's package.
pub open spec fn is_fixed_header(h: PackageHeader) -> bool {
    &&& h.name@ == "playground"@
    &&& h.version@ == "0.0.1"@
    &&& strings_view(h.authors@) == seq!["The Rust Playground"@]
    &&& h.resolver@ == "2"@
}

/// Builds the fixed package header.
pub fn package_header() -> (h: PackageHeader)
    ensures
        is_fixed_header(h),
{
    let mut authors: Vec<String> = Vec::new();
    authors.push(String::from_str("The Rust Playground"));
    let h = PackageHeader {
        name: String::from_str("playground"),
        version: String::from_str("0.0.1"),
        authors,
        resolver: String::from_str("2"),
    };
    assert(strings_view(h.authors@) =~= seq!["The Rust Playground"@]);
    h
}

/// What the manifest requires of one dependency.
#[derive(Clone, Debug)]
pub struct DependencySpec {
    pub version: String,
    pub features: Vec<String>,
}

/// One row of a dependency table.
#[derive(Clone, Debug)]
pub struct DependencyEntry {
    pub name: String,
    pub spec: DependencySpec,
}

pub struct EntryView {
    pub name: Seq<char>,
    pub version: Seq<char>,
    pub features: Seq<Seq<char>>,
}

impl View for DependencyEntry {
    type V = EntryView;

    open spec fn view(&self) -> EntryView {
        EntryView {
            name: self.name@,
            version: self.spec.version@,
            features: strings_view(self.spec.features@),
        }
    }
}

pub open spec fn entries_view(v: Seq<DependencyEntry>) -> Seq<EntryView> {
    v.map_values(|e: DependencyEntry| e@)
}

/// The table row of a resolved dependency.
pub open spec fn entry_of(d: DepView) -> EntryView {
    EntryView { name: d.name, version: d.version, features: d.features }
}

pub open spec fn table_of(deps: Seq<DepView>) -> Seq<EntryView> {
    deps.map_values(|d: DepView| entry_of(d))
}

/// The dependency manifest.
#[derive(Clone, Debug)]
pub struct ManifestDocument {
    pub package: PackageHeader,
    pub profile: Profiles,
    pub dependencies: Vec<DependencyEntry>,
    pub build_dependencies: Vec<DependencyEntry>,
}

/// What the playground shows of one selected package.
#[derive(Clone, Debug)]
pub struct CrateInfoRecord {
    pub name: String,
    pub version: String,
    /// The name under which code refers to the package's library.
    pub id: String,
    pub features: Vec<String>,
}

pub struct InfoView {
    pub name: Seq<char>,
    pub version: Seq<char>,
    pub id: Seq<char>,
    pub features: Seq<Seq<char>>,
}

impl View for CrateInfoRecord {
    type V = InfoView;

    open spec fn view(&self) -> InfoView {
        InfoView {
            name: self.name@,
            version: self.version@,
            id: self.id@,
            features: strings_view(self.features@),
        }
    }
}

pub open spec fn infos_view(v: Seq<CrateInfoRecord>) -> Seq<InfoView> {
    v.map_values(|i: CrateInfoRecord| i@)
}

/// A package name with each `-` written `_`.
pub open spec fn identifier_of(name: Seq<char>) -> Seq<char> {
    name.map_values(|c: char| if c == '-' { '_' } else { c })
}

/// The information record of a resolved dependency.
pub open spec fn info_of(d: DepView) -> InfoView {
    InfoView { name: d.name, version: d.version, id: identifier_of(d.name), features: d.features }
}

pub open spec fn infos_of(deps: Seq<DepView>) -> Seq<InfoView> {
    deps.map_values(|d: DepView| info_of(d))
}

/// Relies on `str::replace`, which replaces every match of a pattern: here
/// each `-` by `_`.
#[verifier::external_body]
fn underscored(name: &str) -> (r: String)
    ensures
        r@ == identifier_of(name@),
{
    name.replace('-', "_")
}

/// Builds the manifest and the information records of a resolved selection.
/// Both dependency tables hold one row per dependency, in the selection's
/// order, and the records follow that same order.
pub fn synthesize(resolved: &Vec<ResolvedDependency>) -> (r: (ManifestDocument, Vec<CrateInfoRecord>))
    ensures
        is_fixed_header(r.0.package),
        r.0.profile == fixed_profiles(),
        entries_view(r.0.dependencies@) == table_of(deps_view(resolved@)),
        entries_view(r.0.build_dependencies@) == entries_view(r.0.dependencies@),
        infos_view(r.1@) == infos_of(deps_view(resolved@)),
        r.1.len() == r.0.dependencies.len(),
        forall|i: int| 0 <= i < r.1.len() ==> r.1@[i].name@ == r.0.dependencies@[i].name@,
{
    let ghost dv = deps_view(resolved@);
    let mut table: Vec<DependencyEntry> = Vec::new();
    let mut build_table: Vec<DependencyEntry> = Vec::new();
    let mut infos: Vec<CrateInfoRecord> = Vec::new();
    let mut i: usize = 0;
    while i < resolved.len()
        invariant
            i <= resolved.len(),
            dv == deps_view(resolved@),
            entries_view(table@) == table_of(dv.take(i as int)),
            entries_view(build_table@) == table_of(dv.take(i as int)),
            infos_view(infos@) == infos_of(dv.take(i as int)),
        decreases resolved.len() - i,
    {
        let d = &resolved[i];
        let row = DependencyEntry {
            name: d.name.clone(),
            spec: DependencySpec { version: d.version.clone(), features: copy_strings(&d.features) },
        };
        let build_row = DependencyEntry {
            name: d.name.clone(),
            spec: DependencySpec { version: d.version.clone(), features: copy_strings(&d.features) },
        };
        let info = CrateInfoRecord {
            name: d.name.clone(),
            version: d.version.clone(),
            id: underscored(d.name.as_str()),
            features: copy_strings(&d.features),
        };
        assert(row@ == entry_of(dv[i as int]));
        assert(build_row@ == entry_of(dv[i as int]));
        let ghost t0 = table@;
        let ghost b0 = build_table@;
        let ghost i0 = infos@;
        assert(info@ == info_of(dv[i as int]));
        table.push(row);
        build_table.push(build_row);
        infos.push(info);
        assert(dv.take(i + 1) =~= dv.take(i as int).push(dv[i as int]));
        assert(table_of(dv.take(i + 1)) =~= table_of(dv.take(i as int)).push(entry_of(dv[i as int])));
        assert(entries_view(table@) =~= entries_view(t0).push(entry_of(dv[i as int])));
        assert(entries_view(build_table@) =~= entries_view(b0).push(entry_of(dv[i as int])));
        assert(infos_of(dv.take(i + 1)) =~= infos_of(dv.take(i as int)).push(info_of(dv[i as int])));
        assert(infos_view(infos@) =~= infos_view(i0).push(info_of(dv[i as int])));
        i = i + 1;
    }
    assert(dv.take(resolved.len() as int) =~= dv);
    let manifest = ManifestDocument {
        package: package_header(),
        profile: build_profiles(),
        dependencies: table,
        build_dependencies: build_table,
    };
    proof {
        assert forall|k: int| 0 <= k < infos.len() implies infos@[k].name@
            == manifest.dependencies@[k].name@ by {
            assert(infos_view(infos@)[k].name == entries_view(manifest.dependencies@)[k].name);
        }
    }
    (manifest, infos)
}

/// The manifest text as written: the disclaimer, then the serialized tables.
pub fn with_disclaimer(content: &str) -> (r: String)
    ensures
        r@ == DISCLAIMER@ + content@,
{
    let mut r = String::from_str(DISCLAIMER);
    r.append(content);
    r
}

} // verus!
