use vstd::prelude::*;

verus! {

/// The strings of a list, as character sequences.
pub open spec fn strings_view(v: Seq<String>) -> Seq<Seq<char>> {
    v.map_values(|s: String| s@)
}

/// Where a resolved dependency came from.
#[derive(Clone, Copy, Debug, PartialEq, Eq, Structural)]
pub enum Origin {
    /// Taken from the popularity ranking.
    Auto,
    /// Added by a force-include rule.
    Manual,
}

/// A package as the ranking source reports it.
#[derive(Clone, Debug)]
pub struct RankedPackage {
    pub name: String,
    pub version: String,
    /// Popularity rank: lower is more popular.
    pub rank: u64,
    pub features: Vec<String>,
}

pub struct RankedView {
    pub name: Seq<char>,
    pub version: Seq<char>,
    pub rank: u64,
    pub features: Seq<Seq<char>>,
}

impl View for RankedPackage {
    type V = RankedView;

    open spec fn view(&self) -> RankedView {
        RankedView {
            name: self.name@,
            version: self.version@,
            rank: self.rank,
            features: strings_view(self.features@),
        }
    }
}

pub open spec fn ranking_view(v: Seq<RankedPackage>) -> Seq<RankedView> {
    v.map_values(|p: RankedPackage| p@)
}

/// What an override rule does to the package it names.
#[derive(Clone, Debug)]
pub enum RuleAction {
    /// Add the package, at the given version, when the ranking lacks it.
    ForceInclude { version: String },
    /// Remove the package, whatever else asks for it.
    Exclude,
    /// Require the given version of the package.
    PinVersion { version: String },
    /// Enable the given features of the package.
    AddFeature { features: Vec<String> },
}

pub enum ActionView {
    ForceInclude(Seq<char>),
    Exclude,
    PinVersion(Seq<char>),
    AddFeature(Seq<Seq<char>>),
}

/// One curated modification, keyed by package name.
#[derive(Clone, Debug)]
pub struct OverrideRule {
    pub name: String,
    pub action: RuleAction,
}

pub struct RuleView {
    pub name: Seq<char>,
    pub action: ActionView,
}

impl View for OverrideRule {
    type V = RuleView;

    open spec fn view(&self) -> RuleView {
        RuleView {
            name: self.name@,
            action: match self.action {
                RuleAction::ForceInclude { version } => ActionView::ForceInclude(version@),
                RuleAction::Exclude => ActionView::Exclude,
                RuleAction::PinVersion { version } => ActionView::PinVersion(version@),
                RuleAction::AddFeature { features } => ActionView::AddFeature(
                    strings_view(features@),
                ),
            },
        }
    }
}

pub open spec fn rules_view(v: Seq<OverrideRule>) -> Seq<RuleView> {
    v.map_values(|r: OverrideRule| r@)
}

/// A package of the final selection.
#[derive(Clone, Debug)]
pub struct ResolvedDependency {
    pub name: String,
    pub version: String,
    pub features: Vec<String>,
    pub origin: Origin,
}

pub struct DepView {
    pub name: Seq<char>,
    pub version: Seq<char>,
    pub features: Seq<Seq<char>>,
    pub origin: Origin,
}

impl View for ResolvedDependency {
    type V = DepView;

    open spec fn view(&self) -> DepView {
        DepView {
            name: self.name@,
            version: self.version@,
            features: strings_view(self.features@),
            origin: self.origin,
        }
    }
}

pub open spec fn deps_view(v: Seq<ResolvedDependency>) -> Seq<DepView> {
    v.map_values(|d: ResolvedDependency| d@)
}

/// Copies a list of strings.
pub fn copy_strings(v: &Vec<String>) -> (r: Vec<String>)
    ensures
        r@ == v@,
{
    let mut r: Vec<String> = Vec::new();
    let mut i: usize = 0;
    while i < v.len()
        invariant
            i <= v.len(),
            r@ == v@.take(i as int),
        decreases v.len() - i,
    {
        r.push(v[i].clone());
        assert(r@ =~= v@.take(i + 1));
        i = i + 1;
    }
    assert(v@.take(v.len() as int) =~= v@);
    r
}

} // verus!
