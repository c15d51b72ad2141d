//! Declarative model of what each external conversion tool can do.
//!
//! A [`CapabilityRecord`] is an immutable declaration of one tool-to-tool
//! conversion edge: identity, input/output format specifications, scalar
//! per-mille scores, resource costs, external requirements, fidelity
//! information, risks, and execution limits.

use vstd::prelude::*;

use crate::text::clone_strings;
use crate::valid_score;

verus! {

/// One format a capability accepts or produces: a MIME identifier plus the
/// file extensions treated as aliases of it.
pub struct FormatSpec {
    pub mime: String,
    pub extensions: Vec<String>,
}

/// Mathematical model of a [`FormatSpec`].
pub ghost struct FormatSpecView {
    pub mime: Seq<char>,
    pub extensions: Seq<Seq<char>>,
}

impl View for FormatSpec {
    type V = FormatSpecView;

    open spec fn view(&self) -> FormatSpecView {
        FormatSpecView { mime: self.mime@, extensions: self.extensions.deep_view() }
    }
}

impl DeepView for FormatSpec {
    type V = FormatSpecView;

    open spec fn deep_view(&self) -> FormatSpecView {
        self.view()
    }
}

impl Clone for FormatSpec {
    fn clone(&self) -> (r: Self)
        ensures
            r@ == self@,
    {
        FormatSpec { mime: self.mime.clone(), extensions: clone_strings(&self.extensions) }
    }
}

impl FormatSpecView {
    /// True when `m` is the MIME identifier or one of the extension aliases.
    pub open spec fn has_alias(self, m: Seq<char>) -> bool {
        self.mime == m || self.extensions.contains(m)
    }
}

/// True when `m` is an alias of some format specification in `ss`.
pub open spec fn some_alias(ss: Seq<FormatSpecView>, m: Seq<char>) -> bool {
    exists|k: int| 0 <= k < ss.len() && ss[k].has_alias(m)
}

/// Relative resource cost of running a capability, each in `0 ..= SCALE`.
#[derive(Clone, Copy, Debug, PartialEq, Eq, Structural)]
pub struct ResourceCost {
    pub cpu: u32,
    pub memory: u32,
    pub gpu: u32,
}

/// External requirements of a capability: tool binaries, language packs, and
/// fonts that must be present for it to run.
pub struct Requirements {
    pub tools: Vec<String>,
    pub lang_packs: Vec<String>,
    pub fonts: Vec<String>,
}

/// Mathematical model of a [`Requirements`].
pub ghost struct RequirementsView {
    pub tools: Seq<Seq<char>>,
    pub lang_packs: Seq<Seq<char>>,
    pub fonts: Seq<Seq<char>>,
}

impl View for Requirements {
    type V = RequirementsView;

    open spec fn view(&self) -> RequirementsView {
        RequirementsView {
            tools: self.tools.deep_view(),
            lang_packs: self.lang_packs.deep_view(),
            fonts: self.fonts.deep_view(),
        }
    }
}

impl Clone for Requirements {
    fn clone(&self) -> (r: Self)
        ensures
            r@ == self@,
    {
        Requirements {
            tools: clone_strings(&self.tools),
            lang_packs: clone_strings(&self.lang_packs),
            fonts: clone_strings(&self.fonts),
        }
    }
}

/// How faithfully a feature survives a conversion.
#[derive(Clone, Copy, Debug, PartialEq, Eq, Structural)]
pub enum PreserveLevel {
    True,
    False,
    Partial,
}

/// Per-feature fidelity of a conversion.
#[derive(Clone, Copy, Debug, PartialEq, Eq, Structural)]
pub struct PreserveFeatures {
    pub styles: PreserveLevel,
    pub links: PreserveLevel,
    pub footnotes: PreserveLevel,
    pub headers: PreserveLevel,
    pub lists: PreserveLevel,
    pub tables: PreserveLevel,
    pub images: PreserveLevel,
    pub formulas: PreserveLevel,
}

/// An immutable declaration of one tool-to-tool conversion edge.
///
/// `quality` and `speed` are per-mille scores in `0 ..= SCALE`. Created at
/// registry-initialization time and never mutated after registration; a
/// changed capability is re-registered under its id.
pub struct CapabilityRecord {
    pub id: String,
    pub name: String,
    pub version: String,
    pub license: String,
    pub vendor: String,
    pub binary_path: Option<String>,
    pub inputs: Vec<FormatSpec>,
    pub outputs: Vec<FormatSpec>,
    pub quality: u32,
    pub speed: u32,
    pub cost: ResourceCost,
    pub requires: Requirements,
    pub preserve: PreserveFeatures,
    pub risks: Vec<String>,
    pub timeout_s: Option<u32>,
    pub max_mem_mb: Option<u32>,
    pub parallelism: u32,
    pub streaming: bool,
}

/// Mathematical model of a [`CapabilityRecord`].
pub ghost struct CapView {
    pub id: Seq<char>,
    pub name: Seq<char>,
    pub version: Seq<char>,
    pub license: Seq<char>,
    pub vendor: Seq<char>,
    pub binary_path: Option<Seq<char>>,
    pub inputs: Seq<FormatSpecView>,
    pub outputs: Seq<FormatSpecView>,
    pub quality: u32,
    pub speed: u32,
    pub cost: ResourceCost,
    pub requires: RequirementsView,
    pub preserve: PreserveFeatures,
    pub risks: Seq<Seq<char>>,
    pub timeout_s: Option<u32>,
    pub max_mem_mb: Option<u32>,
    pub parallelism: u32,
    pub streaming: bool,
}

impl View for CapabilityRecord {
    type V = CapView;

    open spec fn view(&self) -> CapView {
        CapView {
            id: self.id@,
            name: self.name@,
            version: self.version@,
            license: self.license@,
            vendor: self.vendor@,
            binary_path: self.binary_path.deep_view(),
            inputs: self.inputs.deep_view(),
            outputs: self.outputs.deep_view(),
            quality: self.quality,
            speed: self.speed,
            cost: self.cost,
            requires: self.requires@,
            preserve: self.preserve,
            risks: self.risks.deep_view(),
            timeout_s: self.timeout_s,
            max_mem_mb: self.max_mem_mb,
            parallelism: self.parallelism,
            streaming: self.streaming,
        }
    }
}

impl DeepView for CapabilityRecord {
    type V = CapView;

    open spec fn deep_view(&self) -> CapView {
        self.view()
    }
}

impl CapView {
    /// Scores declared by a capability stay within the fixed-point range.
    pub open spec fn wf(self) -> bool {
        &&& valid_score(self.quality)
        &&& valid_score(self.speed)
        &&& valid_score(self.cost.cpu)
        &&& valid_score(self.cost.memory)
        &&& valid_score(self.cost.gpu)
    }

    /// True when `m` is an alias of one of the declared input formats.
    pub open spec fn has_input_alias(self, m: Seq<char>) -> bool {
        some_alias(self.inputs, m)
    }

    /// True when `m` is an alias of one of the declared output formats.
    pub open spec fn has_output_alias(self, m: Seq<char>) -> bool {
        some_alias(self.outputs, m)
    }
}

/// Clones a vector of format specifications, preserving each one's model.
pub fn clone_format_specs(v: &Vec<FormatSpec>) -> (r: Vec<FormatSpec>)
    ensures
        r.deep_view() == v.deep_view(),
{
    let mut r: Vec<FormatSpec> = Vec::new();
    let mut i: usize = 0;
    while i < v.len()
        invariant
            i <= v.len(),
            r.deep_view() =~= v.deep_view().subrange(0, i as int),
        decreases v.len() - i,
    {
        let ghost prev = r.deep_view();
        r.push(v[i].clone());
        proof {
            assert(r.deep_view() =~= prev.push(v.deep_view()[i as int]));
            assert(r.deep_view() =~= v.deep_view().subrange(0, i as int + 1));
        }
        i = i + 1;
    }
    proof {
        assert(r.deep_view() =~= v.deep_view());
    }
    r
}

impl Clone for CapabilityRecord {
    fn clone(&self) -> (r: Self)
        ensures
            r@ == self@,
    {
        CapabilityRecord {
            id: self.id.clone(),
            name: self.name.clone(),
            version: self.version.clone(),
            license: self.license.clone(),
            vendor: self.vendor.clone(),
            binary_path: self.binary_path.clone(),
            inputs: clone_format_specs(&self.inputs),
            outputs: clone_format_specs(&self.outputs),
            quality: self.quality,
            speed: self.speed,
            cost: self.cost,
            requires: self.requires.clone(),
            preserve: self.preserve,
            risks: clone_strings(&self.risks),
            timeout_s: self.timeout_s,
            max_mem_mb: self.max_mem_mb,
            parallelism: self.parallelism,
            streaming: self.streaming,
        }
    }
}

/// Presence and version of one required external tool, as last probed.
pub struct ToolHealth {
    pub name: String,
    pub available: bool,
    pub version: Option<String>,
    pub path: Option<String>,
    pub error: Option<String>,
}

/// Mathematical model of a [`ToolHealth`].
pub ghost struct ToolHealthView {
    pub name: Seq<char>,
    pub available: bool,
    pub version: Option<Seq<char>>,
    pub path: Option<Seq<char>>,
    pub error: Option<Seq<char>>,
}

impl View for ToolHealth {
    type V = ToolHealthView;

    open spec fn view(&self) -> ToolHealthView {
        ToolHealthView {
            name: self.name@,
            available: self.available,
            version: self.version.deep_view(),
            path: self.path.deep_view(),
            error: self.error.deep_view(),
        }
    }
}

impl DeepView for ToolHealth {
    type V = ToolHealthView;

    open spec fn deep_view(&self) -> ToolHealthView {
        self.view()
    }
}

impl Clone for ToolHealth {
    fn clone(&self) -> (r: Self)
        ensures
            r@ == self@,
    {
        ToolHealth {
            name: self.name.clone(),
            available: self.available,
            version: self.version.clone(),
            path: self.path.clone(),
            error: self.error.clone(),
        }
    }
}

/// Result of probing every distinct required external tool.
pub struct HealthReport {
    pub tools: Vec<ToolHealth>,
    pub timestamp: i64,
}

/// Mathematical model of a [`HealthReport`].
pub ghost struct HealthReportView {
    pub tools: Seq<ToolHealthView>,
    pub timestamp: i64,
}

impl View for HealthReport {
    type V = HealthReportView;

    open spec fn view(&self) -> HealthReportView {
        HealthReportView { tools: self.tools.deep_view(), timestamp: self.timestamp }
    }
}

} // verus!
