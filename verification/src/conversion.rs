//! Conversion paths produced by the planner, detection results, options, and
//! recipe definitions.

use vstd::prelude::*;

use crate::text::clone_strings;
use crate::valid_score;

verus! {

/// One hop of a conversion chain: which converter to run and between which
/// formats, with the converter's declared per-mille quality.
pub struct ConversionStep {
    pub converter_id: String,
    pub from_format: String,
    pub to_format: String,
    pub quality: u32,
}

/// Mathematical model of a [`ConversionStep`].
pub ghost struct StepView {
    pub converter_id: Seq<char>,
    pub from_format: Seq<char>,
    pub to_format: Seq<char>,
    pub quality: u32,
}

impl View for ConversionStep {
    type V = StepView;

    open spec fn view(&self) -> StepView {
        StepView {
            converter_id: self.converter_id@,
            from_format: self.from_format@,
            to_format: self.to_format@,
            quality: self.quality,
        }
    }
}

impl DeepView for ConversionStep {
    type V = StepView;

    open spec fn deep_view(&self) -> StepView {
        self.view()
    }
}

impl Clone for ConversionStep {
    fn clone(&self) -> (r: Self)
        ensures
            r@ == self@,
    {
        ConversionStep {
            converter_id: self.converter_id.clone(),
            from_format: self.from_format.clone(),
            to_format: self.to_format.clone(),
            quality: self.quality,
        }
    }
}

/// An ordered chain of conversion steps from a source format to a target
/// format, with its aggregate quality, estimated time, and merged risks.
///
/// `total_quality` is the scaled product of the steps' qualities; a path with
/// zero steps is the identity path of quality `SCALE`.
pub struct ConversionPath {
    pub steps: Vec<ConversionStep>,
    pub total_quality: u32,
    pub estimated_time_ms: u64,
    pub risks: Vec<String>,
}

/// Mathematical model of a [`ConversionPath`].
pub ghost struct PathView {
    pub steps: Seq<StepView>,
    pub total_quality: u32,
    pub estimated_time_ms: u64,
    pub risks: Seq<Seq<char>>,
}

impl View for ConversionPath {
    type V = PathView;

    open spec fn view(&self) -> PathView {
        PathView {
            steps: self.steps.deep_view(),
            total_quality: self.total_quality,
            estimated_time_ms: self.estimated_time_ms,
            risks: self.risks.deep_view(),
        }
    }
}

impl DeepView for ConversionPath {
    type V = PathView;

    open spec fn deep_view(&self) -> PathView {
        self.view()
    }
}

/// Clones a vector of conversion steps, preserving each one's model.
pub fn clone_steps(v: &Vec<ConversionStep>) -> (r: Vec<ConversionStep>)
    ensures
        r.deep_view() == v.deep_view(),
{
    let mut r: Vec<ConversionStep> = Vec::new();
    let mut i: usize = 0;
    while i < v.len()
        invariant
            i <= v.len(),
            r.deep_view() =~= v.deep_view().subrange(0, i as int),
        decreases v.len() - i,
    {
        let ghost prev = r.deep_view();
        r.push(v[i].clone());
        proof {
            assert(r.deep_view() =~= prev.push(v.deep_view()[i as int]));
            assert(r.deep_view() =~= v.deep_view().subrange(0, i as int + 1));
        }
        i = i + 1;
    }
    proof {
        assert(r.deep_view() =~= v.deep_view());
    }
    r
}

impl Clone for ConversionPath {
    fn clone(&self) -> (r: Self)
        ensures
            r@ == self@,
    {
        ConversionPath {
            steps: clone_steps(&self.steps),
            total_quality: self.total_quality,
            estimated_time_ms: self.estimated_time_ms,
            risks: clone_strings(&self.risks),
        }
    }
}

/// A target format reachable from a source format, annotated with whether its
/// requirements are currently satisfied.
pub struct ConversionTarget {
    pub format: String,
    pub mime_type: String,
    pub paths: Vec<ConversionPath>,
    pub recommended: bool,
    pub available: bool,
    pub missing_requirements: Vec<String>,
}

/// Mathematical model of a [`ConversionTarget`].
pub ghost struct TargetView {
    pub format: Seq<char>,
    pub mime_type: Seq<char>,
    pub paths: Seq<PathView>,
    pub recommended: bool,
    pub available: bool,
    pub missing_requirements: Seq<Seq<char>>,
}

impl View for ConversionTarget {
    type V = TargetView;

    open spec fn view(&self) -> TargetView {
        TargetView {
            format: self.format@,
            mime_type: self.mime_type@,
            paths: self.paths.deep_view(),
            recommended: self.recommended,
            available: self.available,
            missing_requirements: self.missing_requirements.deep_view(),
        }
    }
}

impl DeepView for ConversionTarget {
    type V = TargetView;

    open spec fn deep_view(&self) -> TargetView {
        self.view()
    }
}

/// What was learned about one input file: its detected MIME type, extension,
/// size, a scanned-document heuristic, and the modification time in seconds
/// when the filesystem reported one.
pub struct FileDetection {
    pub path: String,
    pub mime_type: String,
    pub extension: String,
    pub size_bytes: u64,
    pub is_scanned_pdf: bool,
    pub modified_secs: Option<u64>,
}

/// What the caller favours when ranking candidate paths.
#[derive(Clone, Copy, Debug, PartialEq, Eq, Structural)]
pub enum QualityPriority {
    Quality,
    Balanced,
    Speed,
}

/// Options attached to a conversion request. `custom_params` carries
/// tool-specific parameters as uninterpreted JSON text.
pub struct ConversionOptions {
    pub quality_priority: QualityPriority,
    pub max_file_size_mb: Option<u32>,
    pub ocr_enabled: bool,
    pub ocr_languages: Vec<String>,
    pub preserve_metadata: bool,
    pub custom_params: String,
}

impl Default for ConversionOptions {
    /// Balanced priority, OCR disabled with English and simplified Chinese
    /// packs preselected, metadata preserved, and empty custom parameters.
    fn default() -> (r: Self)
        ensures
            r.quality_priority == QualityPriority::Balanced,
            r.max_file_size_mb is None,
            !r.ocr_enabled,
            r.ocr_languages.deep_view() =~= seq!["eng"@, "chi_sim"@],
            r.preserve_metadata,
            r.custom_params@ == "{}"@,
    {
        let langs: Vec<String> = vec!["eng".to_owned(), "chi_sim".to_owned()];
        ConversionOptions {
            quality_priority: QualityPriority::Balanced,
            max_file_size_mb: None,
            ocr_enabled: false,
            ocr_languages: langs,
            preserve_metadata: true,
            custom_params: "{}".to_owned(),
        }
    }
}

/// Kind of a node in a recipe graph.
#[derive(Clone, Copy, Debug, PartialEq, Eq, Structural)]
pub enum NodeType {
    Input,
    Converter,
    Preprocessor,
    Postprocessor,
    Ocr,
    Llm,
    Validator,
    Output,
}

/// Position of a recipe node on a canvas, in integral canvas units.
#[derive(Clone, Copy, Debug, PartialEq, Eq, Structural)]
pub struct NodePosition {
    pub x: i64,
    pub y: i64,
}

/// One node of a recipe graph. `config` carries node-specific configuration
/// as uninterpreted JSON text.
pub struct RecipeNode {
    pub id: String,
    pub node_type: NodeType,
    pub config: String,
    pub position: NodePosition,
}

/// A directed edge of a recipe graph, with an optional guard condition.
pub struct RecipeEdge {
    pub from: String,
    pub to: String,
    pub condition: Option<String>,
}

/// A stored multi-node conversion recipe.
pub struct Recipe {
    pub id: String,
    pub name: String,
    pub description: String,
    pub nodes: Vec<RecipeNode>,
    pub edges: Vec<RecipeEdge>,
    pub created_at: i64,
    pub updated_at: i64,
}

/// Externally produced quality measurements used to gate acceptance of a
/// conversion result. Fractional measurements are per-mille scores.
#[derive(Clone, Copy, Debug, PartialEq, Eq, Structural)]
pub struct QualityMetrics {
    pub ocr_cer: Option<u32>,
    pub structure_consistency: Option<u32>,
    pub table_recall: Option<u32>,
    pub media_bitrate_deviation: Option<u32>,
    pub schema_validation_passed: bool,
}

impl QualityMetrics {
    /// Every measurement that is present stays within the fixed-point range.
    pub open spec fn wf(self) -> bool {
        &&& (self.ocr_cer matches Some(x) ==> valid_score(x))
        &&& (self.structure_consistency matches Some(x) ==> valid_score(x))
        &&& (self.table_recall matches Some(x) ==> valid_score(x))
        &&& (self.media_bitrate_deviation matches Some(x) ==> valid_score(x))
    }
}

} // verus!
