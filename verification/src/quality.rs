//! Quality gating of conversion results.
//!
//! Quality scoring internals are an external collaborator; the core only
//! consumes [`QualityMetrics`] values and decides whether they clear the
//! configured thresholds. Fractions are per-mille scores.

use vstd::prelude::*;

use crate::conversion::QualityMetrics;
use crate::error::AppError;
use crate::valid_score;

verus! {

/// Thresholds a conversion result must clear to be accepted.
#[derive(Clone, Copy, Debug, PartialEq, Eq, Structural)]
pub struct QualityThresholds {
    pub min_ocr_cer: u32,
    pub min_structure_consistency: u32,
    pub min_table_recall: u32,
    pub max_bitrate_deviation: u32,
}

impl Default for QualityThresholds {
    /// The default gate: OCR accuracy at least 0.95, structural consistency
    /// at least 0.90, table recall at least 0.90, bitrate deviation at most
    /// 0.10.
    fn default() -> (r: Self)
        ensures
            r.min_ocr_cer == 950,
            r.min_structure_consistency == 900,
            r.min_table_recall == 900,
            r.max_bitrate_deviation == 100,
    {
        QualityThresholds {
            min_ocr_cer: 950,
            min_structure_consistency: 900,
            min_table_recall: 900,
            max_bitrate_deviation: 100,
        }
    }
}

/// A result is accepted unless a measured value falls below its
/// threshold; an absent measurement never blocks acceptance.
pub open spec fn spec_meets_threshold(m: QualityMetrics, t: QualityThresholds) -> bool {
    &&& (m.ocr_cer matches Some(c) ==> c >= t.min_ocr_cer)
    &&& (m.structure_consistency matches Some(c) ==> c >= t.min_structure_consistency)
}

/// Assesses conversion results and gates them against thresholds.
pub struct QualityAssessor;

impl QualityAssessor {
    /// Produces the metrics for a finished conversion. Scoring internals
    /// are an external collaborator; this core itself reports a fixed
    /// structural-consistency estimate.
    pub fn assess(source_path: &str, result_path: &str, target_format: &str) -> (r: Result<
        QualityMetrics,
        AppError,
    >)
        ensures
            r is Ok,
            match r {
                Ok(m) => m == (QualityMetrics {
                    ocr_cer: None,
                    structure_consistency: Some(950u32),
                    table_recall: None,
                    media_bitrate_deviation: None,
                    schema_validation_passed: true,
                }) && m.wf(),
                Err(_) => false,
            },
    {
        Ok(
            QualityMetrics {
                ocr_cer: None,
                structure_consistency: Some(950),
                table_recall: None,
                media_bitrate_deviation: None,
                schema_validation_passed: true,
            },
        )
    }

    /// Decides whether measured metrics clear the configured thresholds.
    pub fn meets_threshold(metrics: &QualityMetrics, thresholds: &QualityThresholds) -> (r: bool)
        ensures
            r == spec_meets_threshold(*metrics, *thresholds),
    {
        if let Some(cer) = metrics.ocr_cer {
            if cer < thresholds.min_ocr_cer {
                return false;
            }
        }
        if let Some(consistency) = metrics.structure_consistency {
            if consistency < thresholds.min_structure_consistency {
                return false;
            }
        }
        true
    }
}

} // verus!
