//! Report options: what downstream rendering consumes, and the percentage
//! arithmetic it shares. Rendering itself — files, charts, markup — is an
//! external collaborator of the library; only its consumption contract
//! lives here.

use vstd::prelude::*;

verus! {

/// Report format.
#[derive(Clone, Copy, PartialEq, Eq, Structural, Debug)]
pub enum ReportFormat {
    /// Plain text report.
    Text,
    /// JSON report.
    Json,
    /// HTML report.
    Html,
    /// SVG, histograms only.
    Svg,
}

/// Report output options.
pub struct ReportOptions {
    /// Format of the report.
    pub format: ReportFormat,
    /// Output file path, none for a generated name.
    pub output_file: Option<String>,
    /// Whether to include histograms.
    pub include_histograms: bool,
    /// Whether to include detailed per-request information.
    pub include_details: bool,
    /// Custom output directory, none for the default.
    pub output_dir: Option<String>,
}

impl Default for ReportOptions {
    /// The default report: HTML with histograms, no per-request detail,
    /// generated file name in the default directory.
    fn default() -> (r: ReportOptions)
        ensures
            r.format == ReportFormat::Html,
            r.output_file.is_none(),
            r.include_histograms == true,
            r.include_details == false,
            r.output_dir.is_none(),
    {
        ReportOptions {
            format: ReportFormat::Html,
            output_file: None,
            include_histograms: true,
            include_details: false,
            output_dir: None,
        }
    }
}

/// Truncating percentage in tenths of a percent: `part` out of `total`,
/// scaled so that 1000 means 100.0%. Defined as 0 when `total` is 0, so an
/// empty run never divides by zero.
pub fn percentage_tenths(part: usize, total: usize) -> (r: u64)
    requires
        part <= total,
    ensures
        total == 0 ==> r == 0,
        total > 0 ==> r == (part as int * 1000) / (total as int),
        r <= 1000,
{
    if total == 0 {
        0
    } else {
        let wide: u128 = (part as u128) * 1000 / (total as u128);
        proof {
            assert((part as int * 1000) / (total as int) <= 1000) by (nonlinear_arith)
                requires
                    0 < total,
                    part <= total,
            ;
        }
        wide as u64
    }
}

} // verus!
