use vstd::prelude::*;

pub mod file_info;
pub mod json;
pub mod license_detector;
pub mod license_info;
pub mod license_text;
pub mod resolution;
pub mod seq_util;
pub mod settings;
pub mod spdx_data;
pub mod spdx_expr;
pub mod strutil;
pub mod third_party_licenses;
pub mod vcpkg_spdx;
pub mod words;

verus! {

/// Errors that resolution and persistence report.
#[derive(Debug, Clone, PartialEq, Eq)]
pub enum ResolveError {
    MissingLicense,
    NoCandidates,
    ParseError,
    MissingInstalledFile,
}

} // verus!
