//! The per-package resolution record: everything the pipeline concluded
//! about one package's licensing.
use vstd::prelude::*;

use crate::file_info::FileInfo;
use crate::license_text::LicenseText;

verus! {

/// A parsed declared-license expression, flattened to its atomic canonical
/// identifiers; the boolean structure is not kept.
#[derive(Debug)]
pub struct LicenseExpression {
    pub atoms: Vec<String>,
}

/// What resolution concluded for one package.
#[derive(Debug)]
pub struct LicenseInfo {
    pub lib_info: FileInfo,
    pub package_name: String,
    pub license: String,
    pub license_expression: Option<LicenseExpression>,
    pub license_texts: Vec<LicenseText>,
    pub version: Option<String>,
    pub url: Option<String>,
}

} // verus!
