//! Trusted bridges to the canonical license table of the `spdx` crate: the
//! identifiers and raw texts that the reference corpus is built from.
use vstd::prelude::*;

verus! {

/// The identifier of the entry at position `i` of the canonical license
/// table, if `i` is in range.
pub uninterp spec fn spdx_id_at(i: int) -> Option<Seq<char>>;

/// The raw text of the entry at position `i` of the canonical license
/// table, if `i` is in range.
pub uninterp spec fn spdx_text_at(i: int) -> Option<Seq<char>>;

/// The canonical text registered for a license identifier, if the
/// identifier is in the license table.
pub uninterp spec fn known_license_text(id: Seq<char>) -> Option<Seq<char>>;

/// Relies on `spdx::identifiers::LICENSES`: its length is the number of
/// entries of the license table, and exactly the positions below it carry
/// an identifier and a text.
#[verifier::external_body]
pub fn spdx_license_count() -> (n: usize)
    ensures
        forall|i: int| (0 <= i < n) <==> spdx_id_at(i) is Some,
        forall|i: int| (0 <= i < n) <==> spdx_text_at(i) is Some,
{
    spdx::identifiers::LICENSES.len()
}

/// Relies on `spdx::identifiers::LICENSES`: the `name` field of the entry
/// at position `i` is that entry's identifier.
#[verifier::external_body]
pub fn spdx_license_name(i: usize) -> (r: Option<String>)
    ensures
        match r {
            Some(s) => spdx_id_at(i as int) == Some(s@),
            None => spdx_id_at(i as int) is None,
        },
{
    spdx::identifiers::LICENSES.get(i).map(|l| l.name.to_string())
}

/// Relies on `spdx::license_id` and `spdx::LicenseId::text`: looking an
/// entry's own name up succeeds for every entry of the table (a trailing
/// plus is trimmed to the base identifier), and `text` returns the
/// canonical text stored for the found entry.
#[verifier::external_body]
pub fn spdx_license_text(i: usize) -> (r: Option<String>)
    ensures
        match r {
            Some(s) => spdx_text_at(i as int) == Some(s@),
            None => spdx_text_at(i as int) is None,
        },
{
    spdx::identifiers::LICENSES.get(i).and_then(|l| spdx::license_id(l.name)).map(
        |id| id.text().to_string(),
    )
}

/// Relies on `spdx::license_id` and `spdx::LicenseId::text`: the canonical
/// text for an identifier, when the license table knows the identifier.
#[verifier::external_body]
pub fn license_text_for_id(id: &str) -> (r: Option<String>)
    ensures
        match r {
            Some(s) => known_license_text(id@) == Some(s@),
            None => known_license_text(id@) is None,
        },
{
    spdx::license_id(id).map(|l| l.text().to_string())
}

} // verus!
