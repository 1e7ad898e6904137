//! Trusted bridges to the `spdx` crate's license-expression parser. What a
//! parse yields is a function of the string alone, so each grammar's
//! flattened atoms get a name that the pipeline's contracts are written
//! over.
use vstd::prelude::*;

verus! {

/// What the lax license-expression grammar yields for a declared-license
/// string: the canonical identifiers of its listed licenses, in
/// expression order, or nothing when the string does not parse. A
/// function of the string alone.
pub uninterp spec fn lax_atoms_of(s: Seq<char>) -> Option<Seq<Seq<char>>>;

/// The same for the strict grammar.
pub uninterp spec fn strict_atoms_of(s: Seq<char>) -> Option<Seq<Seq<char>>>;

/// Relies on `spdx::Expression::parse_mode` with the lax mode, which
/// tolerates non-standard separators, on `Expression::requirements`,
/// which yields the requirement nodes without the operators, and on
/// `LicenseItem::id` and `LicenseId`'s `name` field for the canonical
/// identifier of each listed license.
#[verifier::external_body]
pub fn parse_atoms_lax(s: &str) -> (r: Option<Vec<String>>)
    ensures
        match r {
            Some(v) => lax_atoms_of(s@) == Some(v@.map_values(|x: String| x@)),
            None => lax_atoms_of(s@) is None,
        },
{
    spdx::Expression::parse_mode(s, spdx::ParseMode::LAX).ok().map(
        |e|
            e.requirements().filter_map(|er| er.req.license.id()).map(
                |l| l.name.to_string(),
            ).collect(),
    )
}

/// Relies on `spdx::Expression::parse`, the strict form of the grammar,
/// and on the same accessors as the lax wrapper.
#[verifier::external_body]
pub fn parse_atoms_strict(s: &str) -> (r: Option<Vec<String>>)
    ensures
        match r {
            Some(v) => strict_atoms_of(s@) == Some(v@.map_values(|x: String| x@)),
            None => strict_atoms_of(s@) is None,
        },
{
    spdx::Expression::parse(s).ok().map(
        |e|
            e.requirements().filter_map(|er| er.req.license.id()).map(
                |l| l.name.to_string(),
            ).collect(),
    )
}

} // verus!
