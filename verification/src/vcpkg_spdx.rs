//! Resolution over the packages of a dependency-provenance document: the
//! port, binary and resource records, their declared and concluded
//! licenses, and the per-port resolution plan.
use vstd::prelude::*;

use crate::ResolveError;
use crate::license_detector::LicenseFile;
use crate::resolution::{ResolutionPlan, plan_package};
use crate::spdx_expr::strict_atoms_of;
use crate::settings::{Override, override_match};
use crate::strutil::str_eq;

verus! {

/// What the pipeline reads from one package record of the document.
#[derive(Debug)]
pub struct SpdxPackage {
    pub spdx_id: String,
    pub name: String,
    pub version: Option<String>,
    pub declared_license: Option<String>,
    pub concluded_license: Option<String>,
    pub download_location: String,
    pub home_page: Option<String>,
}

/// The first package carrying the given document identifier, if any.
pub open spec fn package_match(pkgs: Seq<SpdxPackage>, id: Seq<char>) -> Option<SpdxPackage>
    decreases pkgs.len(),
{
    if pkgs.len() == 0 {
        None
    } else if pkgs[0].spdx_id@ == id {
        Some(pkgs[0])
    } else {
        package_match(pkgs.drop_first(), id)
    }
}

proof fn lemma_package_match_at(pkgs: Seq<SpdxPackage>, id: Seq<char>, i: int)
    requires
        0 <= i < pkgs.len(),
        pkgs[i].spdx_id@ == id,
        forall|j: int| 0 <= j < i ==> pkgs[j].spdx_id@ != id,
    ensures
        package_match(pkgs, id) == Some(pkgs[i]),
    decreases pkgs.len(),
{
    if i > 0 {
        lemma_package_match_at(pkgs.drop_first(), id, i - 1);
    }
}

proof fn lemma_package_match_none(pkgs: Seq<SpdxPackage>, id: Seq<char>)
    requires
        forall|j: int| 0 <= j < pkgs.len() ==> pkgs[j].spdx_id@ != id,
    ensures
        package_match(pkgs, id) is None,
    decreases pkgs.len(),
{
    if pkgs.len() > 0 {
        lemma_package_match_none(pkgs.drop_first(), id);
    }
}

/// The first package of the document with the given identifier.
pub fn find_package_by_spdxid<'a>(id: &str, packages: &'a Vec<SpdxPackage>) -> (r: Option<
    &'a SpdxPackage,
>)
    ensures
        match r {
            Some(p) => package_match(packages@, id@) == Some(*p),
            None => package_match(packages@, id@) is None,
        },
{
    let mut i: usize = 0;
    while i < packages.len()
        invariant
            0 <= i <= packages@.len(),
            forall|j: int| 0 <= j < i ==> packages@[j].spdx_id@ != id@,
        decreases packages@.len() - i,
    {
        if str_eq(packages[i].spdx_id.as_str(), id) {
            proof {
                lemma_package_match_at(packages@, id@, i as int);
            }
            return Some(&packages[i]);
        }
        i = i + 1;
    }
    proof {
        lemma_package_match_none(packages@, id@);
    }
    None
}

/// The license a single package record declares: the declared license if
/// it is a real assertion, else the concluded one if that is.
pub open spec fn package_license_spec(p: SpdxPackage) -> Option<Seq<char>> {
    if p.declared_license matches Some(d) && d@ != "NOASSERTION"@ {
        Some(p.declared_license.unwrap()@)
    } else if p.concluded_license matches Some(c) && c@ != "NOASSERTION"@ {
        Some(p.concluded_license.unwrap()@)
    } else {
        None
    }
}

/// The declared-or-concluded license of one package record.
pub fn find_package_license(pkg: &SpdxPackage) -> (r: Option<String>)
    ensures
        match r {
            Some(l) => package_license_spec(*pkg) == Some(l@),
            None => package_license_spec(*pkg) is None,
        },
{
    match &pkg.declared_license {
        Some(d) => {
            if !str_eq(d.as_str(), "NOASSERTION") {
                return Some(d.clone());
            }
        },
        None => {},
    }
    match &pkg.concluded_license {
        Some(c) => {
            if !str_eq(c.as_str(), "NOASSERTION") {
                return Some(c.clone());
            }
        },
        None => {},
    }
    None
}

/// The license the document gives the port: the binary package's, else
/// the port package's.
pub open spec fn find_license_spec(pkgs: Seq<SpdxPackage>) -> Option<Seq<char>> {
    if package_match(pkgs, "SPDXRef-binary"@) matches Some(b) && package_license_spec(b) is Some {
        package_license_spec(package_match(pkgs, "SPDXRef-binary"@).unwrap())
    } else if package_match(pkgs, "SPDXRef-port"@) matches Some(p) && package_license_spec(p)
        is Some {
        package_license_spec(package_match(pkgs, "SPDXRef-port"@).unwrap())
    } else {
        None
    }
}

/// The document's license for the port, preferring the binary record.
pub fn find_license(packages: &Vec<SpdxPackage>) -> (r: Option<String>)
    ensures
        match r {
            Some(l) => find_license_spec(packages@) == Some(l@),
            None => find_license_spec(packages@) is None,
        },
{
    match find_package_by_spdxid("SPDXRef-binary", packages) {
        Some(info) => {
            match find_package_license(info) {
                Some(l) => {
                    return Some(l);
                },
                None => {},
            }
        },
        None => {},
    }
    match find_package_by_spdxid("SPDXRef-port", packages) {
        Some(info) => {
            match find_package_license(info) {
                Some(l) => {
                    return Some(l);
                },
                None => {},
            }
        },
        None => {},
    }
    None
}

/// Everything decided for one port before its license files are read.
pub struct VcpkgPackagePlan {
    pub package_name: String,
    pub plan: ResolutionPlan,
    pub version: Option<String>,
    pub url: Option<String>,
}

/// Decide the resolution inputs for the port a document describes:
/// nothing when the document has no port record; otherwise the effective
/// license (override, else the document's), the license files (override
/// files, else the port's copyright file when there is one), the
/// strictly-parsed candidates, and the port's version and download
/// location. A port with no license anywhere is a fatal error.
pub fn plan_vcpkg_package(
    packages: &Vec<SpdxPackage>,
    overrides: &Vec<Override>,
    copyright_file: Option<String>,
) -> (r: Result<Option<VcpkgPackagePlan>, ResolveError>)
    ensures
        ({
            let port = package_match(packages@, "SPDXRef-port"@);
            let resource = package_match(packages@, "SPDXRef-resource-1"@);
            match r {
                Ok(None) => port is None,
                Ok(Some(v)) => {
                    &&& port matches Some(p)
                    &&& v.package_name@ == p.name@
                    &&& v.version == p.version
                    &&& (match v.url {
                        Some(u) => resource matches Some(rp) && u@ == rp.download_location@,
                        None => resource is None,
                    })
                    &&& ({
                        let ov = override_match(overrides@, p.name@);
                        let forced = ov matches Some(o) && o.license_id is Some;
                        &&& (if forced {
                            v.plan.license@ == ov.unwrap().license_id.unwrap()@
                        } else {
                            find_license_spec(packages@) matches Some(l) && v.plan.license@ == l
                        })
                        &&& (if ov matches Some(o) && o.license_files@.len() > 0 {
                            v.plan.files@.len() == ov.unwrap().license_files@.len()
                        } else {
                            (match copyright_file {
                                Some(f) => v.plan.files@.len() == 1 && v.plan.files@[0].file@
                                    == f@ && v.plan.files@[0].id is None,
                                None => v.plan.files@.len() == 0,
                            })
                        })
                        &&& (match v.plan.expression {
                            Some(e) => e.atoms@ == v.plan.candidates@,
                            None => v.plan.candidates@.len() == 0,
                        })
                        &&& (v.plan.license@.len() == 0 ==> v.plan.expression is None)
                        &&& (v.plan.license@.len() > 0 ==> (match v.plan.expression {
                            Some(e) => strict_atoms_of(v.plan.license@) == Some(
                                v.plan.candidates@.map_values(|x: String| x@),
                            ),
                            None => strict_atoms_of(v.plan.license@) is None,
                        }))
                    })
                },
                Err(e) => {
                    &&& e == ResolveError::MissingLicense
                    &&& port matches Some(p)
                    &&& !(override_match(overrides@, p.name@) matches Some(o) && o.license_id
                        is Some)
                    &&& find_license_spec(packages@) is None
                },
            }
        }),
{
    let found_license = find_license(packages);
    let url: Option<String> = match find_package_by_spdxid("SPDXRef-resource-1", packages) {
        Some(p) => Some(p.download_location.clone()),
        None => None,
    };
    let port = match find_package_by_spdxid("SPDXRef-port", packages) {
        Some(p) => p,
        None => {
            return Ok(None);
        },
    };
    let discovered: Vec<LicenseFile> = match copyright_file {
        Some(f) => {
            let mut v: Vec<LicenseFile> = Vec::new();
            v.push(LicenseFile { id: None, file: f });
            v
        },
        None => Vec::new(),
    };
    let version = match &port.version {
        Some(v) => Some(v.clone()),
        None => None,
    };
    match plan_package(port.name.as_str(), overrides, found_license, discovered, false) {
        Ok(plan) => Ok(
            Some(
                VcpkgPackagePlan { package_name: port.name.clone(), plan, version, url },
            ),
        ),
        Err(e) => Err(e),
    }
}

} // verus!
