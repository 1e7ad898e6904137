//! The per-package resolution pipeline: the declared license combined with
//! overrides, the flattened candidate identifiers, the license-file
//! selection, and the assembly of the final record.
use vstd::prelude::*;

use crate::ResolveError;
use crate::file_info::FileInfo;
use crate::license_detector::{
    LicenseDetector, LicenseFile, LicenseFileText, MismatchDump, best_pair_index, effective_pairs,
};
use crate::license_info::{LicenseExpression, LicenseInfo};
use crate::seq_util::{lemma_take_all, lemma_take_succ};
use crate::settings::{Override, override_match};
use crate::spdx_expr::{lax_atoms_of, parse_atoms_lax, parse_atoms_strict, strict_atoms_of};
use crate::strutil::chars_vec;
use crate::words::word_table_of;

verus! {

/// Whether `p` occurs contiguously anywhere in `s`.
pub open spec fn has_substring(s: Seq<char>, p: Seq<char>) -> bool {
    exists|k: int| 0 <= k && k + p.len() <= s.len() && #[trigger] s.subrange(k, k + p.len()) == p
}

/// Substring search by scanning every position.
pub fn contains_substring(s: &str, p: &str) -> (r: bool)
    ensures
        r == has_substring(s@, p@),
{
    let sc = chars_vec(s);
    let pc = chars_vec(p);
    if pc.len() > sc.len() {
        proof {
            assert(!has_substring(s@, p@));
        }
        return false;
    }
    if pc.len() == 0 {
        proof {
            assert(s@.subrange(0, 0 + p@.len() as int) =~= p@);
        }
        return true;
    }
    let total = sc.len();
    let bound = sc.len() - pc.len();
    let mut k: usize = 0;
    while k <= bound
        invariant
            sc@ == s@,
            pc@ == p@,
            p@.len() <= s@.len(),
            bound == s@.len() - p@.len(),
            1 <= p@.len(),
            total == s@.len(),
            s@.len() <= usize::MAX,
            0 <= k <= bound + 1,
            forall|k0: int|
                0 <= k0 < k ==> #[trigger] s@.subrange(k0, k0 + p@.len()) != p@,
        decreases bound - k + 1,
    {
        let mut m: usize = 0;
        let mut matched = true;
        while m < pc.len() && matched
            invariant
                sc@ == s@,
                pc@ == p@,
                0 <= m <= p@.len(),
                k + p@.len() <= s@.len(),
                s@.len() <= usize::MAX,
                matched ==> forall|t: int| 0 <= t < m ==> s@[k + t] == p@[t],
                !matched ==> s@.subrange(k as int, k + p@.len()) != p@,
            decreases p@.len() - m,
        {
            if sc[k + m] != pc[m] {
                matched = false;
                proof {
                    assert(s@.subrange(k as int, k + p@.len())[m as int] == s@[k + m]);
                }
                m = pc.len();
            } else {
                m = m + 1;
            }
        }
        if matched {
            proof {
                assert(s@.subrange(k as int, k + p@.len()) =~= p@);
            }
            return true;
        }
        k = k + 1;
    }
    proof {
        assert forall|k0: int| 0 <= k0 && k0 + p@.len() <= s@.len() implies #[trigger] s@.subrange(
            k0,
            k0 + p@.len(),
        ) != p@ by {}
    }
    false
}

/// Whether a file path looks like a license or copyright file.
pub open spec fn is_license_file_name(s: Seq<char>) -> bool {
    has_substring(s, "COPY"@) || has_substring(s, "LICENSE"@) || has_substring(s, "License"@)
}

/// The paths that look like license files, in order.
pub open spec fn license_file_filter(paths: Seq<Seq<char>>) -> Seq<Seq<char>>
    decreases paths.len(),
{
    if paths.len() == 0 {
        Seq::empty()
    } else {
        license_file_filter(paths.drop_last()) + (if is_license_file_name(paths.last()) {
            seq![paths.last()]
        } else {
            Seq::<Seq<char>>::empty()
        })
    }
}

/// Keep the installed files that look like license or copyright files.
pub fn filter_license_file_candidates(paths: &Vec<String>) -> (r: Vec<String>)
    ensures
        r@.map_values(|s: String| s@) == license_file_filter(paths@.map_values(|s: String| s@)),
{
    let ghost pv = paths@.map_values(|s: String| s@);
    let mut r: Vec<String> = Vec::new();
    let mut i: usize = 0;
    while i < paths.len()
        invariant
            pv == paths@.map_values(|s: String| s@),
            0 <= i <= pv.len(),
            r@.map_values(|s: String| s@) == license_file_filter(pv.take(i as int)),
        decreases pv.len() - i,
    {
        let ghost r0 = r@;
        let keep = contains_substring(paths[i].as_str(), "COPY") || contains_substring(
            paths[i].as_str(),
            "LICENSE",
        ) || contains_substring(paths[i].as_str(), "License");
        if keep {
            r.push(paths[i].clone());
        }
        proof {
            lemma_take_succ(pv, i as int);
            assert(pv.take(i + 1 as int).drop_last() =~= pv.take(i as int));
            if keep {
                assert(r@ == r0.push(r@[r@.len() - 1]));
            }
            assert(r@.map_values(|s: String| s@) =~= license_file_filter(pv.take(i + 1 as int)));
        }
        i = i + 1;
    }
    proof {
        lemma_take_all(pv);
    }
    r
}

/// What the pipeline decided for one package before its license files are
/// read: the effective declared license, the structured expression if the
/// string parses, the flattened candidate identifiers, and the files to
/// read.
pub struct ResolutionPlan {
    pub license: String,
    pub expression: Option<LicenseExpression>,
    pub candidates: Vec<String>,
    pub files: Vec<LicenseFile>,
}

/// The flattened atoms a declared-license string yields under the chosen
/// grammar.
pub open spec fn declared_atoms(s: Seq<char>, lenient: bool) -> Option<Seq<Seq<char>>> {
    if lenient {
        lax_atoms_of(s)
    } else {
        strict_atoms_of(s)
    }
}

/// Parse a declared license string into its flattened atomic identifiers.
/// An empty string and a string the grammar rejects give no expression;
/// the package then proceeds without one.
pub fn parse_declared_license(license: &str, lenient: bool) -> (r: Option<LicenseExpression>)
    ensures
        license@.len() == 0 ==> r is None,
        license@.len() > 0 ==> (match r {
            Some(e) => declared_atoms(license@, lenient) == Some(
                e.atoms@.map_values(|x: String| x@),
            ),
            None => declared_atoms(license@, lenient) is None,
        }),
{
    if license.unicode_len() == 0 {
        return None;
    }
    let atoms = if lenient {
        parse_atoms_lax(license)
    } else {
        parse_atoms_strict(license)
    };
    match atoms {
        Some(a) => Some(LicenseExpression { atoms: a }),
        None => None,
    }
}

/// The effective declared license and the files to read for one package.
/// The override's forced identifier and files take total precedence; a
/// package with neither an override identifier nor a queried license is a
/// fatal error, since its manifest entry would be undefined.
pub fn plan_package(
    package: &str,
    overrides: &Vec<Override>,
    queried_license: Option<String>,
    discovered_files: Vec<LicenseFile>,
    lenient: bool,
) -> (r: Result<ResolutionPlan, ResolveError>)
    ensures
        ({
            let ov = override_match(overrides@, package@);
            let forced = ov matches Some(o) && o.license_id is Some;
            match r {
                Ok(plan) => {
                    &&& (if forced {
                        plan.license@ == ov.unwrap().license_id.unwrap()@
                    } else {
                        queried_license matches Some(q) && plan.license@ == q@
                    })
                    &&& (if ov matches Some(o) && o.license_files@.len() > 0 {
                        plan.files@.len() == ov.unwrap().license_files@.len() && (forall|j: int|
                            0 <= j < plan.files@.len() ==> {
                                &&& (#[trigger] plan.files@[j]).file@
                                    == ov.unwrap().license_files@[j].file@
                                &&& (match plan.files@[j].id {
                                    Some(id) => ov.unwrap().license_files@[j].id matches Some(oid)
                                        && oid@ == id@,
                                    None => ov.unwrap().license_files@[j].id is None,
                                })
                            })
                    } else {
                        plan.files@ == discovered_files@
                    })
                    &&& (match plan.expression {
                        Some(e) => e.atoms@ == plan.candidates@,
                        None => plan.candidates@.len() == 0,
                    })
                    &&& (plan.license@.len() == 0 ==> plan.expression is None)
                    &&& (plan.license@.len() > 0 ==> (match plan.expression {
                        Some(e) => declared_atoms(plan.license@, lenient) == Some(
                            plan.candidates@.map_values(|x: String| x@),
                        ),
                        None => declared_atoms(plan.license@, lenient) is None,
                    }))
                },
                Err(e) => e == ResolveError::MissingLicense && !forced && queried_license is None,
            }
        }),
{
    let ov = Override::find_override(package, overrides);
    let license: String = match ov {
        Some(o) => {
            match &o.license_id {
                Some(id) => id.clone(),
                None => {
                    match queried_license {
                        Some(q) => q,
                        None => {
                            return Err(ResolveError::MissingLicense);
                        },
                    }
                },
            }
        },
        None => {
            match queried_license {
                Some(q) => q,
                None => {
                    return Err(ResolveError::MissingLicense);
                },
            }
        },
    };
    let files: Vec<LicenseFile> = match ov {
        Some(o) => {
            if o.license_files.len() > 0 {
                let mut fs: Vec<LicenseFile> = Vec::new();
                let mut i: usize = 0;
                while i < o.license_files.len()
                    invariant
                        0 <= i <= o.license_files@.len(),
                        fs@.len() == i,
                        forall|j: int|
                            0 <= j < i ==> {
                                &&& (#[trigger] fs@[j]).file@ == o.license_files@[j].file@
                                &&& (match fs@[j].id {
                                    Some(id) => o.license_files@[j].id matches Some(oid) && oid@
                                        == id@,
                                    None => o.license_files@[j].id is None,
                                })
                            },
                    decreases o.license_files@.len() - i,
                {
                    let id = match &o.license_files[i].id {
                        Some(x) => Some(x.clone()),
                        None => None,
                    };
                    fs.push(LicenseFile { id, file: o.license_files[i].file.clone() });
                    i = i + 1;
                }
                fs
            } else {
                discovered_files
            }
        },
        None => discovered_files,
    };
    let expression = parse_declared_license(license.as_str(), lenient);
    let (expression, candidates) = match expression {
        Some(e) => {
            let mut atoms: Vec<String> = Vec::new();
            let mut i: usize = 0;
            while i < e.atoms.len()
                invariant
                    0 <= i <= e.atoms@.len(),
                    atoms@.len() == i,
                    forall|j: int| 0 <= j < i ==> #[trigger] atoms@[j] == e.atoms@[j],
                decreases e.atoms@.len() - i,
            {
                atoms.push(e.atoms[i].clone());
                i = i + 1;
            }
            proof {
                assert(atoms@ =~= e.atoms@);
            }
            (Some(e), atoms)
        },
        None => (None, Vec::new()),
    };
    Ok(ResolutionPlan { license, expression, candidates, files })
}

/// The record assembled for one package once its license files have been
/// read: every file with a known identifier is copied verbatim, every
/// other file's text goes through the matcher.
pub fn resolve_package_licenses(
    detector: &LicenseDetector,
    lib_info: FileInfo,
    package: &str,
    plan: ResolutionPlan,
    file_texts: Vec<LicenseFileText>,
    version: Option<String>,
    url: Option<String>,
) -> (r: Result<(LicenseInfo, Vec<MismatchDump>), ResolveError>)
    requires
        detector.wf(),
    ensures
        ({
            let pairs = effective_pairs(
                detector.templates@,
                plan.candidates@.map_values(|s: String| s@),
            );
            match r {
                Ok((info, dumps)) => {
                    &&& info.package_name@ == package@
                    &&& info.license == plan.license
                    &&& info.license_expression == plan.expression
                    &&& info.lib_info == lib_info
                    &&& info.version == version
                    &&& info.url == url
                    &&& info.license_texts@.len() == file_texts@.len()
                    &&& forall|i: int|
                        0 <= i < file_texts@.len() ==> (match (#[trigger] file_texts@[i]).id {
                            Some(id) => info.license_texts@[i].id@ == id@
                                && info.license_texts@[i].text@ == file_texts@[i].text@,
                            None => pairs.len() > 0 && info.license_texts@[i].id@
                                == pairs[best_pair_index(
                                pairs,
                                word_table_of(file_texts@[i].text@),
                            )].0 && info.license_texts@[i].text@ == file_texts@[i].text@,
                        })
                },
                Err(e) => {
                    &&& e == ResolveError::NoCandidates
                    &&& pairs.len() == 0
                    &&& exists|i: int|
                        0 <= i < file_texts@.len() && (#[trigger] file_texts@[i]).id is None
                },
            }
        }),
{
    match detector.detect_licenses(&plan.candidates, &file_texts) {
        Ok((texts, dumps)) => {
            let info = LicenseInfo {
                lib_info,
                package_name: package.to_owned(),
                license: plan.license,
                license_expression: plan.expression,
                license_texts: texts,
                version,
                url,
            };
            Ok((info, dumps))
        },
        Err(e) => Err(e),
    }
}

/// Whether an earlier entry resolves to the same package.
pub open spec fn seen_before(pairs: Seq<(FileInfo, String)>, n: int) -> bool {
    exists|j: int| 0 <= j < n && (#[trigger] pairs[j]).1@ == pairs[n].1@
}

/// The batch with every later duplicate of a package dropped: the first
/// library of each package wins.
pub open spec fn dedup_spec(pairs: Seq<(FileInfo, String)>, n: int) -> Seq<(FileInfo, String)>
    decreases n,
{
    if n <= 0 {
        Seq::empty()
    } else {
        dedup_spec(pairs, n - 1) + (if seen_before(pairs, n - 1) {
            Seq::<(FileInfo, String)>::empty()
        } else {
            seq![pairs[n - 1]]
        })
    }
}

fn package_in(pairs: &Vec<(FileInfo, String)>, upto: usize, name: &String) -> (r: bool)
    requires
        upto <= pairs@.len(),
    ensures
        r == exists|j: int| 0 <= j < upto && (#[trigger] pairs@[j]).1@ == name@,
{
    let mut j: usize = 0;
    while j < upto
        invariant
            0 <= j <= upto <= pairs@.len(),
            forall|t: int| 0 <= t < j ==> (#[trigger] pairs@[t]).1@ != name@,
        decreases upto - j,
    {
        if pairs[j].1 == *name {
            return true;
        }
        j = j + 1;
    }
    false
}

/// Drop every library whose owning package already occurred earlier in
/// the batch, so that each package is resolved exactly once.
pub fn dedup_by_package(pairs: &Vec<(FileInfo, String)>) -> (r: Vec<(FileInfo, String)>)
    ensures
        r@ == dedup_spec(pairs@, pairs@.len() as int),
{
    let mut r: Vec<(FileInfo, String)> = Vec::new();
    let mut i: usize = 0;
    while i < pairs.len()
        invariant
            0 <= i <= pairs@.len(),
            r@ == dedup_spec(pairs@, i as int),
        decreases pairs@.len() - i,
    {
        if !package_in(pairs, i, &pairs[i].1) {
            let info = pairs[i].0.duplicate();
            let name = pairs[i].1.clone();
            r.push((info, name));
            proof {
                assert((pairs@[i as int].0, pairs@[i as int].1) == pairs@[i as int]);
            }
        }
        proof {
            assert(r@ =~= dedup_spec(pairs@, i + 1 as int));
        }
        i = i + 1;
    }
    r
}

/// Deduplication leaves exactly one entry per distinct package name: the
/// result has no repeated names, and a name occurs in it exactly when
/// some library of the batch is owned by it.
pub proof fn lemma_dedup_unique(pairs: Seq<(FileInfo, String)>)
    ensures
        ({
            let d = dedup_spec(pairs, pairs.len() as int);
            &&& forall|a: int, b: int|
                0 <= a < b < d.len() ==> (#[trigger] d[a]).1@ != (#[trigger] d[b]).1@
            &&& forall|i: int|
                0 <= i < pairs.len() ==> exists|k: int|
                    0 <= k < d.len() && (#[trigger] d[k]).1@ == (#[trigger] pairs[i]).1@
            &&& forall|k: int|
                0 <= k < d.len() ==> exists|i: int|
                    0 <= i < pairs.len() && (#[trigger] d[k]).1@ == (#[trigger] pairs[i]).1@
        }),
{
    lemma_dedup_props(pairs, pairs.len() as int);
}

#[verifier::rlimit(60)]
proof fn lemma_dedup_props(pairs: Seq<(FileInfo, String)>, n: int)
    requires
        0 <= n <= pairs.len(),
    ensures
        ({
            let d = dedup_spec(pairs, n);
            &&& forall|a: int, b: int|
                0 <= a < b < d.len() ==> (#[trigger] d[a]).1@ != (#[trigger] d[b]).1@
            &&& forall|i: int|
                0 <= i < n ==> exists|k: int| 0 <= k < d.len() && (#[trigger] d[k]).1@
                    == (#[trigger] pairs[i]).1@
            &&& forall|k: int|
                0 <= k < d.len() ==> exists|i: int| 0 <= i < n && (#[trigger] d[k]).1@
                    == (#[trigger] pairs[i]).1@
        }),
    decreases n,
{
    if n > 0 {
        lemma_dedup_props(pairs, n - 1);
        let dp = dedup_spec(pairs, n - 1);
        let d = dedup_spec(pairs, n);
        if seen_before(pairs, n - 1) {
            assert(d =~= dp);
            assert forall|i: int| 0 <= i < n implies exists|k: int|
                0 <= k < d.len() && (#[trigger] d[k]).1@ == (#[trigger] pairs[i]).1@ by {
                if i == n - 1 {
                    let j = choose|j: int| 0 <= j < n - 1 && (#[trigger] pairs[j]).1@ == pairs[n - 1].1@;
                    let k = choose|k: int|
                        0 <= k < dp.len() && (#[trigger] dp[k]).1@ == pairs[j].1@;
                    assert(0 <= k < d.len() && d[k].1@ == pairs[i].1@);
                }
            }
        } else {
            assert(d =~= dp.push(pairs[n - 1]));
            assert forall|a: int, b: int| 0 <= a < b < d.len() implies (#[trigger] d[a]).1@
                != (#[trigger] d[b]).1@ by {
                if b == d.len() - 1 {
                    let i0 = choose|i0: int|
                        0 <= i0 < n - 1 && dp[a].1@ == (#[trigger] pairs[i0]).1@;
                    assert(!seen_before(pairs, n - 1));
                    assert(pairs[i0].1@ != pairs[n - 1].1@);
                }
            }
            assert forall|i: int| 0 <= i < n implies exists|k: int|
                0 <= k < d.len() && (#[trigger] d[k]).1@ == (#[trigger] pairs[i]).1@ by {
                if i < n - 1 {
                    let k = choose|k: int|
                        0 <= k < dp.len() && (#[trigger] dp[k]).1@ == pairs[i].1@;
                    assert(d[k].1@ == pairs[i].1@);
                } else {
                    assert(d[d.len() - 1].1@ == pairs[n - 1].1@);
                }
            }
        }
    }
}

} // verus!
