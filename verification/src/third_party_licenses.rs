//! The manifest: the collected third-party libraries with their licenses,
//! override application, and the export plan for the human-readable tree.
use vstd::prelude::*;
use vstd::string::StringExecFns;

use crate::ResolveError;
use crate::seq_util::{lemma_map_push, lemma_take_all, lemma_take_succ};
use crate::license_info::LicenseInfo;
use crate::license_text::LicenseText;
use crate::settings::{Override, override_match};
use crate::strutil::{chars_vec, string_from_chars};

verus! {

/// One resolved license of a library.
#[derive(Debug, Clone, Default, PartialEq)]
pub struct License {
    pub license: String,
    pub text: String,
}

/// One third-party library of the manifest.
#[derive(Debug, Clone, Default, PartialEq)]
pub struct ThirdPartyLibrary {
    pub package_name: String,
    pub package_version: String,
    pub license: String,
    pub licenses: Vec<License>,
}

/// The whole manifest.
#[derive(Debug, Clone, Default, PartialEq)]
pub struct ThirdPartyLicenses {
    pub root_name: String,
    pub third_party_libraries: Vec<ThirdPartyLibrary>,
}

/// The mathematical content of one license entry.
#[verifier::ext_equal]
pub ghost struct LicenseV {
    pub license: Seq<char>,
    pub text: Seq<char>,
}

/// The mathematical content of one library entry.
#[verifier::ext_equal]
pub ghost struct LibraryV {
    pub package_name: Seq<char>,
    pub package_version: Seq<char>,
    pub license: Seq<char>,
    pub licenses: Seq<LicenseV>,
}

/// The mathematical content of a manifest.
#[verifier::ext_equal]
pub ghost struct ManifestV {
    pub root_name: Seq<char>,
    pub libraries: Seq<LibraryV>,
}

impl View for License {
    type V = LicenseV;

    open spec fn view(&self) -> LicenseV {
        LicenseV { license: self.license@, text: self.text@ }
    }
}

impl View for ThirdPartyLibrary {
    type V = LibraryV;

    open spec fn view(&self) -> LibraryV {
        LibraryV {
            package_name: self.package_name@,
            package_version: self.package_version@,
            license: self.license@,
            licenses: self.licenses@.map_values(|l: License| l@),
        }
    }
}

impl View for ThirdPartyLicenses {
    type V = ManifestV;

    open spec fn view(&self) -> ManifestV {
        ManifestV {
            root_name: self.root_name@,
            libraries: self.third_party_libraries@.map_values(|l: ThirdPartyLibrary| l@),
        }
    }
}

/// The library entry a resolution record turns into.
pub open spec fn library_of_info(i: LicenseInfo) -> LibraryV {
    LibraryV {
        package_name: i.package_name@,
        package_version: (match i.version {
            Some(v) => v@,
            None => Seq::empty(),
        }),
        license: i.license@,
        licenses: i.license_texts@.map_values(
            |t: LicenseText| LicenseV { license: t.id@, text: t.text@ },
        ),
    }
}

/// One library after one override: the top-level license is forced, and
/// with the cascade flag every nested identifier as well.
pub open spec fn apply_override_lib(l: LibraryV, ov: Override) -> LibraryV {
    match ov.license_id {
        None => l,
        Some(id) => LibraryV {
            package_name: l.package_name,
            package_version: l.package_version,
            license: id@,
            licenses: if ov.overwrite_all_license_ids {
                l.licenses.map_values(|lc: LicenseV| LicenseV { license: id@, text: lc.text })
            } else {
                l.licenses
            },
        },
    }
}

/// One library after the override set: the first override that names it
/// exactly applies; an unmatched library is untouched.
pub open spec fn apply_overrides_lib(l: LibraryV, ovs: Seq<Override>) -> LibraryV {
    match override_match(ovs, l.package_name) {
        None => l,
        Some(ov) => apply_override_lib(l, ov),
    }
}

/// The manifest after the override set.
pub open spec fn apply_overrides_spec(m: ManifestV, ovs: Seq<Override>) -> ManifestV {
    ManifestV {
        root_name: m.root_name,
        libraries: m.libraries.map_values(|l: LibraryV| apply_overrides_lib(l, ovs)),
    }
}

/// Applying the same override set a second time changes nothing: the
/// result of one application is a fixed point.
pub proof fn lemma_apply_overrides_idempotent(m: ManifestV, ovs: Seq<Override>)
    ensures
        apply_overrides_spec(apply_overrides_spec(m, ovs), ovs) == apply_overrides_spec(m, ovs),
{
    let m1 = apply_overrides_spec(m, ovs);
    let m2 = apply_overrides_spec(m1, ovs);
    assert forall|i: int| 0 <= i < m1.libraries.len() implies m2.libraries[i]
        == m1.libraries[i] by {
        let l = m.libraries[i];
        let l1 = apply_overrides_lib(l, ovs);
        assert(l1.package_name == l.package_name);
        match override_match(ovs, l.package_name) {
            None => {},
            Some(ov) => {
                match ov.license_id {
                    None => {},
                    Some(id) => {
                        let l2 = apply_override_lib(l1, ov);
                        if ov.overwrite_all_license_ids {
                            assert(l2.licenses =~= l1.licenses);
                        }
                        assert(l2 =~= l1);
                    },
                }
            },
        }
    }
    assert(m2.libraries =~= m1.libraries);
    assert(m2 =~= m1);
}

impl ThirdPartyLicenses {
    /// Build the manifest from a batch of resolution records, in order.
    pub fn new(root_name: &str, license_infos: &Vec<LicenseInfo>) -> (r: ThirdPartyLicenses)
        ensures
            r@.root_name == root_name@,
            r@.libraries == license_infos@.map_values(|i: LicenseInfo| library_of_info(i)),
    {
        let mut libs: Vec<ThirdPartyLibrary> = Vec::new();
        let mut i: usize = 0;
        while i < license_infos.len()
            invariant
                0 <= i <= license_infos@.len(),
                libs@.map_values(|l: ThirdPartyLibrary| l@) =~= license_infos@.take(
                    i as int,
                ).map_values(|inf: LicenseInfo| library_of_info(inf)),
            decreases license_infos@.len() - i,
        {
            let info = &license_infos[i];
            let mut licenses: Vec<License> = Vec::new();
            let mut j: usize = 0;
            while j < info.license_texts.len()
                invariant
                    0 <= j <= info.license_texts@.len(),
                    licenses@.map_values(|l: License| l@) =~= info.license_texts@.take(
                        j as int,
                    ).map_values(|t: LicenseText| LicenseV { license: t.id@, text: t.text@ }),
                decreases info.license_texts@.len() - j,
            {
                let ghost ls0 = licenses@;
                licenses.push(
                    License {
                        license: info.license_texts[j].id.clone(),
                        text: info.license_texts[j].text.clone(),
                    },
                );
                proof {
                    assert(licenses@ == ls0.push(licenses@[licenses@.len() - 1]));
                    lemma_map_push(ls0, |l: License| l@, licenses@[licenses@.len() - 1]);
                    lemma_take_succ(info.license_texts@, j as int);
                    lemma_map_push(
                        info.license_texts@.take(j as int),
                        |t: LicenseText| LicenseV { license: t.id@, text: t.text@ },
                        info.license_texts@[j as int],
                    );
                }
                j = j + 1;
            }
            proof {
                lemma_take_all(info.license_texts@);
            }
            let version = match &info.version {
                Some(v) => v.clone(),
                None => String::new(),
            };
            let ghost libs0 = libs@;
            libs.push(
                ThirdPartyLibrary {
                    package_name: info.package_name.clone(),
                    package_version: version,
                    license: info.license.clone(),
                    licenses,
                },
            );
            proof {
                assert(libs@ == libs0.push(libs@[libs@.len() - 1]));
                lemma_map_push(libs0, |l: ThirdPartyLibrary| l@, libs@[libs@.len() - 1]);
                lemma_take_succ(license_infos@, i as int);
                lemma_map_push(
                    license_infos@.take(i as int),
                    |inf: LicenseInfo| library_of_info(inf),
                    license_infos@[i as int],
                );
                assert(libs@[libs@.len() - 1]@ =~= library_of_info(license_infos@[i as int]));
            }
            i = i + 1;
        }
        proof {
            lemma_take_all(license_infos@);
        }
        ThirdPartyLicenses { root_name: root_name.to_owned(), third_party_libraries: libs }
    }

    /// Force the licenses that the override set names: for every library
    /// whose name an override matches exactly, the top-level license, and
    /// with the cascade flag also every nested identifier.
    pub fn apply_overrides(&mut self, overrides: &Vec<Override>) -> (r: Result<(), ResolveError>)
        ensures
            r is Ok,
            final(self)@ == apply_overrides_spec(old(self)@, overrides@),
    {
        let ghost m0 = self@;
        let mut i: usize = 0;
        while i < self.third_party_libraries.len()
            invariant
                self@.root_name == m0.root_name,
                self@.libraries.len() == m0.libraries.len(),
                self.third_party_libraries@.len() == m0.libraries.len(),
                0 <= i <= m0.libraries.len(),
                forall|j: int|
                    i <= j < m0.libraries.len() ==> self@.libraries[j] == m0.libraries[j],
                forall|j: int|
                    0 <= j < i ==> self@.libraries[j] == apply_overrides_lib(
                        m0.libraries[j],
                        overrides@,
                    ),
            decreases m0.libraries.len() - i,
        {
            let ghost lib0 = self@.libraries[i as int];
            let found = match Override::find_override(
                self.third_party_libraries[i].package_name.as_str(),
                overrides,
            ) {
                Some(ov) => {
                    match &ov.license_id {
                        Some(id) => Some((id.clone(), ov.overwrite_all_license_ids)),
                        None => None,
                    }
                },
                None => None,
            };
            match found {
                Some((id, cascade)) => {
                    let mut new_licenses: Vec<License> = Vec::new();
                    let ghost n = self.third_party_libraries@[i as int].licenses@.len();
                    let mut j: usize = 0;
                    while j < self.third_party_libraries[i].licenses.len()
                        invariant
                            0 <= i < self.third_party_libraries@.len(),
                            n == self.third_party_libraries@[i as int].licenses@.len(),
                            0 <= j <= n,
                            new_licenses@.len() == j,
                            forall|k: int|
                                0 <= k < j ==> #[trigger] new_licenses@[k]@ == (LicenseV {
                                    license: if cascade {
                                        id@
                                    } else {
                                        self.third_party_libraries@[i as int].licenses@[k]@.license
                                    },
                                    text: self.third_party_libraries@[i as int].licenses@[k]@.text,
                                }),
                        decreases n - j,
                    {
                        let lic = if cascade {
                            id.clone()
                        } else {
                            self.third_party_libraries[i].licenses[j].license.clone()
                        };
                        new_licenses.push(
                            License {
                                license: lic,
                                text: self.third_party_libraries[i].licenses[j].text.clone(),
                            },
                        );
                        j = j + 1;
                    }
                    let new_lib = ThirdPartyLibrary {
                        package_name: self.third_party_libraries[i].package_name.clone(),
                        package_version: self.third_party_libraries[i].package_version.clone(),
                        license: id,
                        licenses: new_licenses,
                    };
                    let ghost vec0 = self.third_party_libraries@;
                    self.third_party_libraries[i] = new_lib;
                    proof {
                        assert(self.third_party_libraries@ == vec0.update(
                            i as int,
                            self.third_party_libraries@[i as int],
                        ));
                        let ov = override_match(overrides@, lib0.package_name).unwrap();
                        assert(self@.libraries[i as int].licenses =~= (if cascade {
                            lib0.licenses.map_values(
                                |lc: LicenseV|
                                    LicenseV {
                                        license: ov.license_id.unwrap()@,
                                        text: lc.text,
                                    },
                            )
                        } else {
                            lib0.licenses
                        }));
                        assert(self@.libraries[i as int] =~= apply_override_lib(lib0, ov));
                        assert forall|k: int|
                            0 <= k < m0.libraries.len() && k != i implies self@.libraries[k]
                            == vec0.map_values(|l: ThirdPartyLibrary| l@)[k] by {
                            assert(self.third_party_libraries@[k] == vec0[k]);
                        }
                    }
                },
                None => {
                    proof {
                        assert(self@.libraries[i as int] == apply_overrides_lib(
                            lib0,
                            overrides@,
                        ));
                    }
                },
            }
            i = i + 1;
        }
        proof {
            assert(self@.libraries =~= m0.libraries.map_values(
                |l: LibraryV| apply_overrides_lib(l, overrides@),
            ));
            assert(self@ =~= apply_overrides_spec(m0, overrides@));
        }
        Ok(())
    }
}


/// A sanitized file-name character: path separators and the dollar sign
/// become dashes.
pub open spec fn sanitize_char(c: char) -> char {
    if c == '/' || c == '$' {
        '-'
    } else {
        c
    }
}

/// A license identifier made safe for use as a file name.
pub open spec fn sanitize_id(s: Seq<char>) -> Seq<char> {
    s.map_values(|c: char| sanitize_char(c))
}

/// The description written beside a library's license texts.
pub open spec fn readme_text(l: LibraryV) -> Seq<char> {
    "Package: "@ + l.package_name + "\nVersion: "@ + l.package_version + "\nLicense: "@
        + l.license + "\n"@
}

/// The directory one library's files go into, relative to the export root.
pub open spec fn lib_dir(root: Seq<char>, l: LibraryV) -> Seq<char> {
    root + "/"@ + l.package_name + "/"@
}

/// The files written for one library: its description, then one text file
/// per resolved license, named by the sanitized identifier.
pub open spec fn lib_entries(root: Seq<char>, l: LibraryV) -> Seq<(Seq<char>, Seq<char>)> {
    seq![(lib_dir(root, l) + "README.txt"@, readme_text(l))] + l.licenses.map_values(
        |lc: LicenseV| (lib_dir(root, l) + sanitize_id(lc.license) + ".txt"@, lc.text),
    )
}

/// The files of the whole export, library by library, in manifest order.
pub open spec fn export_entries(root: Seq<char>, libs: Seq<LibraryV>) -> Seq<
    (Seq<char>, Seq<char>),
>
    decreases libs.len(),
{
    if libs.len() == 0 {
        Seq::empty()
    } else {
        export_entries(root, libs.drop_last()) + lib_entries(root, libs.last())
    }
}

/// Every relative path and its contents that exporting the manifest
/// writes.
pub open spec fn export_plan_spec(m: ManifestV) -> Seq<(Seq<char>, Seq<char>)> {
    export_entries(m.root_name, m.libraries)
}

fn sanitize_component(s: &str) -> (r: String)
    ensures
        r@ == sanitize_id(s@),
{
    let cs = chars_vec(s);
    let mut out: Vec<char> = Vec::new();
    let mut i: usize = 0;
    while i < cs.len()
        invariant
            cs@ == s@,
            0 <= i <= s@.len(),
            out@.len() == i,
            forall|k: int| 0 <= k < i ==> out@[k] == sanitize_char(s@[k]),
        decreases s@.len() - i,
    {
        let c = cs[i];
        if c == '/' || c == '$' {
            out.push('-');
        } else {
            out.push(c);
        }
        i = i + 1;
    }
    proof {
        assert(out@ =~= sanitize_id(s@));
    }
    string_from_chars(&out)
}

fn readme_for(lib: &ThirdPartyLibrary) -> (r: String)
    ensures
        r@ == readme_text(lib@),
{
    let mut s = String::from_str("Package: ");
    s.append(lib.package_name.as_str());
    s.append("\nVersion: ");
    s.append(lib.package_version.as_str());
    s.append("\nLicense: ");
    s.append(lib.license.as_str());
    s.append("\n");
    proof {
        assert(s@ =~= readme_text(lib@));
    }
    s
}

impl ThirdPartyLicenses {
    /// The export plan: for every library, under `rootName/packageName/`,
    /// a description file and one text file per resolved license; paths
    /// are relative to the target directory. Colliding sanitized names
    /// stay in the plan in order, so a later entry overwrites an earlier
    /// one when written.
    pub fn export_plan(&self) -> (r: Vec<(String, String)>)
        ensures
            r@.map_values(|p: (String, String)| (p.0@, p.1@)) == export_plan_spec(self@),
    {
        let ghost me = self@;
        let mut r: Vec<(String, String)> = Vec::new();
        let mut i: usize = 0;
        while i < self.third_party_libraries.len()
            invariant
                me == self@,
                0 <= i <= me.libraries.len(),
                self.third_party_libraries@.len() == me.libraries.len(),
                r@.map_values(|p: (String, String)| (p.0@, p.1@)) == export_entries(
                    me.root_name,
                    me.libraries.take(i as int),
                ),
            decreases me.libraries.len() - i,
        {
            let lib = &self.third_party_libraries[i];
            let ghost libv = me.libraries[i as int];
            let mut dir = self.root_name.clone();
            dir.append("/");
            dir.append(lib.package_name.as_str());
            dir.append("/");
            proof {
                assert(dir@ =~= lib_dir(me.root_name, libv));
            }
            let mut readme_path = dir.clone();
            readme_path.append("README.txt");
            let ghost r0 = r@;
            r.push((readme_path, readme_for(lib)));
            proof {
                assert(r@ == r0.push(r@[r@.len() - 1]));
                lemma_map_push(r0, |p: (String, String)| (p.0@, p.1@), r@[r@.len() - 1]);
            }
            let mut j: usize = 0;
            while j < lib.licenses.len()
                invariant
                    me == self@,
                    0 <= i < me.libraries.len(),
                    self.third_party_libraries@.len() == me.libraries.len(),
                    lib == &self.third_party_libraries[i as int],
                    libv == me.libraries[i as int],
                    libv.licenses.len() == lib.licenses@.len(),
                    dir@ == lib_dir(me.root_name, libv),
                    0 <= j <= libv.licenses.len(),
                    r@.map_values(|p: (String, String)| (p.0@, p.1@)) == export_entries(
                        me.root_name,
                        me.libraries.take(i as int),
                    ) + seq![
                        (lib_dir(me.root_name, libv) + "README.txt"@, readme_text(libv)),
                    ] + libv.licenses.take(j as int).map_values(
                        |lc: LicenseV|
                            (
                                lib_dir(me.root_name, libv) + sanitize_id(lc.license) + ".txt"@,
                                lc.text,
                            ),
                    ),
                decreases libv.licenses.len() - j,
            {
                let mut path = dir.clone();
                let sane = sanitize_component(lib.licenses[j].license.as_str());
                path.append(sane.as_str());
                path.append(".txt");
                let ghost r1 = r@;
                r.push((path, lib.licenses[j].text.clone()));
                proof {
                    assert(r@ == r1.push(r@[r@.len() - 1]));
                    lemma_map_push(r1, |p: (String, String)| (p.0@, p.1@), r@[r@.len() - 1]);
                    lemma_take_succ(libv.licenses, j as int);
                    lemma_map_push(
                        libv.licenses.take(j as int),
                        |lc: LicenseV|
                            (
                                lib_dir(me.root_name, libv) + sanitize_id(lc.license) + ".txt"@,
                                lc.text,
                            ),
                        libv.licenses[j as int],
                    );
                    assert(r@.map_values(|p: (String, String)| (p.0@, p.1@)) =~= export_entries(
                        me.root_name,
                        me.libraries.take(i as int),
                    ) + seq![
                        (lib_dir(me.root_name, libv) + "README.txt"@, readme_text(libv)),
                    ] + libv.licenses.take(j + 1 as int).map_values(
                        |lc: LicenseV|
                            (
                                lib_dir(me.root_name, libv) + sanitize_id(lc.license) + ".txt"@,
                                lc.text,
                            ),
                    ));
                }
                j = j + 1;
            }
            proof {
                lemma_take_all(libv.licenses);
                lemma_take_succ(me.libraries, i as int);
                assert(me.libraries.take(i + 1 as int).drop_last() =~= me.libraries.take(i as int));
                assert(me.libraries.take(i + 1 as int).last() == libv);
                assert(r@.map_values(|p: (String, String)| (p.0@, p.1@)) =~= export_entries(
                    me.root_name,
                    me.libraries.take(i + 1 as int),
                ));
            }
            i = i + 1;
        }
        proof {
            lemma_take_all(me.libraries);
        }
        r
    }
}


impl ThirdPartyLicenses {
    /// The persisted document text of the manifest.
    pub fn to_json(&self) -> (r: String)
        ensures
            r@ == crate::json::render_manifest(self@),
    {
        crate::json::render_manifest_exec(self)
    }

    /// Read a manifest back from document text. Malformed text, a missing
    /// field, fields out of order, or trailing content give a parse
    /// error. A document written by `to_json` always loads back, to a
    /// structurally equal manifest: see
    /// `crate::json::lemma_render_parse_round_trip`.
    pub fn from_json(s: &str) -> (r: Result<ThirdPartyLicenses, ResolveError>)
        ensures
            match r {
                Ok(m) => crate::json::sp_manifest(s@, 0) matches Some((v, j)) && m@ == v
                    && crate::json::sp_ws(s@, j) == s@.len(),
                Err(e) => e == ResolveError::ParseError && (crate::json::sp_manifest(s@, 0)
                    is None || crate::json::sp_ws(
                    s@,
                    crate::json::sp_manifest(s@, 0).unwrap().1,
                ) != s@.len()),
            },
    {
        let cs = chars_vec(s);
        match crate::json::parse_manifest_exec(&cs, 0) {
            Some((m, j)) => {
                let j2 = crate::json::skip_ws_exec(&cs, j);
                if j2 == cs.len() {
                    Ok(m)
                } else {
                    Err(ResolveError::ParseError)
                }
            },
            None => Err(ResolveError::ParseError),
        }
    }
}

} // verus!
