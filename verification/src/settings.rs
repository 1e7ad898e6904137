//! User-authored settings: overrides for package licenses and ignore lists
//! for discovery.
use vstd::prelude::*;
use vstd::string::StringExecFns;

use crate::strutil::str_eq;

verus! {

/// A license file forced by an override, optionally with a known identifier.
#[derive(Debug)]
pub struct LicenseFileOverride {
    pub id: Option<String>,
    pub file: String,
}

/// A user exception for one package, matched by exact name.
#[derive(Debug)]
pub struct Override {
    pub package: String,
    pub comment: String,
    pub license_id: Option<String>,
    pub overwrite_all_license_ids: bool,
    pub license_files: Vec<LicenseFileOverride>,
}

/// A directory of the vcpkg installation to skip, optionally tied to one
/// operating system.
#[derive(Debug)]
pub struct VcpkgIgnore {
    pub directory: String,
    pub comment: String,
    pub os: Option<String>,
}

/// A library name to skip while scanning the package.
#[derive(Debug)]
pub struct LibIgnore {
    pub lib: String,
    pub comment: String,
}

/// The loaded settings.
#[derive(Debug)]
pub struct Settings {
    pub overrides: Vec<Override>,
    pub use_vcpkg_default_ignores: bool,
    pub vcpkg_ignores: Vec<VcpkgIgnore>,
    pub lib_ignores: Vec<LibIgnore>,
}

/// The first override whose package name equals `name`, if any.
pub open spec fn override_match(ovs: Seq<Override>, name: Seq<char>) -> Option<Override>
    decreases ovs.len(),
{
    if ovs.len() == 0 {
        None
    } else if ovs[0].package@ == name {
        Some(ovs[0])
    } else {
        override_match(ovs.drop_first(), name)
    }
}

proof fn lemma_override_match_at(ovs: Seq<Override>, name: Seq<char>, i: int)
    requires
        0 <= i < ovs.len(),
        ovs[i].package@ == name,
        forall|j: int| 0 <= j < i ==> ovs[j].package@ != name,
    ensures
        override_match(ovs, name) == Some(ovs[i]),
    decreases ovs.len(),
{
    if i > 0 {
        lemma_override_match_at(ovs.drop_first(), name, i - 1);
    }
}

proof fn lemma_override_match_none(ovs: Seq<Override>, name: Seq<char>)
    requires
        forall|j: int| 0 <= j < ovs.len() ==> ovs[j].package@ != name,
    ensures
        override_match(ovs, name) is None,
    decreases ovs.len(),
{
    if ovs.len() > 0 {
        lemma_override_match_none(ovs.drop_first(), name);
    }
}

impl Override {
    /// The first override that names the package exactly, if any.
    pub fn find_override<'a>(package: &str, overrides: &'a Vec<Override>) -> (r: Option<
        &'a Override,
    >)
        ensures
            match r {
                Some(o) => override_match(overrides@, package@) == Some(*o),
                None => override_match(overrides@, package@) is None,
            },
    {
        let mut i: usize = 0;
        while i < overrides.len()
            invariant
                0 <= i <= overrides@.len(),
                forall|j: int| 0 <= j < i ==> overrides@[j].package@ != package@,
            decreases overrides@.len() - i,
        {
            if str_eq(overrides[i].package.as_str(), package) {
                proof {
                    lemma_override_match_at(overrides@, package@, i as int);
                }
                return Some(&overrides[i]);
            }
            i = i + 1;
        }
        proof {
            lemma_override_match_none(overrides@, package@);
        }
        None
    }
}

impl Settings {
    /// The name of the settings file looked for in the project root.
    pub fn default_settings_file() -> (r: String)
        ensures
            r@ == "mithra.yaml"@,
    {
        String::from_str("mithra.yaml")
    }
}

impl Default for Settings {
    /// Settings with no overrides and no extra ignores; the default vcpkg
    /// ignore list stays switched on.
    fn default() -> (r: Settings)
        ensures
            r.overrides@.len() == 0,
            r.use_vcpkg_default_ignores == true,
            r.vcpkg_ignores@.len() == 0,
            r.lib_ignores@.len() == 0,
    {
        Settings {
            overrides: Vec::new(),
            use_vcpkg_default_ignores: true,
            vcpkg_ignores: Vec::new(),
            lib_ignores: Vec::new(),
        }
    }
}

/// The vcpkg directories to skip: the build tree, the build-tools triplet
/// on Linux, and every configured ignore that applies to this operating
/// system.
pub open spec fn vcpkg_ignore_list(vs: Seq<VcpkgIgnore>, os: Seq<char>) -> Seq<Seq<char>>
    decreases vs.len(),
{
    if vs.len() == 0 {
        Seq::empty()
    } else {
        vcpkg_ignore_list(vs.drop_last(), os) + (if (vs.last().os matches Some(o) && o@ != os) {
            Seq::<Seq<char>>::empty()
        } else {
            seq![vs.last().directory@]
        })
    }
}

impl Settings {
    /// The full vcpkg ignore list for one operating system.
    pub fn vcpkg_ignore_dirs(&self, os: &str) -> (r: Vec<String>)
        ensures
            r@.map_values(|s: String| s@) == (if os@ == "linux"@ {
                seq!["debug"@, "x64-linux"@]
            } else {
                seq!["debug"@]
            }) + vcpkg_ignore_list(self.vcpkg_ignores@, os@),
    {
        let ghost base: Seq<Seq<char>> = if os@ == "linux"@ {
            seq!["debug"@, "x64-linux"@]
        } else {
            seq!["debug"@]
        };
        let mut r: Vec<String> = Vec::new();
        r.push(String::from_str("debug"));
        if str_eq(os, "linux") {
            r.push(String::from_str("x64-linux"));
        }
        proof {
            assert(r@.map_values(|s: String| s@) =~~= base);
        }
        let mut i: usize = 0;
        while i < self.vcpkg_ignores.len()
            invariant
                0 <= i <= self.vcpkg_ignores@.len(),
                r@.map_values(|s: String| s@) == base + vcpkg_ignore_list(
                    self.vcpkg_ignores@.take(i as int),
                    os@,
                ),
            decreases self.vcpkg_ignores@.len() - i,
        {
            proof {
                assert(self.vcpkg_ignores@.take(i + 1 as int).drop_last()
                    =~= self.vcpkg_ignores@.take(i as int));
                assert(self.vcpkg_ignores@.take(i + 1 as int).last()
                    == self.vcpkg_ignores@[i as int]);
            }
            let applies = match &self.vcpkg_ignores[i].os {
                Some(o) => str_eq(o.as_str(), os),
                None => true,
            };
            let ghost r0 = r@;
            if applies {
                r.push(self.vcpkg_ignores[i].directory.clone());
            }
            proof {
                assert(r0.map_values(|s: String| s@) == base + vcpkg_ignore_list(
                    self.vcpkg_ignores@.take(i as int),
                    os@,
                ));
                assert(r0.map_values(|s: String| s@).len() == r0.len());
                let v = self.vcpkg_ignores@[i as int];
                assert(vcpkg_ignore_list(self.vcpkg_ignores@.take(i + 1 as int), os@)
                    == vcpkg_ignore_list(self.vcpkg_ignores@.take(i as int), os@) + (if (v.os
                    matches Some(o) && o@ != os@) {
                    Seq::<Seq<char>>::empty()
                } else {
                    seq![v.directory@]
                }));
                if applies {
                    assert(!(v.os matches Some(o) && o@ != os@));
                    assert(r@ == r0.push(r@[r@.len() - 1]));
                } else {
                    assert((v.os matches Some(o) && o@ != os@));
                    assert(r@ == r0);
                }
                let lhs = r@.map_values(|s: String| s@);
                let rhs = base + vcpkg_ignore_list(self.vcpkg_ignores@.take(i + 1 as int), os@);
                assert(lhs.len() == rhs.len());
                assert forall|j: int| 0 <= j < lhs.len() implies lhs[j] == rhs[j] by {
                    assert(lhs[j] == r@[j]@);
                    if j < r0.len() {
                        assert(r@[j] == r0[j]);
                        assert(r0.map_values(|s: String| s@)[j] == r0[j]@);
                        assert(r0[j]@ == (base + vcpkg_ignore_list(
                            self.vcpkg_ignores@.take(i as int),
                            os@,
                        ))[j]);
                    } else {
                        assert(r@[j]@ == v.directory@);
                    }
                }
                assert(lhs =~= rhs);
            }
            i = i + 1;
        }
        proof {
            assert(self.vcpkg_ignores@.take(self.vcpkg_ignores@.len() as int)
                =~= self.vcpkg_ignores@);
        }
        r
    }

    /// The library ignore list for the package scan: the build tree plus
    /// every configured library name.
    pub fn package_ignore_libs(&self) -> (r: Vec<String>)
        ensures
            r@.map_values(|s: String| s@) == seq!["debug"@] + self.lib_ignores@.map_values(
                |l: LibIgnore| l.lib@,
            ),
    {
        let mut r: Vec<String> = Vec::new();
        r.push(String::from_str("debug"));
        let mut i: usize = 0;
        while i < self.lib_ignores.len()
            invariant
                0 <= i <= self.lib_ignores@.len(),
                r@.map_values(|s: String| s@) == seq!["debug"@] + self.lib_ignores@.take(
                    i as int,
                ).map_values(|l: LibIgnore| l.lib@),
            decreases self.lib_ignores@.len() - i,
        {
            let ghost r0 = r@;
            r.push(self.lib_ignores[i].lib.clone());
            proof {
                assert(r@ == r0.push(r@[r@.len() - 1]));
                assert(r0.map_values(|s: String| s@).len() == r0.len());
                let lhs = r@.map_values(|s: String| s@);
                let rhs = seq!["debug"@] + self.lib_ignores@.take(i + 1 as int).map_values(
                    |l: LibIgnore| l.lib@,
                );
                assert(lhs.len() == rhs.len());
                assert forall|j: int| 0 <= j < lhs.len() implies lhs[j] == rhs[j] by {
                    assert(lhs[j] == r@[j]@);
                    if j < lhs.len() - 1 {
                        assert(r@[j]@ == (seq!["debug"@] + self.lib_ignores@.take(
                            i as int,
                        ).map_values(|l: LibIgnore| l.lib@))[j]);
                    }
                }
                assert(lhs =~= rhs);
            }
            i = i + 1;
        }
        proof {
            assert(self.lib_ignores@.take(self.lib_ignores@.len() as int) =~= self.lib_ignores@);
        }
        r
    }
}

} // verus!
