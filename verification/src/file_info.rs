//! A discovered file: its name, its path, and the extension read off the
//! path the way the platform's path type does it.
use vstd::prelude::*;

use crate::strutil::{chars_vec, string_from_chars};

verus! {

/// The index of the last occurrence of `c` in `s`, or `-1` if `c` is absent.
pub open spec fn last_index_of(s: Seq<char>, c: char) -> int
    decreases s.len(),
{
    if s.len() == 0 {
        -1
    } else if s[s.len() - 1] == c {
        s.len() - 1
    } else {
        last_index_of(s.drop_last(), c)
    }
}

/// The file-name component of a path: everything after the last separator.
pub open spec fn file_name_of(path: Seq<char>) -> Seq<char> {
    path.skip(last_index_of(path, '/') + 1)
}

/// The extension of a path: the part of its file name after the last dot,
/// unless the only dot is the leading one or there is none.
pub open spec fn extension_of(path: Seq<char>) -> Option<Seq<char>> {
    let fname = file_name_of(path);
    let j = last_index_of(fname, '.');
    if j > 0 {
        Some(fname.skip(j + 1))
    } else {
        None
    }
}

#[derive(Debug)]
pub struct FileInfo {
    pub name: String,
    pub path: String,
    pub extension: Option<String>,
}

proof fn lemma_last_index_of(s: Seq<char>, c: char)
    ensures
        -1 <= last_index_of(s, c) < s.len(),
        last_index_of(s, c) >= 0 ==> s[last_index_of(s, c)] == c,
        forall|j: int| last_index_of(s, c) < j < s.len() ==> s[j] != c,
    decreases s.len(),
{
    if s.len() > 0 && s[s.len() - 1] != c {
        lemma_last_index_of(s.drop_last(), c);
        assert forall|j: int| last_index_of(s, c) < j < s.len() implies s[j] != c by {
            if j < s.len() - 1 {
                assert(s.drop_last()[j] == s[j]);
            }
        }
    }
}

/// Scan for the last occurrence of `c` in `cs`, as an exclusive bound:
/// returns one past the last occurrence, or zero if there is none.
fn last_occurrence(cs: &Vec<char>, c: char) -> (r: usize)
    ensures
        r == last_index_of(cs@, c) + 1,
        0 <= r <= cs@.len(),
{
    proof {
        lemma_last_index_of(cs@, c);
        assert(cs@.take(cs@.len() as int) =~= cs@);
    }
    let mut i: usize = cs.len();
    while i > 0
        invariant
            0 <= i <= cs@.len(),
            last_index_of(cs@, c) == last_index_of(cs@.take(i as int), c),
        decreases i,
    {
        proof {
            assert(cs@.take(i as int).drop_last() =~= cs@.take(i - 1 as int));
        }
        if cs[i - 1] == c {
            return i;
        }
        i = i - 1;
    }
    proof {
        assert(cs@.take(0) =~= Seq::<char>::empty());
    }
    0
}

impl FileInfo {
    /// Record a file under its name; the extension is computed from the
    /// path.
    pub fn new(name: String, path: &str) -> (r: FileInfo)
        ensures
            r.name@ == name@,
            r.path@ == path@,
            (match r.extension {
                Some(e) => extension_of(path@) == Some(e@),
                None => extension_of(path@) is None,
            }),
    {
        let cs = chars_vec(path);
        let sep = last_occurrence(&cs, '/');
        let mut fname: Vec<char> = Vec::new();
        proof {
            assert(fname@ =~= cs@.subrange(sep as int, sep as int));
        }
        let mut i: usize = sep;
        while i < cs.len()
            invariant
                sep <= i <= cs@.len(),
                fname@ == cs@.subrange(sep as int, i as int),
            decreases cs@.len() - i,
        {
            fname.push(cs[i]);
            proof {
                assert(fname@ =~= cs@.subrange(sep as int, i + 1 as int));
            }
            i = i + 1;
        }
        proof {
            assert(fname@ =~= cs@.skip(sep as int));
        }
        let dot = last_occurrence(&fname, '.');
        let extension: Option<String> = if dot > 1 {
            let mut ext: Vec<char> = Vec::new();
            proof {
                assert(ext@ =~= fname@.subrange(dot as int, dot as int));
            }
            let mut k: usize = dot;
            while k < fname.len()
                invariant
                    dot <= k <= fname@.len(),
                    ext@ == fname@.subrange(dot as int, k as int),
                decreases fname@.len() - k,
            {
                ext.push(fname[k]);
                proof {
                    assert(ext@ =~= fname@.subrange(dot as int, k + 1 as int));
                }
                k = k + 1;
            }
            proof {
                assert(ext@ =~= fname@.skip(dot as int));
            }
            Some(string_from_chars(&ext))
        } else {
            None
        };
        FileInfo { name, path: path.to_owned(), extension }
    }

    /// A structural copy.
    pub fn duplicate(&self) -> (r: FileInfo)
        ensures
            r == *self,
    {
        let extension = match &self.extension {
            Some(e) => Some(e.clone()),
            None => None,
        };
        FileInfo { name: self.name.clone(), path: self.path.clone(), extension }
    }
}

/// Whether some file in the list bears the given name.
pub open spec fn has_lib_name(vs: Seq<FileInfo>, n: Seq<char>) -> bool {
    exists|i: int| 0 <= i < vs.len() && vs[i].name@ == n
}

/// The package libraries that no library of the other list shares a name
/// with, in order.
pub open spec fn system_libs_spec(pkg: Seq<FileInfo>, vcpkg: Seq<FileInfo>) -> Seq<FileInfo>
    decreases pkg.len(),
{
    if pkg.len() == 0 {
        Seq::empty()
    } else {
        system_libs_spec(pkg.drop_last(), vcpkg) + (if has_lib_name(vcpkg, pkg.last().name@) {
            Seq::<FileInfo>::empty()
        } else {
            seq![pkg.last()]
        })
    }
}

fn name_in_libs(libs: &Vec<FileInfo>, name: &String) -> (r: bool)
    ensures
        r == has_lib_name(libs@, name@),
{
    let mut i: usize = 0;
    while i < libs.len()
        invariant
            0 <= i <= libs@.len(),
            forall|j: int| 0 <= j < i ==> libs@[j].name@ != name@,
        decreases libs@.len() - i,
    {
        if libs[i].name == *name {
            return true;
        }
        i = i + 1;
    }
    false
}

/// The libraries of the package that are not provided by the other
/// installation, judged by file name.
pub fn find_package_system_libs(package_libs: &Vec<FileInfo>, vcpkg_libs: &Vec<FileInfo>) -> (r:
    Vec<FileInfo>)
    ensures
        r@ == system_libs_spec(package_libs@, vcpkg_libs@),
{
    let mut r: Vec<FileInfo> = Vec::new();
    let mut i: usize = 0;
    while i < package_libs.len()
        invariant
            0 <= i <= package_libs@.len(),
            r@ == system_libs_spec(package_libs@.take(i as int), vcpkg_libs@),
        decreases package_libs@.len() - i,
    {
        proof {
            assert(package_libs@.take(i + 1 as int).drop_last() =~= package_libs@.take(i as int));
            assert(package_libs@.take(i + 1 as int).last() == package_libs@[i as int]);
        }
        if !name_in_libs(vcpkg_libs, &package_libs[i].name) {
            r.push(package_libs[i].duplicate());
        }
        proof {
            assert(r@ =~= system_libs_spec(package_libs@.take(i + 1 as int), vcpkg_libs@));
        }
        i = i + 1;
    }
    proof {
        assert(package_libs@.take(package_libs@.len() as int) =~= package_libs@);
    }
    r
}

} // verus!
