//! The manifest's persisted document format: a JSON writer and a parser for
//! the subset the manifest uses (objects with fixed keys, arrays, strings),
//! with a proved parse-after-render round trip.
use vstd::prelude::*;

use crate::strutil::{char_from_u32, chars_vec, string_from_chars, valid_scalar};
use crate::ResolveError;

verus! {

pub open spec fn is_ws_char(c: char) -> bool {
    c == ' ' || c == '\n' || c == '\r' || c == '\t'
}

/// The first position at or after `i` holding no whitespace.
pub open spec fn sp_ws(s: Seq<char>, i: int) -> int
    decreases s.len() - i when 0 <= i <= s.len()
{
    if i < s.len() && is_ws_char(s[i]) {
        sp_ws(s, i + 1)
    } else {
        i
    }
}

pub proof fn lemma_sp_ws_bounds(s: Seq<char>, i: int)
    requires
        0 <= i <= s.len(),
    ensures
        i <= sp_ws(s, i) <= s.len(),
    decreases s.len() - i,
{
    if i < s.len() && is_ws_char(s[i]) {
        lemma_sp_ws_bounds(s, i + 1);
    }
}

/// Position after the literal `lit` read at `i`, if it is there.
pub open spec fn sp_lit(s: Seq<char>, i: int, lit: Seq<char>) -> Option<int>
    decreases lit.len(),
{
    if lit.len() == 0 {
        Some(i)
    } else if 0 <= i < s.len() && s[i] == lit[0] {
        sp_lit(s, i + 1, lit.drop_first())
    } else {
        None
    }
}

pub proof fn lemma_sp_lit_some(s: Seq<char>, i: int, lit: Seq<char>)
    requires
        sp_lit(s, i, lit) is Some,
    ensures
        sp_lit(s, i, lit) == Some(i + lit.len()),
        lit.len() > 0 ==> i + lit.len() <= s.len() && 0 <= i,
    decreases lit.len(),
{
    if lit.len() > 0 {
        lemma_sp_lit_some(s, i + 1, lit.drop_first());
    }
}

/// Reading a literal that is in fact there succeeds.
pub proof fn lemma_sp_lit_starts(s: Seq<char>, i: int, lit: Seq<char>)
    requires
        starts_at(s, i, lit),
    ensures
        sp_lit(s, i, lit) == Some(i + lit.len()),
    decreases lit.len(),
{
    if lit.len() > 0 {
        assert(s[i] == s.subrange(i, i + lit.len())[0]);
        assert(starts_at(s, i + 1, lit.drop_first())) by {
            assert(s.subrange(i + 1, i + 1 + (lit.len() - 1)) =~= s.subrange(
                i,
                i + lit.len(),
            ).drop_first());
        }
        lemma_sp_lit_starts(s, i + 1, lit.drop_first());
    }
}

/// The value of a hexadecimal digit, or `-1`.
pub open spec fn hex_val(c: char) -> int {
    if c == '0' {
        0
    } else if c == '1' {
        1
    } else if c == '2' {
        2
    } else if c == '3' {
        3
    } else if c == '4' {
        4
    } else if c == '5' {
        5
    } else if c == '6' {
        6
    } else if c == '7' {
        7
    } else if c == '8' {
        8
    } else if c == '9' {
        9
    } else if c == 'a' || c == 'A' {
        10
    } else if c == 'b' || c == 'B' {
        11
    } else if c == 'c' || c == 'C' {
        12
    } else if c == 'd' || c == 'D' {
        13
    } else if c == 'e' || c == 'E' {
        14
    } else if c == 'f' || c == 'F' {
        15
    } else {
        -1
    }
}

/// The lower-case digit of a value below sixteen.
pub open spec fn hex_char(n: int) -> char {
    if n == 0 {
        '0'
    } else if n == 1 {
        '1'
    } else if n == 2 {
        '2'
    } else if n == 3 {
        '3'
    } else if n == 4 {
        '4'
    } else if n == 5 {
        '5'
    } else if n == 6 {
        '6'
    } else if n == 7 {
        '7'
    } else if n == 8 {
        '8'
    } else if n == 9 {
        '9'
    } else if n == 10 {
        'a'
    } else if n == 11 {
        'b'
    } else if n == 12 {
        'c'
    } else if n == 13 {
        'd'
    } else if n == 14 {
        'e'
    } else {
        'f'
    }
}

/// The string-body parser: content characters until the closing quote,
/// unescaping as it goes.
pub open spec fn sp_str_body(s: Seq<char>, i: int) -> Option<(Seq<char>, int)>
    decreases s.len() - i when 0 <= i <= s.len()
{
    if i >= s.len() {
        None
    } else if s[i] == '"' {
        Some((Seq::empty(), i + 1))
    } else if s[i] == '\\' {
        if i + 1 >= s.len() {
            None
        } else {
            let e = s[i + 1];
            if e == 'u' {
                if i + 6 > s.len() {
                    None
                } else {
                    let h0 = hex_val(s[i + 2]);
                    let h1 = hex_val(s[i + 3]);
                    let h2 = hex_val(s[i + 4]);
                    let h3 = hex_val(s[i + 5]);
                    if h0 < 0 || h1 < 0 || h2 < 0 || h3 < 0 {
                        None
                    } else {
                        let v = h0 * 4096 + h1 * 256 + h2 * 16 + h3;
                        if !valid_scalar(v as u32) {
                            None
                        } else {
                            match sp_str_body(s, i + 6) {
                                Some((rest, j)) => Some((seq![(v as u32) as char] + rest, j)),
                                None => None,
                            }
                        }
                    }
                }
            } else if e == '"' || e == '\\' || e == '/' || e == 'n' || e == 'r' || e == 't' || e
                == 'b' || e == 'f' {
                let c = if e == '"' {
                    '"'
                } else if e == '\\' {
                    '\\'
                } else if e == '/' {
                    '/'
                } else if e == 'n' {
                    '\n'
                } else if e == 'r' {
                    '\r'
                } else if e == 't' {
                    '\t'
                } else if e == 'b' {
                    '\u{8}'
                } else {
                    '\u{c}'
                };
                match sp_str_body(s, i + 2) {
                    Some((rest, j)) => Some((seq![c] + rest, j)),
                    None => None,
                }
            } else {
                None
            }
        }
    } else {
        match sp_str_body(s, i + 1) {
            Some((rest, j)) => Some((seq![s[i]] + rest, j)),
            None => None,
        }
    }
}

/// A quoted string read at `i`.
pub open spec fn sp_string(s: Seq<char>, i: int) -> Option<(Seq<char>, int)> {
    if 0 <= i < s.len() && s[i] == '"' {
        sp_str_body(s, i + 1)
    } else {
        None
    }
}

pub proof fn lemma_sp_str_body_some(s: Seq<char>, i: int)
    requires
        0 <= i <= s.len(),
        sp_str_body(s, i) is Some,
    ensures
        i < sp_str_body(s, i).unwrap().1 <= s.len(),
    decreases s.len() - i,
{
    if i < s.len() && s[i] != '"' {
        if s[i] == '\\' {
            let e = s[i + 1];
            if e == 'u' {
                lemma_sp_str_body_some(s, i + 6);
            } else {
                lemma_sp_str_body_some(s, i + 2);
            }
        } else {
            lemma_sp_str_body_some(s, i + 1);
        }
    }
}

/// What the writer emits for one character.
pub open spec fn esc_char(c: char) -> Seq<char> {
    if c == '"' {
        seq!['\\', '"']
    } else if c == '\\' {
        seq!['\\', '\\']
    } else if c == '\n' {
        seq!['\\', 'n']
    } else if c == '\r' {
        seq!['\\', 'r']
    } else if c == '\t' {
        seq!['\\', 't']
    } else if c == '\u{8}' {
        seq!['\\', 'b']
    } else if c == '\u{c}' {
        seq!['\\', 'f']
    } else if (c as u32) < 32 {
        seq!['\\', 'u', '0', '0', hex_char((c as u32) as int / 16), hex_char((c as u32) as int % 16)]
    } else {
        seq![c]
    }
}

/// The escaped body of a string.
pub open spec fn esc(v: Seq<char>) -> Seq<char>
    decreases v.len(),
{
    if v.len() == 0 {
        Seq::empty()
    } else {
        esc_char(v[0]) + esc(v.drop_first())
    }
}

/// A rendered string value, quotes included.
pub open spec fn render_string(v: Seq<char>) -> Seq<char> {
    seq!['"'] + esc(v) + seq!['"']
}

/// Whether `p` is exactly what `s` holds from position `i` on.
pub open spec fn starts_at(s: Seq<char>, i: int, p: Seq<char>) -> bool {
    0 <= i && i + p.len() <= s.len() && s.subrange(i, i + p.len()) == p
}

pub proof fn lemma_starts_at_concat(s: Seq<char>, i: int, a: Seq<char>, b: Seq<char>)
    requires
        starts_at(s, i, a + b),
    ensures
        starts_at(s, i, a),
        starts_at(s, i + a.len(), b),
{
    assert(s.subrange(i, i + a.len()) =~= (a + b).subrange(0, a.len() as int));
    assert((a + b).subrange(0, a.len() as int) =~= a);
    assert(s.subrange(i + a.len(), i + a.len() + b.len()) =~= (a + b).subrange(
        a.len() as int,
        (a + b).len() as int,
    ));
    assert((a + b).subrange(a.len() as int, (a + b).len() as int) =~= b);
}

pub proof fn lemma_starts_at_index(s: Seq<char>, i: int, p: Seq<char>, k: int)
    requires
        starts_at(s, i, p),
        0 <= k < p.len(),
    ensures
        s[i + k] == p[k],
{
    assert(s.subrange(i, i + p.len())[k] == s[i + k]);
}

/// Parsing a string body that the writer produced gives back exactly the
/// original characters, ending just past the closing quote.
pub proof fn lemma_parse_esc(s: Seq<char>, i: int, v: Seq<char>)
    requires
        starts_at(s, i, esc(v) + seq!['"']),
    ensures
        sp_str_body(s, i) == Some((v, i + esc(v).len() + 1)),
    decreases v.len(),
{
    vstd::utf8::char_is_scalar(if v.len() > 0 {
        v[0]
    } else {
        ' '
    });
    if v.len() == 0 {
        assert(esc(v) + seq!['"'] =~= seq!['"']);
        lemma_starts_at_index(s, i, seq!['"'], 0);
    } else {
        let c = v[0];
        let e0 = esc_char(c);
        let rest = v.drop_first();
        assert(esc(v) == e0 + esc(rest));
        assert((e0 + esc(rest)) + seq!['"'] =~= e0 + (esc(rest) + seq!['"']));
        lemma_starts_at_concat(s, i, e0, esc(rest) + seq!['"']);
        lemma_parse_esc(s, i + e0.len(), rest);
        assert forall|k: int| 0 <= k < e0.len() implies s[i + k] == e0[k] by {
            lemma_starts_at_index(s, i, e0, k);
        }
        if c == '"' || c == '\\' {
            assert(s[i] == '\\');
            assert(sp_str_body(s, i) == Some((seq![c] + rest, i + 2 + esc(rest).len() + 1)));
            assert(seq![c] + rest =~= v);
            assert(sp_str_body(s, i) == Some((v, i + esc(v).len() + 1)));
        } else if c == '\n' || c == '\r' || c == '\t' || c == '\u{8}' || c == '\u{c}' {
            assert(s[i] == '\\');
            assert(seq![c] + rest =~= v);
            assert(sp_str_body(s, i) == Some((v, i + esc(v).len() + 1)));
        } else if (c as u32) < 32 {
            assert(s[i] == '\\' && s[i + 1] == 'u' && s[i + 2] == '0' && s[i + 3] == '0');
            let cu = (c as u32) as int;
            let d1 = cu / 16;
            let d2 = cu % 16;
            assert(s[i + 4] == hex_char(d1) && s[i + 5] == hex_char(d2));
            assert(hex_val(hex_char(d1)) == d1 && hex_val(hex_char(d2)) == d2);
            assert(0 * 4096 + 0 * 256 + d1 * 16 + d2 == cu);
            assert(valid_scalar(cu as u32));
            assert(((cu as u32) as char) == c) by {
                vstd::utf8::char_u32_cast(c, c as u32);
            }
            assert(seq![c] + rest =~= v);
            assert(sp_str_body(s, i) == Some((v, i + esc(v).len() + 1)));
        } else {
            assert(s[i + 0] == e0[0]);
            assert(e0[0] == c);
            assert(s[i] == c);
            assert(s[i] != '"' && s[i] != '\\');
            assert(seq![c] + rest =~= v);
            assert(sp_str_body(s, i) == Some((v, i + esc(v).len() + 1)));
        }
    }
}


/// A rendered object key with its colon.
pub open spec fn render_key(k: Seq<char>) -> Seq<char> {
    seq!['"'] + k + seq!['"', ':']
}

/// Key parsing: optional whitespace, the quoted key exactly as written,
/// optional whitespace, and a colon.
pub open spec fn sp_key_colon(s: Seq<char>, i: int, key: Seq<char>) -> Option<int> {
    let j = sp_ws(s, i);
    match sp_lit(s, j, seq!['"'] + key + seq!['"']) {
        Some(j2) => {
            let j3 = sp_ws(s, j2);
            sp_lit(s, j3, seq![':'])
        },
        None => None,
    }
}

use crate::seq_util::{lemma_map_push, lemma_take_all, lemma_take_succ};
use crate::third_party_licenses::{License, LibraryV, LicenseV, ManifestV, ThirdPartyLibrary, ThirdPartyLicenses};

/// One license object.
pub open spec fn sp_license(s: Seq<char>, i: int) -> Option<(LicenseV, int)> {
    let j = sp_ws(s, i);
    match sp_lit(s, j, seq!['{']) {
        Some(j1) => match sp_key_colon(s, j1, "license"@) {
            Some(j2) => {
                let j3 = sp_ws(s, j2);
                match sp_string(s, j3) {
                    Some((lic, j4)) => {
                        let j5 = sp_ws(s, j4);
                        match sp_lit(s, j5, seq![',']) {
                            Some(j6) => match sp_key_colon(s, j6, "text"@) {
                                Some(j7) => {
                                    let j8 = sp_ws(s, j7);
                                    match sp_string(s, j8) {
                                        Some((tx, j9)) => {
                                            let j10 = sp_ws(s, j9);
                                            match sp_lit(s, j10, seq!['}']) {
                                                Some(j11) => Some(
                                                    (LicenseV { license: lic, text: tx }, j11),
                                                ),
                                                None => None,
                                            }
                                        },
                                        None => None,
                                    }
                                },
                                None => None,
                            },
                            None => None,
                        }
                    },
                    None => None,
                }
            },
            None => None,
        },
        None => None,
    }
}

pub proof fn lemma_sp_ws_id(s: Seq<char>, i: int)
    requires
        0 <= i <= s.len(),
        i < s.len() ==> !is_ws_char(s[i]),
    ensures
        sp_ws(s, i) == i,
{
}

pub proof fn lemma_sp_key_colon_some(s: Seq<char>, i: int, key: Seq<char>)
    requires
        0 <= i <= s.len(),
        sp_key_colon(s, i, key) is Some,
    ensures
        i <= sp_key_colon(s, i, key).unwrap() <= s.len(),
{
    lemma_sp_ws_bounds(s, i);
    let j = sp_ws(s, i);
    let quoted = seq!['"'] + key + seq!['"'];
    lemma_sp_lit_some(s, j, quoted);
    let j2 = (j + quoted.len()) as int;
    lemma_sp_ws_bounds(s, j2);
    let j3 = sp_ws(s, j2);
    lemma_sp_lit_some(s, j3, seq![':']);
}

pub proof fn lemma_sp_string_some(s: Seq<char>, i: int)
    requires
        0 <= i <= s.len(),
        sp_string(s, i) is Some,
    ensures
        i + 2 <= sp_string(s, i).unwrap().1 <= s.len(),
{
    lemma_sp_str_body_some(s, i + 1);
}

pub proof fn lemma_sp_license_some(s: Seq<char>, i: int)
    requires
        0 <= i <= s.len(),
        sp_license(s, i) is Some,
    ensures
        i < sp_license(s, i).unwrap().1 <= s.len(),
{
    lemma_sp_ws_bounds(s, i);
    let j = sp_ws(s, i);
    lemma_sp_lit_some(s, j, seq!['{']);
    let j1 = j + 1;
    lemma_sp_key_colon_some(s, j1, "license"@);
    let j2 = sp_key_colon(s, j1, "license"@).unwrap();
    lemma_sp_ws_bounds(s, j2);
    let j3 = sp_ws(s, j2);
    lemma_sp_string_some(s, j3);
    let j4 = sp_string(s, j3).unwrap().1;
    lemma_sp_ws_bounds(s, j4);
    let j5 = sp_ws(s, j4);
    lemma_sp_lit_some(s, j5, seq![',']);
    let j6 = j5 + 1;
    lemma_sp_key_colon_some(s, j6, "text"@);
    let j7 = sp_key_colon(s, j6, "text"@).unwrap();
    lemma_sp_ws_bounds(s, j7);
    let j8 = sp_ws(s, j7);
    lemma_sp_string_some(s, j8);
    let j9 = sp_string(s, j8).unwrap().1;
    lemma_sp_ws_bounds(s, j9);
    let j10 = sp_ws(s, j9);
    lemma_sp_lit_some(s, j10, seq!['}']);
}

/// The items of a non-empty license array, commas between them, up to and
/// including the closing bracket.
pub open spec fn sp_lic_items(s: Seq<char>, i: int) -> Option<(Seq<LicenseV>, int)>
    decreases s.len() - i when 0 <= i <= s.len() via sp_lic_items_decreases
{
    match sp_license(s, i) {
        Some((v, j)) => {
            let k = sp_ws(s, j);
            match sp_lit(s, k, seq![',']) {
                Some(k2) => match sp_lic_items(s, k2) {
                    Some((rest, e)) => Some((seq![v] + rest, e)),
                    None => None,
                },
                None => match sp_lit(s, k, seq![']']) {
                    Some(k2) => Some((seq![v], k2)),
                    None => None,
                },
            }
        },
        None => None,
    }
}

#[via_fn]
proof fn sp_lic_items_decreases(s: Seq<char>, i: int) {
    if 0 <= i <= s.len() {
        match sp_license(s, i) {
            Some((v, j)) => {
                lemma_sp_license_some(s, i);
                lemma_sp_ws_bounds(s, j);
                let k = sp_ws(s, j);
                match sp_lit(s, k, seq![',']) {
                    Some(k2) => {
                        lemma_sp_lit_some(s, k, seq![',']);
                    },
                    None => {},
                }
            },
            None => {},
        }
    }
}

/// A license array, empty or not.
pub open spec fn sp_lic_array(s: Seq<char>, i: int) -> Option<(Seq<LicenseV>, int)> {
    let j = sp_ws(s, i);
    match sp_lit(s, j, seq!['[']) {
        Some(j1) => {
            let j2 = sp_ws(s, j1);
            match sp_lit(s, j2, seq![']']) {
                Some(j3) => Some((Seq::empty(), j3)),
                None => sp_lic_items(s, j2),
            }
        },
        None => None,
    }
}

pub proof fn lemma_sp_lic_items_some(s: Seq<char>, i: int)
    requires
        0 <= i <= s.len(),
        sp_lic_items(s, i) is Some,
    ensures
        i < sp_lic_items(s, i).unwrap().1 <= s.len(),
    decreases s.len() - i,
{
    let (v, j) = sp_license(s, i).unwrap();
    lemma_sp_license_some(s, i);
    lemma_sp_ws_bounds(s, j);
    let k = sp_ws(s, j);
    match sp_lit(s, k, seq![',']) {
        Some(k2) => {
            lemma_sp_lit_some(s, k, seq![',']);
            lemma_sp_lic_items_some(s, k2);
        },
        None => {
            lemma_sp_lit_some(s, k, seq![']']);
        },
    }
}

pub proof fn lemma_sp_lic_array_some(s: Seq<char>, i: int)
    requires
        0 <= i <= s.len(),
        sp_lic_array(s, i) is Some,
    ensures
        i <= sp_lic_array(s, i).unwrap().1 <= s.len(),
{
    lemma_sp_ws_bounds(s, i);
    let j = sp_ws(s, i);
    lemma_sp_lit_some(s, j, seq!['[']);
    let j1 = j + 1;
    lemma_sp_ws_bounds(s, j1);
    let j2 = sp_ws(s, j1);
    match sp_lit(s, j2, seq![']']) {
        Some(_) => {
            lemma_sp_lit_some(s, j2, seq![']']);
        },
        None => {
            lemma_sp_lic_items_some(s, j2);
        },
    }
}

/// One library object.
pub open spec fn sp_library(s: Seq<char>, i: int) -> Option<(LibraryV, int)> {
    let j = sp_ws(s, i);
    match sp_lit(s, j, seq!['{']) {
        Some(j1) => match sp_key_colon(s, j1, "package_name"@) {
            Some(j2) => match sp_string(s, sp_ws(s, j2)) {
                Some((name, j4)) => match sp_lit(s, sp_ws(s, j4), seq![',']) {
                    Some(j6) => match sp_key_colon(s, j6, "package_version"@) {
                        Some(j7) => match sp_string(s, sp_ws(s, j7)) {
                            Some((ver, j9)) => match sp_lit(s, sp_ws(s, j9), seq![',']) {
                                Some(j11) => match sp_key_colon(s, j11, "license"@) {
                                    Some(j12) => match sp_string(s, sp_ws(s, j12)) {
                                        Some((lic, j14)) => match sp_lit(
                                            s,
                                            sp_ws(s, j14),
                                            seq![','],
                                        ) {
                                            Some(j16) => match sp_key_colon(
                                                s,
                                                j16,
                                                "licenses"@,
                                            ) {
                                                Some(j17) => match sp_lic_array(s, j17) {
                                                    Some((lics, j18)) => match sp_lit(
                                                        s,
                                                        sp_ws(s, j18),
                                                        seq!['}'],
                                                    ) {
                                                        Some(j20) => Some(
                                                            (
                                                                LibraryV {
                                                                    package_name: name,
                                                                    package_version: ver,
                                                                    license: lic,
                                                                    licenses: lics,
                                                                },
                                                                j20,
                                                            ),
                                                        ),
                                                        None => None,
                                                    },
                                                    None => None,
                                                },
                                                None => None,
                                            },
                                            None => None,
                                        },
                                        None => None,
                                    },
                                    None => None,
                                },
                                None => None,
                            },
                            None => None,
                        },
                        None => None,
                    },
                    None => None,
                },
                None => None,
            },
            None => None,
        },
        None => None,
    }
}

pub proof fn lemma_sp_library_some(s: Seq<char>, i: int)
    requires
        0 <= i <= s.len(),
        sp_library(s, i) is Some,
    ensures
        i < sp_library(s, i).unwrap().1 <= s.len(),
{
    lemma_sp_ws_bounds(s, i);
    let j = sp_ws(s, i);
    lemma_sp_lit_some(s, j, seq!['{']);
    let j1 = j + 1;
    lemma_sp_key_colon_some(s, j1, "package_name"@);
    let j2 = sp_key_colon(s, j1, "package_name"@).unwrap();
    lemma_sp_ws_bounds(s, j2);
    lemma_sp_string_some(s, sp_ws(s, j2));
    let j4 = sp_string(s, sp_ws(s, j2)).unwrap().1;
    lemma_sp_ws_bounds(s, j4);
    lemma_sp_lit_some(s, sp_ws(s, j4), seq![',']);
    let j6 = sp_ws(s, j4) + 1;
    lemma_sp_key_colon_some(s, j6, "package_version"@);
    let j7 = sp_key_colon(s, j6, "package_version"@).unwrap();
    lemma_sp_ws_bounds(s, j7);
    lemma_sp_string_some(s, sp_ws(s, j7));
    let j9 = sp_string(s, sp_ws(s, j7)).unwrap().1;
    lemma_sp_ws_bounds(s, j9);
    lemma_sp_lit_some(s, sp_ws(s, j9), seq![',']);
    let j11 = sp_ws(s, j9) + 1;
    lemma_sp_key_colon_some(s, j11, "license"@);
    let j12 = sp_key_colon(s, j11, "license"@).unwrap();
    lemma_sp_ws_bounds(s, j12);
    lemma_sp_string_some(s, sp_ws(s, j12));
    let j14 = sp_string(s, sp_ws(s, j12)).unwrap().1;
    lemma_sp_ws_bounds(s, j14);
    lemma_sp_lit_some(s, sp_ws(s, j14), seq![',']);
    let j16 = sp_ws(s, j14) + 1;
    lemma_sp_key_colon_some(s, j16, "licenses"@);
    let j17 = sp_key_colon(s, j16, "licenses"@).unwrap();
    lemma_sp_lic_array_some(s, j17);
    let j18 = sp_lic_array(s, j17).unwrap().1;
    lemma_sp_ws_bounds(s, j18);
    lemma_sp_lit_some(s, sp_ws(s, j18), seq!['}']);
}

/// The items of a non-empty library array, up to and including the
/// closing bracket.
pub open spec fn sp_lib_items(s: Seq<char>, i: int) -> Option<(Seq<LibraryV>, int)>
    decreases s.len() - i when 0 <= i <= s.len() via sp_lib_items_decreases
{
    match sp_library(s, i) {
        Some((v, j)) => {
            let k = sp_ws(s, j);
            match sp_lit(s, k, seq![',']) {
                Some(k2) => match sp_lib_items(s, k2) {
                    Some((rest, e)) => Some((seq![v] + rest, e)),
                    None => None,
                },
                None => match sp_lit(s, k, seq![']']) {
                    Some(k2) => Some((seq![v], k2)),
                    None => None,
                },
            }
        },
        None => None,
    }
}

#[via_fn]
proof fn sp_lib_items_decreases(s: Seq<char>, i: int) {
    if 0 <= i <= s.len() {
        match sp_library(s, i) {
            Some((v, j)) => {
                lemma_sp_library_some(s, i);
                lemma_sp_ws_bounds(s, j);
                let k = sp_ws(s, j);
                match sp_lit(s, k, seq![',']) {
                    Some(k2) => {
                        lemma_sp_lit_some(s, k, seq![',']);
                    },
                    None => {},
                }
            },
            None => {},
        }
    }
}

/// A library array, empty or not.
pub open spec fn sp_lib_array(s: Seq<char>, i: int) -> Option<(Seq<LibraryV>, int)> {
    let j = sp_ws(s, i);
    match sp_lit(s, j, seq!['[']) {
        Some(j1) => {
            let j2 = sp_ws(s, j1);
            match sp_lit(s, j2, seq![']']) {
                Some(j3) => Some((Seq::empty(), j3)),
                None => sp_lib_items(s, j2),
            }
        },
        None => None,
    }
}

pub proof fn lemma_sp_lib_items_some(s: Seq<char>, i: int)
    requires
        0 <= i <= s.len(),
        sp_lib_items(s, i) is Some,
    ensures
        i < sp_lib_items(s, i).unwrap().1 <= s.len(),
    decreases s.len() - i,
{
    let (v, j) = sp_library(s, i).unwrap();
    lemma_sp_library_some(s, i);
    lemma_sp_ws_bounds(s, j);
    let k = sp_ws(s, j);
    match sp_lit(s, k, seq![',']) {
        Some(k2) => {
            lemma_sp_lit_some(s, k, seq![',']);
            lemma_sp_lib_items_some(s, k2);
        },
        None => {
            lemma_sp_lit_some(s, k, seq![']']);
        },
    }
}

pub proof fn lemma_sp_lib_array_some(s: Seq<char>, i: int)
    requires
        0 <= i <= s.len(),
        sp_lib_array(s, i) is Some,
    ensures
        i <= sp_lib_array(s, i).unwrap().1 <= s.len(),
{
    lemma_sp_ws_bounds(s, i);
    let j = sp_ws(s, i);
    lemma_sp_lit_some(s, j, seq!['[']);
    let j1 = j + 1;
    lemma_sp_ws_bounds(s, j1);
    let j2 = sp_ws(s, j1);
    match sp_lit(s, j2, seq![']']) {
        Some(_) => {
            lemma_sp_lit_some(s, j2, seq![']']);
        },
        None => {
            lemma_sp_lib_items_some(s, j2);
        },
    }
}

/// The whole manifest object.
pub open spec fn sp_manifest(s: Seq<char>, i: int) -> Option<(ManifestV, int)> {
    let j = sp_ws(s, i);
    match sp_lit(s, j, seq!['{']) {
        Some(j1) => match sp_key_colon(s, j1, "root_name"@) {
            Some(j2) => match sp_string(s, sp_ws(s, j2)) {
                Some((root, j4)) => match sp_lit(s, sp_ws(s, j4), seq![',']) {
                    Some(j6) => match sp_key_colon(s, j6, "third_party_libraries"@) {
                        Some(j7) => match sp_lib_array(s, j7) {
                            Some((libs, j8)) => match sp_lit(s, sp_ws(s, j8), seq!['}']) {
                                Some(j10) => Some(
                                    (ManifestV { root_name: root, libraries: libs }, j10),
                                ),
                                None => None,
                            },
                            None => None,
                        },
                        None => None,
                    },
                    None => None,
                },
                None => None,
            },
            None => None,
        },
        None => None,
    }
}


/// One rendered license object.
pub open spec fn render_license_obj(l: LicenseV) -> Seq<char> {
    seq!['{'] + render_key("license"@) + render_string(l.license) + seq![','] + render_key(
        "text"@,
    ) + render_string(l.text) + seq!['}']
}

/// Items joined by commas.
pub open spec fn join_items(items: Seq<Seq<char>>) -> Seq<char>
    decreases items.len(),
{
    if items.len() == 0 {
        Seq::empty()
    } else if items.len() == 1 {
        items[0]
    } else {
        items[0] + seq![','] + join_items(items.drop_first())
    }
}

/// A rendered license array.
pub open spec fn render_lic_array(ls: Seq<LicenseV>) -> Seq<char> {
    seq!['['] + join_items(ls.map_values(|l: LicenseV| render_license_obj(l))) + seq![']']
}

/// One rendered library object.
pub open spec fn render_library_obj(l: LibraryV) -> Seq<char> {
    seq!['{'] + render_key("package_name"@) + render_string(l.package_name) + seq![',']
        + render_key("package_version"@) + render_string(l.package_version) + seq![',']
        + render_key("license"@) + render_string(l.license) + seq![','] + render_key("licenses"@)
        + render_lic_array(l.licenses) + seq!['}']
}

/// A rendered library array.
pub open spec fn render_lib_array(ls: Seq<LibraryV>) -> Seq<char> {
    seq!['['] + join_items(ls.map_values(|l: LibraryV| render_library_obj(l))) + seq![']']
}

/// The rendered manifest document.
pub open spec fn render_manifest(m: ManifestV) -> Seq<char> {
    seq!['{'] + render_key("root_name"@) + render_string(m.root_name) + seq![','] + render_key(
        "third_party_libraries"@,
    ) + render_lib_array(m.libraries) + seq!['}']
}

pub proof fn lemma_parse_string_render(s: Seq<char>, i: int, v: Seq<char>)
    requires
        starts_at(s, i, render_string(v)),
    ensures
        sp_string(s, i) == Some((v, i + render_string(v).len())),
{
    assert(render_string(v) =~= seq!['"'] + (esc(v) + seq!['"']));
    lemma_starts_at_concat(s, i, seq!['"'], esc(v) + seq!['"']);
    lemma_starts_at_index(s, i, seq!['"'], 0);
    lemma_parse_esc(s, i + 1, v);
}

pub proof fn lemma_parse_key_render(s: Seq<char>, i: int, key: Seq<char>)
    requires
        starts_at(s, i, render_key(key)),
        i + render_key(key).len() < s.len(),
        !is_ws_char(s[i + render_key(key).len()]),
    ensures
        sp_key_colon(s, i, key) == Some(i + render_key(key).len()),
{
    let quoted = seq!['"'] + key + seq!['"'];
    assert(render_key(key) =~= quoted + seq![':']);
    lemma_starts_at_concat(s, i, quoted, seq![':']);
    lemma_starts_at_index(s, i, quoted, 0);
    lemma_sp_ws_id(s, i);
    lemma_sp_lit_starts(s, i, quoted);
    lemma_starts_at_index(s, i + quoted.len(), seq![':'], 0);
    lemma_sp_ws_id(s, i + quoted.len());
    lemma_sp_lit_starts(s, i + quoted.len(), seq![':']);
}

pub proof fn lemma_parse_license_render(s: Seq<char>, i: int, l: LicenseV)
    requires
        starts_at(s, i, render_license_obj(l)),
        i + render_license_obj(l).len() < s.len(),
        !is_ws_char(s[i + render_license_obj(l).len()]),
    ensures
        sp_license(s, i) == Some((l, i + render_license_obj(l).len())),
{
    let p1 = seq!['{'];
    let p2 = render_key("license"@);
    let p3 = render_string(l.license);
    let p4 = seq![','];
    let p5 = render_key("text"@);
    let p6 = render_string(l.text);
    let p7 = seq!['}'];
    let r = render_license_obj(l);
    assert(r =~= p1 + (p2 + (p3 + (p4 + (p5 + (p6 + p7))))));
    lemma_starts_at_concat(s, i, p1, p2 + (p3 + (p4 + (p5 + (p6 + p7)))));
    let i1 = i + 1;
    lemma_starts_at_concat(s, i1, p2, p3 + (p4 + (p5 + (p6 + p7))));
    let i2 = i1 + p2.len();
    lemma_starts_at_concat(s, i2, p3, p4 + (p5 + (p6 + p7)));
    let i3 = i2 + p3.len();
    lemma_starts_at_concat(s, i3, p4, p5 + (p6 + p7));
    let i4 = i3 + 1;
    lemma_starts_at_concat(s, i4, p5, p6 + p7);
    let i5 = i4 + p5.len();
    lemma_starts_at_concat(s, i5, p6, p7);
    let i6 = i5 + p6.len();
    lemma_starts_at_index(s, i, p1, 0);
    lemma_sp_ws_id(s, i);
    lemma_sp_lit_starts(s, i, p1);
    lemma_starts_at_index(s, i2, p3, 0);
    lemma_parse_key_render(s, i1, "license"@);
    lemma_sp_ws_id(s, i2);
    lemma_parse_string_render(s, i2, l.license);
    lemma_starts_at_index(s, i3, p4, 0);
    lemma_sp_ws_id(s, i3);
    lemma_sp_lit_starts(s, i3, p4);
    lemma_starts_at_index(s, i5, p6, 0);
    lemma_parse_key_render(s, i4, "text"@);
    lemma_sp_ws_id(s, i5);
    lemma_parse_string_render(s, i5, l.text);
    lemma_starts_at_index(s, i6, p7, 0);
    lemma_sp_ws_id(s, i6);
    lemma_sp_lit_starts(s, i6, p7);
}

pub proof fn lemma_parse_lic_items_render(s: Seq<char>, i: int, ls: Seq<LicenseV>)
    requires
        ls.len() >= 1,
        starts_at(s, i, join_items(ls.map_values(|l: LicenseV| render_license_obj(l))) + seq![']']),
        ({
            let e = i + join_items(ls.map_values(|l: LicenseV| render_license_obj(l))).len() + 1;
            e < s.len() && !is_ws_char(s[e])
        }),
    ensures
        sp_lic_items(s, i) == Some(
            (ls, i + join_items(ls.map_values(|l: LicenseV| render_license_obj(l))).len() + 1),
        ),
    decreases ls.len(),
{
    let rendered = ls.map_values(|l: LicenseV| render_license_obj(l));
    let jt = join_items(rendered);
    if ls.len() == 1 {
        assert(jt == render_license_obj(ls[0]));
        assert(jt + seq![']'] =~= render_license_obj(ls[0]) + seq![']']);
        lemma_starts_at_concat(s, i, render_license_obj(ls[0]), seq![']']);
        let j = i + render_license_obj(ls[0]).len();
        lemma_starts_at_index(s, j, seq![']'], 0);
        lemma_parse_license_render(s, i, ls[0]);
        lemma_sp_ws_id(s, j);
        lemma_sp_lit_starts(s, j, seq![']']);
        assert(seq![ls[0]] =~= ls);
    } else {
        let r0 = rendered[0];
        let restr = join_items(rendered.drop_first());
        assert(jt == r0 + seq![','] + restr);
        assert(jt + seq![']'] =~= r0 + (seq![','] + (restr + seq![']'])));
        lemma_starts_at_concat(s, i, r0, seq![','] + (restr + seq![']']));
        let j = i + r0.len();
        lemma_starts_at_concat(s, j, seq![','], restr + seq![']']);
        let k = j + 1;
        lemma_starts_at_index(s, j, seq![','], 0);
        lemma_parse_license_render(s, i, ls[0]);
        lemma_sp_ws_id(s, j);
        lemma_sp_lit_starts(s, j, seq![',']);
        assert(rendered.drop_first() =~= ls.drop_first().map_values(
            |l: LicenseV| render_license_obj(l),
        ));
        lemma_parse_lic_items_render(s, k, ls.drop_first());
        assert(seq![ls[0]] + ls.drop_first() =~= ls);
    }
}

pub proof fn lemma_parse_lic_array_render(s: Seq<char>, i: int, ls: Seq<LicenseV>)
    requires
        starts_at(s, i, render_lic_array(ls)),
        i + render_lic_array(ls).len() < s.len(),
        !is_ws_char(s[i + render_lic_array(ls).len()]),
    ensures
        sp_lic_array(s, i) == Some((ls, i + render_lic_array(ls).len())),
{
    let rendered = ls.map_values(|l: LicenseV| render_license_obj(l));
    let jt = join_items(rendered);
    assert(render_lic_array(ls) =~= seq!['['] + (jt + seq![']']));
    lemma_starts_at_concat(s, i, seq!['['], jt + seq![']']);
    let j1 = i + 1;
    lemma_starts_at_index(s, i, seq!['['], 0);
    lemma_sp_ws_id(s, i);
    lemma_sp_lit_starts(s, i, seq!['[']);
    if ls.len() == 0 {
        assert(jt =~= Seq::<char>::empty());
        assert(jt + seq![']'] =~= seq![']']);
        lemma_starts_at_index(s, j1, seq![']'], 0);
        lemma_sp_ws_id(s, j1);
        lemma_sp_lit_starts(s, j1, seq![']']);
        assert(sp_lic_array(s, i) == Some((Seq::<LicenseV>::empty(), j1 + 1)));
        assert(ls =~= Seq::<LicenseV>::empty());
    } else {
        assert(jt == render_license_obj(ls[0]) + seq![','] + join_items(rendered.drop_first())
            || jt == render_license_obj(ls[0])) by {
            assert(rendered[0] == render_license_obj(ls[0]));
        }
        assert(starts_at(s, j1, render_license_obj(ls[0]))) by {
            if ls.len() == 1 {
                lemma_starts_at_concat(s, j1, render_license_obj(ls[0]), seq![']']);
            } else {
                assert(jt + seq![']'] =~= render_license_obj(ls[0]) + (seq![','] + (join_items(
                    rendered.drop_first(),
                ) + seq![']'])));
                lemma_starts_at_concat(
                    s,
                    j1,
                    render_license_obj(ls[0]),
                    seq![','] + (join_items(rendered.drop_first()) + seq![']']),
                );
            }
        }
        lemma_starts_at_index(s, j1, render_license_obj(ls[0]), 0);
        lemma_sp_ws_id(s, j1);
        assert(s[j1] == '{');
        assert(sp_lit(s, j1, seq![']']) is None);
        lemma_parse_lic_items_render(s, j1, ls);
    }
}


#[verifier::rlimit(100)]
pub proof fn lemma_parse_library_render(s: Seq<char>, i: int, l: LibraryV)
    requires
        starts_at(s, i, render_library_obj(l)),
        i + render_library_obj(l).len() < s.len(),
        !is_ws_char(s[i + render_library_obj(l).len()]),
    ensures
        sp_library(s, i) == Some((l, i + render_library_obj(l).len())),
{
    let p1 = seq!['{'];
    let p2 = render_key("package_name"@);
    let p3 = render_string(l.package_name);
    let p4 = seq![','];
    let p5 = render_key("package_version"@);
    let p6 = render_string(l.package_version);
    let p7 = seq![','];
    let p8 = render_key("license"@);
    let p9 = render_string(l.license);
    let p10 = seq![','];
    let p11 = render_key("licenses"@);
    let p12 = render_lic_array(l.licenses);
    let p13 = seq!['}'];
    let r = render_library_obj(l);
    assert(r =~= p1 + (p2 + (p3 + (p4 + (p5 + (p6 + (p7 + (p8 + (p9 + (p10 + (p11 + (p12
        + p13))))))))))));
    lemma_starts_at_concat(s, i, p1, p2 + (p3 + (p4 + (p5 + (p6 + (p7 + (p8 + (p9 + (p10 + (p11
        + (p12 + p13)))))))))));
    let i1 = i + 1;
    lemma_starts_at_concat(s, i1, p2, p3 + (p4 + (p5 + (p6 + (p7 + (p8 + (p9 + (p10 + (p11 + (p12
        + p13))))))))));
    let i2 = i1 + p2.len();
    lemma_starts_at_concat(s, i2, p3, p4 + (p5 + (p6 + (p7 + (p8 + (p9 + (p10 + (p11 + (p12
        + p13)))))))));
    let i3 = i2 + p3.len();
    lemma_starts_at_concat(s, i3, p4, p5 + (p6 + (p7 + (p8 + (p9 + (p10 + (p11 + (p12 + p13))))))));
    let i4 = i3 + 1;
    lemma_starts_at_concat(s, i4, p5, p6 + (p7 + (p8 + (p9 + (p10 + (p11 + (p12 + p13)))))));
    let i5 = i4 + p5.len();
    lemma_starts_at_concat(s, i5, p6, p7 + (p8 + (p9 + (p10 + (p11 + (p12 + p13))))));
    let i6 = i5 + p6.len();
    lemma_starts_at_concat(s, i6, p7, p8 + (p9 + (p10 + (p11 + (p12 + p13)))));
    let i7 = i6 + 1;
    lemma_starts_at_concat(s, i7, p8, p9 + (p10 + (p11 + (p12 + p13))));
    let i8 = i7 + p8.len();
    lemma_starts_at_concat(s, i8, p9, p10 + (p11 + (p12 + p13)));
    let i9 = i8 + p9.len();
    lemma_starts_at_concat(s, i9, p10, p11 + (p12 + p13));
    let i10 = i9 + 1;
    lemma_starts_at_concat(s, i10, p11, p12 + p13);
    let i11 = i10 + p11.len();
    lemma_starts_at_concat(s, i11, p12, p13);
    let i12 = i11 + p12.len();
    lemma_starts_at_index(s, i, p1, 0);
    lemma_sp_ws_id(s, i);
    lemma_sp_lit_starts(s, i, p1);
    lemma_starts_at_index(s, i2, p3, 0);
    lemma_parse_key_render(s, i1, "package_name"@);
    lemma_sp_ws_id(s, i2);
    lemma_parse_string_render(s, i2, l.package_name);
    lemma_starts_at_index(s, i3, p4, 0);
    lemma_sp_ws_id(s, i3);
    lemma_sp_lit_starts(s, i3, p4);
    lemma_starts_at_index(s, i5, p6, 0);
    lemma_parse_key_render(s, i4, "package_version"@);
    lemma_sp_ws_id(s, i5);
    lemma_parse_string_render(s, i5, l.package_version);
    lemma_starts_at_index(s, i6, p7, 0);
    lemma_sp_ws_id(s, i6);
    lemma_sp_lit_starts(s, i6, p7);
    lemma_starts_at_index(s, i8, p9, 0);
    lemma_parse_key_render(s, i7, "license"@);
    lemma_sp_ws_id(s, i8);
    lemma_parse_string_render(s, i8, l.license);
    lemma_starts_at_index(s, i9, p10, 0);
    lemma_sp_ws_id(s, i9);
    lemma_sp_lit_starts(s, i9, p10);
    lemma_starts_at_index(s, i12, p13, 0);
    lemma_starts_at_index(s, i11, p12, 0);
    assert(p12[0] == '[');
    lemma_parse_key_render(s, i10, "licenses"@);
    lemma_parse_lic_array_render(s, i11, l.licenses);
    lemma_sp_ws_id(s, i12);
    lemma_sp_lit_starts(s, i12, p13);
}

pub proof fn lemma_parse_lib_items_render(s: Seq<char>, i: int, ls: Seq<LibraryV>)
    requires
        ls.len() >= 1,
        starts_at(
            s,
            i,
            join_items(ls.map_values(|l: LibraryV| render_library_obj(l))) + seq![']'],
        ),
        ({
            let e = i + join_items(ls.map_values(|l: LibraryV| render_library_obj(l))).len() + 1;
            e < s.len() && !is_ws_char(s[e])
        }),
    ensures
        sp_lib_items(s, i) == Some(
            (ls, i + join_items(ls.map_values(|l: LibraryV| render_library_obj(l))).len() + 1),
        ),
    decreases ls.len(),
{
    let rendered = ls.map_values(|l: LibraryV| render_library_obj(l));
    let jt = join_items(rendered);
    if ls.len() == 1 {
        assert(jt == render_library_obj(ls[0]));
        assert(jt + seq![']'] =~= render_library_obj(ls[0]) + seq![']']);
        lemma_starts_at_concat(s, i, render_library_obj(ls[0]), seq![']']);
        let j = i + render_library_obj(ls[0]).len();
        lemma_starts_at_index(s, j, seq![']'], 0);
        lemma_parse_library_render(s, i, ls[0]);
        lemma_sp_ws_id(s, j);
        lemma_sp_lit_starts(s, j, seq![']']);
        assert(seq![ls[0]] =~= ls);
    } else {
        let r0 = rendered[0];
        let restr = join_items(rendered.drop_first());
        assert(jt == r0 + seq![','] + restr);
        assert(jt + seq![']'] =~= r0 + (seq![','] + (restr + seq![']'])));
        lemma_starts_at_concat(s, i, r0, seq![','] + (restr + seq![']']));
        let j = i + r0.len();
        lemma_starts_at_concat(s, j, seq![','], restr + seq![']']);
        let k = j + 1;
        lemma_starts_at_index(s, j, seq![','], 0);
        lemma_parse_library_render(s, i, ls[0]);
        lemma_sp_ws_id(s, j);
        lemma_sp_lit_starts(s, j, seq![',']);
        assert(rendered.drop_first() =~= ls.drop_first().map_values(
            |l: LibraryV| render_library_obj(l),
        ));
        lemma_parse_lib_items_render(s, k, ls.drop_first());
        assert(seq![ls[0]] + ls.drop_first() =~= ls);
    }
}

pub proof fn lemma_parse_lib_array_render(s: Seq<char>, i: int, ls: Seq<LibraryV>)
    requires
        starts_at(s, i, render_lib_array(ls)),
        i + render_lib_array(ls).len() < s.len(),
        !is_ws_char(s[i + render_lib_array(ls).len()]),
    ensures
        sp_lib_array(s, i) == Some((ls, i + render_lib_array(ls).len())),
{
    let rendered = ls.map_values(|l: LibraryV| render_library_obj(l));
    let jt = join_items(rendered);
    assert(render_lib_array(ls) =~= seq!['['] + (jt + seq![']']));
    lemma_starts_at_concat(s, i, seq!['['], jt + seq![']']);
    let j1 = i + 1;
    lemma_starts_at_index(s, i, seq!['['], 0);
    lemma_sp_ws_id(s, i);
    lemma_sp_lit_starts(s, i, seq!['[']);
    if ls.len() == 0 {
        assert(jt =~= Seq::<char>::empty());
        assert(jt + seq![']'] =~= seq![']']);
        lemma_starts_at_index(s, j1, seq![']'], 0);
        lemma_sp_ws_id(s, j1);
        lemma_sp_lit_starts(s, j1, seq![']']);
        assert(ls =~= Seq::<LibraryV>::empty());
    } else {
        assert(starts_at(s, j1, render_library_obj(ls[0]))) by {
            assert(rendered[0] == render_library_obj(ls[0]));
            if ls.len() == 1 {
                assert(jt == render_library_obj(ls[0]));
                lemma_starts_at_concat(s, j1, render_library_obj(ls[0]), seq![']']);
            } else {
                assert(jt + seq![']'] =~= render_library_obj(ls[0]) + (seq![','] + (join_items(
                    rendered.drop_first(),
                ) + seq![']'])));
                lemma_starts_at_concat(
                    s,
                    j1,
                    render_library_obj(ls[0]),
                    seq![','] + (join_items(rendered.drop_first()) + seq![']']),
                );
            }
        }
        lemma_starts_at_index(s, j1, render_library_obj(ls[0]), 0);
        lemma_sp_ws_id(s, j1);
        assert(s[j1] == '{');
        assert(sp_lit(s, j1, seq![']']) is None);
        lemma_parse_lib_items_render(s, j1, ls);
    }
}

/// Parsing the rendered manifest from any position where it stands, with
/// one more non-whitespace character after it, gives the manifest back.
pub proof fn lemma_parse_manifest_render_at(s: Seq<char>, i: int, m: ManifestV)
    requires
        starts_at(s, i, render_manifest(m)),
    ensures
        sp_manifest(s, i) == Some((m, i + render_manifest(m).len())),
{
    let p1 = seq!['{'];
    let p2 = render_key("root_name"@);
    let p3 = render_string(m.root_name);
    let p4 = seq![','];
    let p5 = render_key("third_party_libraries"@);
    let p6 = render_lib_array(m.libraries);
    let p7 = seq!['}'];
    let r = render_manifest(m);
    assert(r =~= p1 + (p2 + (p3 + (p4 + (p5 + (p6 + p7))))));
    lemma_starts_at_concat(s, i, p1, p2 + (p3 + (p4 + (p5 + (p6 + p7)))));
    let i1 = i + 1;
    lemma_starts_at_concat(s, i1, p2, p3 + (p4 + (p5 + (p6 + p7))));
    let i2 = i1 + p2.len();
    lemma_starts_at_concat(s, i2, p3, p4 + (p5 + (p6 + p7)));
    let i3 = i2 + p3.len();
    lemma_starts_at_concat(s, i3, p4, p5 + (p6 + p7));
    let i4 = i3 + 1;
    lemma_starts_at_concat(s, i4, p5, p6 + p7);
    let i5 = i4 + p5.len();
    lemma_starts_at_concat(s, i5, p6, p7);
    let i6 = i5 + p6.len();
    lemma_starts_at_index(s, i, p1, 0);
    lemma_sp_ws_id(s, i);
    lemma_sp_lit_starts(s, i, p1);
    lemma_starts_at_index(s, i2, p3, 0);
    lemma_parse_key_render(s, i1, "root_name"@);
    lemma_sp_ws_id(s, i2);
    lemma_parse_string_render(s, i2, m.root_name);
    lemma_starts_at_index(s, i3, p4, 0);
    lemma_sp_ws_id(s, i3);
    lemma_sp_lit_starts(s, i3, p4);
    lemma_starts_at_index(s, i6, p7, 0);
    lemma_starts_at_index(s, i5, p6, 0);
    assert(p6[0] == '[');
    lemma_parse_key_render(s, i4, "third_party_libraries"@);
    lemma_parse_lib_array_render(s, i5, m.libraries);
    lemma_sp_ws_id(s, i6);
    lemma_sp_lit_starts(s, i6, p7);
}

/// The save-then-load round trip: the rendered document parses back to
/// the very manifest it was rendered from, consuming the whole document.
pub proof fn lemma_render_parse_round_trip(m: ManifestV)
    ensures
        sp_manifest(render_manifest(m), 0) == Some((m, render_manifest(m).len() as int)),
        sp_ws(render_manifest(m), render_manifest(m).len() as int) == render_manifest(m).len(),
{
    let s = render_manifest(m);
    assert(s.subrange(0, s.len() as int) =~= s);
    assert(starts_at(s, 0, s));
    lemma_parse_manifest_render_at(s, 0, m);
}


proof fn lemma_esc_push(p: Seq<char>, c: char)
    ensures
        esc(p.push(c)) == esc(p) + esc_char(c),
    decreases p.len(),
{
    let q = p.push(c);
    assert(q.len() > 0);
    if p.len() == 0 {
        assert(q[0] == c);
        assert(q.drop_first() =~= Seq::<char>::empty());
        assert(esc(Seq::<char>::empty()) == Seq::<char>::empty());
        assert(esc(q) == esc_char(c) + esc(Seq::<char>::empty()));
        assert(esc(q) =~= esc(p) + esc_char(c));
    } else {
        assert(q[0] == p[0]);
        assert(q.drop_first() =~= p.drop_first().push(c));
        lemma_esc_push(p.drop_first(), c);
        assert(esc_char(p[0]) + (esc(p.drop_first()) + esc_char(c)) =~= (esc_char(p[0]) + esc(
            p.drop_first(),
        )) + esc_char(c));
    }
}

proof fn lemma_join_push(p: Seq<Seq<char>>, x: Seq<char>)
    requires
        p.len() >= 1,
    ensures
        join_items(p.push(x)) == join_items(p) + seq![','] + x,
    decreases p.len(),
{
    let q = p.push(x);
    if p.len() == 1 {
        assert(q[0] == p[0]);
        assert(q.drop_first() =~= seq![x]);
        assert(join_items(seq![x]) == x);
        assert(join_items(q) =~= join_items(p) + seq![','] + x);
    } else {
        assert(q[0] == p[0]);
        assert(q.drop_first() =~= p.drop_first().push(x));
        lemma_join_push(p.drop_first(), x);
        assert(q[0] + seq![','] + (join_items(p.drop_first()) + seq![','] + x) =~= (p[0] + seq![
            ',',
        ] + join_items(p.drop_first())) + seq![','] + x);
    }
}

/// Append the characters of a string slice.
fn append_str(out: &mut Vec<char>, s: &str)
    ensures
        final(out)@ == old(out)@ + s@,
{
    let mut cs = chars_vec(s);
    out.append(&mut cs);
}

fn hex_char_exec(n: u32) -> (r: char)
    ensures
        r == hex_char(n as int),
{
    if n == 0 {
        '0'
    } else if n == 1 {
        '1'
    } else if n == 2 {
        '2'
    } else if n == 3 {
        '3'
    } else if n == 4 {
        '4'
    } else if n == 5 {
        '5'
    } else if n == 6 {
        '6'
    } else if n == 7 {
        '7'
    } else if n == 8 {
        '8'
    } else if n == 9 {
        '9'
    } else if n == 10 {
        'a'
    } else if n == 11 {
        'b'
    } else if n == 12 {
        'c'
    } else if n == 13 {
        'd'
    } else if n == 14 {
        'e'
    } else {
        'f'
    }
}

fn push_escaped(out: &mut Vec<char>, c: char)
    ensures
        final(out)@ == old(out)@ + esc_char(c),
{
    let ghost o0 = out@;
    if c == '"' {
        out.push('\\');
        out.push('"');
    } else if c == '\\' {
        out.push('\\');
        out.push('\\');
    } else if c == '\n' {
        out.push('\\');
        out.push('n');
    } else if c == '\r' {
        out.push('\\');
        out.push('r');
    } else if c == '\t' {
        out.push('\\');
        out.push('t');
    } else if c == '\u{8}' {
        out.push('\\');
        out.push('b');
    } else if c == '\u{c}' {
        out.push('\\');
        out.push('f');
    } else if (c as u32) < 32 {
        out.push('\\');
        out.push('u');
        out.push('0');
        out.push('0');
        out.push(hex_char_exec((c as u32) / 16));
        out.push(hex_char_exec((c as u32) % 16));
    } else {
        out.push(c);
    }
    proof {
        assert(out@ =~= o0 + esc_char(c));
    }
}

/// Append a rendered (quoted, escaped) string value.
fn append_rendered_string(out: &mut Vec<char>, v: &str)
    ensures
        final(out)@ == old(out)@ + render_string(v@),
{
    let ghost o0 = out@;
    out.push('"');
    let cs = chars_vec(v);
    let mut k: usize = 0;
    while k < cs.len()
        invariant
            cs@ == v@,
            0 <= k <= v@.len(),
            out@ == o0 + seq!['"'] + esc(v@.take(k as int)),
        decreases v@.len() - k,
    {
        let ghost before = out@;
        push_escaped(out, cs[k]);
        proof {
            lemma_take_succ(v@, k as int);
            lemma_esc_push(v@.take(k as int), v@[k as int]);
            assert(out@ =~= o0 + seq!['"'] + esc(v@.take(k + 1 as int)));
        }
        k = k + 1;
    }
    proof {
        lemma_take_all(v@);
    }
    out.push('"');
    proof {
        assert(out@ =~= o0 + render_string(v@));
    }
}

/// Append a rendered key with its colon.
fn append_key(out: &mut Vec<char>, k: &str)
    ensures
        final(out)@ == old(out)@ + render_key(k@),
{
    let ghost o0 = out@;
    out.push('"');
    append_str(out, k);
    out.push('"');
    out.push(':');
    proof {
        assert(out@ =~= o0 + render_key(k@));
    }
}

fn append_license_obj(out: &mut Vec<char>, l: &License)
    ensures
        final(out)@ == old(out)@ + render_license_obj(l@),
{
    let ghost o0 = out@;
    out.push('{');
    append_key(out, "license");
    append_rendered_string(out, l.license.as_str());
    out.push(',');
    append_key(out, "text");
    append_rendered_string(out, l.text.as_str());
    out.push('}');
    proof {
        assert(out@ =~= o0 + render_license_obj(l@));
    }
}

fn append_lic_array(out: &mut Vec<char>, ls: &Vec<License>)
    ensures
        final(out)@ == old(out)@ + render_lic_array(ls@.map_values(|l: License| l@)),
{
    let ghost o0 = out@;
    let ghost lv = ls@.map_values(|l: License| l@);
    out.push('[');
    let mut k: usize = 0;
    while k < ls.len()
        invariant
            lv == ls@.map_values(|l: License| l@),
            0 <= k <= ls@.len(),
            out@ == o0 + seq!['['] + join_items(
                lv.take(k as int).map_values(|l: LicenseV| render_license_obj(l)),
            ),
        decreases ls@.len() - k,
    {
        if k > 0 {
            out.push(',');
        }
        append_license_obj(out, &ls[k]);
        proof {
            lemma_take_succ(lv, k as int);
            lemma_map_push(
                lv.take(k as int),
                |l: LicenseV| render_license_obj(l),
                lv[k as int],
            );
            if k > 0 {
                lemma_join_push(
                    lv.take(k as int).map_values(|l: LicenseV| render_license_obj(l)),
                    render_license_obj(lv[k as int]),
                );
                assert(out@ =~= o0 + seq!['['] + join_items(
                    lv.take(k + 1 as int).map_values(|l: LicenseV| render_license_obj(l)),
                ));
            } else {
                assert(lv.take(1).map_values(|l: LicenseV| render_license_obj(l)) =~= seq![
                    render_license_obj(lv[0]),
                ]);
                assert(join_items(seq![render_license_obj(lv[0])]) == render_license_obj(lv[0]));
                assert(out@ =~= o0 + seq!['['] + join_items(
                    lv.take(1).map_values(|l: LicenseV| render_license_obj(l)),
                ));
            }
        }
        k = k + 1;
    }
    proof {
        lemma_take_all(lv);
    }
    out.push(']');
    proof {
        assert(out@ =~= o0 + render_lic_array(lv));
    }
}

fn append_library_obj(out: &mut Vec<char>, l: &ThirdPartyLibrary)
    ensures
        final(out)@ == old(out)@ + render_library_obj(l@),
{
    let ghost o0 = out@;
    out.push('{');
    append_key(out, "package_name");
    append_rendered_string(out, l.package_name.as_str());
    out.push(',');
    append_key(out, "package_version");
    append_rendered_string(out, l.package_version.as_str());
    out.push(',');
    append_key(out, "license");
    append_rendered_string(out, l.license.as_str());
    out.push(',');
    append_key(out, "licenses");
    append_lic_array(out, &l.licenses);
    out.push('}');
    proof {
        assert(out@ =~= o0 + render_library_obj(l@));
    }
}

fn append_lib_array(out: &mut Vec<char>, ls: &Vec<ThirdPartyLibrary>)
    ensures
        final(out)@ == old(out)@ + render_lib_array(ls@.map_values(|l: ThirdPartyLibrary| l@)),
{
    let ghost o0 = out@;
    let ghost lv = ls@.map_values(|l: ThirdPartyLibrary| l@);
    out.push('[');
    let mut k: usize = 0;
    while k < ls.len()
        invariant
            lv == ls@.map_values(|l: ThirdPartyLibrary| l@),
            0 <= k <= ls@.len(),
            out@ == o0 + seq!['['] + join_items(
                lv.take(k as int).map_values(|l: LibraryV| render_library_obj(l)),
            ),
        decreases ls@.len() - k,
    {
        if k > 0 {
            out.push(',');
        }
        append_library_obj(out, &ls[k]);
        proof {
            lemma_take_succ(lv, k as int);
            lemma_map_push(
                lv.take(k as int),
                |l: LibraryV| render_library_obj(l),
                lv[k as int],
            );
            if k > 0 {
                lemma_join_push(
                    lv.take(k as int).map_values(|l: LibraryV| render_library_obj(l)),
                    render_library_obj(lv[k as int]),
                );
                assert(out@ =~= o0 + seq!['['] + join_items(
                    lv.take(k + 1 as int).map_values(|l: LibraryV| render_library_obj(l)),
                ));
            } else {
                assert(lv.take(1).map_values(|l: LibraryV| render_library_obj(l)) =~= seq![
                    render_library_obj(lv[0]),
                ]);
                assert(out@ =~= o0 + seq!['['] + join_items(
                    lv.take(1).map_values(|l: LibraryV| render_library_obj(l)),
                ));
            }
        }
        k = k + 1;
    }
    proof {
        lemma_take_all(lv);
    }
    out.push(']');
    proof {
        assert(out@ =~= o0 + render_lib_array(lv));
    }
}

/// Render a manifest to its persisted document text.
pub fn render_manifest_exec(m: &ThirdPartyLicenses) -> (r: String)
    ensures
        r@ == render_manifest(m@),
{
    let mut out: Vec<char> = Vec::new();
    out.push('{');
    append_key(&mut out, "root_name");
    append_rendered_string(&mut out, m.root_name.as_str());
    out.push(',');
    append_key(&mut out, "third_party_libraries");
    append_lib_array(&mut out, &m.third_party_libraries);
    out.push('}');
    proof {
        assert(out@ =~= render_manifest(m@));
    }
    string_from_chars(&out)
}


/// Skip whitespace.
pub fn skip_ws_exec(s: &Vec<char>, i: usize) -> (r: usize)
    requires
        i <= s@.len(),
    ensures
        r == sp_ws(s@, i as int),
        i <= r <= s@.len(),
{
    let mut j = i;
    while j < s.len() && (s[j] == ' ' || s[j] == '\n' || s[j] == '\r' || s[j] == '\t')
        invariant
            i <= j <= s@.len(),
            sp_ws(s@, i as int) == sp_ws(s@, j as int),
        decreases s@.len() - j,
    {
        j = j + 1;
    }
    j
}

/// Read one expected character.
fn match_ch(s: &Vec<char>, i: usize, c: char) -> (r: Option<usize>)
    ensures
        match r {
            Some(j) => sp_lit(s@, i as int, seq![c]) == Some(j as int) && j == i + 1 && j
                <= s@.len(),
            None => sp_lit(s@, i as int, seq![c]) is None,
        },
{
    if i < s.len() && s[i] == c {
        proof {
            assert(seq![c].drop_first() =~= Seq::<char>::empty());
            assert(sp_lit(s@, i + 1 as int, Seq::<char>::empty()) == Some(i + 1 as int));
        }
        Some(i + 1)
    } else {
        None
    }
}

/// Read an expected literal, handed over as characters.
fn match_seq(s: &Vec<char>, i: usize, lit: &Vec<char>) -> (r: Option<usize>)
    requires
        i <= s@.len(),
    ensures
        match r {
            Some(j) => sp_lit(s@, i as int, lit@) == Some(j as int) && i <= j <= s@.len(),
            None => sp_lit(s@, i as int, lit@) is None,
        },
{
    let mut p: usize = i;
    let mut k: usize = 0;
    proof {
        assert(lit@.skip(0) =~= lit@);
    }
    while k < lit.len()
        invariant
            p == i + k,
            p <= s@.len(),
            0 <= k <= lit@.len(),
            sp_lit(s@, i as int, lit@) == sp_lit(s@, p as int, lit@.skip(k as int)),
        decreases lit@.len() - k,
    {
        proof {
            assert(lit@.skip(k as int)[0] == lit@[k as int]);
            assert(lit@.skip(k as int).drop_first() =~= lit@.skip(k + 1 as int));
        }
        if p < s.len() && s[p] == lit[k] {
            p = p + 1;
            k = k + 1;
        } else {
            return None;
        }
    }
    proof {
        assert(lit@.skip(lit@.len() as int) =~= Seq::<char>::empty());
        assert(sp_lit(s@, p as int, Seq::<char>::empty()) == Some(p as int));
    }
    Some(p)
}

/// Read a key and its colon.
fn parse_key(s: &Vec<char>, i: usize, key: &str) -> (r: Option<usize>)
    requires
        i <= s@.len(),
    ensures
        match r {
            Some(j) => sp_key_colon(s@, i as int, key@) == Some(j as int) && i <= j <= s@.len(),
            None => sp_key_colon(s@, i as int, key@) is None,
        },
{
    let j = skip_ws_exec(s, i);
    let mut quoted: Vec<char> = Vec::new();
    quoted.push('"');
    append_str(&mut quoted, key);
    quoted.push('"');
    proof {
        assert(quoted@ =~= seq!['"'] + key@ + seq!['"']);
    }
    match match_seq(s, j, &quoted) {
        Some(j2) => {
            let j3 = skip_ws_exec(s, j2);
            match_ch(s, j3, ':')
        },
        None => None,
    }
}

/// Read a quoted string value.
fn parse_string_exec(s: &Vec<char>, i: usize) -> (r: Option<(String, usize)>)
    requires
        i <= s@.len(),
    ensures
        match r {
            Some((v, j)) => sp_string(s@, i as int) == Some((v@, j as int)) && i < j <= s@.len(),
            None => sp_string(s@, i as int) is None,
        },
{
    if !(i < s.len() && s[i] == '"') {
        return None;
    }
    let mut acc: Vec<char> = Vec::new();
    let mut j: usize = i + 1;
    proof {
        assert forall|rv: Seq<char>| #[trigger] (acc@ + rv) =~= rv by {}
    }
    loop
        invariant
            i < s@.len(),
            s@[i as int] == '"',
            i + 1 <= j <= s@.len(),
            sp_str_body(s@, i + 1 as int) == (match sp_str_body(s@, j as int) {
                Some((v, e)) => Some((acc@ + v, e)),
                None => None::<(Seq<char>, int)>,
            }),
        decreases s@.len() - j,
    {
        if j >= s.len() {
            return None;
        }
        let c = s[j];
        if c == '"' {
            proof {
                assert(sp_str_body(s@, j as int) == Some((Seq::<char>::empty(), j + 1 as int)));
                assert(acc@ + Seq::<char>::empty() =~= acc@);
            }
            return Some((string_from_chars(&acc), j + 1));
        } else if c == '\\' {
            if j + 1 >= s.len() {
                return None;
            }
            let e = s[j + 1];
            if e == 'u' {
                if s.len() - j < 6 {
                    return None;
                }
                let h0 = hex_val_exec(s[j + 2]);
                let h1 = hex_val_exec(s[j + 3]);
                let h2 = hex_val_exec(s[j + 4]);
                let h3 = hex_val_exec(s[j + 5]);
                if h0 < 0 || h1 < 0 || h2 < 0 || h3 < 0 {
                    return None;
                }
                let v: u32 = (h0 as u32) * 4096 + (h1 as u32) * 256 + (h2 as u32) * 16 + (
                h3 as u32);
                match char_from_u32(v) {
                    Some(ch) => {
                        let ghost acc0 = acc@;
                        acc.push(ch);
                        proof {
                            vstd::utf8::char_u32_cast(ch, ch as u32);
                            assert(ch == (v as char));
                            assert forall|rv: Seq<char>| acc0 + (seq![(v as char)] + rv) =~= acc@
                                + rv by {}
                        }
                        j = j + 6;
                    },
                    None => {
                        return None;
                    },
                }
            } else if e == '"' || e == '\\' || e == '/' || e == 'n' || e == 'r' || e == 't' || e
                == 'b' || e == 'f' {
                let ch = if e == '"' {
                    '"'
                } else if e == '\\' {
                    '\\'
                } else if e == '/' {
                    '/'
                } else if e == 'n' {
                    '\n'
                } else if e == 'r' {
                    '\r'
                } else if e == 't' {
                    '\t'
                } else if e == 'b' {
                    '\u{8}'
                } else {
                    '\u{c}'
                };
                let ghost acc0 = acc@;
                acc.push(ch);
                proof {
                    assert forall|rv: Seq<char>| acc0 + (seq![ch] + rv) =~= acc@ + rv by {}
                }
                j = j + 2;
            } else {
                return None;
            }
        } else {
            let ghost acc0 = acc@;
            acc.push(c);
            proof {
                assert forall|rv: Seq<char>| acc0 + (seq![c] + rv) =~= acc@ + rv by {}
            }
            j = j + 1;
        }
    }
}

fn hex_val_exec(c: char) -> (r: i32)
    ensures
        r as int == hex_val(c),
{
    if c == '0' {
        0
    } else if c == '1' {
        1
    } else if c == '2' {
        2
    } else if c == '3' {
        3
    } else if c == '4' {
        4
    } else if c == '5' {
        5
    } else if c == '6' {
        6
    } else if c == '7' {
        7
    } else if c == '8' {
        8
    } else if c == '9' {
        9
    } else if c == 'a' || c == 'A' {
        10
    } else if c == 'b' || c == 'B' {
        11
    } else if c == 'c' || c == 'C' {
        12
    } else if c == 'd' || c == 'D' {
        13
    } else if c == 'e' || c == 'E' {
        14
    } else if c == 'f' || c == 'F' {
        15
    } else {
        -1
    }
}

/// Read one license object.
fn parse_license_exec(s: &Vec<char>, i: usize) -> (r: Option<(License, usize)>)
    requires
        i <= s@.len(),
    ensures
        match r {
            Some((v, j)) => sp_license(s@, i as int) == Some((v@, j as int)) && i < j <= s@.len(),
            None => sp_license(s@, i as int) is None,
        },
{
    let j = skip_ws_exec(s, i);
    let j1 = match match_ch(s, j, '{') {
        Some(x) => x,
        None => {
            return None;
        },
    };
    let j2 = match parse_key(s, j1, "license") {
        Some(x) => x,
        None => {
            return None;
        },
    };
    let j3 = skip_ws_exec(s, j2);
    let (lic, j4) = match parse_string_exec(s, j3) {
        Some(x) => x,
        None => {
            return None;
        },
    };
    let j5 = skip_ws_exec(s, j4);
    let j6 = match match_ch(s, j5, ',') {
        Some(x) => x,
        None => {
            return None;
        },
    };
    let j7 = match parse_key(s, j6, "text") {
        Some(x) => x,
        None => {
            return None;
        },
    };
    let j8 = skip_ws_exec(s, j7);
    let (tx, j9) = match parse_string_exec(s, j8) {
        Some(x) => x,
        None => {
            return None;
        },
    };
    let j10 = skip_ws_exec(s, j9);
    let j11 = match match_ch(s, j10, '}') {
        Some(x) => x,
        None => {
            return None;
        },
    };
    Some((License { license: lic, text: tx }, j11))
}

/// Read the items of a non-empty license array, closing bracket included.
fn parse_lic_items(s: &Vec<char>, i: usize) -> (r: Option<(Vec<License>, usize)>)
    requires
        i <= s@.len(),
    ensures
        match r {
            Some((v, j)) => sp_lic_items(s@, i as int) == Some(
                (v@.map_values(|l: License| l@), j as int),
            ) && i < j <= s@.len(),
            None => sp_lic_items(s@, i as int) is None,
        },
    decreases s@.len() - i,
{
    let (v, j) = match parse_license_exec(s, i) {
        Some(x) => x,
        None => {
            return None;
        },
    };
    let k = skip_ws_exec(s, j);
    match match_ch(s, k, ',') {
        Some(k2) => {
            match parse_lic_items(s, k2) {
                Some((rest, e)) => {
                    let mut out: Vec<License> = Vec::new();
                    out.push(v);
                    let mut rest = rest;
                    let ghost restv = rest@;
                    out.append(&mut rest);
                    proof {
                        assert(out@ =~= seq![out@[0]] + restv);
                        assert(out@.map_values(|l: License| l@) =~= seq![out@[0]@]
                            + restv.map_values(|l: License| l@));
                    }
                    Some((out, e))
                },
                None => None,
            }
        },
        None => {
            match match_ch(s, k, ']') {
                Some(k2) => {
                    let mut out: Vec<License> = Vec::new();
                    out.push(v);
                    proof {
                        assert(out@.map_values(|l: License| l@) =~= seq![out@[0]@]);
                    }
                    Some((out, k2))
                },
                None => None,
            }
        },
    }
}

/// Read a license array.
fn parse_lic_array(s: &Vec<char>, i: usize) -> (r: Option<(Vec<License>, usize)>)
    requires
        i <= s@.len(),
    ensures
        match r {
            Some((v, j)) => sp_lic_array(s@, i as int) == Some(
                (v@.map_values(|l: License| l@), j as int),
            ) && i <= j <= s@.len(),
            None => sp_lic_array(s@, i as int) is None,
        },
{
    let j = skip_ws_exec(s, i);
    let j1 = match match_ch(s, j, '[') {
        Some(x) => x,
        None => {
            return None;
        },
    };
    let j2 = skip_ws_exec(s, j1);
    match match_ch(s, j2, ']') {
        Some(j3) => {
            let out: Vec<License> = Vec::new();
            proof {
                assert(out@.map_values(|l: License| l@) =~= Seq::<LicenseV>::empty());
            }
            Some((out, j3))
        },
        None => parse_lic_items(s, j2),
    }
}

/// Read one library object.
fn parse_library_exec(s: &Vec<char>, i: usize) -> (r: Option<(ThirdPartyLibrary, usize)>)
    requires
        i <= s@.len(),
    ensures
        match r {
            Some((v, j)) => sp_library(s@, i as int) == Some((v@, j as int)) && i < j <= s@.len(),
            None => sp_library(s@, i as int) is None,
        },
{
    let j = skip_ws_exec(s, i);
    let j1 = match match_ch(s, j, '{') {
        Some(x) => x,
        None => {
            return None;
        },
    };
    let j2 = match parse_key(s, j1, "package_name") {
        Some(x) => x,
        None => {
            return None;
        },
    };
    let (name, j4) = match parse_string_exec(s, skip_ws_exec(s, j2)) {
        Some(x) => x,
        None => {
            return None;
        },
    };
    let j6 = match match_ch(s, skip_ws_exec(s, j4), ',') {
        Some(x) => x,
        None => {
            return None;
        },
    };
    let j7 = match parse_key(s, j6, "package_version") {
        Some(x) => x,
        None => {
            return None;
        },
    };
    let (ver, j9) = match parse_string_exec(s, skip_ws_exec(s, j7)) {
        Some(x) => x,
        None => {
            return None;
        },
    };
    let j11 = match match_ch(s, skip_ws_exec(s, j9), ',') {
        Some(x) => x,
        None => {
            return None;
        },
    };
    let j12 = match parse_key(s, j11, "license") {
        Some(x) => x,
        None => {
            return None;
        },
    };
    let (lic, j14) = match parse_string_exec(s, skip_ws_exec(s, j12)) {
        Some(x) => x,
        None => {
            return None;
        },
    };
    let j16 = match match_ch(s, skip_ws_exec(s, j14), ',') {
        Some(x) => x,
        None => {
            return None;
        },
    };
    let j17 = match parse_key(s, j16, "licenses") {
        Some(x) => x,
        None => {
            return None;
        },
    };
    let (lics, j18) = match parse_lic_array(s, j17) {
        Some(x) => x,
        None => {
            return None;
        },
    };
    let j20 = match match_ch(s, skip_ws_exec(s, j18), '}') {
        Some(x) => x,
        None => {
            return None;
        },
    };
    Some(
        (
            ThirdPartyLibrary {
                package_name: name,
                package_version: ver,
                license: lic,
                licenses: lics,
            },
            j20,
        ),
    )
}

/// Read the items of a non-empty library array, closing bracket included.
fn parse_lib_items(s: &Vec<char>, i: usize) -> (r: Option<(Vec<ThirdPartyLibrary>, usize)>)
    requires
        i <= s@.len(),
    ensures
        match r {
            Some((v, j)) => sp_lib_items(s@, i as int) == Some(
                (v@.map_values(|l: ThirdPartyLibrary| l@), j as int),
            ) && i < j <= s@.len(),
            None => sp_lib_items(s@, i as int) is None,
        },
    decreases s@.len() - i,
{
    let (v, j) = match parse_library_exec(s, i) {
        Some(x) => x,
        None => {
            return None;
        },
    };
    let k = skip_ws_exec(s, j);
    match match_ch(s, k, ',') {
        Some(k2) => {
            match parse_lib_items(s, k2) {
                Some((rest, e)) => {
                    let mut out: Vec<ThirdPartyLibrary> = Vec::new();
                    out.push(v);
                    let mut rest = rest;
                    let ghost restv = rest@;
                    out.append(&mut rest);
                    proof {
                        assert(out@ =~= seq![out@[0]] + restv);
                        assert(out@.map_values(|l: ThirdPartyLibrary| l@) =~= seq![out@[0]@]
                            + restv.map_values(|l: ThirdPartyLibrary| l@));
                    }
                    Some((out, e))
                },
                None => None,
            }
        },
        None => {
            match match_ch(s, k, ']') {
                Some(k2) => {
                    let mut out: Vec<ThirdPartyLibrary> = Vec::new();
                    out.push(v);
                    proof {
                        assert(out@.map_values(|l: ThirdPartyLibrary| l@) =~= seq![out@[0]@]);
                    }
                    Some((out, k2))
                },
                None => None,
            }
        },
    }
}

/// Read a library array.
fn parse_lib_array(s: &Vec<char>, i: usize) -> (r: Option<(Vec<ThirdPartyLibrary>, usize)>)
    requires
        i <= s@.len(),
    ensures
        match r {
            Some((v, j)) => sp_lib_array(s@, i as int) == Some(
                (v@.map_values(|l: ThirdPartyLibrary| l@), j as int),
            ) && i <= j <= s@.len(),
            None => sp_lib_array(s@, i as int) is None,
        },
{
    let j = skip_ws_exec(s, i);
    let j1 = match match_ch(s, j, '[') {
        Some(x) => x,
        None => {
            return None;
        },
    };
    let j2 = skip_ws_exec(s, j1);
    match match_ch(s, j2, ']') {
        Some(j3) => {
            let out: Vec<ThirdPartyLibrary> = Vec::new();
            proof {
                assert(out@.map_values(|l: ThirdPartyLibrary| l@) =~= Seq::<LibraryV>::empty());
            }
            Some((out, j3))
        },
        None => parse_lib_items(s, j2),
    }
}

/// Read a whole manifest document; the text after the returned position
/// has not been looked at.
pub fn parse_manifest_exec(s: &Vec<char>, i: usize) -> (r: Option<(ThirdPartyLicenses, usize)>)
    requires
        i <= s@.len(),
    ensures
        match r {
            Some((v, j)) => sp_manifest(s@, i as int) == Some((v@, j as int)) && i <= j
                <= s@.len(),
            None => sp_manifest(s@, i as int) is None,
        },
{
    let j = skip_ws_exec(s, i);
    let j1 = match match_ch(s, j, '{') {
        Some(x) => x,
        None => {
            return None;
        },
    };
    let j2 = match parse_key(s, j1, "root_name") {
        Some(x) => x,
        None => {
            return None;
        },
    };
    let (root, j4) = match parse_string_exec(s, skip_ws_exec(s, j2)) {
        Some(x) => x,
        None => {
            return None;
        },
    };
    let j6 = match match_ch(s, skip_ws_exec(s, j4), ',') {
        Some(x) => x,
        None => {
            return None;
        },
    };
    let j7 = match parse_key(s, j6, "third_party_libraries") {
        Some(x) => x,
        None => {
            return None;
        },
    };
    let (libs, j8) = match parse_lib_array(s, j7) {
        Some(x) => x,
        None => {
            return None;
        },
    };
    let j10 = match match_ch(s, skip_ws_exec(s, j8), '}') {
        Some(x) => x,
        None => {
            return None;
        },
    };
    Some((ThirdPartyLicenses { root_name: root, third_party_libraries: libs }, j10))
}

} // verus!
