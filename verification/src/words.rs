//! Word-frequency tables: tokenization of a text into lower-cased word runs,
//! counting, and the exact error measure between two tables that the license
//! matcher scores with.
use vstd::prelude::*;

use crate::strutil::{char_is_alnum, chars_vec, is_alnum, lower_of, lowercase, string_from_chars};

verus! {

/// One word of a frequency table together with how often it occurs.
#[derive(Debug)]
pub struct WordCount {
    pub word: String,
    pub count: u64,
}

/// The mathematical content of a frequency table: the words in first-occurrence
/// order, each with its count.
pub open spec fn table_view(t: Seq<WordCount>) -> Seq<(Seq<char>, nat)> {
    t.map_values(|wc: WordCount| (wc.word@, wc.count as nat))
}

/// A character that belongs to a word run.
pub open spec fn word_char(c: char) -> bool {
    is_alnum(c) || c == '_'
}

/// The first position at or after `i` that does not continue a word run.
pub open spec fn run_end(s: Seq<char>, i: int) -> int
    decreases s.len() - i when 0 <= i <= s.len()
{
    if i >= s.len() {
        i
    } else if !word_char(s[i]) {
        i
    } else {
        run_end(s, i + 1)
    }
}

pub proof fn lemma_run_end_bounds(s: Seq<char>, i: int)
    requires
        0 <= i <= s.len(),
    ensures
        i <= run_end(s, i) <= s.len(),
        i < s.len() && word_char(s[i]) ==> run_end(s, i) >= i + 1,
    decreases s.len() - i,
{
    if i < s.len() && word_char(s[i]) {
        lemma_run_end_bounds(s, i + 1);
    }
}

/// The maximal word runs of `s`, scanning from position `i`.
pub open spec fn tokens_from(s: Seq<char>, i: int) -> Seq<Seq<char>>
    decreases s.len() - i when 0 <= i <= s.len()
    via tokens_from_decreases
{
    if i >= s.len() {
        Seq::empty()
    } else if !word_char(s[i]) {
        tokens_from(s, i + 1)
    } else {
        seq![s.subrange(i, run_end(s, i))] + tokens_from(s, run_end(s, i))
    }
}

#[via_fn]
proof fn tokens_from_decreases(s: Seq<char>, i: int) {
    if 0 <= i <= s.len() {
        lemma_run_end_bounds(s, i);
    }
}

/// All maximal word runs of `s`, in order.
pub open spec fn tokenize(s: Seq<char>) -> Seq<Seq<char>> {
    tokens_from(s, 0)
}

/// The count recorded for `w`, or zero if `w` is absent.
pub open spec fn count_of(t: Seq<(Seq<char>, nat)>, w: Seq<char>) -> nat
    decreases t.len(),
{
    if t.len() == 0 {
        0
    } else if t[0].0 == w {
        t[0].1
    } else {
        count_of(t.drop_first(), w)
    }
}

/// Whether `w` has an entry in the table.
pub open spec fn has_word(t: Seq<(Seq<char>, nat)>, w: Seq<char>) -> bool
    decreases t.len(),
{
    if t.len() == 0 {
        false
    } else if t[0].0 == w {
        true
    } else {
        has_word(t.drop_first(), w)
    }
}

/// The total word mass of the table: the sum of all counts.
pub open spec fn total_of(t: Seq<(Seq<char>, nat)>) -> nat
    decreases t.len(),
{
    if t.len() == 0 {
        0
    } else {
        t[0].1 + total_of(t.drop_first())
    }
}

/// The table with the first entry for `w` taken out, if one exists.
pub open spec fn remove_word(t: Seq<(Seq<char>, nat)>, w: Seq<char>) -> Seq<(Seq<char>, nat)>
    decreases t.len(),
{
    if t.len() == 0 {
        t
    } else if t[0].0 == w {
        t.drop_first()
    } else {
        seq![t[0]] + remove_word(t.drop_first(), w)
    }
}

pub open spec fn abs_diff(a: nat, b: nat) -> nat {
    if a >= b {
        (a - b) as nat
    } else {
        (b - a) as nat
    }
}

/// The matcher's error measure: for every template word the absolute
/// difference of the two counts, plus the count of every text word that the
/// template lacks.
pub open spec fn errors_of(text: Seq<(Seq<char>, nat)>, tmpl: Seq<(Seq<char>, nat)>) -> nat
    decreases tmpl.len(),
{
    if tmpl.len() == 0 {
        total_of(text)
    } else {
        abs_diff(count_of(text, tmpl[0].0), tmpl[0].1) + errors_of(
            remove_word(text, tmpl[0].0),
            tmpl.drop_first(),
        )
    }
}

/// The table after one more occurrence of `w`: the first entry for `w` is
/// incremented, or a fresh entry with count one is appended.
pub open spec fn bump(t: Seq<(Seq<char>, nat)>, w: Seq<char>) -> Seq<(Seq<char>, nat)>
    decreases t.len(),
{
    if t.len() == 0 {
        seq![(w, 1nat)]
    } else if t[0].0 == w {
        seq![(t[0].0, (t[0].1 + 1) as nat)] + t.drop_first()
    } else {
        seq![t[0]] + bump(t.drop_first(), w)
    }
}

/// The table that counts the given tokens, each lower-cased, in order.
pub open spec fn table_add_tokens(t: Seq<(Seq<char>, nat)>, toks: Seq<Seq<char>>) -> Seq<
    (Seq<char>, nat),
>
    decreases toks.len(),
{
    if toks.len() == 0 {
        t
    } else {
        table_add_tokens(bump(t, lower_of(toks[0])), toks.drop_first())
    }
}

/// The word-frequency table of a text: its word runs, lower-cased and counted.
pub open spec fn word_table_of(s: Seq<char>) -> Seq<(Seq<char>, nat)> {
    table_add_tokens(Seq::empty(), tokenize(s))
}

proof fn lemma_entry_le_total(t: Seq<(Seq<char>, nat)>, i: int)
    requires
        0 <= i < t.len(),
    ensures
        t[i].1 <= total_of(t),
    decreases t.len(),
{
    if i > 0 {
        lemma_entry_le_total(t.drop_first(), i - 1);
    }
}

proof fn lemma_total_remove(t: Seq<(Seq<char>, nat)>, w: Seq<char>)
    ensures
        has_word(t, w) ==> total_of(remove_word(t, w)) + count_of(t, w) == total_of(t),
        !has_word(t, w) ==> remove_word(t, w) == t && count_of(t, w) == 0,
    decreases t.len(),
{
    if t.len() > 0 {
        if t[0].0 == w {
        } else {
            lemma_total_remove(t.drop_first(), w);
            let r = seq![t[0]] + remove_word(t.drop_first(), w);
            assert(r.drop_first() =~= remove_word(t.drop_first(), w));
            if !has_word(t, w) {
                assert(remove_word(t, w) =~= t);
            }
        }
    }
}

proof fn lemma_errors_bound(text: Seq<(Seq<char>, nat)>, tmpl: Seq<(Seq<char>, nat)>)
    ensures
        errors_of(text, tmpl) <= total_of(text) + total_of(tmpl),
    decreases tmpl.len(),
{
    if tmpl.len() > 0 {
        let w = tmpl[0].0;
        lemma_total_remove(text, w);
        lemma_errors_bound(remove_word(text, w), tmpl.drop_first());
    }
}

proof fn lemma_count_first(t: Seq<(Seq<char>, nat)>, w: Seq<char>, i: int)
    requires
        0 <= i < t.len(),
        t[i].0 == w,
        forall|j: int| 0 <= j < i ==> t[j].0 != w,
    ensures
        has_word(t, w),
        count_of(t, w) == t[i].1,
        remove_word(t, w) == t.remove(i),
    decreases t.len(),
{
    if i == 0 {
        assert(t.drop_first() =~= t.remove(0));
    } else {
        lemma_count_first(t.drop_first(), w, i - 1);
        let r = seq![t[0]] + remove_word(t.drop_first(), w);
        assert(r =~= t.remove(i));
    }
}

proof fn lemma_no_word(t: Seq<(Seq<char>, nat)>, w: Seq<char>)
    requires
        forall|j: int| 0 <= j < t.len() ==> t[j].0 != w,
    ensures
        !has_word(t, w),
        count_of(t, w) == 0,
        remove_word(t, w) == t,
    decreases t.len(),
{
    if t.len() > 0 {
        lemma_no_word(t.drop_first(), w);
        assert(remove_word(t, w) =~= t);
    }
}

proof fn lemma_bump_at(t: Seq<(Seq<char>, nat)>, w: Seq<char>, i: int)
    requires
        0 <= i < t.len(),
        t[i].0 == w,
        forall|j: int| 0 <= j < i ==> t[j].0 != w,
    ensures
        bump(t, w) == t.update(i, (w, (t[i].1 + 1) as nat)),
    decreases t.len(),
{
    if i == 0 {
        assert(bump(t, w) =~= t.update(0, (w, (t[0].1 + 1) as nat)));
    } else {
        lemma_bump_at(t.drop_first(), w, i - 1);
        assert(seq![t[0]] + t.drop_first().update(i - 1, (w, (t[i].1 + 1) as nat)) =~= t.update(
            i,
            (w, (t[i].1 + 1) as nat),
        ));
    }
}

proof fn lemma_bump_append(t: Seq<(Seq<char>, nat)>, w: Seq<char>)
    requires
        forall|j: int| 0 <= j < t.len() ==> t[j].0 != w,
    ensures
        bump(t, w) == t.push((w, 1nat)),
    decreases t.len(),
{
    if t.len() == 0 {
        assert(bump(t, w) =~= t.push((w, 1nat)));
    } else {
        lemma_bump_append(t.drop_first(), w);
        assert(seq![t[0]] + t.drop_first().push((w, 1nat)) =~= t.push((w, 1nat)));
    }
}

proof fn lemma_bump_total(t: Seq<(Seq<char>, nat)>, w: Seq<char>)
    ensures
        total_of(bump(t, w)) == total_of(t) + 1,
    decreases t.len(),
{
    if t.len() == 0 {
        assert(total_of(bump(t, w).drop_first()) == 0) by {
            assert(bump(t, w).drop_first() =~= Seq::<(Seq<char>, nat)>::empty());
        }
    } else if t[0].0 == w {
        let b = seq![(t[0].0, (t[0].1 + 1) as nat)] + t.drop_first();
        assert(b.drop_first() =~= t.drop_first());
    } else {
        lemma_bump_total(t.drop_first(), w);
        let b = seq![t[0]] + bump(t.drop_first(), w);
        assert(b.drop_first() =~= bump(t.drop_first(), w));
    }
}

proof fn lemma_table_add_push(t: Seq<(Seq<char>, nat)>, toks: Seq<Seq<char>>, x: Seq<char>)
    ensures
        table_add_tokens(t, toks.push(x)) == bump(table_add_tokens(t, toks), lower_of(x)),
    decreases toks.len(),
{
    let p = toks.push(x);
    assert(p.len() > 0);
    assert(table_add_tokens(t, p) == table_add_tokens(bump(t, lower_of(p[0])), p.drop_first()));
    if toks.len() == 0 {
        assert(p[0] == x);
        assert(p.drop_first() =~= Seq::<Seq<char>>::empty());
        assert(table_add_tokens(bump(t, lower_of(x)), p.drop_first()) == bump(t, lower_of(x)));
        assert(table_add_tokens(t, toks) == t);
    } else {
        assert(p[0] == toks[0]);
        assert(p.drop_first() =~= toks.drop_first().push(x));
        lemma_table_add_push(bump(t, lower_of(toks[0])), toks.drop_first(), x);
        assert(table_add_tokens(t, toks) == table_add_tokens(
            bump(t, lower_of(toks[0])),
            toks.drop_first(),
        ));
    }
}

/// The index of the first entry whose word equals `w`, if any.
fn find_word(t: &Vec<WordCount>, w: &String) -> (r: Option<usize>)
    ensures
        match r {
            Some(i) => 0 <= i < t@.len() && t@[i as int].word@ == w@ && (forall|j: int|
                0 <= j < i ==> t@[j].word@ != w@),
            None => forall|j: int| 0 <= j < t@.len() ==> t@[j].word@ != w@,
        },
{
    let mut i: usize = 0;
    while i < t.len()
        invariant
            0 <= i <= t@.len(),
            forall|j: int| 0 <= j < i ==> t@[j].word@ != w@,
        decreases t@.len() - i,
    {
        if t[i].word == *w {
            return Some(i);
        }
        i = i + 1;
    }
    None
}

/// Record one more occurrence of the (already lower-cased) word `w`.
pub fn table_bump(t: &mut Vec<WordCount>, w: String)
    requires
        total_of(table_view(old(t)@)) < u64::MAX,
    ensures
        table_view(final(t)@) == bump(table_view(old(t)@), w@),
        total_of(table_view(final(t)@)) == total_of(table_view(old(t)@)) + 1,
{
    let ghost tv = table_view(t@);
    proof {
        lemma_bump_total(tv, w@);
    }
    match find_word(t, &w) {
        Some(i) => {
            proof {
                lemma_bump_at(tv, w@, i as int);
                lemma_entry_le_total(tv, i as int);
            }
            let c = t[i].count;
            t[i] = WordCount { word: w, count: c + 1 };
            proof {
                assert(table_view(t@) =~= tv.update(i as int, (w@, (c + 1) as nat)));
            }
        },
        None => {
            proof {
                lemma_bump_append(tv, w@);
            }
            t.push(WordCount { word: w, count: 1 });
            proof {
                assert(table_view(t@) =~= tv.push((w@, 1nat)));
            }
        },
    }
}

/// Split a text into its maximal word runs, in order.
pub fn tokenize_text(text: &str) -> (toks: Vec<String>)
    ensures
        toks@.map_values(|s: String| s@) == tokenize(text@),
{
    let cs = chars_vec(text);
    let ghost s = text@;
    let mut toks: Vec<String> = Vec::new();
    let mut i: usize = 0;
    while i < cs.len()
        invariant
            cs@ == s,
            0 <= i <= s.len(),
            toks@.map_values(|t: String| t@) + tokens_from(s, i as int) == tokenize(s),
        decreases s.len() - i,
    {
        let c = cs[i];
        if char_is_alnum(c) || c == '_' {
            let start = i;
            let mut j = i;
            while j < cs.len() && (char_is_alnum(cs[j]) || cs[j] == '_')
                invariant
                    cs@ == s,
                    0 <= i <= j <= s.len(),
                    run_end(s, i as int) == run_end(s, j as int),
                decreases s.len() - j,
            {
                j = j + 1;
            }
            proof {
                assert(run_end(s, j as int) == j);
                lemma_run_end_bounds(s, i as int);
            }
            let mut word_chars: Vec<char> = Vec::new();
            let mut k = start;
            while k < j
                invariant
                    cs@ == s,
                    start <= k <= j <= s.len(),
                    word_chars@ == s.subrange(start as int, k as int),
                decreases j - k,
            {
                word_chars.push(cs[k]);
                proof {
                    assert(word_chars@ =~= s.subrange(start as int, k + 1 as int));
                }
                k = k + 1;
            }
            let tok = string_from_chars(&word_chars);
            toks.push(tok);
            proof {
                assert(toks@.map_values(|t: String| t@) =~= toks@.drop_last().map_values(
                    |t: String| t@,
                ).push(s.subrange(start as int, j as int)));
                assert(tokens_from(s, start as int) == seq![
                    s.subrange(start as int, j as int),
                ] + tokens_from(s, j as int));
            }
            i = j;
        } else {
            i = i + 1;
        }
    }
    proof {
        assert(tokens_from(s, i as int) =~= Seq::<Seq<char>>::empty());
        assert(toks@.map_values(|t: String| t@) =~= toks@.map_values(|t: String| t@) + Seq::<
            Seq<char>,
        >::empty());
    }
    toks
}

/// Build the word-frequency table of a text: tokenize, lower-case each token,
/// and count.
pub fn word_table(text: &str) -> (t: Vec<WordCount>)
    ensures
        table_view(t@) == word_table_of(text@),
        total_of(table_view(t@)) == tokenize(text@).len(),
        total_of(table_view(t@)) <= usize::MAX,
{
    let toks = tokenize_text(text);
    let ghost tokseq = tokenize(text@);
    let mut t: Vec<WordCount> = Vec::new();
    let mut i: usize = 0;
    while i < toks.len()
        invariant
            toks@.map_values(|s: String| s@) == tokseq,
            0 <= i <= toks@.len(),
            table_view(t@) == table_add_tokens(Seq::empty(), tokseq.take(i as int)),
            total_of(table_view(t@)) == i,
        decreases toks@.len() - i,
    {
        let lw = lowercase(toks[i].as_str());
        proof {
            assert(tokseq.take(i + 1 as int) =~= tokseq.take(i as int).push(tokseq[i as int]));
            lemma_table_add_push(Seq::empty(), tokseq.take(i as int), tokseq[i as int]);
        }
        table_bump(&mut t, lw);
        i = i + 1;
    }
    proof {
        assert(tokseq.take(tokseq.len() as int) =~= tokseq);
    }
    t
}

/// The total word mass of a table.
pub fn table_total(t: &Vec<WordCount>) -> (r: u64)
    requires
        total_of(table_view(t@)) <= u64::MAX,
    ensures
        r == total_of(table_view(t@)),
{
    let ghost tv = table_view(t@);
    proof {
        assert(tv.skip(0) =~= tv);
    }
    let mut r: u64 = 0;
    let mut i: usize = 0;
    while i < t.len()
        invariant
            tv == table_view(t@),
            0 <= i <= tv.len(),
            r + total_of(tv.skip(i as int)) == total_of(tv),
            total_of(tv) <= u64::MAX,
        decreases tv.len() - i,
    {
        proof {
            assert(tv.skip(i as int).drop_first() =~= tv.skip(i + 1 as int));
            assert(tv.skip(i as int)[0] == tv[i as int]);
        }
        r = r + t[i].count;
        i = i + 1;
    }
    proof {
        assert(tv.skip(tv.len() as int) =~= Seq::<(Seq<char>, nat)>::empty());
    }
    r
}

fn clone_table(t: &Vec<WordCount>) -> (r: Vec<WordCount>)
    ensures
        table_view(r@) == table_view(t@),
{
    let mut r: Vec<WordCount> = Vec::new();
    let mut i: usize = 0;
    while i < t.len()
        invariant
            0 <= i <= t@.len(),
            r@.len() == i,
            forall|j: int|
                0 <= j < i ==> r@[j].word@ == t@[j].word@ && r@[j].count == t@[j].count,
        decreases t@.len() - i,
    {
        let w = t[i].word.clone();
        let c = t[i].count;
        r.push(WordCount { word: w, count: c });
        i = i + 1;
    }
    proof {
        assert(table_view(r@) =~= table_view(t@));
    }
    r
}

/// The matcher's error count between a text's table and a template's table.
pub fn compare_tables(text: &Vec<WordCount>, tmpl: &Vec<WordCount>) -> (errors: u128)
    requires
        total_of(table_view(text@)) <= u64::MAX,
        total_of(table_view(tmpl@)) <= u64::MAX,
    ensures
        errors == errors_of(table_view(text@), table_view(tmpl@)),
{
    let ghost tv_text = table_view(text@);
    let ghost tv_tmpl = table_view(tmpl@);
    proof {
        lemma_errors_bound(tv_text, tv_tmpl);
    }
    let mut rem = clone_table(text);
    proof {
        assert(tv_tmpl.skip(0) =~= tv_tmpl);
    }
    let mut errors: u128 = 0;
    let mut i: usize = 0;
    while i < tmpl.len()
        invariant
            tv_tmpl == table_view(tmpl@),
            0 <= i <= tv_tmpl.len(),
            errors + errors_of(table_view(rem@), tv_tmpl.skip(i as int)) == errors_of(
                tv_text,
                tv_tmpl,
            ),
            errors_of(tv_text, tv_tmpl) <= total_of(tv_text) + total_of(tv_tmpl),
            total_of(tv_text) <= u64::MAX,
            total_of(tv_tmpl) <= u64::MAX,
        decreases tv_tmpl.len() - i,
    {
        let ghost rv = table_view(rem@);
        let ghost w = tv_tmpl[i as int].0;
        proof {
            assert(tv_tmpl.skip(i as int).drop_first() =~= tv_tmpl.skip(i + 1 as int));
            assert(tv_tmpl.skip(i as int)[0] == tv_tmpl[i as int]);
        }
        let ct = tmpl[i].count;
        let term: u64;
        match find_word(&rem, &tmpl[i].word) {
            Some(j) => {
                proof {
                    lemma_count_first(rv, w, j as int);
                }
                let c = rem[j].count;
                rem.remove(j);
                proof {
                    assert(table_view(rem@) =~= rv.remove(j as int));
                }
                term = if c >= ct {
                    c - ct
                } else {
                    ct - c
                };
            },
            None => {
                proof {
                    lemma_no_word(rv, w);
                }
                term = ct;
            },
        }
        errors = errors + term as u128;
        i = i + 1;
    }
    proof {
        assert(tv_tmpl.skip(tv_tmpl.len() as int) =~= Seq::<(Seq<char>, nat)>::empty());
    }
    let ghost rv_end = table_view(rem@);
    proof {
        assert(rv_end.skip(0) =~= rv_end);
    }
    let mut k: usize = 0;
    while k < rem.len()
        invariant
            rv_end == table_view(rem@),
            0 <= k <= rv_end.len(),
            errors + total_of(rv_end.skip(k as int)) == errors_of(tv_text, tv_tmpl),
            errors_of(tv_text, tv_tmpl) <= total_of(tv_text) + total_of(tv_tmpl),
            total_of(tv_text) <= u64::MAX,
            total_of(tv_tmpl) <= u64::MAX,
        decreases rv_end.len() - k,
    {
        proof {
            assert(rv_end.skip(k as int).drop_first() =~= rv_end.skip(k + 1 as int));
            assert(rv_end.skip(k as int)[0] == rv_end[k as int]);
        }
        errors = errors + rem[k].count as u128;
        k = k + 1;
    }
    proof {
        assert(rv_end.skip(rv_end.len() as int) =~= Seq::<(Seq<char>, nat)>::empty());
    }
    errors
}

/// Whether the score `e1 / t1` is strictly below `e2 / t2`, a table with no
/// words ranking as the worst possible score.
pub open spec fn score_lt(e1: nat, t1: nat, e2: nat, t2: nat) -> bool {
    if t1 == 0 {
        false
    } else if t2 == 0 {
        true
    } else {
        e1 * t2 < e2 * t1
    }
}

proof fn lemma_frac_cmp(a: int, b: int, c: int, d: int)
    requires
        a >= 0,
        b >= 1,
        c >= 0,
        d >= 1,
    ensures
        (a * d < c * b) <==> ((a / b < c / d) || (a / b == c / d && (a % b) * d < (c % d) * b)),
{
    let qa = a / b;
    let ra = a % b;
    let qc = c / d;
    let rc = c % d;
    vstd::arithmetic::div_mod::lemma_fundamental_div_mod(a, b);
    vstd::arithmetic::div_mod::lemma_fundamental_div_mod(c, d);
    vstd::arithmetic::div_mod::lemma_mod_bound(a, b);
    vstd::arithmetic::div_mod::lemma_mod_bound(c, d);
    assert((a * d < c * b) <==> ((qa < qc) || (qa == qc && ra * d < rc * b)))
        by (nonlinear_arith)
        requires
            a == b * qa + ra,
            0 <= ra < b,
            c == d * qc + rc,
            0 <= rc < d,
            b >= 1,
            d >= 1,
    ;
}

/// Decide `score_lt` exactly, without overflow, by comparing quotients and
/// cross-multiplied remainders.
pub fn score_lt_exec(e1: u128, t1: u64, e2: u128, t2: u64) -> (r: bool)
    ensures
        r == score_lt(e1 as nat, t1 as nat, e2 as nat, t2 as nat),
{
    if t1 == 0 {
        false
    } else if t2 == 0 {
        true
    } else {
        let q1 = e1 / (t1 as u128);
        let r1 = e1 % (t1 as u128);
        let q2 = e2 / (t2 as u128);
        let r2 = e2 % (t2 as u128);
        proof {
            lemma_frac_cmp(e1 as int, t1 as int, e2 as int, t2 as int);
            assert(r1 * (t2 as u128) < 0x10000000000000000 * 0x10000000000000000)
                by (nonlinear_arith)
                requires
                    0 <= r1 < 0x10000000000000000,
                    0 < (t2 as u128) < 0x10000000000000000,
            ;
            assert(r2 * (t1 as u128) < 0x10000000000000000 * 0x10000000000000000)
                by (nonlinear_arith)
                requires
                    0 <= r2 < 0x10000000000000000,
                    0 < (t1 as u128) < 0x10000000000000000,
            ;
        }
        q1 < q2 || (q1 == q2 && r1 * (t2 as u128) < r2 * (t1 as u128))
    }
}

} // verus!
