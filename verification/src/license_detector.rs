//! The text-similarity matcher: word-frequency templates for every canonical
//! license text, and detection of the best-matching identifier for an
//! unknown text.
use vstd::prelude::*;

use crate::ResolveError;
use crate::license_text::LicenseText;
use crate::spdx_data::{
    known_license_text, license_text_for_id, spdx_id_at, spdx_license_count, spdx_license_name,
    spdx_license_text, spdx_text_at,
};
use crate::words::{
    WordCount, compare_tables, errors_of, score_lt, score_lt_exec, table_total, table_view,
    total_of, word_table, word_table_of,
};

verus! {

/// A license file that may already carry a known identifier.
#[derive(Debug)]
pub struct LicenseFile {
    pub id: Option<String>,
    pub file: String,
}

/// A license file together with the text read from it.
#[derive(Debug)]
pub struct LicenseFileText {
    pub id: Option<String>,
    pub file: String,
    pub text: String,
}

/// A word-frequency template for one license text.
#[derive(Debug)]
pub struct LicenseHash {
    pub id: Option<String>,
    pub text: String,
    pub word_hash: Vec<WordCount>,
}

/// The compared texts kept when a single expected candidate was not the
/// detected one; a diagnostic by-product only.
#[derive(Debug)]
pub struct MismatchDump {
    pub best_template_text: String,
    pub original_text: String,
    pub expected_text: String,
}

/// What one detection returns: the resolved text and, possibly, a
/// diagnostic dump.
#[derive(Debug)]
pub struct DetectOutcome {
    pub best: LicenseText,
    pub mismatch: Option<MismatchDump>,
}

/// The matcher over a pre-built corpus of canonical templates.
#[derive(Debug)]
pub struct LicenseDetector {
    pub templates: Vec<LicenseHash>,
}

/// The error mass of a text's table measured against the template built
/// from `tmpl_text`.
pub open spec fn pair_errors(ttbl: Seq<(Seq<char>, nat)>, tmpl_text: Seq<char>) -> nat {
    errors_of(ttbl, word_table_of(tmpl_text))
}

/// The word mass of the template built from `tmpl_text`.
pub open spec fn pair_total(tmpl_text: Seq<char>) -> nat {
    total_of(word_table_of(tmpl_text))
}

/// Whether the template of `cand` scores strictly better than the template
/// of `best` against the text table.
pub open spec fn pair_better(ttbl: Seq<(Seq<char>, nat)>, cand: Seq<char>, best: Seq<char>) -> bool {
    score_lt(pair_errors(ttbl, cand), pair_total(cand), pair_errors(ttbl, best), pair_total(best))
}

/// The index of the best-scoring template among the first `n` of `pairs`
/// (each an identifier with its raw text); ties keep the earliest.
pub open spec fn best_pair_upto(
    pairs: Seq<(Seq<char>, Seq<char>)>,
    ttbl: Seq<(Seq<char>, nat)>,
    n: int,
) -> int
    decreases n,
{
    if n <= 1 {
        0
    } else {
        let b = best_pair_upto(pairs, ttbl, n - 1);
        if pair_better(ttbl, pairs[n - 1].1, pairs[b].1) {
            n - 1
        } else {
            b
        }
    }
}

/// The index of the best-scoring template of `pairs` for the text table.
pub open spec fn best_pair_index(
    pairs: Seq<(Seq<char>, Seq<char>)>,
    ttbl: Seq<(Seq<char>, nat)>,
) -> int {
    best_pair_upto(pairs, ttbl, pairs.len() as int)
}

/// The identifier/text pairs of a template list.
pub open spec fn pairs_of(tmpls: Seq<LicenseHash>) -> Seq<(Seq<char>, Seq<char>)> {
    tmpls.map_values(|t: LicenseHash| (t.id.unwrap()@, t.text@))
}

/// The identifier/text pairs for a candidate identifier list: each
/// candidate the license table knows, with its canonical text.
pub open spec fn candidate_pairs(ids: Seq<Seq<char>>) -> Seq<(Seq<char>, Seq<char>)>
    decreases ids.len(),
{
    if ids.len() == 0 {
        Seq::empty()
    } else {
        let rest = candidate_pairs(ids.drop_first());
        if known_license_text(ids[0]) is Some {
            seq![(ids[0], known_license_text(ids[0]).unwrap())] + rest
        } else {
            rest
        }
    }
}

/// The template set a detection runs against: the full corpus when no
/// candidates are given, else the known candidates.
pub open spec fn effective_pairs(corpus: Seq<LicenseHash>, ids: Seq<Seq<char>>) -> Seq<
    (Seq<char>, Seq<char>),
> {
    if ids.len() == 0 {
        pairs_of(corpus)
    } else {
        candidate_pairs(ids)
    }
}

impl LicenseHash {
    /// The template's table counts exactly the words of its text, with a
    /// mass a `u64` can hold.
    pub open spec fn wf(&self) -> bool {
        &&& table_view(self.word_hash@) == word_table_of(self.text@)
        &&& total_of(table_view(self.word_hash@)) <= u64::MAX
    }

    /// Build the template of a text: its word runs, lower-cased and counted.
    pub fn new(id: Option<String>, text: &str) -> (r: LicenseHash)
        ensures
            r.id == id,
            r.text@ == text@,
            r.wf(),
    {
        let word_hash = word_table(text);
        LicenseHash { id, text: text.to_owned(), word_hash }
    }
}

proof fn lemma_self_errors_zero(t: Seq<(Seq<char>, nat)>)
    ensures
        errors_of(t, t) == 0,
    decreases t.len(),
{
    if t.len() > 0 {
        lemma_self_errors_zero(t.drop_first());
    }
}

/// The matcher's error measure is never negative, and a text measured
/// against the template built from that same text has error exactly zero.
pub proof fn lemma_self_score_zero(text: Seq<char>)
    ensures
        pair_errors(word_table_of(text), text) == 0,
        forall|ttbl: Seq<(Seq<char>, nat)>, tx: Seq<char>| #[trigger] pair_errors(ttbl, tx) >= 0,
{
    lemma_self_errors_zero(word_table_of(text));
}

proof fn lemma_score_lt_trans(e1: nat, t1: nat, e2: nat, t2: nat, e3: nat, t3: nat)
    requires
        score_lt(e1, t1, e2, t2),
        !score_lt(e3, t3, e2, t2),
    ensures
        score_lt(e1, t1, e3, t3),
{
    if t1 != 0 && t2 != 0 && t3 != 0 {
        assert(e1 * t3 < e3 * t1) by (nonlinear_arith)
            requires
                e1 * t2 < e2 * t1,
                e2 * t3 <= e3 * t2,
                t1 > 0,
                t2 > 0,
                t3 > 0,
                e1 >= 0,
                e2 >= 0,
                e3 >= 0,
        ;
    }
}

proof fn lemma_best_upto_props(
    pairs: Seq<(Seq<char>, Seq<char>)>,
    ttbl: Seq<(Seq<char>, nat)>,
    n: int,
)
    requires
        1 <= n <= pairs.len(),
    ensures
        ({
            let b = best_pair_upto(pairs, ttbl, n);
            &&& 0 <= b < n
            &&& forall|j: int| 0 <= j < n ==> !pair_better(ttbl, pairs[j].1, pairs[b].1)
            &&& forall|j: int| 0 <= j < b ==> pair_better(ttbl, pairs[b].1, pairs[j].1)
        }),
    decreases n,
{
    if n > 1 {
        lemma_best_upto_props(pairs, ttbl, n - 1);
        let bp = best_pair_upto(pairs, ttbl, n - 1);
        let b = best_pair_upto(pairs, ttbl, n);
        if pair_better(ttbl, pairs[n - 1].1, pairs[bp].1) {
            assert forall|j: int| 0 <= j < n - 1 implies pair_better(
                ttbl,
                pairs[b].1,
                pairs[j].1,
            ) by {
                lemma_score_lt_trans(
                    pair_errors(ttbl, pairs[n - 1].1),
                    pair_total(pairs[n - 1].1),
                    pair_errors(ttbl, pairs[bp].1),
                    pair_total(pairs[bp].1),
                    pair_errors(ttbl, pairs[j].1),
                    pair_total(pairs[j].1),
                );
            }
            assert forall|j: int| 0 <= j < n implies !pair_better(
                ttbl,
                pairs[j].1,
                pairs[b].1,
            ) by {
                if j < n - 1 {
                    assert(pair_better(ttbl, pairs[b].1, pairs[j].1));
                    if pair_better(ttbl, pairs[j].1, pairs[b].1) {
                        lemma_score_lt_trans(
                            pair_errors(ttbl, pairs[j].1),
                            pair_total(pairs[j].1),
                            pair_errors(ttbl, pairs[b].1),
                            pair_total(pairs[b].1),
                            pair_errors(ttbl, pairs[j].1),
                            pair_total(pairs[j].1),
                        );
                        lemma_score_lt_irrefl(
                            pair_errors(ttbl, pairs[j].1),
                            pair_total(pairs[j].1),
                        );
                    }
                }
            }
        }
    }
}

proof fn lemma_score_lt_irrefl(e: nat, t: nat)
    ensures
        !score_lt(e, t, e, t),
{
    if t != 0 {
        assert(!(e * t < e * t));
    }
}

/// Matching a text whose word table is exactly that of the template at
/// position `k` — and of no earlier template with a non-empty table —
/// selects template `k`, with error zero.
pub proof fn lemma_exact_match(pairs: Seq<(Seq<char>, Seq<char>)>, text: Seq<char>, k: int)
    requires
        0 <= k < pairs.len(),
        word_table_of(pairs[k].1) == word_table_of(text),
        pair_total(pairs[k].1) > 0,
        forall|j: int|
            0 <= j < k ==> !(pair_errors(word_table_of(text), pairs[j].1) == 0 && pair_total(
                pairs[j].1,
            ) > 0),
    ensures
        best_pair_index(pairs, word_table_of(text)) == k,
        pair_errors(word_table_of(text), pairs[k].1) == 0,
{
    let ttbl = word_table_of(text);
    lemma_self_errors_zero(ttbl);
    assert(pair_errors(ttbl, pairs[k].1) == 0);
    lemma_best_upto_props(pairs, ttbl, pairs.len() as int);
    let b = best_pair_index(pairs, ttbl);
    let eb = pair_errors(ttbl, pairs[b].1);
    let tb = pair_total(pairs[b].1);
    let tk = pair_total(pairs[k].1);
    assert(!pair_better(ttbl, pairs[k].1, pairs[b].1));
    assert(tb > 0 && eb == 0) by {
        if tb == 0 {
            assert(score_lt(0, tk, eb, tb));
        } else {
            assert(!(0 * tb < eb * tk));
            assert(eb == 0) by (nonlinear_arith)
                requires
                    !(0 * tb < eb * tk),
                    eb >= 0,
                    tk > 0,
            ;
        }
    }
    if b > k {
        assert(pair_better(ttbl, pairs[b].1, pairs[k].1));
        assert(false) by (nonlinear_arith)
            requires
                eb * tk < 0 * tb,
                eb >= 0,
                tk > 0,
        ;
    }
}

/// The index of the best-scoring template for the already-built text
/// table; the earliest wins ties.
fn best_template(tmpls: &Vec<LicenseHash>, text_tbl: &Vec<WordCount>) -> (r: usize)
    requires
        tmpls@.len() > 0,
        forall|i: int| 0 <= i < tmpls@.len() ==> (#[trigger] tmpls@[i]).wf(),
        total_of(table_view(text_tbl@)) <= u64::MAX,
    ensures
        0 <= r < tmpls@.len(),
        r == best_pair_index(pairs_of(tmpls@), table_view(text_tbl@)),
{
    let ghost ttbl = table_view(text_tbl@);
    let ghost pairs = pairs_of(tmpls@);
    let mut best: usize = 0;
    let mut best_err: u128 = compare_tables(text_tbl, &tmpls[0].word_hash);
    let mut best_total: u64 = table_total(&tmpls[0].word_hash);
    let mut i: usize = 1;
    while i < tmpls.len()
        invariant
            pairs == pairs_of(tmpls@),
            ttbl == table_view(text_tbl@),
            total_of(table_view(text_tbl@)) <= u64::MAX,
            forall|j: int| 0 <= j < tmpls@.len() ==> (#[trigger] tmpls@[j]).wf(),
            1 <= i <= tmpls@.len(),
            0 <= best < i,
            best == best_pair_upto(pairs, ttbl, i as int),
            best_err == pair_errors(ttbl, pairs[best as int].1),
            best_total == pair_total(pairs[best as int].1),
        decreases tmpls@.len() - i,
    {
        let e = compare_tables(text_tbl, &tmpls[i].word_hash);
        let t = table_total(&tmpls[i].word_hash);
        if score_lt_exec(e, t, best_err, best_total) {
            best = i;
            best_err = e;
            best_total = t;
        }
        i = i + 1;
    }
    best
}

impl LicenseDetector {
    /// Every corpus template is well formed and carries an identifier.
    pub open spec fn wf(&self) -> bool {
        forall|i: int|
            0 <= i < self.templates@.len() ==> ((#[trigger] self.templates@[i]).wf()
                && self.templates@[i].id is Some)
    }

    /// Build the reference corpus: one template for every entry of the
    /// canonical license table, in table order, skipping none.
    pub fn build() -> (r: LicenseDetector)
        ensures
            r.wf(),
            forall|i: int|
                #![auto]
                0 <= i < r.templates@.len() ==> spdx_id_at(i) == Some(r.templates@[i].id.unwrap()@)
                    && spdx_text_at(i) == Some(r.templates@[i].text@),
            forall|i: int| spdx_id_at(i) is Some <==> 0 <= i < r.templates@.len(),
    {
        let n = spdx_license_count();
        let mut templates: Vec<LicenseHash> = Vec::new();
        let mut i: usize = 0;
        while i < n
            invariant
                0 <= i <= n,
                templates@.len() == i,
                forall|j: int| (0 <= j < n) <==> spdx_id_at(j) is Some,
                forall|j: int| (0 <= j < n) <==> spdx_text_at(j) is Some,
                forall|j: int|
                    #![auto]
                    0 <= j < i ==> spdx_id_at(j) == Some(templates@[j].id.unwrap()@) && spdx_text_at(
                        j,
                    ) == Some(templates@[j].text@),
                forall|j: int|
                    0 <= j < i ==> ((#[trigger] templates@[j]).wf() && templates@[j].id is Some),
            decreases n - i,
        {
            let name = spdx_license_name(i);
            let text = spdx_license_text(i);
            match (name, text) {
                (Some(nm), Some(tx)) => {
                    templates.push(LicenseHash::new(Some(nm), tx.as_str()));
                },
                _ => {
                    proof {
                        assert(false);
                    }
                },
            }
            i = i + 1;
        }
        LicenseDetector { templates }
    }

    /// Detect the canonical identifier of `text`: score it against every
    /// effective template and return the identifier of the best one,
    /// together with the text itself; a diagnostic dump is produced when a
    /// single expected candidate was not the detected identifier.
    pub fn detect_license(&self, candidates: &Vec<String>, text: &str) -> (r: Result<
        DetectOutcome,
        ResolveError,
    >)
        requires
            self.wf(),
        ensures
            ({
                let pairs = effective_pairs(
                    self.templates@,
                    candidates@.map_values(|s: String| s@),
                );
                let ttbl = word_table_of(text@);
                match r {
                    Ok(out) => {
                        let b = best_pair_index(pairs, ttbl);
                        &&& pairs.len() > 0
                        &&& out.best.id@ == pairs[b].0
                        &&& out.best.text@ == text@
                        &&& (match out.mismatch {
                            Some(d) => candidates@.len() == 1 && pairs[b].0 != candidates@[0]@
                                && d.original_text@ == text@ && d.best_template_text@ == pairs[b].1
                                && (known_license_text(candidates@[0]@) matches Some(t)
                                && d.expected_text@ == t),
                            None => !(candidates@.len() == 1 && pairs[b].0 != candidates@[0]@),
                        })
                    },
                    Err(e) => e == ResolveError::NoCandidates && pairs.len() == 0,
                }
            }),
    {
        let ghost ids = candidates@.map_values(|s: String| s@);
        let ghost pairs = effective_pairs(self.templates@, ids);
        let text_tbl = word_table(text);
        if candidates.len() == 0 {
            if self.templates.len() == 0 {
                proof {
                    assert(pairs.len() == 0);
                }
                return Err(ResolveError::NoCandidates);
            }
            let b = best_template(&self.templates, &text_tbl);
            let id = match &self.templates[b].id {
                Some(s) => s.clone(),
                None => {
                    proof {
                        assert(false);
                    }
                    String::new()
                },
            };
            Ok(
                DetectOutcome {
                    best: LicenseText { id, text: text.to_owned() },
                    mismatch: None,
                },
            )
        } else {
            let mut tmpls: Vec<LicenseHash> = Vec::new();
            let mut i: usize = 0;
            while i < candidates.len()
                invariant
                    ids == candidates@.map_values(|s: String| s@),
                    0 <= i <= candidates@.len(),
                    pairs_of(tmpls@) == candidate_pairs(ids.take(i as int)),
                    forall|j: int|
                        0 <= j < tmpls@.len() ==> ((#[trigger] tmpls@[j]).wf() && tmpls@[j].id
                            is Some),
                decreases candidates@.len() - i,
            {
                match license_text_for_id(candidates[i].as_str()) {
                    Some(tx) => {
                        tmpls.push(LicenseHash::new(Some(candidates[i].clone()), tx.as_str()));
                    },
                    None => {},
                }
                proof {
                    lemma_candidate_pairs_push(ids.take(i as int), ids[i as int]);
                    assert(ids.take(i + 1 as int) =~= ids.take(i as int).push(ids[i as int]));
                    assert(pairs_of(tmpls@) =~= candidate_pairs(ids.take(i + 1 as int)));
                }
                i = i + 1;
            }
            proof {
                assert(ids.take(ids.len() as int) =~= ids);
            }
            if tmpls.len() == 0 {
                return Err(ResolveError::NoCandidates);
            }
            let b = best_template(&tmpls, &text_tbl);
            let id = match &tmpls[b].id {
                Some(s) => s.clone(),
                None => {
                    proof {
                        assert(false);
                    }
                    String::new()
                },
            };
            let mismatch: Option<MismatchDump> = if candidates.len() == 1 && !(id == candidates[0]) {
                proof {
                    assert(ids.drop_first() =~= Seq::<Seq<char>>::empty());
                    assert(candidate_pairs(Seq::<Seq<char>>::empty()) =~= Seq::<
                        (Seq<char>, Seq<char>),
                    >::empty());
                    assert(pairs_of(tmpls@).len() >= 1);
                    if known_license_text(ids[0]) is None {
                        assert(candidate_pairs(ids) =~= Seq::<(Seq<char>, Seq<char>)>::empty());
                    }
                    assert(candidate_pairs(ids)[0] == (ids[0], known_license_text(
                        ids[0],
                    ).unwrap()));
                    assert(pairs_of(tmpls@)[0] == (tmpls@[0].id.unwrap()@, tmpls@[0].text@));
                    assert(tmpls@[0].text@ == known_license_text(ids[0]).unwrap());
                }
                Some(
                    MismatchDump {
                        best_template_text: tmpls[b].text.clone(),
                        original_text: text.to_owned(),
                        expected_text: tmpls[0].text.clone(),
                    },
                )
            } else {
                None
            };
            Ok(
                DetectOutcome {
                    best: LicenseText { id, text: text.to_owned() },
                    mismatch,
                },
            )
        }
    }

    /// Resolve each license file: a file that carries an identifier is
    /// copied verbatim under it; the others are detected against the
    /// effective template set.
    pub fn detect_licenses(&self, candidates: &Vec<String>, files: &Vec<LicenseFileText>) -> (r:
        Result<(Vec<LicenseText>, Vec<MismatchDump>), ResolveError>)
        requires
            self.wf(),
        ensures
            ({
                let pairs = effective_pairs(
                    self.templates@,
                    candidates@.map_values(|s: String| s@),
                );
                match r {
                    Ok((texts, dumps)) => {
                        &&& texts@.len() == files@.len()
                        &&& forall|i: int|
                            0 <= i < files@.len() ==> (match (#[trigger] files@[i]).id {
                                Some(id) => texts@[i].id@ == id@ && texts@[i].text@
                                    == files@[i].text@,
                                None => pairs.len() > 0 && texts@[i].id@ == pairs[best_pair_index(
                                    pairs,
                                    word_table_of(files@[i].text@),
                                )].0 && texts@[i].text@ == files@[i].text@,
                            })
                        &&& dumps@.len() <= files@.len()
                    },
                    Err(e) => {
                        &&& e == ResolveError::NoCandidates
                        &&& pairs.len() == 0
                        &&& exists|i: int|
                            0 <= i < files@.len() && (#[trigger] files@[i]).id is None
                    },
                }
            }),
    {
        let mut texts: Vec<LicenseText> = Vec::new();
        let mut dumps: Vec<MismatchDump> = Vec::new();
        let ghost pairs = effective_pairs(self.templates@, candidates@.map_values(|s: String| s@));
        let mut i: usize = 0;
        while i < files.len()
            invariant
                self.wf(),
                pairs == effective_pairs(
                    self.templates@,
                    candidates@.map_values(|s: String| s@),
                ),
                0 <= i <= files@.len(),
                texts@.len() == i,
                dumps@.len() <= i,
                forall|j: int|
                    0 <= j < i ==> (match (#[trigger] files@[j]).id {
                        Some(id) => texts@[j].id@ == id@ && texts@[j].text@ == files@[j].text@,
                        None => pairs.len() > 0 && texts@[j].id@ == pairs[best_pair_index(
                            pairs,
                            word_table_of(files@[j].text@),
                        )].0 && texts@[j].text@ == files@[j].text@,
                    }),
            decreases files@.len() - i,
        {
            match &files[i].id {
                Some(id) => {
                    texts.push(LicenseText { id: id.clone(), text: files[i].text.clone() });
                },
                None => {
                    match self.detect_license(candidates, files[i].text.as_str()) {
                        Ok(out) => {
                            texts.push(out.best);
                            match out.mismatch {
                                Some(d) => {
                                    dumps.push(d);
                                },
                                None => {},
                            }
                        },
                        Err(e) => {
                            return Err(e);
                        },
                    }
                },
            }
            i = i + 1;
        }
        Ok((texts, dumps))
    }
}

proof fn lemma_candidate_pairs_push(ids: Seq<Seq<char>>, x: Seq<char>)
    ensures
        candidate_pairs(ids.push(x)) == (if known_license_text(x) is Some {
            candidate_pairs(ids).push((x, known_license_text(x).unwrap()))
        } else {
            candidate_pairs(ids)
        }),
    decreases ids.len(),
{
    let p = ids.push(x);
    assert(p.len() > 0);
    if ids.len() == 0 {
        assert(p[0] == x);
        assert(p.drop_first() =~= Seq::<Seq<char>>::empty());
        assert(candidate_pairs(Seq::<Seq<char>>::empty()) =~= Seq::<(Seq<char>, Seq<char>)>::empty());
        if known_license_text(x) is Some {
            assert(candidate_pairs(p) =~= candidate_pairs(ids).push(
                (x, known_license_text(x).unwrap()),
            ));
        }
    } else {
        assert(p[0] == ids[0]);
        assert(p.drop_first() =~= ids.drop_first().push(x));
        lemma_candidate_pairs_push(ids.drop_first(), x);
        assert(candidate_pairs(p) == (if known_license_text(ids[0]) is Some {
            seq![(ids[0], known_license_text(ids[0]).unwrap())] + candidate_pairs(p.drop_first())
        } else {
            candidate_pairs(p.drop_first())
        }));
        assert(candidate_pairs(ids) == (if known_license_text(ids[0]) is Some {
            seq![(ids[0], known_license_text(ids[0]).unwrap())] + candidate_pairs(ids.drop_first())
        } else {
            candidate_pairs(ids.drop_first())
        }));
        if known_license_text(x) is Some {
            assert(candidate_pairs(p) =~= candidate_pairs(ids).push(
                (x, known_license_text(x).unwrap()),
            ));
        } else {
            assert(candidate_pairs(p) =~= candidate_pairs(ids));
        }
    }
}

} // verus!
