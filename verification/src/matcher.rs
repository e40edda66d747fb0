//! Pattern matching: filtering candidate files against the flattened,
//! ordered pattern list to produce load targets. Each pattern is
//! compiled to match the end of a path, anchored after a path-separator
//! boundary; a pattern that does not compile is fatal.
use vstd::prelude::*;
use crate::config::{views_of, SetupError};
use crate::scan::{cand_models, CandidateFile, FileModel};

verus! {

/// A candidate that matched a pattern, tagged with its size. A file
/// matching several patterns yields one target per match.
pub struct LoadTarget {
    pub path: String,
    pub size: u64,
}

/// Whether a regular-expression pattern compiles, under the size limit
/// the matcher always sets. A function of the pattern text alone.
pub uninterp spec fn regex_compiles(pattern: Seq<char>) -> bool;

/// Whether a compiled regular-expression pattern matches a text. A
/// function of the pattern and text alone.
pub uninterp spec fn regex_matches(pattern: Seq<char>, text: Seq<char>) -> bool;

/// The anchored form of a suffix pattern: `/<pattern>\z`, so the
/// pattern must match a full trailing path-segment sequence, not an
/// arbitrary substring.
pub open spec fn anchored(pattern: Seq<char>) -> Seq<char> {
    seq!['/'] + pattern + seq!['\\', 'z']
}

/// A suffix pattern is accepted when its anchored form compiles.
pub open spec fn suffix_pattern_ok(pattern: Seq<char>) -> bool {
    regex_compiles(anchored(pattern))
}

/// What a suffix pattern matching a path means: its anchored form
/// matches the path text.
pub open spec fn suffix_pattern_matches(pattern: Seq<char>, path: Seq<char>) -> bool {
    regex_matches(anchored(pattern), path)
}

/// Relies on `regex::RegexBuilder::build`, always under the same size
/// limit: whether a pattern compiles is a function of the pattern text
/// alone.
#[verifier::external_body]
fn regex_ok(pattern: &str) -> (r: bool)
    ensures
        r == regex_compiles(pattern@),
{
    regex::RegexBuilder::new(pattern).size_limit(u16::MAX as usize).build().is_ok()
}

/// Relies on `regex::RegexBuilder::build` and `regex::Regex::is_match`:
/// both are functions of the pattern and text alone, so building the
/// pattern afresh and querying it returns the pattern's match verdict
/// for this text.
#[verifier::external_body]
fn regex_match(pattern: &str, text: &str) -> (r: bool)
    requires
        regex_compiles(pattern@),
    ensures
        r == regex_matches(pattern@, text@),
{
    let re = regex::RegexBuilder::new(pattern).size_limit(u16::MAX as usize).build().unwrap();
    re.is_match(text)
}

/// Builds the anchored form of a suffix pattern.
fn anchor_pattern(pattern: &str) -> (r: String)
    ensures
        r@ == anchored(pattern@),
{
    let mut s = String::new();
    proof {
        reveal_strlit("/");
        reveal_strlit("\\z");
    }
    s.append("/");
    s.append(pattern);
    s.append("\\z");
    proof {
        assert(s@ =~= anchored(pattern@));
    }
    s
}

/// The models of a sequence of load targets.
pub open spec fn target_models(ts: Seq<LoadTarget>) -> Seq<FileModel> {
    ts.map_values(|t: LoadTarget| FileModel { path: t.path@, size: t.size })
}

/// The candidates one pattern selects, in candidate order.
pub open spec fn matches_for_pattern(pat: Seq<char>, cands: Seq<FileModel>) -> Seq<FileModel>
    decreases cands.len(),
{
    if cands.len() == 0 {
        Seq::empty()
    } else {
        let rest = matches_for_pattern(pat, cands.drop_last());
        if suffix_pattern_matches(pat, cands.last().path) {
            rest.push(cands.last())
        } else {
            rest
        }
    }
}

/// The whole load-target list: for each pattern in order, every
/// matching candidate in candidate order. A candidate matching several
/// patterns appears once per match.
pub open spec fn all_matches(pats: Seq<Seq<char>>, cands: Seq<FileModel>) -> Seq<FileModel>
    decreases pats.len(),
{
    if pats.len() == 0 {
        Seq::empty()
    } else {
        all_matches(pats.drop_last(), cands) + matches_for_pattern(pats.last(), cands)
    }
}

/// Whether every pattern's anchored form compiles.
pub open spec fn all_patterns_ok(pats: Seq<Seq<char>>) -> bool {
    forall|i: int| 0 <= i < pats.len() ==> suffix_pattern_ok(#[trigger] pats[i])
}

/// The first pattern whose anchored form does not compile.
pub open spec fn first_bad_pattern(pats: Seq<Seq<char>>) -> Seq<char>
    decreases pats.len(),
{
    if pats.len() == 0 {
        Seq::empty()
    } else if !suffix_pattern_ok(pats[0]) {
        pats[0]
    } else {
        first_bad_pattern(pats.drop_first())
    }
}

proof fn lemma_first_bad_is_first(pats: Seq<Seq<char>>, i: int)
    requires
        0 <= i < pats.len(),
        forall|k: int| 0 <= k < i ==> suffix_pattern_ok(#[trigger] pats[k]),
        !suffix_pattern_ok(pats[i]),
    ensures
        first_bad_pattern(pats) == pats[i],
    decreases i,
{
    if i > 0 {
        lemma_first_bad_is_first(pats.drop_first(), i - 1);
    }
}

proof fn lemma_matches_step(pat: Seq<char>, cands: Seq<FileModel>, k: int)
    requires
        0 <= k < cands.len(),
    ensures
        suffix_pattern_matches(pat, cands[k].path) ==> matches_for_pattern(pat, cands.take(k + 1))
            =~~= matches_for_pattern(pat, cands.take(k)).push(cands[k]),
        !suffix_pattern_matches(pat, cands[k].path) ==> matches_for_pattern(pat, cands.take(k + 1))
            =~~= matches_for_pattern(pat, cands.take(k)),
{
    assert(cands.take(k + 1).drop_last() =~~= cands.take(k));
    assert(cands.take(k + 1).last() == cands[k]);
}

/// Builds the load-target list: for each pattern, in order, every
/// candidate whose path the anchored pattern matches, with the
/// candidate's size. A pattern that does not compile is fatal.
#[verifier::loop_isolation(false)]
pub fn match_targets(patterns: &Vec<String>, candidates: &Vec<CandidateFile>) -> (r: Result<
    Vec<LoadTarget>,
    SetupError,
>)
    ensures
        all_patterns_ok(views_of(patterns@)) ==> (r matches Ok(ts) && target_models(ts@)
            == all_matches(views_of(patterns@), cand_models(candidates@))),
        !all_patterns_ok(views_of(patterns@)) ==> (r matches Err(e)
            && e matches SetupError::BadPattern(p) && p@ == first_bad_pattern(
            views_of(patterns@),
        )),
{
    let np = patterns.len();
    // Every pattern must compile before any matching is done.
    let mut pi: usize = 0;
    while pi < np
        invariant
            0 <= pi <= np,
            forall|k: int| 0 <= k < pi ==> suffix_pattern_ok(#[trigger] views_of(patterns@)[k]),
        decreases np - pi,
    {
        let a = anchor_pattern(patterns[pi].as_str());
        if !regex_ok(a.as_str()) {
            proof {
                lemma_first_bad_is_first(views_of(patterns@), pi as int);
            }
            return Err(SetupError::BadPattern(patterns[pi].clone()));
        }
        pi = pi + 1;
    }
    let nc = candidates.len();
    let mut out: Vec<LoadTarget> = Vec::new();
    let mut p: usize = 0;
    while p < np
        invariant
            0 <= p <= np,
            target_models(out@) =~~= all_matches(
                views_of(patterns@).take(p as int),
                cand_models(candidates@),
            ),
        decreases np - p,
    {
        let a = anchor_pattern(patterns[p].as_str());
        let mut c: usize = 0;
        while c < nc
            invariant
                0 <= c <= nc,
                a@ == anchored(patterns@[p as int]@),
                target_models(out@) =~~= all_matches(
                    views_of(patterns@).take(p as int),
                    cand_models(candidates@),
                ) + matches_for_pattern(
                    views_of(patterns@)[p as int],
                    cand_models(candidates@).take(c as int),
                ),
            decreases nc - c,
        {
            proof {
                lemma_matches_step(
                    views_of(patterns@)[p as int],
                    cand_models(candidates@),
                    c as int,
                );
            }
            if regex_match(a.as_str(), candidates[c].path.as_str()) {
                let path = candidates[c].path.clone();
                let size = candidates[c].size;
                let ghost prev_out = out@;
                let ghost cm = FileModel { path: path@, size: size };
                out.push(LoadTarget { path, size });
                proof {
                    assert(cm =~~= cand_models(candidates@)[c as int]);
                    assert(target_models(out@) =~~= target_models(prev_out).push(cm));
                    assert(target_models(out@) =~~= all_matches(
                        views_of(patterns@).take(p as int),
                        cand_models(candidates@),
                    ) + matches_for_pattern(
                        views_of(patterns@)[p as int],
                        cand_models(candidates@).take(c as int + 1),
                    ));
                }
            } else {
                proof {
                    assert(target_models(out@) =~~= all_matches(
                        views_of(patterns@).take(p as int),
                        cand_models(candidates@),
                    ) + matches_for_pattern(
                        views_of(patterns@)[p as int],
                        cand_models(candidates@).take(c as int + 1),
                    ));
                }
            }
            c = c + 1;
        }
        proof {
            assert(cand_models(candidates@).take(nc as int) =~~= cand_models(candidates@));
            assert(views_of(patterns@).take(p as int + 1).drop_last() =~~= views_of(
                patterns@,
            ).take(p as int));
            assert(views_of(patterns@).take(p as int + 1).last() == views_of(patterns@)[p as int]);
            assert(target_models(out@) =~~= all_matches(
                views_of(patterns@).take(p as int + 1),
                cand_models(candidates@),
            ));
        }
        p = p + 1;
    }
    proof {
        assert(views_of(patterns@).take(np as int) =~~= views_of(patterns@));
    }
    Ok(out)
}

} // verus!
