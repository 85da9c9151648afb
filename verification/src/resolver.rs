//! Ticker resolution: score the query against every catalog name, keep the
//! single best (first on ties), accept it only above the confidence
//! threshold, and append the exchange suffix unless already present.
use vstd::prelude::*;

use crate::catalog::SymbolRecord;
use crate::errors::ScoutError;
use crate::similarity::score_ppm;

verus! {

/// The resolved ticker of one query.
#[derive(Debug)]
pub struct ResolvedTicker {
    pub symbol: String,
    pub exchange_suffix_applied: bool,
}

/// Longest string the scorer accepts; longer names score zero and a longer
/// query is never confidently matched (a machine limit of the exact
/// arithmetic).
pub const MAX_SCORED_LEN: usize = 0x7FFF_FFFF;

/// Accepting a candidate takes a score strictly above this (in millionths).
pub const CONFIDENCE_THRESHOLD_PPM: u64 = 800000;

/// The exchange suffix appended to symbols resolved from the catalog.
pub open spec fn ns_suffix() -> Seq<char> {
    seq!['.', 'N', 'S']
}

pub open spec fn has_ns_suffix(s: Seq<char>) -> bool {
    s.len() >= 3 && s[s.len() - 3] == '.' && s[s.len() - 2] == 'N' && s[s.len() - 1] == 'S'
}

/// `s`, with the exchange suffix appended unless already present.
pub open spec fn with_ns_suffix(s: Seq<char>) -> Seq<char> {
    if has_ns_suffix(s) {
        s
    } else {
        s + ns_suffix()
    }
}

/// Suffixing is idempotent: a ticker that already carries the exchange
/// suffix is left unchanged, so suffixing twice is suffixing once.
pub proof fn lemma_suffix_idempotent(s: Seq<char>)
    ensures
        with_ns_suffix(with_ns_suffix(s)) == with_ns_suffix(s),
{
    if !has_ns_suffix(s) {
        let t = s + ns_suffix();
        assert(t[t.len() - 3] == '.' && t[t.len() - 2] == 'N' && t[t.len() - 1] == 'S');
    }
}

/// The score of one catalog name, with over-long names scoring zero.
pub open spec fn entry_score(q: Seq<char>, name: Seq<char>) -> int {
    if name.len() > MAX_SCORED_LEN {
        0
    } else {
        score_ppm(q, name)
    }
}

/// The best candidate over `cat[i..]`, starting from best index `bi` with
/// best score `bs`: a later entry wins only with a strictly greater score.
pub open spec fn best_from(
    cat: Seq<(Seq<char>, Seq<char>)>,
    q: Seq<char>,
    i: int,
    bi: int,
    bs: int,
) -> (int, int)
    decreases cat.len() - i,
{
    if i < 0 || i >= cat.len() {
        (bi, bs)
    } else {
        let sc = entry_score(q, cat[i].1);
        if sc > bs {
            best_from(cat, q, i + 1, i, sc)
        } else {
            best_from(cat, q, i + 1, bi, bs)
        }
    }
}

/// The best candidate of the whole catalog: index `-1` when nothing scores
/// above zero.
pub open spec fn spec_best(cat: Seq<(Seq<char>, Seq<char>)>, q: Seq<char>) -> (int, int) {
    best_from(cat, q, 0, -1, 0)
}

/// What resolution returns: the best candidate's symbol, suffixed, if its
/// score clears the threshold; `None` otherwise (including an over-long
/// query, which is never confidently matched).
pub open spec fn spec_resolve(cat: Seq<(Seq<char>, Seq<char>)>, q: Seq<char>) -> Option<
    (Seq<char>, bool),
> {
    if q.len() > MAX_SCORED_LEN {
        None
    } else {
        let best = spec_best(cat, q);
        if best.1 > CONFIDENCE_THRESHOLD_PPM && 0 <= best.0 < cat.len() {
            let sym = cat[best.0].0;
            Some((with_ns_suffix(sym), !has_ns_suffix(sym)))
        } else {
            None
        }
    }
}

/// Appends the exchange suffix unless the symbol already ends with it; the
/// flag says whether the suffix was added.
pub fn ensure_ns_suffix(symbol: &str) -> (r: (String, bool))
    ensures
        r.0@ == with_ns_suffix(symbol@),
        r.1 == !has_ns_suffix(symbol@),
{
    let chars = crate::text::str_to_chars(symbol);
    let n = chars.len();
    let has = n >= 3 && chars[n - 1] == 'S' && chars[n - 2] == 'N' && chars[n - 3] == '.';
    proof {
        assert(has == has_ns_suffix(symbol@));
    }
    if has {
        (symbol.to_owned(), false)
    } else {
        let mut s = symbol.to_owned();
        s.append(".NS");
        proof {
            reveal_strlit(".NS");
            assert(".NS"@ =~= ns_suffix());
        }
        (s, true)
    }
}

/// Scores `query` against every catalog name and returns the resolved
/// ticker of the best candidate, provided its score strictly clears the
/// confidence threshold; otherwise reports `NoConfidentMatch`. Ties keep the
/// earliest catalog entry.
#[verifier::loop_isolation(false)]
pub fn resolve_ticker(catalog: &Vec<SymbolRecord>, query: &str) -> (r: Result<
    ResolvedTicker,
    ScoutError,
>)
    ensures
        match r {
            Ok(t) => spec_resolve(crate::catalog::catalog_view(catalog@), query@) == Some(
                (t.symbol@, t.exchange_suffix_applied),
            ),
            Err(e) => e == ScoutError::NoConfidentMatch && spec_resolve(
                crate::catalog::catalog_view(catalog@),
                query@,
            ) is None,
        },
{
    let ghost cat = crate::catalog::catalog_view(catalog@);
    let qlen = query.unicode_len();
    if qlen > MAX_SCORED_LEN {
        return Err(ScoutError::NoConfidentMatch);
    }
    let n = catalog.len();
    let mut best_set = false;
    let mut best_i: usize = 0;
    let mut best_s: u64 = 0;
    let mut i: usize = 0;
    while i < n
        invariant
            i <= n == catalog@.len(),
            cat == crate::catalog::catalog_view(catalog@),
            cat.len() == n,
            qlen == query@.len() <= MAX_SCORED_LEN,
            best_set ==> best_i < i,
            !best_set ==> best_s == 0,
            spec_best(cat, query@) == best_from(
                cat,
                query@,
                i as int,
                if best_set {
                    best_i as int
                } else {
                    -1
                },
                best_s as int,
            ),
        decreases n - i,
    {
        proof {
            assert(cat[i as int] == (catalog@[i as int].symbol@, catalog@[i as int].name@));
        }
        let rec = &catalog[i];
        let nlen = rec.name.as_str().unicode_len();
        if nlen <= MAX_SCORED_LEN {
            let sc = crate::similarity::similarity_score_ppm(query, rec.name.as_str());
            proof {
                assert(entry_score(query@, cat[i as int].1) == sc as int);
            }
            if sc > best_s {
                best_set = true;
                best_i = i;
                best_s = sc;
            }
        } else {
            proof {
                assert(entry_score(query@, cat[i as int].1) == 0);
            }
        }
        i = i + 1;
    }
    if best_set && best_s > CONFIDENCE_THRESHOLD_PPM {
        let rec = &catalog[best_i];
        let (symbol, applied) = ensure_ns_suffix(rec.symbol.as_str());
        proof {
            assert(cat[best_i as int].0 == catalog@[best_i as int].symbol@);
        }
        Ok(ResolvedTicker { symbol, exchange_suffix_applied: applied })
    } else {
        proof {
            if !best_set {
                assert(spec_best(cat, query@).1 == 0);
            }
        }
        Err(ScoutError::NoConfidentMatch)
    }
}

/// Every entry score lies between zero and one million millionths.
pub proof fn lemma_entry_score_bounds(q: Seq<char>, name: Seq<char>)
    ensures
        0 <= entry_score(q, name) <= 1000000,
{
    if name.len() <= MAX_SCORED_LEN {
        crate::similarity::lemma_jw_ppm_bounds(
            crate::similarity::lower_seq(q),
            crate::similarity::lower_seq(name),
        );
    }
}

/// With every score at or below the threshold, the best never exceeds it.
proof fn lemma_best_bounded(cat: Seq<(Seq<char>, Seq<char>)>, q: Seq<char>, i: int, bi: int, bs: int, bound: int)
    requires
        forall|j: int| 0 <= j < cat.len() ==> entry_score(q, (#[trigger] cat[j]).1) <= bound,
        bs <= bound,
    ensures
        best_from(cat, q, i, bi, bs).1 <= bound,
    decreases cat.len() - i,
{
    if 0 <= i < cat.len() {
        let sc = entry_score(q, cat[i].1);
        if sc > bs {
            lemma_best_bounded(cat, q, i + 1, i, sc, bound);
        } else {
            lemma_best_bounded(cat, q, i + 1, bi, bs, bound);
        }
    }
}

/// A query that clears the threshold on no catalog entry resolves to
/// nothing: the matcher reports no confident match.
pub proof fn lemma_no_confident_match(cat: Seq<(Seq<char>, Seq<char>)>, q: Seq<char>)
    requires
        forall|j: int|
            0 <= j < cat.len() ==> entry_score(q, (#[trigger] cat[j]).1)
                <= CONFIDENCE_THRESHOLD_PPM,
    ensures
        spec_resolve(cat, q) is None,
{
    if q.len() <= MAX_SCORED_LEN {
        lemma_best_bounded(cat, q, 0, -1, 0, CONFIDENCE_THRESHOLD_PPM as int);
    }
}

/// Once the maximum is held, it is held to the end.
proof fn lemma_best_stays(cat: Seq<(Seq<char>, Seq<char>)>, q: Seq<char>, k: int, i: int)
    requires
        forall|j: int| 0 <= j < cat.len() ==> entry_score(q, (#[trigger] cat[j]).1) <= 1000000,
    ensures
        best_from(cat, q, k, i, 1000000) == (i, 1000000int),
    decreases cat.len() - k,
{
    if 0 <= k < cat.len() {
        lemma_best_stays(cat, q, k + 1, i);
    }
}

/// While every score so far stays below one million, the first perfect entry
/// becomes and remains the best.
proof fn lemma_best_hits(
    cat: Seq<(Seq<char>, Seq<char>)>,
    q: Seq<char>,
    k: int,
    i: int,
    bi: int,
    bs: int,
)
    requires
        0 <= k <= i < cat.len(),
        forall|j: int| 0 <= j < cat.len() ==> entry_score(q, (#[trigger] cat[j]).1) <= 1000000,
        forall|j: int| k <= j < i ==> entry_score(q, (#[trigger] cat[j]).1) < 1000000,
        entry_score(q, cat[i].1) == 1000000,
        0 <= bs < 1000000,
    ensures
        best_from(cat, q, k, bi, bs) == (i, 1000000int),
    decreases cat.len() - k,
{
    if k < i {
        let sc = entry_score(q, cat[k].1);
        if sc > bs {
            lemma_best_hits(cat, q, k + 1, i, k, sc);
        } else {
            lemma_best_hits(cat, q, k + 1, i, bi, bs);
        }
    } else {
        lemma_best_stays(cat, q, k + 1, i);
    }
}

/// Resolving the exact name of a catalog entry (up to letter case) returns
/// that entry's symbol with the exchange suffix applied — provided no
/// earlier entry carries the same name up to letter case, since ties keep
/// the first entry. (Only a string scores perfectly against itself, so every
/// earlier, differently named entry scores strictly below one million.)
pub proof fn lemma_resolve_exact_name(cat: Seq<(Seq<char>, Seq<char>)>, q: Seq<char>, i: int)
    requires
        0 <= i < cat.len(),
        q.len() <= MAX_SCORED_LEN,
        cat[i].1.len() <= MAX_SCORED_LEN,
        crate::similarity::lower_seq(q) == crate::similarity::lower_seq(cat[i].1),
        forall|j: int|
            0 <= j < i ==> crate::similarity::lower_seq((#[trigger] cat[j]).1)
                != crate::similarity::lower_seq(q),
    ensures
        spec_resolve(cat, q) == Some((with_ns_suffix(cat[i].0), !has_ns_suffix(cat[i].0))),
{
    crate::similarity::lemma_jw_ppm_self(crate::similarity::lower_seq(q));
    assert(entry_score(q, cat[i].1) == 1000000);
    assert forall|j: int|
        0 <= j < cat.len() implies entry_score(q, (#[trigger] cat[j]).1) <= 1000000 by {
        lemma_entry_score_bounds(q, cat[j].1);
    }
    assert forall|j: int| 0 <= j < i implies entry_score(q, (#[trigger] cat[j]).1) < 1000000 by {
        lemma_entry_score_bounds(q, cat[j].1);
        if entry_score(q, cat[j].1) == 1000000 {
            crate::similarity::lemma_jw_ppm_perfect(
                crate::similarity::lower_seq(q),
                crate::similarity::lower_seq(cat[j].1),
            );
            assert(false);
        }
    }
    lemma_best_hits(cat, q, 0, i, -1, 0);
    assert(spec_best(cat, q) == (i, 1000000int));
}

} // verus!
