//! Similarity scoring of company names with Jaro-Winkler semantics: greedy
//! window-bounded matching, transposition counting, and a bounded
//! common-prefix boost. Scores are exact integers in millionths (a score of
//! 1000000 means identical strings), so no floating point enters the library.
use vstd::prelude::*;

verus! {

/// The ASCII lowercase fold applied before scoring.
pub open spec fn lower_char(c: char) -> char {
    match c {
        'A' => 'a',
        'B' => 'b',
        'C' => 'c',
        'D' => 'd',
        'E' => 'e',
        'F' => 'f',
        'G' => 'g',
        'H' => 'h',
        'I' => 'i',
        'J' => 'j',
        'K' => 'k',
        'L' => 'l',
        'M' => 'm',
        'N' => 'n',
        'O' => 'o',
        'P' => 'p',
        'Q' => 'q',
        'R' => 'r',
        'S' => 's',
        'T' => 't',
        'U' => 'u',
        'V' => 'v',
        'W' => 'w',
        'X' => 'x',
        'Y' => 'y',
        'Z' => 'z',
        _ => c,
    }
}

pub open spec fn lower_seq(s: Seq<char>) -> Seq<char> {
    s.map_values(|c: char| lower_char(c))
}

/// Folding is idempotent: folding a folded string changes nothing.
pub proof fn lemma_lower_idempotent(s: Seq<char>)
    ensures
        lower_seq(lower_seq(s)) == lower_seq(s),
{
    assert forall|i: int| 0 <= i < s.len() implies lower_seq(lower_seq(s))[i] == lower_seq(s)[i] by {
        assert(lower_seq(s)[i] == lower_char(s[i]));
        assert(lower_seq(lower_seq(s))[i] == lower_char(lower_char(s[i])));
    }
    assert(lower_seq(lower_seq(s)) =~= lower_seq(s));
}

/// The matching window half-width: half the longer length, less one.
pub open spec fn search_range(al: int, bl: int) -> int {
    let m = if al >= bl {
        al
    } else {
        bl
    };
    if m / 2 >= 1 {
        m / 2 - 1
    } else {
        0
    }
}

pub open spec fn lo_bound(i: int, sr: int) -> int {
    if i > sr {
        i - sr
    } else {
        0
    }
}

pub open spec fn hi_bound(i: int, sr: int, bl: int) -> int {
    if i + sr + 1 <= bl {
        i + sr + 1
    } else {
        bl
    }
}

/// Lowest unmatched position in `b[j..hi)` holding `c`.
pub open spec fn find_candidate(c: char, b: Seq<char>, bf: Seq<bool>, j: int, hi: int) -> Option<
    int,
>
    decreases hi - j,
{
    if j < 0 || j >= hi || hi > b.len() {
        None
    } else if !bf[j] && b[j] == c {
        Some(j)
    } else {
        find_candidate(c, b, bf, j + 1, hi)
    }
}

/// Greedy matching from position `i` of `a` on: each character of `a` takes
/// the lowest unmatched window position of `b` holding the same character.
/// Returns the match flags for `a` and for `b`.
pub open spec fn match_flags(
    a: Seq<char>,
    b: Seq<char>,
    i: int,
    af: Seq<bool>,
    bf: Seq<bool>,
) -> (Seq<bool>, Seq<bool>)
    decreases a.len() - i,
{
    if i < 0 || i >= a.len() {
        (af, bf)
    } else {
        let sr = search_range(a.len() as int, b.len() as int);
        match find_candidate(a[i], b, bf, lo_bound(i, sr), hi_bound(i, sr, b.len() as int)) {
            Some(j) => match_flags(a, b, i + 1, af.update(i, true), bf.update(j, true)),
            None => match_flags(a, b, i + 1, af, bf),
        }
    }
}

pub open spec fn init_flags(n: int) -> Seq<bool> {
    Seq::new(n as nat, |i: int| false)
}

pub open spec fn jw_flags(a: Seq<char>, b: Seq<char>) -> (Seq<bool>, Seq<bool>) {
    match_flags(a, b, 0, init_flags(a.len() as int), init_flags(b.len() as int))
}

pub open spec fn count_true(s: Seq<bool>) -> int
    decreases s.len(),
{
    if s.len() == 0 {
        0
    } else {
        (if s.first() {
            1int
        } else {
            0int
        }) + count_true(s.drop_first())
    }
}

/// The characters of `s[i..]` sitting at marked positions, in order.
pub open spec fn marked_chars(s: Seq<char>, f: Seq<bool>, i: int) -> Seq<char>
    decreases s.len() - i,
{
    if i < 0 || i >= s.len() {
        Seq::<char>::empty()
    } else if f[i] {
        seq![s[i]] + marked_chars(s, f, i + 1)
    } else {
        marked_chars(s, f, i + 1)
    }
}

/// Positions at which two equally long sequences disagree.
pub open spec fn mismatch_count(x: Seq<char>, y: Seq<char>) -> int
    decreases x.len(),
{
    if x.len() == 0 || y.len() == 0 {
        0
    } else {
        (if x.first() != y.first() {
            1int
        } else {
            0int
        }) + mismatch_count(x.drop_first(), y.drop_first())
    }
}

/// The Jaro similarity of `a` and `b` as an exact fraction
/// `(numerator, denominator)`, not reduced; the denominator is positive.
pub open spec fn jaro_frac(a: Seq<char>, b: Seq<char>) -> (int, int) {
    let al = a.len() as int;
    let bl = b.len() as int;
    if al == 0 && bl == 0 {
        (1, 1)
    } else if al == 0 || bl == 0 {
        (0, 1)
    } else {
        let flags = jw_flags(a, b);
        let m = count_true(flags.1);
        if m == 0 {
            (0, 1)
        } else {
            let t2 = mismatch_count(
                marked_chars(a, flags.0, 0),
                marked_chars(b, flags.1, 0),
            );
            let t = t2 / 2;
            (m * m * bl + m * m * al + (m - t) * al * bl, 3 * al * bl * m)
        }
    }
}

/// Common prefix length of `a` and `b`, capped.
pub open spec fn common_prefix_len(a: Seq<char>, b: Seq<char>, cap: int) -> int
    decreases cap,
{
    if cap <= 0 || a.len() == 0 || b.len() == 0 || a.first() != b.first() {
        0
    } else {
        1 + common_prefix_len(a.drop_first(), b.drop_first(), cap - 1)
    }
}

/// The Jaro-Winkler score in millionths, rounded down: the Jaro similarity,
/// boosted towards one by a tenth per shared prefix character (at most four)
/// whenever the similarity exceeds seven tenths.
pub open spec fn jw_ppm(a: Seq<char>, b: Seq<char>) -> int {
    let frac = jaro_frac(a, b);
    if 10 * frac.0 > 7 * frac.1 {
        let l = common_prefix_len(a, b, 4);
        (1000000 * ((10 - l) * frac.0 + l * frac.1)) / (10 * frac.1)
    } else {
        (1000000 * frac.0) / frac.1
    }
}

/// What the similarity matcher scores: both sides are case-folded first.
pub open spec fn score_ppm(query: Seq<char>, name: Seq<char>) -> int {
    jw_ppm(lower_seq(query), lower_seq(name))
}

proof fn lemma_count_le_len(s: Seq<bool>)
    ensures
        0 <= count_true(s) <= s.len(),
    decreases s.len(),
{
    if s.len() > 0 {
        lemma_count_le_len(s.drop_first());
    }
}

proof fn lemma_count_update(s: Seq<bool>, j: int)
    requires
        0 <= j < s.len(),
        !s[j],
    ensures
        count_true(s.update(j, true)) == count_true(s) + 1,
    decreases s.len(),
{
    if j == 0 {
        assert(s.update(0, true).drop_first() =~= s.drop_first());
    } else {
        lemma_count_update(s.drop_first(), j - 1);
        assert(s.update(j, true).drop_first() =~= s.drop_first().update(j - 1, true));
    }
}

fn lower_char_exec(c: char) -> (r: char)
    ensures
        r == lower_char(c),
{
    match c {
        'A' => 'a',
        'B' => 'b',
        'C' => 'c',
        'D' => 'd',
        'E' => 'e',
        'F' => 'f',
        'G' => 'g',
        'H' => 'h',
        'I' => 'i',
        'J' => 'j',
        'K' => 'k',
        'L' => 'l',
        'M' => 'm',
        'N' => 'n',
        'O' => 'o',
        'P' => 'p',
        'Q' => 'q',
        'R' => 'r',
        'S' => 's',
        'T' => 't',
        'U' => 'u',
        'V' => 'v',
        'W' => 'w',
        'X' => 'x',
        'Y' => 'y',
        'Z' => 'z',
        _ => c,
    }
}

/// ASCII-folds every character.
pub fn lower_chars(v: &Vec<char>) -> (r: Vec<char>)
    ensures
        r@ == lower_seq(v@),
{
    let mut out: Vec<char> = Vec::new();
    let mut i: usize = 0;
    while i < v.len()
        invariant
            i <= v@.len(),
            out@.len() == i,
            forall|t: int| 0 <= t < i ==> out@[t] == lower_char(v@[t]),
        decreases v@.len() - i,
    {
        let c = v[i];
        out.push(lower_char_exec(c));
        i = i + 1;
    }
    proof {
        assert forall|t: int| 0 <= t < v@.len() implies out@[t] == lower_seq(v@)[t] by {
            assert(lower_seq(v@)[t] == lower_char(v@[t]));
        }
        assert(out@ =~= lower_seq(v@));
    }
    out
}

/// Lowest unmatched window position of `b` holding `c`.
fn find_cand(c: char, b: &Vec<char>, bf: &Vec<bool>, lo: usize, hi: usize) -> (r: Option<usize>)
    requires
        bf@.len() == b@.len(),
        hi <= b@.len(),
    ensures
        match r {
            Some(j) => find_candidate(c, b@, bf@, lo as int, hi as int) == Some(j as int) && lo
                <= j < hi && !bf@[j as int] && b@[j as int] == c,
            None => find_candidate(c, b@, bf@, lo as int, hi as int) is None,
        },
{
    let mut j = lo;
    while j < hi
        invariant
            lo <= j,
            hi <= b@.len() == bf@.len(),
            find_candidate(c, b@, bf@, lo as int, hi as int) == find_candidate(
                c,
                b@,
                bf@,
                j as int,
                hi as int,
            ),
        decreases hi - j,
    {
        if !bf[j] && b[j] == c {
            return Some(j);
        }
        j = j + 1;
    }
    None
}

/// Greedy window-bounded matching; yields the two flag vectors and the
/// number of matches.
#[verifier::loop_isolation(false)]
fn compute_flags(a: &Vec<char>, b: &Vec<char>) -> (r: (Vec<bool>, Vec<bool>, usize))
    requires
        1 <= a@.len() <= 0x7FFF_FFFFusize,
        1 <= b@.len() <= 0x7FFF_FFFFusize,
    ensures
        (r.0@, r.1@) == jw_flags(a@, b@),
        r.0@.len() == a@.len(),
        r.1@.len() == b@.len(),
        r.2 == count_true(r.1@),
        r.2 == count_true(r.0@),
        r.2 <= a@.len(),
        r.2 <= b@.len(),
{
    let al = a.len();
    let bl = b.len();
    let ml = if al >= bl {
        al
    } else {
        bl
    };
    let sr = if ml / 2 >= 1 {
        ml / 2 - 1
    } else {
        0
    };
    proof {
        assert(sr == search_range(al as int, bl as int));
    }
    let mut af: Vec<bool> = Vec::new();
    while af.len() < al
        invariant
            af@.len() <= al,
            forall|t: int| 0 <= t < af@.len() ==> !(#[trigger] af@[t]),
        decreases al - af@.len(),
    {
        af.push(false);
    }
    let mut bf: Vec<bool> = Vec::new();
    while bf.len() < bl
        invariant
            bf@.len() <= bl,
            forall|t: int| 0 <= t < bf@.len() ==> !(#[trigger] bf@[t]),
        decreases bl - bf@.len(),
    {
        bf.push(false);
    }
    proof {
        assert(af@ =~= init_flags(al as int));
        assert(bf@ =~= init_flags(bl as int));
        assert(count_true(af@) == 0) by {
            lemma_count_le_len(af@);
            if count_true(af@) > 0 {
                lemma_count_nonzero_has_true(af@);
            }
        }
        assert(count_true(bf@) == 0) by {
            lemma_count_le_len(bf@);
            if count_true(bf@) > 0 {
                lemma_count_nonzero_has_true(bf@);
            }
        }
    }
    let mut m: usize = 0;
    let mut i: usize = 0;
    while i < al
        invariant
            i <= al == a@.len(),
            bl == b@.len(),
            af@.len() == al,
            bf@.len() == bl,
            jw_flags(a@, b@) == match_flags(a@, b@, i as int, af@, bf@),
            m == count_true(bf@),
            m == count_true(af@),
            m <= i,
            forall|t: int| i <= t < al ==> !(#[trigger] af@[t]),
        decreases al - i,
    {
        let lo = if i > sr {
            i - sr
        } else {
            0
        };
        let hi = if i + sr + 1 <= bl {
            i + sr + 1
        } else {
            bl
        };
        proof {
            assert(lo == lo_bound(i as int, sr as int));
            assert(hi == hi_bound(i as int, sr as int, bl as int));
        }
        let c = a[i];
        match find_cand(c, b, &bf, lo, hi) {
            Some(j) => {
                proof {
                    lemma_count_update(bf@, j as int);
                    lemma_count_update(af@, i as int);
                }
                af.set(i, true);
                bf.set(j, true);
                m = m + 1;
            },
            None => {},
        }
        i = i + 1;
    }
    proof {
        lemma_count_le_len(bf@);
        lemma_count_le_len(af@);
    }
    (af, bf, m)
}

/// A positive count means some position is marked.
proof fn lemma_count_nonzero_has_true(s: Seq<bool>)
    requires
        count_true(s) > 0,
    ensures
        exists|t: int| 0 <= t < s.len() && s[t],
    decreases s.len(),
{
    if s.len() > 0 {
        if s.first() {
            assert(0 <= 0 < s.len() && s[0]);
        } else {
            lemma_count_nonzero_has_true(s.drop_first());
            let t = choose|t: int| 0 <= t < s.drop_first().len() && s.drop_first()[t];
            assert(s[t + 1]);
        }
    }
}

/// Position of the next marked flag at or after `from` (one must exist);
/// skipping unmarked positions changes no marked character.
fn next_marked(b: &Vec<char>, bf: &Vec<bool>, from: usize) -> (r: usize)
    requires
        bf@.len() == b@.len(),
        from <= bf@.len(),
        count_true(bf@.skip(from as int)) >= 1,
    ensures
        from <= r < bf@.len(),
        bf@[r as int],
        marked_chars(b@, bf@, from as int) == marked_chars(b@, bf@, r as int),
        count_true(bf@.skip(from as int)) == count_true(bf@.skip(r as int)),
{
    let n = bf.len();
    let mut k = from;
    loop
        invariant
            n == bf@.len(),
            from <= k <= bf@.len() == b@.len(),
            count_true(bf@.skip(k as int)) == count_true(bf@.skip(from as int)),
            count_true(bf@.skip(from as int)) >= 1,
            marked_chars(b@, bf@, from as int) == marked_chars(b@, bf@, k as int),
        decreases bf@.len() - k,
    {
        proof {
            if k >= bf@.len() {
                assert(bf@.skip(k as int) =~= Seq::<bool>::empty());
                assert(count_true(Seq::<bool>::empty()) == 0);
                assert(false);
            }
        }
        if bf[k] {
            return k;
        }
        proof {
            assert(bf@.skip(k as int).first() == bf@[k as int]);
            assert(bf@.skip(k as int).drop_first() =~= bf@.skip(k + 1));
            assert(marked_chars(b@, bf@, k as int) == marked_chars(b@, bf@, k + 1));
        }
        k = k + 1;
    }
}

/// Counts the positions at which the matched characters of `a` (in order)
/// disagree with the matched characters of `b` (in order).
#[verifier::loop_isolation(false)]
fn count_transpositions(
    a: &Vec<char>,
    b: &Vec<char>,
    af: &Vec<bool>,
    bf: &Vec<bool>,
    m: usize,
) -> (t2: usize)
    requires
        af@.len() == a@.len(),
        bf@.len() == b@.len(),
        count_true(af@) == m,
        count_true(bf@) == m,
        m <= a@.len(),
    ensures
        t2 as int == mismatch_count(marked_chars(a@, af@, 0), marked_chars(b@, bf@, 0)),
        t2 <= m,
{
    let al = a.len();
    let bl = b.len();
    let ghost ma0 = marked_chars(a@, af@, 0);
    let ghost mb0 = marked_chars(b@, bf@, 0);
    let mut t2: usize = 0;
    let mut i: usize = 0;
    let mut k: usize = 0;
    proof {
        assert(af@.skip(0) =~= af@);
        assert(bf@.skip(0) =~= bf@);
    }
    while i < al
        invariant
            i <= al,
            k <= bl,
            count_true(af@.skip(i as int)) == count_true(bf@.skip(k as int)),
            mismatch_count(ma0, mb0) == t2 + mismatch_count(
                marked_chars(a@, af@, i as int),
                marked_chars(b@, bf@, k as int),
            ),
            t2 + count_true(af@.skip(i as int)) <= m,
        decreases al - i,
    {
        if af[i] {
            proof {
                assert(af@.skip(i as int).first() == af@[i as int]);
                assert(af@.skip(i as int).drop_first() =~= af@.skip(i + 1));
                assert(count_true(af@.skip(i as int)) == 1 + count_true(af@.skip(i + 1)));
                lemma_count_le_len(af@.skip(i + 1));
            }
            let kn = next_marked(b, bf, k);
            proof {
                assert(bf@.skip(kn as int).first() == bf@[kn as int]);
                assert(bf@.skip(kn as int).drop_first() =~= bf@.skip(kn + 1));
                assert(count_true(bf@.skip(kn as int)) == 1 + count_true(bf@.skip(kn + 1)));
                assert(marked_chars(a@, af@, i as int) == seq![a@[i as int]] + marked_chars(
                    a@,
                    af@,
                    i + 1,
                ));
                assert(marked_chars(b@, bf@, kn as int) == seq![b@[kn as int]] + marked_chars(
                    b@,
                    bf@,
                    kn + 1,
                ));
                let xs = marked_chars(a@, af@, i + 1);
                let ys = marked_chars(b@, bf@, kn + 1);
                assert((seq![a@[i as int]] + xs).first() == a@[i as int]);
                assert((seq![b@[kn as int]] + ys).first() == b@[kn as int]);
                assert((seq![a@[i as int]] + xs).drop_first() =~= xs);
                assert((seq![b@[kn as int]] + ys).drop_first() =~= ys);
                assert((seq![a@[i as int]] + xs).len() > 0);
                assert((seq![b@[kn as int]] + ys).len() > 0);
            }
            let ca = a[i];
            let cb = b[kn];
            if ca != cb {
                t2 = t2 + 1;
            }
            k = kn + 1;
        } else {
            proof {
                assert(af@.skip(i as int).first() == af@[i as int]);
                assert(af@.skip(i as int).drop_first() =~= af@.skip(i + 1));
                assert(marked_chars(a@, af@, i as int) == marked_chars(a@, af@, i + 1));
            }
        }
        i = i + 1;
    }
    proof {
        assert(marked_chars(a@, af@, al as int) =~= Seq::<char>::empty());
        assert(mismatch_count(
            marked_chars(a@, af@, al as int),
            marked_chars(b@, bf@, k as int),
        ) == 0);
    }
    t2
}

/// Common prefix length, capped at four.
fn prefix_len4(a: &Vec<char>, b: &Vec<char>) -> (l: usize)
    ensures
        l as int == common_prefix_len(a@, b@, 4),
        l <= 4,
{
    let mut l: usize = 0;
    proof {
        assert(a@.skip(0) =~= a@);
        assert(b@.skip(0) =~= b@);
    }
    while l < 4 && l < a.len() && l < b.len() && a[l] == b[l]
        invariant
            l <= 4,
            l <= a@.len(),
            l <= b@.len(),
            common_prefix_len(a@, b@, 4) == l + common_prefix_len(
                a@.skip(l as int),
                b@.skip(l as int),
                4 - l,
            ),
        decreases 4 - l,
    {
        proof {
            assert(a@.skip(l as int).first() == a@[l as int]);
            assert(b@.skip(l as int).first() == b@[l as int]);
            assert(a@.skip(l as int).drop_first() =~= a@.skip(l + 1));
            assert(b@.skip(l as int).drop_first() =~= b@.skip(l + 1));
        }
        l = l + 1;
    }
    proof {
        if l < 4 && l < a@.len() && l < b@.len() {
            assert(a@.skip(l as int).first() == a@[l as int]);
            assert(b@.skip(l as int).first() == b@[l as int]);
        }
        if l < 4 && (l >= a@.len() || l >= b@.len()) {
            if l >= a@.len() {
                assert(a@.skip(l as int).len() == 0);
            } else {
                assert(b@.skip(l as int).len() == 0);
            }
        }
    }
    l
}

/// The Jaro-Winkler score of two character strings, in millionths, exactly
/// as [`jw_ppm`] defines it.
pub fn jaro_winkler_ppm(a: &Vec<char>, b: &Vec<char>) -> (r: u64)
    requires
        a@.len() <= 0x7FFF_FFFFusize,
        b@.len() <= 0x7FFF_FFFFusize,
    ensures
        r as int == jw_ppm(a@, b@),
        r <= 1000000,
{
    let al = a.len();
    let bl = b.len();
    if al == 0 && bl == 0 {
        proof {
            assert(common_prefix_len(a@, b@, 4) == 0);
            assert(jw_ppm(a@, b@) == 1000000);
        }
        return 1000000;
    }
    if al == 0 || bl == 0 {
        return 0;
    }
    let flags = compute_flags(a, b);
    let af = flags.0;
    let bf = flags.1;
    let m = flags.2;
    if m == 0 {
        return 0;
    }
    let t2 = count_transpositions(a, b, &af, &bf, m);
    let t = t2 / 2;
    let mu = m as u128;
    let alu = al as u128;
    let blu = bl as u128;
    let tu = t as u128;
    proof {
        assert(mu * mu <= 0x1_0000_0000_0000_0000u128 && mu * mu * blu
            <= 0x1000000000000000000000000u128 && mu * mu * alu
            <= 0x1000000000000000000000000u128 && (mu - tu) * alu <= 0x1_0000_0000_0000_0000u128
            && (mu - tu) * alu * blu <= 0x1000000000000000000000000u128 && 3 * alu * blu
            <= 0x3_0000_0000_0000_0000u128 && 3 * alu * blu * mu
            <= 0x3000000000000000000000000u128) by (nonlinear_arith)
            requires
                mu <= 0x1_0000_0000u128,
                alu <= 0x1_0000_0000u128,
                blu <= 0x1_0000_0000u128,
                tu <= mu,
        ;
    }
    let num: u128 = mu * mu * blu + mu * mu * alu + (mu - tu) * alu * blu;
    let den: u128 = 3 * alu * blu * mu;
    proof {
        assert(num <= den && den >= 1) by (nonlinear_arith)
            requires
                num == mu * mu * blu + mu * mu * alu + (mu - tu) * alu * blu,
                den == 3 * alu * blu * mu,
                1 <= mu,
                tu <= mu,
                mu <= alu,
                mu <= blu,
                alu >= 1,
                blu >= 1,
        ;
        assert(jaro_frac(a@, b@) == (num as int, den as int));
    }
    let boosted: bool = 10 * num > 7 * den;
    if boosted {
        let l = prefix_len4(a, b);
        let lu = l as u128;
        proof {
            assert((10 - lu) * num <= 10 * den && lu * den <= 4 * den && (10 - lu) * num + lu
                * den <= 10 * den) by (nonlinear_arith)
                requires
                    num <= den,
                    lu <= 4,
                    den <= 0x3000000000000000000000000u128,
            ;
        }
        let scaled: u128 = 1000000 * ((10 - lu) * num + lu * den);
        proof {
            assert(scaled <= 1000000 * (10 * den));
        }
        let ppm: u128 = scaled / (10 * den);
        proof {
            vstd::arithmetic::div_mod::lemma_div_is_ordered(
                scaled as int,
                1000000 * (10 * den) as int,
                (10 * den) as int,
            );
            vstd::arithmetic::div_mod::lemma_div_multiples_vanish(
                1000000,
                (10 * den) as int,
            );
        }
        proof {
            assert(ppm as int == jw_ppm(a@, b@));
        }
        return ppm as u64;
    }
    let ppm: u128 = (1000000 * num) / den;
    proof {
        assert(1000000 * num <= 1000000 * den) by (nonlinear_arith)
            requires
                num <= den,
        ;
        vstd::arithmetic::div_mod::lemma_div_is_ordered(
            (1000000 * num) as int,
            (1000000 * den) as int,
            den as int,
        );
        vstd::arithmetic::div_mod::lemma_div_multiples_vanish(1000000, den as int);
        assert(ppm as int == jw_ppm(a@, b@));
    }
    ppm as u64
}

/// Scores a free-text query against a catalog name: both sides are
/// case-folded, then compared with Jaro-Winkler semantics. The result is in
/// millionths.
pub fn similarity_score_ppm(query: &str, name: &str) -> (r: u64)
    requires
        query@.len() <= 0x7FFF_FFFFusize,
        name@.len() <= 0x7FFF_FFFFusize,
    ensures
        r as int == score_ppm(query@, name@),
        r <= 1000000,
{
    let qc = crate::text::str_to_chars(query);
    let nc = crate::text::str_to_chars(name);
    let ql = lower_chars(&qc);
    let nl = lower_chars(&nc);
    jaro_winkler_ppm(&ql, &nl)
}

/// Scoring folds first, so scoring already-folded strings scores the same:
/// the metric is insensitive to letter case.
pub proof fn lemma_score_case_insensitive(a: Seq<char>, b: Seq<char>)
    ensures
        score_ppm(lower_seq(a), lower_seq(b)) == score_ppm(a, b),
{
    lemma_lower_idempotent(a);
    lemma_lower_idempotent(b);
}

proof fn lemma_count_init_zero(n: int)
    requires
        n >= 0,
    ensures
        count_true(init_flags(n)) == 0,
    decreases n,
{
    if n > 0 {
        lemma_count_init_zero(n - 1);
        assert(init_flags(n).drop_first() =~= init_flags(n - 1));
    }
}

proof fn lemma_find_candidate_props(c: char, b: Seq<char>, bf: Seq<bool>, j: int, hi: int, r: int)
    requires
        find_candidate(c, b, bf, j, hi) == Some(r),
    ensures
        j <= r < hi <= b.len(),
        !bf[r],
        b[r] == c,
    decreases hi - j,
{
    if !(j < 0 || j >= hi || hi > b.len()) && !(!bf[j] && b[j] == c) {
        lemma_find_candidate_props(c, b, bf, j + 1, hi, r);
    }
}

/// Greedy matching marks as many positions of `a` as of `b`.
proof fn lemma_match_flags_counts(a: Seq<char>, b: Seq<char>, i: int, af: Seq<bool>, bf: Seq<bool>)
    requires
        af.len() == a.len(),
        bf.len() == b.len(),
        count_true(af) == count_true(bf),
        forall|t: int| i <= t < af.len() ==> !(#[trigger] af[t]),
    ensures
        ({
            let r = match_flags(a, b, i, af, bf);
            r.0.len() == a.len() && r.1.len() == b.len() && count_true(r.0) == count_true(r.1)
        }),
    decreases a.len() - i,
{
    if 0 <= i < a.len() {
        let sr = search_range(a.len() as int, b.len() as int);
        match find_candidate(a[i], b, bf, lo_bound(i, sr), hi_bound(i, sr, b.len() as int)) {
            Some(j) => {
                lemma_find_candidate_props(
                    a[i],
                    b,
                    bf,
                    lo_bound(i, sr),
                    hi_bound(i, sr, b.len() as int),
                    j,
                );
                lemma_count_update(af, i);
                lemma_count_update(bf, j);
                lemma_match_flags_counts(a, b, i + 1, af.update(i, true), bf.update(j, true));
            },
            None => {
                lemma_match_flags_counts(a, b, i + 1, af, bf);
            },
        }
    }
}

/// The marked characters are as many as the marks from that position on.
proof fn lemma_marked_len(s: Seq<char>, f: Seq<bool>, i: int)
    requires
        f.len() == s.len(),
        0 <= i <= s.len(),
    ensures
        marked_chars(s, f, i).len() == count_true(f.skip(i)),
    decreases s.len() - i,
{
    if i < s.len() {
        lemma_marked_len(s, f, i + 1);
        assert(f.skip(i).first() == f[i]);
        assert(f.skip(i).drop_first() =~= f.skip(i + 1));
    } else {
        assert(f.skip(i) =~= Seq::<bool>::empty());
    }
}

proof fn lemma_mismatch_le(x: Seq<char>, y: Seq<char>)
    ensures
        0 <= mismatch_count(x, y) <= x.len(),
    decreases x.len(),
{
    if x.len() > 0 && y.len() > 0 {
        lemma_mismatch_le(x.drop_first(), y.drop_first());
    }
}

proof fn lemma_prefix_len_bound(a: Seq<char>, b: Seq<char>, cap: int)
    requires
        cap >= 0,
    ensures
        0 <= common_prefix_len(a, b, cap) <= cap,
    decreases cap,
{
    if !(cap <= 0 || a.len() == 0 || b.len() == 0 || a.first() != b.first()) {
        lemma_prefix_len_bound(a.drop_first(), b.drop_first(), cap - 1);
    }
}

/// The score is a similarity: it always lies between zero and one million
/// millionths.
pub proof fn lemma_jw_ppm_bounds(a: Seq<char>, b: Seq<char>)
    ensures
        0 <= jw_ppm(a, b) <= 1000000,
{
    let al = a.len() as int;
    let bl = b.len() as int;
    let frac = jaro_frac(a, b);
    if al == 0 && bl == 0 {
        assert(common_prefix_len(a, b, 4) == 0);
        assert(jw_ppm(a, b) == 1000000);
    } else if al == 0 || bl == 0 {
        lemma_prefix_len_bound(a, b, 4);
        assert(jw_ppm(a, b) == 0);
    } else {
        let flags = jw_flags(a, b);
        let m = count_true(flags.1);
        if m == 0 {
            assert(jw_ppm(a, b) == 0);
        } else {
            lemma_count_init_zero(al);
            lemma_count_init_zero(bl);
            lemma_match_flags_counts(a, b, 0, init_flags(al), init_flags(bl));
            lemma_count_le_len(flags.0);
            lemma_count_le_len(flags.1);
            let ma = marked_chars(a, flags.0, 0);
            let mb = marked_chars(b, flags.1, 0);
            lemma_marked_len(a, flags.0, 0);
            assert(flags.0.skip(0) =~= flags.0);
            assert(flags.1.skip(0) =~= flags.1);
            let t2 = mismatch_count(ma, mb);
            lemma_mismatch_le(ma, mb);
            let t = t2 / 2;
            assert(0 <= t <= m);
            let num = frac.0;
            let den = frac.1;
            assert(0 <= num <= den && 1 <= den) by (nonlinear_arith)
                requires
                    num == m * m * bl + m * m * al + (m - t) * al * bl,
                    den == 3 * al * bl * m,
                    1 <= m,
                    m <= al,
                    m <= bl,
                    0 <= t <= m,
                    1 <= al,
                    1 <= bl,
            ;
            lemma_ppm_of_frac_bounds(a, b, num, den);
        }
    }
}

/// With a proper fraction, the reported millionths lie in range.
proof fn lemma_ppm_of_frac_bounds(a: Seq<char>, b: Seq<char>, num: int, den: int)
    requires
        jaro_frac(a, b) == (num, den),
        0 <= num <= den,
        1 <= den,
    ensures
        0 <= jw_ppm(a, b) <= 1000000,
{
    if 10 * num > 7 * den {
        let l = common_prefix_len(a, b, 4);
        lemma_prefix_len_bound(a, b, 4);
        let x = (10 - l) * num + l * den;
        assert(0 <= x <= 10 * den) by (nonlinear_arith)
            requires
                x == (10 - l) * num + l * den,
                0 <= num <= den,
                0 <= l <= 4,
                1 <= den,
        ;
        vstd::arithmetic::div_mod::lemma_div_is_ordered(0, 1000000 * x, 10 * den);
        vstd::arithmetic::div_mod::lemma_div_multiples_vanish(0, 10 * den);
        vstd::arithmetic::div_mod::lemma_div_is_ordered(
            1000000 * x,
            1000000 * (10 * den),
            10 * den,
        );
        vstd::arithmetic::div_mod::lemma_div_multiples_vanish(1000000, 10 * den);
    } else {
        vstd::arithmetic::div_mod::lemma_div_is_ordered(0, 1000000 * num, den);
        vstd::arithmetic::div_mod::lemma_div_multiples_vanish(0, den);
        vstd::arithmetic::div_mod::lemma_div_is_ordered(1000000 * num, 1000000 * den, den);
        vstd::arithmetic::div_mod::lemma_div_multiples_vanish(1000000, den);
    }
}

pub open spec fn all_true(n: int) -> Seq<bool> {
    Seq::new(
        if n >= 0 {
            n as nat
        } else {
            0
        },
        |i: int| true,
    )
}

proof fn lemma_count_all_true(n: int)
    requires
        n >= 0,
    ensures
        count_true(all_true(n)) == n,
    decreases n,
{
    if n > 0 {
        lemma_count_all_true(n - 1);
        assert(all_true(n).drop_first() =~= all_true(n - 1));
    }
}

/// In the window of `i`, with exactly the positions below `i` marked, the
/// first candidate for `s[i]` in `s` itself is `i`.
proof fn lemma_find_candidate_self(s: Seq<char>, f: Seq<bool>, i: int, j: int, hi: int)
    requires
        0 <= j <= i < hi <= s.len(),
        f.len() == s.len(),
        forall|t: int| 0 <= t < f.len() ==> f[t] == (t < i),
    ensures
        find_candidate(s[i], s, f, j, hi) == Some(i),
    decreases i - j,
{
    if j < i {
        lemma_find_candidate_self(s, f, i, j + 1, hi);
    }
}

/// Matching a string against itself marks everything.
proof fn lemma_match_flags_self(s: Seq<char>, i: int, f: Seq<bool>)
    requires
        0 <= i <= s.len(),
        f.len() == s.len(),
        forall|t: int| 0 <= t < f.len() ==> f[t] == (t < i),
    ensures
        match_flags(s, s, i, f, f) == (all_true(s.len() as int), all_true(s.len() as int)),
    decreases s.len() - i,
{
    if i < s.len() {
        let sr = search_range(s.len() as int, s.len() as int);
        let lo = lo_bound(i, sr);
        let hi = hi_bound(i, sr, s.len() as int);
        assert(lo <= i < hi <= s.len());
        lemma_find_candidate_self(s, f, i, lo, hi);
        let f2 = f.update(i, true);
        assert(forall|t: int| 0 <= t < f2.len() ==> f2[t] == (t < i + 1));
        lemma_match_flags_self(s, i + 1, f2);
    } else {
        assert(f =~= all_true(s.len() as int));
    }
}

/// Every position marked reads the string back whole.
proof fn lemma_marked_all(s: Seq<char>, i: int)
    requires
        0 <= i <= s.len(),
    ensures
        marked_chars(s, all_true(s.len() as int), i) == s.skip(i),
    decreases s.len() - i,
{
    if i < s.len() {
        lemma_marked_all(s, i + 1);
        assert(seq![s[i]] + s.skip(i + 1) =~= s.skip(i));
    } else {
        assert(s.skip(i) =~= Seq::<char>::empty());
    }
}

proof fn lemma_mismatch_self(x: Seq<char>)
    ensures
        mismatch_count(x, x) == 0,
    decreases x.len(),
{
    if x.len() > 0 {
        lemma_mismatch_self(x.drop_first());
    }
}

/// A string is perfectly similar to itself: the score is one million
/// millionths exactly.
pub proof fn lemma_jw_ppm_self(s: Seq<char>)
    ensures
        jw_ppm(s, s) == 1000000,
{
    let n = s.len() as int;
    if n == 0 {
        assert(common_prefix_len(s, s, 4) == 0);
        assert(jw_ppm(s, s) == 1000000);
    } else {
        lemma_count_init_zero(n);
        lemma_match_flags_self(s, 0, init_flags(n));
        assert(init_flags(n).len() == n);
        assert(forall|t: int| 0 <= t < init_flags(n).len() ==> init_flags(n)[t] == (t < 0));
        let flags = jw_flags(s, s);
        assert(flags == (all_true(n), all_true(n)));
        lemma_count_all_true(n);
        let m = count_true(flags.1);
        assert(m == n);
        lemma_marked_all(s, 0);
        assert(s.skip(0) =~= s);
        lemma_mismatch_self(s);
        let frac = jaro_frac(s, s);
        assert(frac.0 == m * m * n + m * m * n + (m - 0) * n * n);
        assert(frac.0 == frac.1 && frac.1 >= 3) by (nonlinear_arith)
            requires
                frac.0 == m * m * n + m * m * n + m * n * n,
                frac.1 == 3 * n * n * m,
                m == n,
                n >= 1,
        ;
        assert(10 * frac.0 > 7 * frac.1);
        let l = common_prefix_len(s, s, 4);
        lemma_prefix_len_bound(s, s, 4);
        let x = (10 - l) * frac.0 + l * frac.1;
        assert(x == 10 * frac.1) by (nonlinear_arith)
            requires
                x == (10 - l) * frac.0 + l * frac.1,
                frac.0 == frac.1,
        ;
        vstd::arithmetic::div_mod::lemma_div_multiples_vanish(1000000, 10 * frac.1);
        assert(jw_ppm(s, s) == (1000000 * (10 * frac.1)) / (10 * frac.1));
    }
}

/// A count of every mark means every position is marked.
proof fn lemma_count_full(s: Seq<bool>)
    requires
        count_true(s) == s.len(),
    ensures
        forall|t: int| 0 <= t < s.len() ==> s[t],
    decreases s.len(),
{
    if s.len() > 0 {
        lemma_count_le_len(s.drop_first());
        assert(s.first());
        lemma_count_full(s.drop_first());
        assert forall|t: int| 0 <= t < s.len() implies s[t] by {
            if t > 0 {
                assert(s.drop_first()[t - 1]);
            }
        }
    }
}

/// How often `c` stands at a marked position of `s[i..]`.
pub open spec fn occ_marked(s: Seq<char>, f: Seq<bool>, c: char, i: int) -> int
    decreases s.len() - i,
{
    if i < 0 || i >= s.len() {
        0
    } else {
        (if f[i] && s[i] == c {
            1int
        } else {
            0int
        }) + occ_marked(s, f, c, i + 1)
    }
}

proof fn lemma_occ_update_above(s: Seq<char>, f: Seq<bool>, c: char, p: int, i: int)
    requires
        0 <= p < s.len() == f.len(),
        i > p,
    ensures
        occ_marked(s, f.update(p, true), c, i) == occ_marked(s, f, c, i),
    decreases s.len() - i,
{
    if 0 <= i && i < s.len() {
        lemma_occ_update_above(s, f, c, p, i + 1);
    }
}

proof fn lemma_occ_update_below(s: Seq<char>, f: Seq<bool>, c: char, p: int, i: int)
    requires
        0 <= i <= p < s.len() == f.len(),
        !f[p],
    ensures
        occ_marked(s, f.update(p, true), c, i) == occ_marked(s, f, c, i) + (if s[p] == c {
            1int
        } else {
            0int
        }),
    decreases p - i,
{
    if i < p {
        lemma_occ_update_below(s, f, c, p, i + 1);
    } else {
        lemma_occ_update_above(s, f, c, p, p + 1);
    }
}

/// Marking a fresh position adds one occurrence of its character.
proof fn lemma_occ_update(s: Seq<char>, f: Seq<bool>, c: char, p: int)
    requires
        0 <= p < s.len() == f.len(),
        !f[p],
    ensures
        occ_marked(s, f.update(p, true), c, 0) == occ_marked(s, f, c, 0) + (if s[p] == c {
            1int
        } else {
            0int
        }),
{
    lemma_occ_update_below(s, f, c, p, 0);
}

/// Greedy matching pairs equal characters, so the marked positions of `a`
/// and of `b` hold any one character equally often.
proof fn lemma_match_flags_occ(
    a: Seq<char>,
    b: Seq<char>,
    i: int,
    af: Seq<bool>,
    bf: Seq<bool>,
    c: char,
)
    requires
        af.len() == a.len(),
        bf.len() == b.len(),
        forall|t: int| i <= t < af.len() ==> !(#[trigger] af[t]),
        occ_marked(a, af, c, 0) == occ_marked(b, bf, c, 0),
    ensures
        occ_marked(a, match_flags(a, b, i, af, bf).0, c, 0) == occ_marked(
            b,
            match_flags(a, b, i, af, bf).1,
            c,
            0,
        ),
    decreases a.len() - i,
{
    if 0 <= i < a.len() {
        let sr = search_range(a.len() as int, b.len() as int);
        match find_candidate(a[i], b, bf, lo_bound(i, sr), hi_bound(i, sr, b.len() as int)) {
            Some(j) => {
                lemma_find_candidate_props(
                    a[i],
                    b,
                    bf,
                    lo_bound(i, sr),
                    hi_bound(i, sr, b.len() as int),
                    j,
                );
                let af2 = af.update(i, true);
                let bf2 = bf.update(j, true);
                lemma_occ_update(a, af, c, i);
                lemma_occ_update(b, bf, c, j);
                assert forall|t: int| i + 1 <= t < af2.len() implies !(#[trigger] af2[t]) by {
                    assert(af2[t] == af[t]);
                }
                lemma_match_flags_occ(a, b, i + 1, af2, bf2, c);
            },
            None => {
                lemma_match_flags_occ(a, b, i + 1, af, bf, c);
            },
        }
    }
}

/// How often `c` stands in `x`.
pub open spec fn occ_of(x: Seq<char>, c: char) -> int
    decreases x.len(),
{
    if x.len() == 0 {
        0
    } else {
        (if x.first() == c {
            1int
        } else {
            0int
        }) + occ_of(x.drop_first(), c)
    }
}

/// With every position marked, the marked count is the plain count.
proof fn lemma_occ_all(s: Seq<char>, f: Seq<bool>, c: char, i: int)
    requires
        f.len() == s.len(),
        0 <= i <= s.len(),
        forall|t: int| 0 <= t < f.len() ==> f[t],
    ensures
        occ_marked(s, f, c, i) == occ_of(s.skip(i), c),
    decreases s.len() - i,
{
    if i < s.len() {
        lemma_occ_all(s, f, c, i + 1);
        assert(s.skip(i).first() == s[i]);
        assert(s.skip(i).drop_first() =~= s.skip(i + 1));
    } else {
        assert(s.skip(i) =~= Seq::<char>::empty());
    }
}

/// Sequences of one length without a mismatch are equal.
proof fn lemma_mismatch_zero(x: Seq<char>, y: Seq<char>)
    requires
        x.len() == y.len(),
        mismatch_count(x, y) == 0,
    ensures
        x == y,
    decreases x.len(),
{
    if x.len() > 0 {
        lemma_mismatch_le(x.drop_first(), y.drop_first());
        assert(x.first() == y.first());
        lemma_mismatch_zero(x.drop_first(), y.drop_first());
        assert forall|t: int| 0 <= t < x.len() implies x[t] == y[t] by {
            if t > 0 {
                assert(x.drop_first()[t - 1] == y.drop_first()[t - 1]);
            }
        }
        assert(x =~= y);
    } else {
        assert(x =~= y);
    }
}

/// Sequences of one length that agree on every character's count cannot
/// disagree in exactly one position.
proof fn lemma_mismatch_not_one(x: Seq<char>, y: Seq<char>)
    requires
        x.len() == y.len(),
        forall|c: char| #[trigger] occ_of(x, c) == occ_of(y, c),
    ensures
        mismatch_count(x, y) != 1,
    decreases x.len(),
{
    if x.len() > 0 {
        let xd = x.drop_first();
        let yd = y.drop_first();
        if x.first() == y.first() {
            assert forall|c: char| #[trigger] occ_of(xd, c) == occ_of(yd, c) by {
                assert(occ_of(x, c) == occ_of(y, c));
            }
            lemma_mismatch_not_one(xd, yd);
        } else {
            lemma_mismatch_le(xd, yd);
            if mismatch_count(xd, yd) == 0 {
                lemma_mismatch_zero(xd, yd);
                let h = x.first();
                assert(occ_of(x, h) == 1 + occ_of(xd, h));
                assert(occ_of(y, h) == occ_of(yd, h));
                assert(occ_of(xd, h) == occ_of(yd, h));
                assert(occ_of(x, h) == occ_of(y, h));
                assert(false);
            }
        }
    }
}

/// A perfect score names its inputs: only a string scores one million
/// millionths against itself.
pub proof fn lemma_jw_ppm_perfect(a: Seq<char>, b: Seq<char>)
    requires
        jw_ppm(a, b) == 1000000,
    ensures
        a == b,
{
    let al = a.len() as int;
    let bl = b.len() as int;
    let frac = jaro_frac(a, b);
    if al == 0 && bl == 0 {
        assert(a =~= b);
    } else if al == 0 || bl == 0 {
        lemma_prefix_len_bound(a, b, 4);
        assert(jw_ppm(a, b) == (1000000 * 0) / 1);
        assert(false);
    } else {
        let flags = jw_flags(a, b);
        let m = count_true(flags.1);
        if m == 0 {
            assert(jw_ppm(a, b) == (1000000 * 0) / 1);
            assert(false);
        } else {
            lemma_count_init_zero(al);
            lemma_count_init_zero(bl);
            lemma_match_flags_counts(a, b, 0, init_flags(al), init_flags(bl));
            lemma_count_le_len(flags.0);
            lemma_count_le_len(flags.1);
            let ma = marked_chars(a, flags.0, 0);
            let mb = marked_chars(b, flags.1, 0);
            lemma_marked_len(a, flags.0, 0);
            assert(flags.0.skip(0) =~= flags.0);
            assert(flags.1.skip(0) =~= flags.1);
            let t2 = mismatch_count(ma, mb);
            lemma_mismatch_le(ma, mb);
            let t = t2 / 2;
            let num = frac.0;
            let den = frac.1;
            assert(0 <= num <= den && 1 <= den) by (nonlinear_arith)
                requires
                    num == m * m * bl + m * m * al + (m - t) * al * bl,
                    den == 3 * al * bl * m,
                    1 <= m,
                    m <= al,
                    m <= bl,
                    0 <= t <= m,
                    1 <= al,
                    1 <= bl,
            ;
            if 10 * num > 7 * den {
                let l = common_prefix_len(a, b, 4);
                lemma_prefix_len_bound(a, b, 4);
                let x = (10 - l) * num + l * den;
                assert(0 <= x <= 10 * den) by (nonlinear_arith)
                    requires
                        x == (10 - l) * num + l * den,
                        0 <= num <= den,
                        0 <= l <= 4,
                        1 <= den,
                ;
                if x < 10 * den {
                    let q = (1000000 * x) / (10 * den);
                    vstd::arithmetic::div_mod::lemma_fundamental_div_mod(1000000 * x, 10 * den);
                    vstd::arithmetic::div_mod::lemma_mod_division_less_than_divisor(
                        1000000 * x,
                        10 * den,
                    );
                    assert(q < 1000000) by (nonlinear_arith)
                        requires
                            1000000 * x == (10 * den) * q + ((1000000 * x) % (10 * den)),
                            0 <= (1000000 * x) % (10 * den),
                            x <= 10 * den - 1,
                            1 <= den,
                    ;
                    assert(false);
                }
                assert(x == 10 * den);
                assert(num == den) by (nonlinear_arith)
                    requires
                        x == (10 - l) * num + l * den,
                        x == 10 * den,
                        0 <= num <= den,
                        0 <= l <= 4,
                ;
                assert(m == al && m == bl && t == 0) by (nonlinear_arith)
                    requires
                        num == den,
                        num == m * m * bl + m * m * al + (m - t) * al * bl,
                        den == 3 * al * bl * m,
                        1 <= m,
                        m <= al,
                        m <= bl,
                        0 <= t,
                        1 <= al,
                        1 <= bl,
                ;
                assert(0 <= t2 <= 1);
                lemma_count_full(flags.0);
                lemma_count_full(flags.1);
                assert(flags.0 =~= all_true(al));
                assert(flags.1 =~= all_true(bl));
                lemma_marked_all(a, 0);
                lemma_marked_all(b, 0);
                assert(a.skip(0) =~= a);
                assert(b.skip(0) =~= b);
                assert(ma == a && mb == b);
                assert(forall|t3: int|
                    0 <= t3 < init_flags(al).len() ==> !(#[trigger] init_flags(al)[t3]));
                assert forall|c: char| #[trigger] occ_of(a, c) == occ_of(b, c) by {
                    lemma_occ_init(a, c, 0);
                    lemma_occ_init(b, c, 0);
                    lemma_match_flags_occ(a, b, 0, init_flags(al), init_flags(bl), c);
                    lemma_occ_all(a, flags.0, c, 0);
                    lemma_occ_all(b, flags.1, c, 0);
                }
                lemma_mismatch_not_one(a, b);
                assert(t2 == 0);
                lemma_mismatch_zero(a, b);
            } else {
                vstd::arithmetic::div_mod::lemma_div_is_ordered(
                    1000000 * num,
                    700000 * den,
                    den,
                );
                vstd::arithmetic::div_mod::lemma_div_multiples_vanish(700000, den);
                assert(false);
            }
        }
    }
}

/// Nothing is marked at the start.
proof fn lemma_occ_init(s: Seq<char>, c: char, i: int)
    requires
        0 <= i,
    ensures
        occ_marked(s, init_flags(s.len() as int), c, i) == 0,
    decreases s.len() - i,
{
    if i < s.len() {
        lemma_occ_init(s, c, i + 1);
    }
}

} // verus!
