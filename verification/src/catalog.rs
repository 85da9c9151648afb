//! The reference catalog: rows of (symbol, company name) read from a
//! comma-delimited listing. The first line is a header; of every following
//! line the first field is the symbol and the second the name, which may be
//! surrounded by double quotes. Lines without both fields are skipped.
use vstd::prelude::*;

verus! {

/// One row of the reference catalog.
pub struct SymbolRecord {
    pub symbol: String,
    pub name: String,
}

/// First position of `c` in `s` at or after `i`.
pub open spec fn first_idx_of(s: Seq<char>, c: char, i: int) -> Option<int>
    decreases s.len() - i,
{
    if i < 0 || i >= s.len() {
        None
    } else if s[i] == c {
        Some(i)
    } else {
        first_idx_of(s, c, i + 1)
    }
}

/// The lines of `s`, split at every newline.
pub open spec fn split_lines(s: Seq<char>) -> Seq<Seq<char>>
    decreases s.len(),
{
    match first_idx_of(s, '\n', 0) {
        None => seq![s],
        Some(i) => if 0 <= i < s.len() {
            seq![s.take(i)] + split_lines(s.skip(i + 1))
        } else {
            seq![s]
        },
    }
}

/// One catalog line: `symbol,name...` or `symbol,"name"...`, with an
/// optional trailing carriage return. Both fields must be nonempty; a quoted
/// name ends at the next quote, an unquoted one at the next comma or the end
/// of the line.
pub open spec fn parse_catalog_line(line0: Seq<char>) -> Option<(Seq<char>, Seq<char>)> {
    let line = if line0.len() > 0 && line0.last() == '\r' {
        line0.drop_last()
    } else {
        line0
    };
    match first_idx_of(line, ',', 0) {
        None => None,
        Some(c1) => {
            let sym = line.take(c1);
            let rest = line.skip(c1 + 1);
            if sym.len() == 0 {
                None
            } else if rest.len() > 0 && rest.first() == '"' {
                match first_idx_of(rest, '"', 1) {
                    None => None,
                    Some(q) => if q == 1 {
                        None
                    } else {
                        Some((sym, rest.subrange(1, q)))
                    },
                }
            } else {
                match first_idx_of(rest, ',', 0) {
                    None => if rest.len() == 0 {
                        None
                    } else {
                        Some((sym, rest))
                    },
                    Some(c2) => if c2 == 0 {
                        None
                    } else {
                        Some((sym, rest.take(c2)))
                    },
                }
            }
        },
    }
}

/// The rows that a list of lines yields.
pub open spec fn parse_lines(ls: Seq<Seq<char>>) -> Seq<(Seq<char>, Seq<char>)>
    decreases ls.len(),
{
    if ls.len() == 0 {
        Seq::empty()
    } else {
        match parse_catalog_line(ls.first()) {
            Some(r) => seq![r] + parse_lines(ls.drop_first()),
            None => parse_lines(ls.drop_first()),
        }
    }
}

/// The catalog a whole listing yields: every line after the header.
pub open spec fn spec_parse_catalog(content: Seq<char>) -> Seq<(Seq<char>, Seq<char>)> {
    parse_lines(split_lines(content).skip(1))
}

/// A vector of rows as the pairs of character strings it stands for.
pub open spec fn catalog_view(s: Seq<SymbolRecord>) -> Seq<(Seq<char>, Seq<char>)> {
    s.map_values(|rec: SymbolRecord| (rec.symbol@, rec.name@))
}

/// First position of `c` in `v` at or after `from`.
pub(crate) fn find_idx_of(v: &Vec<char>, c: char, from: usize) -> (r: Option<usize>)
    requires
        from <= v@.len(),
    ensures
        match r {
            Some(i) => first_idx_of(v@, c, from as int) == Some(i as int) && from <= i
                < v@.len() && v@[i as int] == c,
            None => first_idx_of(v@, c, from as int) is None,
        },
{
    let n = v.len();
    let mut i = from;
    while i < n
        invariant
            from <= i <= n == v@.len(),
            first_idx_of(v@, c, from as int) == first_idx_of(v@, c, i as int),
        decreases n - i,
    {
        if v[i] == c {
            return Some(i);
        }
        i = i + 1;
    }
    None
}

/// Reads one catalog line.
fn parse_line_exec(line_vec: Vec<char>) -> (r: Option<SymbolRecord>)
    ensures
        match r {
            Some(rec) => parse_catalog_line(line_vec@) == Some((rec.symbol@, rec.name@)),
            None => parse_catalog_line(line_vec@) is None,
        },
{
    let mut lv = line_vec;
    if lv.len() > 0 {
        let last = lv[lv.len() - 1];
        if last == '\r' {
            let ghost pre = lv@;
            lv.pop();
            proof {
                assert(lv@ =~= pre.drop_last());
            }
        }
    }
    let c1 = match find_idx_of(&lv, ',', 0) {
        Some(i) => i,
        None => {
            return None;
        },
    };
    if c1 == 0 {
        return None;
    }
    let sym = crate::scan::subvec(&lv, 0, c1);
    let rest = crate::scan::subvec(&lv, c1 + 1, lv.len());
    proof {
        assert(sym@ =~= lv@.take(c1 as int));
        assert(rest@ =~= lv@.skip(c1 + 1));
    }
    if rest.len() > 0 && rest[0] == '"' {
        let q = match find_idx_of(&rest, '"', 1) {
            Some(i) => i,
            None => {
                return None;
            },
        };
        if q == 1 {
            return None;
        }
        let name = crate::scan::subvec(&rest, 1, q);
        Some(
            SymbolRecord {
                symbol: crate::text::chars_to_string(&sym),
                name: crate::text::chars_to_string(&name),
            },
        )
    } else {
        match find_idx_of(&rest, ',', 0) {
            None => {
                if rest.len() == 0 {
                    return None;
                }
                Some(
                    SymbolRecord {
                        symbol: crate::text::chars_to_string(&sym),
                        name: crate::text::chars_to_string(&rest),
                    },
                )
            },
            Some(c2) => {
                if c2 == 0 {
                    return None;
                }
                let name = crate::scan::subvec(&rest, 0, c2);
                Some(
                    SymbolRecord {
                        symbol: crate::text::chars_to_string(&sym),
                        name: crate::text::chars_to_string(&name),
                    },
                )
            },
        }
    }
}

/// The rows a catalog listing holds, in order. The first line is a header
/// and yields no row.
#[verifier::loop_isolation(false)]
pub fn parse_catalog(content: &str) -> (r: Vec<SymbolRecord>)
    ensures
        r@.map_values(|rec: SymbolRecord| (rec.symbol@, rec.name@)) == spec_parse_catalog(
            content@,
        ),
{
    let v = crate::text::str_to_chars(content);
    let n = v.len();
    let mut out: Vec<SymbolRecord> = Vec::new();
    // skip the header line
    let mut pos: usize;
    match find_idx_of(&v, '\n', 0) {
        Some(nl) => {
            pos = nl + 1;
            proof {
                assert(split_lines(v@).skip(1) =~= split_lines(v@.skip(nl + 1)));
            }
        },
        None => {
            proof {
                assert(split_lines(v@).skip(1) =~= Seq::<Seq<char>>::empty());
                assert(out@.map_values(|rec: SymbolRecord| (rec.symbol@, rec.name@)) =~= parse_lines(
                    split_lines(v@).skip(1),
                ));
            }
            return out;
        },
    }
    loop
        invariant
            n == v@.len(),
            pos <= v@.len(),
            spec_parse_catalog(v@) =~= out@.map_values(
                |rec: SymbolRecord| (rec.symbol@, rec.name@),
            ) + parse_lines(split_lines(v@.skip(pos as int))),
        decreases v@.len() - pos,
    {
        let ghost rem = v@.skip(pos as int);
        let line_end = find_idx_of(&v, '\n', pos);
        match line_end {
            Some(nl) => {
                let line = crate::scan::subvec(&v, pos, nl);
                proof {
                    assert(first_idx_of(rem, '\n', 0) == Some(nl - pos as int)) by {
                        lemma_first_idx_shift(v@, '\n', pos as int, nl as int);
                    }
                    assert(line@ =~= rem.take(nl - pos as int));
                    assert(split_lines(rem) == seq![line@] + split_lines(rem.skip(nl - pos + 1)));
                    assert(rem.skip(nl - pos + 1) =~= v@.skip(nl + 1));
                    assert((seq![line@] + split_lines(v@.skip(nl + 1))).first() == line@);
                    assert((seq![line@] + split_lines(v@.skip(nl + 1))).drop_first()
                        =~= split_lines(v@.skip(nl + 1)));
                }
                let ghost pre_model = out@.map_values(|rec: SymbolRecord| (rec.symbol@, rec.name@));
                match parse_line_exec(line) {
                    Some(rec) => {
                        out.push(rec);
                        proof {
                            assert(out@.map_values(|rec: SymbolRecord| (rec.symbol@, rec.name@))
                                =~= pre_model + seq![(out@.last().symbol@, out@.last().name@)]);
                        }
                    },
                    None => {},
                }
                pos = nl + 1;
            },
            None => {
                let line = crate::scan::subvec(&v, pos, v.len());
                proof {
                    assert(first_idx_of(rem, '\n', 0) is None) by {
                        lemma_first_idx_shift_none(v@, '\n', pos as int);
                    }
                    assert(line@ =~= rem);
                    assert(split_lines(rem) == seq![rem]);
                    assert(seq![rem].first() == rem);
                    assert(seq![rem].drop_first() =~= Seq::<Seq<char>>::empty());
                }
                let ghost pre_model = out@.map_values(|rec: SymbolRecord| (rec.symbol@, rec.name@));
                match parse_line_exec(line) {
                    Some(rec) => {
                        out.push(rec);
                        proof {
                            assert(out@.map_values(|rec: SymbolRecord| (rec.symbol@, rec.name@))
                                =~= pre_model + seq![(out@.last().symbol@, out@.last().name@)]);
                        }
                    },
                    None => {},
                }
                proof {
                    assert(seq![rem].drop_first() =~= Seq::<Seq<char>>::empty());
                    assert(parse_lines(Seq::<Seq<char>>::empty())
                        =~= Seq::<(Seq<char>, Seq<char>)>::empty());
                    assert(out@.map_values(|rec: SymbolRecord| (rec.symbol@, rec.name@))
                        =~= spec_parse_catalog(v@));
                }
                return out;
            },
        }
    }
}

/// Finding `c` from `from` in `s` is finding it from the start of the
/// suffix `s[from..]`.
pub(crate) proof fn lemma_first_idx_shift(s: Seq<char>, c: char, from: int, at: int)
    requires
        0 <= from <= at,
        from <= s.len(),
        first_idx_of(s, c, from) == Some(at),
    ensures
        first_idx_of(s.skip(from), c, 0) == Some(at - from),
    decreases at - from,
{
    lemma_first_idx_shift_aux(s, c, from, from);
}

proof fn lemma_first_idx_shift_aux(s: Seq<char>, c: char, from: int, i: int)
    requires
        0 <= from <= i,
        from <= s.len(),
    ensures
        first_idx_of(s, c, i) matches Some(at) ==> first_idx_of(s.skip(from), c, i - from)
            == Some(at - from),
        first_idx_of(s, c, i) is None ==> first_idx_of(s.skip(from), c, i - from) is None,
    decreases s.len() - i,
{
    if i < s.len() {
        if s[i] == c {
        } else {
            lemma_first_idx_shift_aux(s, c, from, i + 1);
        }
    }
}

pub(crate) proof fn lemma_first_idx_shift_none(s: Seq<char>, c: char, from: int)
    requires
        0 <= from <= s.len(),
        first_idx_of(s, c, from) is None,
    ensures
        first_idx_of(s.skip(from), c, 0) is None,
{
    lemma_first_idx_shift_aux(s, c, from, from);
}

} // verus!
