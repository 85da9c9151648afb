//! Page extraction. Two strategies, in fixed order: a structured scrape of
//! the financials table, and, when the markup offers none, recovery of the
//! embedded JSON payload (from script elements, else by the balanced-
//! delimiter scan over the raw text). The HTML parser and the JSON parser
//! are outside crates, held behind trusted wrappers whose results are named;
//! the payload travels as plain text, so everything that decides, filters or
//! renders is verified against those names.
use vstd::prelude::*;

use crate::format::spec_trim;
use crate::scan::spec_extract_embedded;

verus! {

/// The texts of the elements `inner_sel` matches within the first element
/// `section_sel` matches, in document order; `None` when the page has no
/// such section (or a selector does not parse).
pub uninterp spec fn section_texts_of(
    html: Seq<char>,
    section_sel: Seq<char>,
    inner_sel: Seq<char>,
) -> Option<Seq<Seq<char>>>;

/// As [`section_texts_of`], but grouped: for each element `group_sel`
/// matches within the first section, the texts of its `cell_sel` matches.
pub uninterp spec fn section_grouped_texts_of(
    html: Seq<char>,
    section_sel: Seq<char>,
    group_sel: Seq<char>,
    cell_sel: Seq<char>,
) -> Option<Seq<Seq<Seq<char>>>>;

/// The concatenated texts of the elements a selector matches, in document
/// order (empty for a selector that matches nothing or does not parse).
pub uninterp spec fn script_texts_of(html: Seq<char>, selector: Seq<char>) -> Seq<Seq<char>>;

/// Whether a string is a JSON document that the parser accepts.
pub uninterp spec fn json_accepted(s: Seq<char>) -> bool;

/// The string value at a JSON-pointer path of a document: present when the
/// document parses, the path resolves, and the value there is a string.
pub uninterp spec fn str_at_path(doc: Seq<char>, path: Seq<char>) -> Option<Seq<char>>;

/// The decimal text of the number at a JSON-pointer path of a document.
pub uninterp spec fn num_text_at_path(doc: Seq<char>, path: Seq<char>) -> Option<Seq<char>>;

/// The integer at a JSON-pointer path of a document, when the value there is
/// one.
pub uninterp spec fn int_at_path(doc: Seq<char>, path: Seq<char>) -> Option<int>;

/// The length of the array at a JSON-pointer path of a document, when the
/// value there is an array.
pub uninterp spec fn array_len_at_path(doc: Seq<char>, path: Seq<char>) -> Option<int>;

/// Whether a JSON-pointer path resolves at all in a document.
pub uninterp spec fn value_exists_at_path(doc: Seq<char>, path: Seq<char>) -> bool;

/// The canonical text of the value at a JSON-pointer path of a document.
pub uninterp spec fn value_text_at_path(doc: Seq<char>, path: Seq<char>) -> Option<Seq<char>>;

/// Relies on scraper (Html::parse_document, Selector::parse, select, text):
/// the texts of the inner elements of the first matching section.
#[verifier::external_body]
fn section_texts(html: &str, section_sel: &str, inner_sel: &str) -> (r: Option<Vec<String>>)
    ensures
        match r {
            Some(v) => section_texts_of(html@, section_sel@, inner_sel@) == Some(
                v@.map_values(|s: String| s@),
            ),
            None => section_texts_of(html@, section_sel@, inner_sel@) is None,
        },
{
    let doc = scraper::Html::parse_document(html);
    let sec = scraper::Selector::parse(section_sel).ok()?;
    let inner = scraper::Selector::parse(inner_sel).ok()?;
    let section = doc.select(&sec).next()?;
    Some(section.select(&inner).map(|el| el.text().collect::<String>()).collect())
}

/// Relies on scraper: the grouped texts of the first matching section, one
/// list of cell texts per group element.
#[verifier::external_body]
fn section_grouped_texts(html: &str, section_sel: &str, group_sel: &str, cell_sel: &str) -> (r:
    Option<Vec<Vec<String>>>)
    ensures
        match r {
            Some(v) => section_grouped_texts_of(html@, section_sel@, group_sel@, cell_sel@)
                == Some(v@.map_values(|row: Vec<String>| row@.map_values(|s: String| s@))),
            None => section_grouped_texts_of(html@, section_sel@, group_sel@, cell_sel@) is None,
        },
{
    let doc = scraper::Html::parse_document(html);
    let sec = scraper::Selector::parse(section_sel).ok()?;
    let group = scraper::Selector::parse(group_sel).ok()?;
    let cell = scraper::Selector::parse(cell_sel).ok()?;
    let section = doc.select(&sec).next()?;
    Some(
        section.select(&group).map(
            |g| g.select(&cell).map(|c| c.text().collect::<String>()).collect(),
        ).collect(),
    )
}

/// Relies on scraper: the text of every element the selector matches (empty
/// when the selector does not parse).
#[verifier::external_body]
fn elements_texts(html: &str, selector: &str) -> (r: Vec<String>)
    ensures
        r@.map_values(|s: String| s@) == script_texts_of(html@, selector@),
{
    let doc = scraper::Html::parse_document(html);
    match scraper::Selector::parse(selector) {
        Ok(sel) => doc.select(&sel).map(|el| el.text().collect::<String>()).collect(),
        Err(_) => Vec::new(),
    }
}

/// Relies on serde_json::from_str: whether the parser accepts the text;
/// acceptance depends on the text alone.
#[verifier::external_body]
pub(crate) fn json_accepts(s: &str) -> (r: bool)
    ensures
        r == json_accepted(s@),
{
    serde_json::from_str::<serde_json::Value>(s).is_ok()
}

/// Relies on serde_json::from_str, Value::pointer and Value::as_str: the
/// string at a pointer path; the result depends on the two texts alone.
#[verifier::external_body]
pub(crate) fn json_str_at(doc: &str, path: &str) -> (r: Option<String>)
    ensures
        match r {
            Some(s) => str_at_path(doc@, path@) == Some(s@),
            None => str_at_path(doc@, path@) is None,
        },
{
    let v: serde_json::Value = serde_json::from_str(doc).ok()?;
    Some(v.pointer(path)?.as_str()?.to_string())
}

/// Relies on serde_json::from_str, Value::pointer, Value::is_number and the
/// Display of Value: the decimal text of the number at a pointer path.
#[verifier::external_body]
pub(crate) fn json_num_at(doc: &str, path: &str) -> (r: Option<String>)
    ensures
        match r {
            Some(s) => num_text_at_path(doc@, path@) == Some(s@),
            None => num_text_at_path(doc@, path@) is None,
        },
{
    let v: serde_json::Value = serde_json::from_str(doc).ok()?;
    let n = v.pointer(path)?;
    if n.is_number() {
        Some(n.to_string())
    } else {
        None
    }
}

/// Relies on serde_json::from_str, Value::pointer and Value::as_i64: the
/// integer at a pointer path.
#[verifier::external_body]
pub(crate) fn json_i64_at(doc: &str, path: &str) -> (r: Option<i64>)
    ensures
        match r {
            Some(x) => int_at_path(doc@, path@) == Some(x as int),
            None => int_at_path(doc@, path@) is None,
        },
{
    serde_json::from_str::<serde_json::Value>(doc).ok()?.pointer(path)?.as_i64()
}

/// Relies on serde_json::from_str, Value::pointer and Value::as_array: the
/// length of the array at a pointer path.
#[verifier::external_body]
pub(crate) fn json_arr_len_at(doc: &str, path: &str) -> (r: Option<usize>)
    ensures
        match r {
            Some(n) => array_len_at_path(doc@, path@) == Some(n as int),
            None => array_len_at_path(doc@, path@) is None,
        },
{
    let v: serde_json::Value = serde_json::from_str(doc).ok()?;
    v.pointer(path)?.as_array().map(|a| a.len())
}

/// Relies on serde_json::from_str and Value::pointer: whether a pointer path
/// resolves.
#[verifier::external_body]
pub(crate) fn json_has_at(doc: &str, path: &str) -> (r: bool)
    ensures
        r == value_exists_at_path(doc@, path@),
{
    match serde_json::from_str::<serde_json::Value>(doc) {
        Ok(v) => v.pointer(path).is_some(),
        Err(_) => false,
    }
}

/// Relies on serde_json::from_str, Value::pointer and the Display of Value:
/// the canonical text of the value at a pointer path (deterministic: objects
/// print with sorted keys).
#[verifier::external_body]
pub(crate) fn json_text_at(doc: &str, path: &str) -> (r: Option<String>)
    ensures
        match r {
            Some(s) => value_text_at_path(doc@, path@) == Some(s@),
            None => value_text_at_path(doc@, path@) is None,
        },
{
    let v: serde_json::Value = serde_json::from_str(doc).ok()?;
    Some(v.pointer(path)?.to_string())
}

/// One row of a scraped financials table: the row label and the period
/// cells.
pub struct TableRow {
    pub label: String,
    pub cells: Vec<String>,
}

/// A structured financials table: header cells and labelled rows.
pub struct ExtractedTable {
    pub headers: Vec<String>,
    pub rows: Vec<TableRow>,
}

pub open spec fn headers_view(hs: Seq<String>) -> Seq<Seq<char>> {
    hs.map_values(|s: String| s@)
}

pub open spec fn rows_view(rows: Seq<TableRow>) -> Seq<(Seq<char>, Seq<Seq<char>>)> {
    rows.map_values(|r: TableRow| (r.label@, r.cells@.map_values(|s: String| s@)))
}

/// Every cell trimmed of surrounding whitespace.
pub open spec fn trim_all(ss: Seq<Seq<char>>) -> Seq<Seq<char>> {
    ss.map_values(|s: Seq<char>| spec_trim(s))
}

/// Rows kept from the raw cell grid: the first cell is the label, the rest
/// are period values; rows without cells or with an empty label are dropped.
pub open spec fn build_rows(raw: Seq<Seq<Seq<char>>>) -> Seq<(Seq<char>, Seq<Seq<char>>)>
    decreases raw.len(),
{
    if raw.len() == 0 {
        Seq::empty()
    } else {
        let r0 = raw.first();
        let rest = build_rows(raw.drop_first());
        if r0.len() == 0 || r0.first().len() == 0 {
            rest
        } else {
            seq![(r0.first(), r0.drop_first())] + rest
        }
    }
}

/// What the structured-table strategy yields on a page: the section's
/// trimmed headers and its kept rows of trimmed cells, unless the section is
/// missing or either list comes up empty.
pub open spec fn spec_scrape_table(html: Seq<char>) -> Option<
    (Seq<Seq<char>>, Seq<(Seq<char>, Seq<Seq<char>>)>),
> {
    match section_texts_of(html, "[data-testid=\"qsp-financials\"]"@, ".tableHeader .row .column"@) {
        None => None,
        Some(hs) => match section_grouped_texts_of(
            html,
            "[data-testid=\"qsp-financials\"]"@,
            ".tableBody .row"@,
            ".column"@,
        ) {
            None => None,
            Some(rs) => {
                let headers = trim_all(hs);
                let rows = build_rows(rs.map_values(|row: Seq<Seq<char>>| trim_all(row)));
                if headers.len() == 0 || rows.len() == 0 {
                    None
                } else {
                    Some((headers, rows))
                }
            },
        },
    }
}

/// Trims every string of a list.
fn trim_strings(v: &Vec<String>) -> (r: Vec<String>)
    ensures
        r@.map_values(|s: String| s@) == trim_all(v@.map_values(|s: String| s@)),
{
    let mut out: Vec<String> = Vec::new();
    let n = v.len();
    let mut i: usize = 0;
    while i < n
        invariant
            i <= n == v@.len(),
            out@.len() == i,
            forall|t: int| 0 <= t < i ==> (#[trigger] out@[t])@ == spec_trim(v@[t]@),
        decreases n - i,
    {
        let s = crate::format::trim_string(v[i].as_str());
        out.push(s);
        i = i + 1;
    }
    proof {
        assert(out@.map_values(|s: String| s@) =~= trim_all(v@.map_values(|s: String| s@)));
    }
    out
}

/// The structured-table strategy: scrape the financials section, trim every
/// cell, and keep the labelled rows. `None` when the page has no such
/// section or it is empty.
#[verifier::loop_isolation(false)]
pub fn scrape_financials_table(html: &str) -> (r: Option<ExtractedTable>)
    ensures
        match r {
            Some(t) => spec_scrape_table(html@) == Some(
                (headers_view(t.headers@), rows_view(t.rows@)),
            ),
            None => spec_scrape_table(html@) is None,
        },
{
    let raw_headers = match section_texts(
        html,
        "[data-testid=\"qsp-financials\"]",
        ".tableHeader .row .column",
    ) {
        Some(h) => h,
        None => {
            return None;
        },
    };
    let headers = trim_strings(&raw_headers);
    let raw_rows = match section_grouped_texts(
        html,
        "[data-testid=\"qsp-financials\"]",
        ".tableBody .row",
        ".column",
    ) {
        Some(r) => r,
        None => {
            return None;
        },
    };
    let mut trimmed_rows: Vec<Vec<String>> = Vec::new();
    let rn = raw_rows.len();
    let mut j: usize = 0;
    while j < rn
        invariant
            j <= rn == raw_rows@.len(),
            trimmed_rows@.len() == j,
            forall|t: int|
                0 <= t < j ==> (#[trigger] trimmed_rows@[t])@.map_values(|s: String| s@)
                    == trim_all(raw_rows@[t]@.map_values(|s: String| s@)),
        decreases rn - j,
    {
        let row = trim_strings(&raw_rows[j]);
        trimmed_rows.push(row);
        j = j + 1;
    }
    let ghost raw = raw_rows@.map_values(
        |row: Vec<String>| row@.map_values(|s: String| s@),
    ).map_values(|row: Seq<Seq<char>>| trim_all(row));
    proof {
        assert forall|t: int|
            0 <= t < rn implies trimmed_rows@.map_values(
            |row: Vec<String>| row@.map_values(|s: String| s@),
        )[t] == raw[t] by {
            assert(trimmed_rows@.map_values(|row: Vec<String>| row@.map_values(|s: String| s@))[t]
                == trimmed_rows@[t]@.map_values(|s: String| s@));
            assert(raw[t] == trim_all(raw_rows@[t]@.map_values(|s: String| s@)));
        }
        assert(trimmed_rows@.map_values(|row: Vec<String>| row@.map_values(|s: String| s@))
            =~= raw);
    }
    let n = trimmed_rows.len();
    let mut rows: Vec<TableRow> = Vec::new();
    let mut i: usize = 0;
    proof {
        assert(raw.skip(0) =~= raw);
    }
    while i < n
        invariant
            i <= n == trimmed_rows@.len() == raw.len(),
            trimmed_rows@.map_values(|row: Vec<String>| row@.map_values(|s: String| s@)) == raw,
            build_rows(raw) =~= rows_view(rows@) + build_rows(raw.skip(i as int)),
        decreases n - i,
    {
        let ghost pre_model = rows_view(rows@);
        proof {
            assert(raw.skip(i as int).first() == raw[i as int]);
            assert(raw.skip(i as int).drop_first() =~= raw.skip(i + 1));
            assert(raw[i as int] == trimmed_rows@[i as int]@.map_values(|s: String| s@));
        }
        let row_cols = &trimmed_rows[i];
        if row_cols.len() > 0 {
            let label = &row_cols[0];
            if !label.as_str().is_empty() {
                proof {
                    assert(raw[i as int].first() == trimmed_rows@[i as int]@[0]@);
                    assert(raw[i as int].first().len() > 0);
                }
                let mut cells: Vec<String> = Vec::new();
                let mut k: usize = 1;
                while k < row_cols.len()
                    invariant
                        1 <= k <= row_cols@.len(),
                        cells@.map_values(|s: String| s@) =~= trimmed_rows@[i as int]@.map_values(
                            |s: String| s@,
                        ).subrange(1, k as int),
                    decreases row_cols@.len() - k,
                {
                    let cell = row_cols[k].clone();
                    cells.push(cell);
                    proof {
                        assert(cells@.map_values(|s: String| s@)
                            =~= trimmed_rows@[i as int]@.map_values(|s: String| s@).subrange(
                            1,
                            k + 1,
                        ));
                    }
                    k = k + 1;
                }
                let row = TableRow { label: label.clone(), cells };
                rows.push(row);
                proof {
                    assert(raw[i as int].drop_first() =~= trimmed_rows@[i as int]@.map_values(
                        |s: String| s@,
                    ).subrange(1, trimmed_rows@[i as int]@.len() as int));
                    assert(rows_view(rows@) =~= pre_model + seq![
                        (raw[i as int].first(), raw[i as int].drop_first()),
                    ]);
                }
            } else {
                proof {
                    assert(raw[i as int].first() == trimmed_rows@[i as int]@[0]@);
                    assert(raw[i as int].first().len() == 0);
                }
            }
        }
        i = i + 1;
    }
    proof {
        assert(raw.skip(n as int) =~= Seq::<Seq<Seq<char>>>::empty());
        assert(build_rows(raw) =~= rows_view(rows@));
        assert(headers_view(headers@) == trim_all(
            section_texts_of(
                html@,
                "[data-testid=\"qsp-financials\"]"@,
                ".tableHeader .row .column"@,
            )->Some_0,
        ));
    }
    if headers.len() == 0 || rows.len() == 0 {
        return None;
    }
    Some(ExtractedTable { headers, rows })
}

/// The marker that announces the embedded payload.
pub open spec fn summary_marker() -> Seq<char> {
    "\"quoteSummary\""@
}

/// What the script chain yields on one script text: a text that mentions the
/// payload marker, parses as JSON with a string `body` member that itself
/// parses as JSON, gives out the canonical text of the payload under the
/// marker key inside.
pub open spec fn script_chain(t: Seq<char>) -> Option<Seq<char>> {
    if crate::scan::spec_find(t, "quoteSummary"@, 0) is Some {
        match str_at_path(t, "/body"@) {
            Some(body) => value_text_at_path(body, "/quoteSummary"@),
            None => None,
        }
    } else {
        None
    }
}

/// The first payload the script chain yields over a list of script texts.
pub open spec fn scripts_payload_of(texts: Seq<Seq<char>>) -> Option<Seq<char>>
    decreases texts.len(),
{
    if texts.len() == 0 {
        None
    } else {
        match script_chain(texts.first()) {
            Some(p) => Some(p),
            None => scripts_payload_of(texts.drop_first()),
        }
    }
}

/// What payload recovery yields on a page: the script chain over the three
/// selectors in order, and only when all three yield nothing, the balanced
/// span after the raw-text marker, provided the parser accepts it.
pub open spec fn spec_recover(html: Seq<char>) -> Option<Seq<char>> {
    match scripts_payload_of(script_texts_of(html, "script[type=\"application/json\"]"@)) {
        Some(p) => Some(p),
        None => match scripts_payload_of(
            script_texts_of(html, "script[data-sveltekit-fetched]"@),
        ) {
            Some(p) => Some(p),
            None => match scripts_payload_of(script_texts_of(html, "script"@)) {
                Some(p) => Some(p),
                None => match spec_extract_embedded(html, summary_marker()) {
                    Some(span) => if json_accepted(span) {
                        Some(span)
                    } else {
                        None
                    },
                    None => None,
                },
            },
        },
    }
}

/// Whether a script text mentions the payload marker.
fn contains_marker(text: &str) -> (r: bool)
    ensures
        r == (crate::scan::spec_find(text@, "quoteSummary"@, 0) is Some),
{
    let tc = crate::text::str_to_chars(text);
    let pat = crate::text::str_to_chars("quoteSummary");
    crate::scan::find_sub(&tc, &pat, 0).is_some()
}

/// Runs the script chain over every element a selector matches, in document
/// order, returning the first payload text it yields.
#[verifier::loop_isolation(false)]
fn scripts_payload(html: &str, selector: &str) -> (r: Option<String>)
    ensures
        match r {
            Some(p) => scripts_payload_of(script_texts_of(html@, selector@)) == Some(p@),
            None => scripts_payload_of(script_texts_of(html@, selector@)) is None,
        },
{
    let texts = elements_texts(html, selector);
    let ghost tv = script_texts_of(html@, selector@);
    let n = texts.len();
    let mut i: usize = 0;
    proof {
        assert(tv.skip(0) =~= tv);
    }
    while i < n
        invariant
            i <= n == texts@.len(),
            texts@.map_values(|s: String| s@) == tv,
            scripts_payload_of(tv) == scripts_payload_of(tv.skip(i as int)),
        decreases n - i,
    {
        proof {
            assert(tv.skip(i as int).first() == tv[i as int]);
            assert(tv[i as int] == texts@[i as int]@);
            assert(tv.skip(i as int).drop_first() =~= tv.skip(i + 1));
        }
        let text = &texts[i];
        if contains_marker(text.as_str()) {
            match json_str_at(text.as_str(), "/body") {
                Some(body) => match json_text_at(body.as_str(), "/quoteSummary") {
                    Some(payload) => {
                        return Some(payload);
                    },
                    None => {},
                },
                None => {},
            }
        }
        i = i + 1;
    }
    proof {
        assert(tv.skip(n as int) =~= Seq::<Seq<char>>::empty());
    }
    None
}

/// The embedded-JSON strategy: script elements first (three selectors, in
/// order), then the balanced-delimiter scan over the raw text. The result is
/// the payload as text, exactly as [`spec_recover`] names it.
pub fn recover_quote_summary(html: &str) -> (r: Option<String>)
    ensures
        match r {
            Some(doc) => spec_recover(html@) == Some(doc@),
            None => spec_recover(html@) is None,
        },
{
    match scripts_payload(html, "script[type=\"application/json\"]") {
        Some(p) => {
            return Some(p);
        },
        None => {},
    }
    match scripts_payload(html, "script[data-sveltekit-fetched]") {
        Some(p) => {
            return Some(p);
        },
        None => {},
    }
    match scripts_payload(html, "script") {
        Some(p) => {
            return Some(p);
        },
        None => {},
    }
    proof {
        assert("\"quoteSummary\""@ == summary_marker());
    }
    match crate::scan::extract_embedded_value(html, "\"quoteSummary\"") {
        Some(span) => {
            if json_accepts(span.as_str()) {
                Some(span)
            } else {
                None
            }
        },
        None => None,
    }
}

} // verus!
