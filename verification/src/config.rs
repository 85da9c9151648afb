//! Configuration: the model name and the generation endpoint, read from a
//! `KEY=VALUE` file (the shell does the reading; the parsing and rewriting
//! of the file's text is verified here).
use vstd::prelude::*;

use crate::catalog::{first_idx_of, split_lines};
use crate::format::spec_trim;

verus! {

pub struct Config {
    pub model: String,
    pub ollama_host: String,
}

impl Default for Config {
    /// The built-in model and endpoint.
    fn default() -> (c: Config)
        ensures
            c.model@ == "qwen2.5:7b-instruct"@,
            c.ollama_host@ == "http://127.0.0.1:11434/api/generate"@,
    {
        Config {
            model: "qwen2.5:7b-instruct".to_owned(),
            ollama_host: "http://127.0.0.1:11434/api/generate".to_owned(),
        }
    }
}

/// Leading and trailing double quotes removed, repeatedly.
pub open spec fn trim_quotes(s: Seq<char>) -> Seq<char>
    decreases s.len(),
{
    if s.len() > 0 && s.first() == '"' {
        trim_quotes(s.drop_first())
    } else if s.len() > 0 && s.last() == '"' {
        trim_quotes(s.drop_last())
    } else {
        s
    }
}

/// One configuration line applied to `(model, host)`: blank lines and `#`
/// comments change nothing; a `KEY=VALUE` line with a known key replaces
/// that field by the trimmed, unquoted value.
pub open spec fn apply_config_line(cfg: (Seq<char>, Seq<char>), line: Seq<char>) -> (
    Seq<char>,
    Seq<char>,
) {
    let t = spec_trim(line);
    if t.len() == 0 || t.first() == '#' {
        cfg
    } else {
        match first_idx_of(t, '=', 0) {
            None => cfg,
            Some(e) => {
                let k = spec_trim(t.take(e));
                let v = trim_quotes(spec_trim(t.skip(e + 1)));
                if k == "OLLAMA_MODEL"@ {
                    (v, cfg.1)
                } else if k == "OLLAMA_API_BASE_URL"@ {
                    (cfg.0, v)
                } else {
                    cfg
                }
            },
        }
    }
}

pub open spec fn apply_config_lines(cfg: (Seq<char>, Seq<char>), ls: Seq<Seq<char>>) -> (
    Seq<char>,
    Seq<char>,
)
    decreases ls.len(),
{
    if ls.len() == 0 {
        cfg
    } else {
        apply_config_lines(apply_config_line(cfg, ls.first()), ls.drop_first())
    }
}

/// The configuration a file's text yields, over the defaults.
pub open spec fn spec_config_from_content(content: Seq<char>) -> (Seq<char>, Seq<char>) {
    apply_config_lines(
        ("qwen2.5:7b-instruct"@, "http://127.0.0.1:11434/api/generate"@),
        split_lines(content),
    )
}

/// Strips every trailing `c`.
pub open spec fn strip_trailing(s: Seq<char>, c: char) -> Seq<char>
    decreases s.len(),
{
    if s.len() > 0 && s.last() == c {
        strip_trailing(s.drop_last(), c)
    } else {
        s
    }
}

/// Strips the suffix `pat`, repeatedly.
pub open spec fn strip_suffix_rep(s: Seq<char>, pat: Seq<char>) -> Seq<char>
    decreases s.len(),
{
    if pat.len() == 0 {
        s
    } else if s.len() >= pat.len() && s.subrange(s.len() - pat.len(), s.len() as int) == pat {
        strip_suffix_rep(s.take(s.len() - pat.len()), pat)
    } else {
        s
    }
}

/// The base URL of the host: the generation path and trailing slashes
/// removed.
pub open spec fn spec_base_url(host: Seq<char>) -> Seq<char> {
    strip_trailing(strip_suffix_rep(host, "/api/generate"@), '/')
}

/// Whether `v[0..pat.len()]` equals `pat` at the end of `v`.
fn ends_with_chars(v: &Vec<char>, pat: &Vec<char>) -> (r: bool)
    ensures
        r == (v@.len() >= pat@.len() && v@.subrange(
            v@.len() - pat@.len(),
            v@.len() as int,
        ) == pat@),
{
    let n = v.len();
    let p = pat.len();
    if n < p {
        return false;
    }
    let mut k: usize = 0;
    while k < p
        invariant
            k <= p == pat@.len() <= n == v@.len(),
            forall|t: int| 0 <= t < k ==> v@[n - p + t] == pat@[t],
        decreases p - k,
    {
        if v[n - p + k] != pat[k] {
            proof {
                assert(v@.subrange(n - p, n as int)[k as int] != pat@[k as int]);
            }
            return false;
        }
        k = k + 1;
    }
    proof {
        assert(v@.subrange(n - p, n as int) =~= pat@);
    }
    true
}

impl Config {
    /// Builds the configuration from a file's text over the defaults; the
    /// shell applies any environment overrides afterwards.
    #[verifier::loop_isolation(false)]
    pub fn from_content(content: &str) -> (c: Config)
        ensures
            (c.model@, c.ollama_host@) == spec_config_from_content(content@),
    {
        let lines = split_content_lines(content);
        let mut model = "qwen2.5:7b-instruct".to_owned();
        let mut host = "http://127.0.0.1:11434/api/generate".to_owned();
        let n = lines.len();
        let mut i: usize = 0;
        proof {
            assert(lines@.map_values(|s: String| s@).skip(0) =~= lines@.map_values(
                |s: String| s@,
            ));
        }
        while i < n
            invariant
                i <= n == lines@.len(),
                lines@.map_values(|s: String| s@) == split_lines(content@),
                spec_config_from_content(content@) == apply_config_lines(
                    (model@, host@),
                    lines@.map_values(|s: String| s@).skip(i as int),
                ),
            decreases n - i,
        {
            let ghost ls = lines@.map_values(|s: String| s@);
            proof {
                assert(ls.skip(i as int).first() == ls[i as int]);
                assert(ls[i as int] == lines@[i as int]@);
                assert(ls.skip(i as int).drop_first() =~= ls.skip(i + 1));
            }
            let line = &lines[i];
            apply_line(&mut model, &mut host, line.as_str());
            i = i + 1;
        }
        proof {
            assert(lines@.map_values(|s: String| s@).skip(n as int)
                =~= Seq::<Seq<char>>::empty());
        }
        Config { model, ollama_host: host }
    }

    /// The host with the generation path removed: the base URL for listing
    /// models.
    pub fn ollama_base_url(&self) -> (r: String)
        ensures
            r@ == spec_base_url(self.ollama_host@),
    {
        let chars = crate::text::str_to_chars(self.ollama_host.as_str());
        let v = strip_generation_path(chars);
        let mut end = v.len();
        proof {
            assert(v@.take(end as int) =~= v@);
            assert(strip_trailing(v@, '/') == strip_trailing(v@.take(end as int), '/'));
        }
        while end > 0 && v[end - 1] == '/'
            invariant
                end <= v@.len(),
                strip_trailing(v@, '/') == strip_trailing(v@.take(end as int), '/'),
            decreases end,
        {
            proof {
                assert(v@.take(end as int).last() == v@[end - 1]);
                assert(v@.take(end as int).drop_last() =~= v@.take(end - 1));
            }
            end = end - 1;
        }
        proof {
            if end > 0 {
                assert(v@.take(end as int).last() == v@[end - 1]);
            }
        }
        let out = crate::scan::subvec(&v, 0, end);
        crate::text::chars_to_string(&out)
    }

    /// The file's text with the model line replaced (or added), and the host
    /// line added when none is present.
    #[verifier::loop_isolation(false)]
    pub fn updated_config_content(&self, existing: &str, model: &str) -> (r: String)
        ensures
            r@ == spec_updated_content(existing@, model@, self.ollama_host@),
    {
        let lines = split_content_lines(existing);
        let model_pat = crate::text::str_to_chars("OLLAMA_MODEL=");
        proof {
            reveal_strlit("OLLAMA_MODEL=");
        }
        let mut out: Vec<String> = Vec::new();
        let mut found = false;
        let n = lines.len();
        let mut i: usize = 0;
        proof {
            assert(lines@.map_values(|s: String| s@).skip(0) =~= lines@.map_values(
                |s: String| s@,
            ));
            assert(out@.map_values(|s: String| s@) =~= Seq::<Seq<char>>::empty());
        }
        while i < n
            invariant
                i <= n == lines@.len(),
                model_pat@ == "OLLAMA_MODEL="@,
                lines@.map_values(|s: String| s@) == split_lines(existing@),
                (out@.map_values(|s: String| s@), found) == rewrite_lines(
                    lines@.map_values(|s: String| s@).take(i as int),
                    model@,
                ),
            decreases n - i,
        {
            let ghost ls = lines@.map_values(|s: String| s@);
            proof {
                assert(ls.take(i + 1).drop_last() =~= ls.take(i as int));
                assert(ls.take(i + 1).last() == ls[i as int]);
                assert(ls[i as int] == lines@[i as int]@);
            }
            let line = &lines[i];
            let trimmed = crate::format::trim_string(line.as_str());
            let tv = crate::text::str_to_chars(trimmed.as_str());
            let ghost pre_model = out@.map_values(|s: String| s@);
            if starts_with_chars(&tv, &model_pat) {
                found = true;
                let mut nl = "OLLAMA_MODEL=".to_owned();
                nl.append(model);
                out.push(nl);
            } else {
                out.push(line.clone());
            }
            proof {
                assert(out@.map_values(|s: String| s@) =~= pre_model + seq![out@.last()@]);
            }
            i = i + 1;
        }
        proof {
            assert(lines@.map_values(|s: String| s@).take(n as int) =~= lines@.map_values(
                |s: String| s@,
            ));
        }
        if !found {
            let ghost pre_model = out@.map_values(|s: String| s@);
            let mut nl = "OLLAMA_MODEL=".to_owned();
            nl.append(model);
            out.push(nl);
            proof {
                assert(out@.map_values(|s: String| s@) =~= pre_model + seq![out@.last()@]);
            }
        }
        let host_pat = crate::text::str_to_chars("OLLAMA_API_BASE_URL=");
        let ev = crate::text::str_to_chars(existing);
        proof {
            reveal_strlit("OLLAMA_API_BASE_URL=");
        }
        let ghost rw = rewrite_lines(split_lines(existing@), model@);
        let ghost with_model = if rw.1 {
            rw.0
        } else {
            rw.0.push("OLLAMA_MODEL="@ + model@)
        };
        proof {
            assert(out@.map_values(|s: String| s@) =~= with_model);
        }
        if crate::scan::find_sub(&ev, &host_pat, 0).is_none() {
            let ghost pre_model = out@.map_values(|s: String| s@);
            let mut nl = "OLLAMA_API_BASE_URL=".to_owned();
            nl.append(self.ollama_host.as_str());
            out.push(nl);
            proof {
                assert(out@.map_values(|s: String| s@) =~= pre_model + seq![out@.last()@]);
                assert(out@.map_values(|s: String| s@) =~= with_model.push(
                    "OLLAMA_API_BASE_URL="@ + self.ollama_host@,
                ));
            }
        }
        let r = join_newline(&out);
        proof {
            assert(r@ == spec_updated_content(existing@, model@, self.ollama_host@));
        }
        r
    }
}

/// Whether `v` begins with `pat`.
fn starts_with_chars(v: &Vec<char>, pat: &Vec<char>) -> (r: bool)
    ensures
        r == (v@.len() >= pat@.len() && v@.take(pat@.len() as int) == pat@),
{
    let n = v.len();
    let p = pat.len();
    if n < p {
        return false;
    }
    let mut k: usize = 0;
    while k < p
        invariant
            k <= p == pat@.len() <= n == v@.len(),
            forall|t: int| 0 <= t < k ==> v@[t] == pat@[t],
        decreases p - k,
    {
        if v[k] != pat[k] {
            proof {
                assert(v@.take(p as int)[k as int] != pat@[k as int]);
            }
            return false;
        }
        k = k + 1;
    }
    proof {
        assert(v@.take(p as int) =~= pat@);
    }
    true
}

/// The lines of the text, as strings.
#[verifier::loop_isolation(false)]
pub(crate) fn split_content_lines(content: &str) -> (r: Vec<String>)
    ensures
        r@.map_values(|s: String| s@) == split_lines(content@),
{
    let v = crate::text::str_to_chars(content);
    let n = v.len();
    let mut out: Vec<String> = Vec::new();
    let mut pos: usize = 0;
    proof {
        assert(out@.map_values(|s: String| s@) =~= Seq::<Seq<char>>::empty());
        assert(v@.skip(0) =~= v@);
    }
    loop
        invariant
            pos <= n == v@.len(),
            split_lines(content@) =~= out@.map_values(|s: String| s@) + split_lines(
                v@.skip(pos as int),
            ),
        decreases n - pos,
    {
        let ghost rem = v@.skip(pos as int);
        let ghost pre_model = out@.map_values(|s: String| s@);
        match crate::catalog::find_idx_of(&v, '\n', pos) {
            Some(nl) => {
                let line = crate::scan::subvec(&v, pos, nl);
                out.push(crate::text::chars_to_string(&line));
                proof {
                    crate::catalog::lemma_first_idx_shift(v@, '\n', pos as int, nl as int);
                    assert(line@ =~= rem.take(nl - pos as int));
                    assert(rem.skip(nl - pos + 1) =~= v@.skip(nl + 1));
                    assert(split_lines(rem) == seq![line@] + split_lines(v@.skip(nl + 1)));
                    assert((seq![line@] + split_lines(v@.skip(nl + 1))).first() == line@);
                    assert((seq![line@] + split_lines(v@.skip(nl + 1))).drop_first()
                        =~= split_lines(v@.skip(nl + 1)));
                    assert(out@.map_values(|s: String| s@) =~= pre_model + seq![out@.last()@]);
                }
                pos = nl + 1;
            },
            None => {
                let line = crate::scan::subvec(&v, pos, n);
                out.push(crate::text::chars_to_string(&line));
                proof {
                    crate::catalog::lemma_first_idx_shift_none(v@, '\n', pos as int);
                    assert(line@ =~= rem);
                    assert(split_lines(rem) == seq![rem]);
                    assert(seq![rem].first() == rem);
                    assert(seq![rem].drop_first() =~= Seq::<Seq<char>>::empty());
                    assert(out@.map_values(|s: String| s@) =~= pre_model + seq![out@.last()@]);
                    assert(split_lines(content@) =~= out@.map_values(|s: String| s@));
                }
                return out;
            },
        }
    }
}

/// The lines with the model line replaced; the flag says whether one was
/// found.
pub open spec fn rewrite_lines(ls: Seq<Seq<char>>, model: Seq<char>) -> (Seq<Seq<char>>, bool)
    decreases ls.len(),
{
    if ls.len() == 0 {
        (Seq::empty(), false)
    } else {
        let (pre, found) = rewrite_lines(ls.drop_last(), model);
        let t = spec_trim(ls.last());
        if t.len() >= 13 && t.take(13) == "OLLAMA_MODEL="@ {
            (pre.push("OLLAMA_MODEL="@ + model), true)
        } else {
            (pre.push(ls.last()), found)
        }
    }
}

/// The saved file: every line, the model line rewritten or appended, the
/// host line appended when the text holds none, joined by newlines.
pub open spec fn spec_updated_content(existing: Seq<char>, model: Seq<char>, host: Seq<char>) -> Seq<
    char,
> {
    let (ls, found) = rewrite_lines(split_lines(existing), model);
    let with_model = if found {
        ls
    } else {
        ls.push("OLLAMA_MODEL="@ + model)
    };
    let with_host = if crate::scan::spec_find(existing, "OLLAMA_API_BASE_URL="@, 0) is Some {
        with_model
    } else {
        with_model.push("OLLAMA_API_BASE_URL="@ + host)
    };
    spec_join_newline(with_host)
}

pub open spec fn spec_join_newline(ls: Seq<Seq<char>>) -> Seq<char>
    decreases ls.len(),
{
    if ls.len() == 0 {
        Seq::empty()
    } else if ls.len() == 1 {
        ls.first()
    } else {
        ls.first() + seq!['\n'] + spec_join_newline(ls.drop_first())
    }
}

/// Joins lines with newlines between them.
#[verifier::loop_isolation(false)]
fn join_newline(ls: &Vec<String>) -> (r: String)
    ensures
        r@ == spec_join_newline(ls@.map_values(|s: String| s@)),
{
    let mut out = String::new();
    let n = ls.len();
    if n == 0 {
        return out;
    }
    out.append(ls[0].as_str());
    let mut i: usize = 1;
    proof {
        let lsv = ls@.map_values(|s: String| s@);
        assert(lsv.take(1) =~= seq![lsv[0]]);
        assert(spec_join_newline(seq![lsv[0]]) == lsv[0]);
        assert(out@ == spec_join_newline(lsv.take(1)));
    }
    while i < n
        invariant
            1 <= i <= n == ls@.len(),
            out@ == spec_join_newline(ls@.map_values(|s: String| s@).take(i as int)),
        decreases n - i,
    {
        let ghost lsv = ls@.map_values(|s: String| s@);
        crate::text::string_push(&mut out, '\n');
        out.append(ls[i].as_str());
        proof {
            lemma_join_push(lsv, i as int);
        }
        i = i + 1;
    }
    proof {
        assert(ls@.map_values(|s: String| s@).take(n as int) =~= ls@.map_values(
            |s: String| s@,
        ));
    }
    out
}

/// Joining a one-longer prefix appends a newline and the next line.
proof fn lemma_join_push(ls: Seq<Seq<char>>, i: int)
    requires
        1 <= i < ls.len(),
    ensures
        spec_join_newline(ls.take(i + 1)) == spec_join_newline(ls.take(i)) + seq!['\n'] + ls[i],
    decreases i,
{
    if i == 1 {
        assert(ls.take(2).drop_first() =~= seq![ls[1]]);
        assert(ls.take(2).first() == ls[0]);
        assert(ls.take(1) =~= seq![ls[0]]);
        assert(spec_join_newline(seq![ls[1]]) == ls[1]);
        assert(spec_join_newline(seq![ls[0]]) == ls[0]);
        assert(spec_join_newline(ls.take(2)) =~= spec_join_newline(ls.take(1)) + seq!['\n']
            + ls[1]);
    } else {
        lemma_join_push(ls.drop_first(), i - 1);
        assert(ls.take(i + 1).drop_first() =~= ls.drop_first().take(i as int));
        assert(ls.take(i).drop_first() =~= ls.drop_first().take(i - 1));
        assert(ls.take(i + 1).first() == ls[0]);
        assert(ls.take(i).first() == ls[0]);
        assert(ls.drop_first()[i - 1] == ls[i]);
        assert(spec_join_newline(ls.take(i + 1)) =~= spec_join_newline(ls.take(i)) + seq!['\n']
            + ls[i]);
    }
}

/// Strips the generation path from the end, repeatedly.
fn strip_generation_path(v: Vec<char>) -> (r: Vec<char>)
    ensures
        r@ == strip_suffix_rep(v@, "/api/generate"@),
    decreases v@.len(),
{
    let pat = crate::text::str_to_chars("/api/generate");
    proof {
        reveal_strlit("/api/generate");
        assert(pat@.len() == 13);
    }
    if ends_with_chars(&v, &pat) {
        let keep = v.len() - pat.len();
        let w = crate::scan::subvec(&v, 0, keep);
        proof {
            assert(w@ =~= v@.take(v@.len() - 13));
        }
        strip_generation_path(w)
    } else {
        v
    }
}

/// Applies one configuration line to the two fields.
fn apply_line(model: &mut String, host: &mut String, line: &str)
    ensures
        (final(model)@, final(host)@) == apply_config_line((old(model)@, old(host)@), line@),
{
    let trimmed = crate::format::trim_string(line);
    let tv = crate::text::str_to_chars(trimmed.as_str());
    if tv.len() == 0 {
        return ;
    }
    if tv[0] == '#' {
        return ;
    }
    let e = match crate::catalog::find_idx_of(&tv, '=', 0) {
        Some(e) => e,
        None => {
            return ;
        },
    };
    let key_part = crate::scan::subvec(&tv, 0, e);
    let val_part = crate::scan::subvec(&tv, e + 1, tv.len());
    let key = crate::format::trim_string(crate::text::chars_to_string(&key_part).as_str());
    let val_trimmed = crate::format::trim_string(crate::text::chars_to_string(&val_part).as_str());
    let val = unquote(val_trimmed.as_str());
    proof {
        assert(key_part@ =~= spec_trim(line@).take(e as int));
        assert(val_part@ =~= spec_trim(line@).skip(e + 1));
    }
    if crate::text::str_eq(key.as_str(), "OLLAMA_MODEL") {
        proof {
            reveal_strlit("OLLAMA_MODEL");
        }
        *model = val;
    } else if crate::text::str_eq(key.as_str(), "OLLAMA_API_BASE_URL") {
        proof {
            reveal_strlit("OLLAMA_MODEL");
            reveal_strlit("OLLAMA_API_BASE_URL");
        }
        *host = val;
    } else {
        proof {
            reveal_strlit("OLLAMA_MODEL");
            reveal_strlit("OLLAMA_API_BASE_URL");
        }
    }
}

/// Surrounding double quotes removed, repeatedly.
fn unquote(s: &str) -> (r: String)
    ensures
        r@ == trim_quotes(s@),
{
    let mut v = crate::text::str_to_chars(s);
    loop
        invariant
            trim_quotes(s@) == trim_quotes(v@),
        decreases v@.len(),
    {
        if v.len() > 0 && v[0] == '"' {
            let ghost pre = v@;
            let n = v.len();
            v = crate::scan::subvec(&v, 1, n);
            proof {
                assert(v@ =~= pre.drop_first());
            }
        } else if v.len() > 0 && v[v.len() - 1] == '"' {
            let ghost pre = v@;
            v.pop();
            proof {
                assert(v@ =~= pre.drop_last());
            }
        } else {
            return crate::text::chars_to_string(&v);
        }
    }
}

} // verus!
