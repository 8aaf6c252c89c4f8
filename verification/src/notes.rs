use vstd::prelude::*;

use crate::catalog::{
    paper_name, paper_name_spec, session_label, session_label_spec, session_sort_key,
    session_sort_key_spec,
};
use crate::filename::{asset_url, asset_url_spec, parse_filename, parse_filename_spec};
use crate::search::{
    concat_seq, filter_seq, find_index, lemma_concat_map_push, lemma_filter_seq_contains,
    lemma_filter_take, lemma_find_index, lemma_find_index_is, lemma_find_index_none,
};
use crate::sort::{lemma_sort_seq_map, lemma_sort_seq_permutes, lemma_sort_seq_sorted, sort_by, sort_seq};
use crate::stats::{Downloaded, Stats};
use crate::text::{decimal, decimal_string, parse_u32, parse_unsigned, str_eq};

verus! {

/// A downloaded file as the notes see it: name, session tag, set number.
pub type FileView = (Seq<char>, Seq<char>, u8);

/// The files on disk of one paper.
pub struct PaperDownloads {
    pub num: String,
    pub files: Vec<Downloaded>,
}

impl View for PaperDownloads {
    type V = (Seq<char>, Seq<FileView>);

    open spec fn view(&self) -> (Seq<char>, Seq<FileView>) {
        (self.num@, self.files@.map_values(|d: Downloaded| d@))
    }
}

/// The start of a table row that links a model question paper.
pub const QUESTION_ROW: &'static str = "| [<picture>\n<source media=\"(prefers-color-scheme: dark)\"\nsrcset=\"https://raw.githubusercontent.com/abhinandh-s/cma_qps/refs/heads/master/assets/file-unknown-dark.svg\">\n<img src=\"https://raw.githubusercontent.com/abhinandh-s/cma_qps/refs/heads/master/assets/file-unknown-light.svg\" width=\"24\">\n</picture> Question Paper](";

/// The start of a list item that links a model question paper.
pub const QUESTION_ITEM: &'static str = "- [<picture>\n<source media=\"(prefers-color-scheme: dark)\"\nsrcset=\"https://raw.githubusercontent.com/abhinandh-s/cma_qps/refs/heads/master/assets/file-unknown-dark.svg\">\n<img src=\"https://raw.githubusercontent.com/abhinandh-s/cma_qps/refs/heads/master/assets/file-unknown-light.svg\" width=\"24\">\n</picture> Question Paper](";

/// Whether the name of `f` reads as a file of kind `kind`.
pub open spec fn has_kind(f: FileView, kind: Seq<char>) -> bool {
    match parse_filename_spec(f.0) {
        Some((_tag, _set, k)) => k == kind,
        None => false,
    }
}

/// Whether the name of `f` reads as set `set` of kind `kind` of session `tag`.
pub open spec fn is_file(f: FileView, tag: Seq<char>, set: u8, kind: Seq<char>) -> bool {
    parse_filename_spec(f.0) == Some((tag, set, kind))
}

/// The first of `files` that is set `set` of kind `kind` of session `tag`.
pub open spec fn find_file(files: Seq<FileView>, tag: Seq<char>, set: u8, kind: Seq<char>) -> Option<int> {
    find_index(files, |f: FileView| is_file(f, tag, set, kind))
}

/// The order of past papers: more recent session first.
pub open spec fn later_session(a: FileView, b: FileView) -> bool {
    session_sort_key_spec(a.1) > session_sort_key_spec(b.1)
}

/// The past papers among `files`, most recent session first, files of the
/// same session in their given order.
pub open spec fn pyq_files(files: Seq<FileView>) -> Seq<FileView> {
    sort_seq(
        filter_seq(files, |f: FileView| has_kind(f, "pyq"@)),
        |a: FileView, b: FileView| later_session(a, b),
    )
}

/// The list item that links the past paper `f`.
pub open spec fn pyq_line(f: FileView, base: Seq<char>) -> Seq<char> {
    "- ["@ + session_label_spec(f.1) + "]("@ + asset_url_spec(base, f.0) + ")"@ + "\n"@
}

/// The section of past papers: nothing where there is none.
pub open spec fn pyq_block_spec(files: Seq<FileView>, base: Seq<char>) -> Seq<char> {
    let p = pyq_files(files);
    if p.len() == 0 {
        Seq::empty()
    } else {
        "### Previous Year Question Papers"@ + "\n"@ + "\n"@
            + concat_seq(p.map_values(|f: FileView| pyq_line(f, base))) + "\n"@
    }
}

/// Whether `p` is what `parse_filename` gives for `name`.
pub open spec fn parsed_ok(p: Option<(&str, u8, &str)>, name: Seq<char>) -> bool {
    match p {
        Some((t, s, k)) => parse_filename_spec(name) == Some((t@, s, k@)),
        None => parse_filename_spec(name) is None,
    }
}

/// Whether `parsed` holds what `parse_filename` gives for each of `files`.
pub open spec fn all_parsed(parsed: Seq<Option<(&str, u8, &str)>>, files: Seq<FileView>) -> bool {
    &&& parsed.len() == files.len()
    &&& forall|i: int| 0 <= i < parsed.len() ==> parsed_ok(#[trigger] parsed[i], files[i].0)
}

fn parse_all<'a>(files: &'a Vec<Downloaded>) -> (res: Vec<Option<(&'a str, u8, &'static str)>>)
    ensures
        all_parsed(res@, files@.map_values(|d: Downloaded| d@)),
{
    let ghost fv = files@.map_values(|d: Downloaded| d@);
    let mut out: Vec<Option<(&'a str, u8, &'static str)>> = Vec::new();
    let mut i: usize = 0;
    while i < files.len()
        invariant
            i <= files.len(),
            fv == files@.map_values(|d: Downloaded| d@),
            out.len() == i,
            forall|j: int| 0 <= j < i ==> parsed_ok(#[trigger] out@[j], fv[j].0),
        decreases files.len() - i,
    {
        let p = parse_filename(files[i].filename.as_str());
        assert(fv[i as int].0 == files@[i as int].filename@);
        out.push(p);
        i = i + 1;
    }
    out
}

fn later_file(a: &&Downloaded, b: &&Downloaded) -> (r: bool)
    ensures
        r == (session_sort_key_spec(a.session@) > session_sort_key_spec(b.session@)),
{
    session_sort_key(a.session.as_str()) > session_sort_key(b.session.as_str())
}

fn pyq_block(files: &Vec<Downloaded>, parsed: &Vec<Option<(&str, u8, &'static str)>>, base: &str) -> (res: String)
    requires
        all_parsed(parsed@, files@.map_values(|d: Downloaded| d@)),
    ensures
        res@ == pyq_block_spec(files@.map_values(|d: Downloaded| d@), base@),
{
    let ghost fv = files@.map_values(|d: Downloaded| d@);
    let ghost is_pyq = |f: FileView| has_kind(f, "pyq"@);
    let ghost dv = |d: &Downloaded| d@;
    let mut sel: Vec<&Downloaded> = Vec::new();
    let mut i: usize = 0;
    assert(fv.take(0) =~= Seq::<FileView>::empty());
    while i < files.len()
        invariant
            i <= files.len(),
            fv == files@.map_values(|d: Downloaded| d@),
            all_parsed(parsed@, fv),
            is_pyq == (|f: FileView| has_kind(f, "pyq"@)),
            dv == (|d: &Downloaded| d@),
            sel@.map_values(dv) == filter_seq(fv.take(i as int), is_pyq),
        decreases files.len() - i,
    {
        proof {
            lemma_filter_take(fv, is_pyq, i as int);
        }
        assert(parsed_ok(parsed@[i as int], fv[i as int].0));
        let keep = match parsed[i] {
            Some((_t, _s, k)) => str_eq(k, "pyq"),
            None => false,
        };
        assert(keep == is_pyq(fv[i as int]));
        if keep {
            let ghost before = sel@;
            sel.push(&files[i]);
            assert(sel@.map_values(dv) =~= before.map_values(dv).push(fv[i as int]));
        }
        i = i + 1;
    }
    assert(fv.take(files.len() as int) =~= fv);
    let ghost exec_lt = |a: &Downloaded, b: &Downloaded|
        session_sort_key_spec(a.session@) > session_sort_key_spec(b.session@);
    let ghost spec_lt = |a: FileView, b: FileView| later_session(a, b);
    let sorted = sort_by(&sel, later_file, Ghost(exec_lt));
    proof {
        lemma_sort_seq_map(sel@, dv, exec_lt, spec_lt);
    }
    let ghost p = sorted@.map_values(dv);
    assert(p == pyq_files(fv));
    let mut md = String::new();
    if sorted.len() == 0 {
        return md;
    }
    md.append("### Previous Year Question Papers");
    md.append("\n");
    md.append("\n");
    let ghost head = md@;
    let ghost line = |f: FileView| pyq_line(f, base@);
    let mut k: usize = 0;
    assert(p.take(0).map_values(line) =~= Seq::<Seq<char>>::empty());
    while k < sorted.len()
        invariant
            k <= sorted.len(),
            p == sorted@.map_values(dv),
            dv == (|d: &Downloaded| d@),
            line == (|f: FileView| pyq_line(f, base@)),
            md@ == head + concat_seq(p.take(k as int).map_values(line)),
        decreases sorted.len() - k,
    {
        let f = sorted[k];
        assert(p[k as int] == f@);
        let label = session_label(f.session.as_str());
        let url = asset_url(base, f.filename.as_str());
        let ghost before = md@;
        md.append("- [");
        md.append(label);
        md.append("](");
        md.append(url.as_str());
        md.append(")");
        md.append("\n");
        proof {
            assert(p.take(k + 1) =~= p.take(k as int).push(p[k as int]));
            lemma_concat_map_push(p.take(k as int), p[k as int], line);
        }
        assert(md@ =~= before + line(p[k as int]));
        k = k + 1;
    }
    assert(p.take(sorted.len() as int) =~= p);
    md.append("\n");
    md
}

/// The session tags of the model question papers among `files`, each once,
/// in the order of their first file.
pub open spec fn mqp_tags(files: Seq<FileView>) -> Seq<Seq<char>>
    decreases files.len(),
{
    if files.len() == 0 {
        Seq::empty()
    } else {
        let t = mqp_tags(files.drop_last());
        match parse_filename_spec(files.last().0) {
            Some((tag, _set, k)) => if k == "mqp"@ && !t.contains(tag) {
                t.push(tag)
            } else {
                t
            },
            None => t,
        }
    }
}

/// The order of sessions: more recent first.
pub open spec fn later_tag(a: Seq<char>, b: Seq<char>) -> bool {
    session_sort_key_spec(a) > session_sort_key_spec(b)
}

/// The sessions that have a model question paper among `files`, most recent
/// first.
pub open spec fn mqp_sessions(files: Seq<FileView>) -> Seq<Seq<char>> {
    sort_seq(mqp_tags(files), |a: Seq<char>, b: Seq<char>| later_tag(a, b))
}

/// Whether `files` hold the question paper or the answer key of set `set`
/// of session `tag`.
pub open spec fn has_set(files: Seq<FileView>, tag: Seq<char>, set: u8) -> bool {
    exists|i: int| 0 <= i < files.len() && (#[trigger] is_file(files[i], tag, set, "mqp"@) || is_file(files[i], tag, set, "mqp_ans"@))
}

/// The set numbers of session `tag` that `files` hold a question paper or an
/// answer key of, in ascending order.
pub open spec fn set_list(files: Seq<FileView>, tag: Seq<char>) -> Seq<u8> {
    filter_seq(Seq::new(256, |i: int| i as u8), |v: u8| has_set(files, tag, v))
}

/// The links of set `set` of session `tag`: question paper and answer key
/// side by side where both are there, else the one that is there and a note
/// that the other was not uploaded.
pub open spec fn pair_block_spec(files: Seq<FileView>, tag: Seq<char>, set: u8, base: Seq<char>) -> Seq<char> {
    match (find_file(files, tag, set, "mqp"@), find_file(files, tag, set, "mqp_ans"@)) {
        (Some(i), Some(j)) => QUESTION_ROW@ + asset_url_spec(base, files[i].0) + ") | [\u{f1a9a} Answer Key]("@
            + asset_url_spec(base, files[j].0) + ") |"@ + "\n"@ + "|---|---|"@ + "\n"@,
        (Some(i), None) => QUESTION_ITEM@ + asset_url_spec(base, files[i].0) + ")"@ + "\n"@
            + "- ~~Answer Key~~ *(not uploaded by ICMAI)*"@ + "\n"@,
        (None, Some(j)) => "- ~~Question Paper~~ *(not uploaded by ICMAI)*"@ + "\n"@
            + "- [\u{f1a9a} Answer Key]("@ + asset_url_spec(base, files[j].0) + ")"@ + "\n"@,
        (None, None) => Seq::empty(),
    }
}

/// The part of set `set` of session `tag`.
pub open spec fn set_block_spec(files: Seq<FileView>, tag: Seq<char>, set: u8, base: Seq<char>) -> Seq<char> {
    "**Set "@ + decimal(set as nat) + "**"@ + "\n"@ + "\n"@ + pair_block_spec(files, tag, set, base) + "\n"@
}

/// The part of session `tag`: its heading, then each of its sets.
pub open spec fn session_block_spec(files: Seq<FileView>, tag: Seq<char>, base: Seq<char>) -> Seq<char> {
    "#### "@ + session_label_spec(tag) + "\n"@ + "\n"@
        + concat_seq(set_list(files, tag).map_values(|v: u8| set_block_spec(files, tag, v, base)))
}

/// The section of model question papers: nothing where there is none.
pub open spec fn mqp_block_spec(files: Seq<FileView>, base: Seq<char>) -> Seq<char> {
    let ts = mqp_sessions(files);
    if ts.len() == 0 {
        Seq::empty()
    } else {
        "### Model Question Papers"@ + "\n"@ + "\n"@
            + concat_seq(ts.map_values(|t: Seq<char>| session_block_spec(files, t, base)))
    }
}

/// Whether `p` is set `set` of kind `kind` of session `tag`.
fn parsed_is(p: &Option<(&str, u8, &'static str)>, tag: &str, set: u8, kind: &str) -> (res: bool)
    ensures
        res == match *p {
            Some((t, s, k)) => t@ == tag@ && s == set && k@ == kind@,
            None => false,
        },
{
    match p {
        Some((t, s, k)) => *s == set && str_eq(t, tag) && str_eq(k, kind),
        None => false,
    }
}

fn find_file_exec(
    files: &Vec<Downloaded>,
    parsed: &Vec<Option<(&str, u8, &'static str)>>,
    tag: &str,
    set: u8,
    kind: &str,
) -> (res: Option<usize>)
    requires
        all_parsed(parsed@, files@.map_values(|d: Downloaded| d@)),
    ensures
        find_file(files@.map_values(|d: Downloaded| d@), tag@, set, kind@) == match res {
            Some(i) => Some(i as int),
            None => None::<int>,
        },
        res matches Some(i) ==> i < files.len(),
{
    let ghost fv = files@.map_values(|d: Downloaded| d@);
    let ghost pred = |f: FileView| is_file(f, tag@, set, kind@);
    let mut i: usize = 0;
    while i < parsed.len()
        invariant
            i <= parsed.len(),
            fv == files@.map_values(|d: Downloaded| d@),
            all_parsed(parsed@, fv),
            pred == (|f: FileView| is_file(f, tag@, set, kind@)),
            forall|j: int| 0 <= j < i ==> !pred(#[trigger] fv[j]),
        decreases parsed.len() - i,
    {
        assert(parsed_ok(parsed@[i as int], fv[i as int].0));
        if parsed_is(&parsed[i], tag, set, kind) {
            proof {
                lemma_find_index_is(fv, pred, i as int);
            }
            return Some(i);
        }
        assert(!pred(fv[i as int]));
        i = i + 1;
    }
    proof {
        lemma_find_index_none(fv, pred);
    }
    None
}

fn has_set_exec(
    files: &Vec<Downloaded>,
    parsed: &Vec<Option<(&str, u8, &'static str)>>,
    tag: &str,
    set: u8,
) -> (res: bool)
    requires
        all_parsed(parsed@, files@.map_values(|d: Downloaded| d@)),
    ensures
        res == has_set(files@.map_values(|d: Downloaded| d@), tag@, set),
{
    let ghost fv = files@.map_values(|d: Downloaded| d@);
    let mut i: usize = 0;
    while i < parsed.len()
        invariant
            i <= parsed.len(),
            fv == files@.map_values(|d: Downloaded| d@),
            all_parsed(parsed@, fv),
            forall|j: int| 0 <= j < i ==> !(#[trigger] is_file(fv[j], tag@, set, "mqp"@) || is_file(fv[j], tag@, set, "mqp_ans"@)),
        decreases parsed.len() - i,
    {
        assert(parsed_ok(parsed@[i as int], fv[i as int].0));
        let is_q = parsed_is(&parsed[i], tag, set, "mqp");
        let is_a = parsed_is(&parsed[i], tag, set, "mqp_ans");
        assert(is_q == is_file(fv[i as int], tag@, set, "mqp"@));
        assert(is_a == is_file(fv[i as int], tag@, set, "mqp_ans"@));
        if is_q || is_a {
            assert(is_file(fv[i as int], tag@, set, "mqp"@) || is_file(fv[i as int], tag@, set, "mqp_ans"@));
            return true;
        }
        i = i + 1;
    }
    false
}

fn pair_block(
    files: &Vec<Downloaded>,
    parsed: &Vec<Option<(&str, u8, &'static str)>>,
    tag: &str,
    set: u8,
    base: &str,
) -> (res: String)
    requires
        all_parsed(parsed@, files@.map_values(|d: Downloaded| d@)),
    ensures
        res@ == pair_block_spec(files@.map_values(|d: Downloaded| d@), tag@, set, base@),
{
    let ghost fv = files@.map_values(|d: Downloaded| d@);
    let q = find_file_exec(files, parsed, tag, set, "mqp");
    let a = find_file_exec(files, parsed, tag, set, "mqp_ans");
    let mut md = String::new();
    match (q, a) {
        (Some(i), Some(j)) => {
            assert(fv[i as int].0 == files@[i as int].filename@);
            assert(fv[j as int].0 == files@[j as int].filename@);
            md.append(QUESTION_ROW);
            md.append(asset_url(base, files[i].filename.as_str()).as_str());
            md.append(") | [\u{f1a9a} Answer Key](");
            md.append(asset_url(base, files[j].filename.as_str()).as_str());
            md.append(") |");
            md.append("\n");
            md.append("|---|---|");
            md.append("\n");
        },
        (Some(i), None) => {
            assert(fv[i as int].0 == files@[i as int].filename@);
            md.append(QUESTION_ITEM);
            md.append(asset_url(base, files[i].filename.as_str()).as_str());
            md.append(")");
            md.append("\n");
            md.append("- ~~Answer Key~~ *(not uploaded by ICMAI)*");
            md.append("\n");
        },
        (None, Some(j)) => {
            assert(fv[j as int].0 == files@[j as int].filename@);
            md.append("- ~~Question Paper~~ *(not uploaded by ICMAI)*");
            md.append("\n");
            md.append("- [\u{f1a9a} Answer Key](");
            md.append(asset_url(base, files[j].filename.as_str()).as_str());
            md.append(")");
            md.append("\n");
        },
        (None, None) => {},
    }
    assert(md@ =~= pair_block_spec(fv, tag@, set, base@));
    md
}

fn session_block(
    files: &Vec<Downloaded>,
    parsed: &Vec<Option<(&str, u8, &'static str)>>,
    tag: &str,
    base: &str,
) -> (res: String)
    requires
        all_parsed(parsed@, files@.map_values(|d: Downloaded| d@)),
    ensures
        res@ == session_block_spec(files@.map_values(|d: Downloaded| d@), tag@, base@),
{
    let ghost fv = files@.map_values(|d: Downloaded| d@);
    let ghost all = Seq::new(256, |i: int| i as u8);
    let ghost pred = |v: u8| has_set(fv, tag@, v);
    let ghost block = |v: u8| set_block_spec(fv, tag@, v, base@);
    let mut md = String::new();
    md.append("#### ");
    md.append(session_label(tag));
    md.append("\n");
    md.append("\n");
    let ghost head = md@;
    let mut v: u16 = 0;
    assert(all.take(0) =~= Seq::<u8>::empty());
    while v < 256
        invariant
            v <= 256,
            fv == files@.map_values(|d: Downloaded| d@),
            all_parsed(parsed@, fv),
            all == Seq::new(256, |i: int| i as u8),
            pred == (|v: u8| has_set(fv, tag@, v)),
            block == (|v: u8| set_block_spec(fv, tag@, v, base@)),
            md@ == head + concat_seq(filter_seq(all.take(v as int), pred).map_values(block)),
        decreases 256 - v,
    {
        let set = v as u8;
        assert(all[v as int] == set);
        proof {
            lemma_filter_take(all, pred, v as int);
        }
        if has_set_exec(files, parsed, tag, set) {
            let ghost before = md@;
            md.append("**Set ");
            md.append(decimal_string(set as u64).as_str());
            md.append("**");
            md.append("\n");
            md.append("\n");
            md.append(pair_block(files, parsed, tag, set, base).as_str());
            md.append("\n");
            proof {
                lemma_concat_map_push(filter_seq(all.take(v as int), pred), set, block);
            }
            assert(md@ =~= before + block(set));
        }
        v = v + 1;
    }
    assert(all.take(256) =~= all);
    md
}

fn contains_str(v: &Vec<&str>, s: &str) -> (res: bool)
    ensures
        res == v@.map_values(|t: &str| t@).contains(s@),
{
    let ghost tv = v@.map_values(|t: &str| t@);
    let mut i: usize = 0;
    while i < v.len()
        invariant
            i <= v.len(),
            tv == v@.map_values(|t: &str| t@),
            forall|j: int| 0 <= j < i ==> tv[j] != s@,
        decreases v.len() - i,
    {
        assert(tv[i as int] == v@[i as int]@);
        if str_eq(v[i], s) {
            assert(tv[i as int] == s@);
            return true;
        }
        i = i + 1;
    }
    false
}

fn later_tag_exec(a: &&str, b: &&str) -> (r: bool)
    ensures
        r == later_tag(a@, b@),
{
    session_sort_key(a) > session_sort_key(b)
}

fn mqp_block(files: &Vec<Downloaded>, parsed: &Vec<Option<(&str, u8, &'static str)>>, base: &str) -> (res: String)
    requires
        all_parsed(parsed@, files@.map_values(|d: Downloaded| d@)),
    ensures
        res@ == mqp_block_spec(files@.map_values(|d: Downloaded| d@), base@),
{
    let ghost fv = files@.map_values(|d: Downloaded| d@);
    let ghost sv = |t: &str| t@;
    let mut tags: Vec<&str> = Vec::new();
    let mut i: usize = 0;
    assert(fv.take(0) =~= Seq::<FileView>::empty());
    while i < parsed.len()
        invariant
            i <= parsed.len(),
            fv == files@.map_values(|d: Downloaded| d@),
            all_parsed(parsed@, fv),
            sv == (|t: &str| t@),
            tags@.map_values(sv) == mqp_tags(fv.take(i as int)),
        decreases parsed.len() - i,
    {
        assert(parsed_ok(parsed@[i as int], fv[i as int].0));
        assert(fv.take(i + 1).drop_last() =~= fv.take(i as int));
        assert(fv.take(i + 1).last() == fv[i as int]);
        match parsed[i] {
            Some((t, _s, k)) => {
                if str_eq(k, "mqp") && !contains_str(&tags, t) {
                    let ghost before = tags@;
                    tags.push(t);
                    assert(tags@.map_values(sv) =~= before.map_values(sv).push(t@));
                }
            },
            None => {},
        }
        i = i + 1;
    }
    assert(fv.take(parsed.len() as int) =~= fv);
    let ghost spec_lt = |a: Seq<char>, b: Seq<char>| later_tag(a, b);
    let ghost exec_lt = |a: &str, b: &str| later_tag(a@, b@);
    let sorted = sort_by(&tags, later_tag_exec, Ghost(exec_lt));
    proof {
        lemma_sort_seq_map(tags@, sv, exec_lt, spec_lt);
    }
    let ghost ts = sorted@.map_values(sv);
    assert(ts == mqp_sessions(fv));
    let mut md = String::new();
    if sorted.len() == 0 {
        return md;
    }
    md.append("### Model Question Papers");
    md.append("\n");
    md.append("\n");
    let ghost head = md@;
    let ghost block = |t: Seq<char>| session_block_spec(fv, t, base@);
    let mut k: usize = 0;
    assert(ts.take(0).map_values(block) =~= Seq::<Seq<char>>::empty());
    while k < sorted.len()
        invariant
            k <= sorted.len(),
            fv == files@.map_values(|d: Downloaded| d@),
            all_parsed(parsed@, fv),
            ts == sorted@.map_values(sv),
            sv == (|t: &str| t@),
            block == (|t: Seq<char>| session_block_spec(fv, t, base@)),
            md@ == head + concat_seq(ts.take(k as int).map_values(block)),
        decreases sorted.len() - k,
    {
        assert(ts[k as int] == sorted@[k as int]@);
        let ghost before = md@;
        md.append(session_block(files, parsed, sorted[k], base).as_str());
        proof {
            assert(ts.take(k + 1) =~= ts.take(k as int).push(ts[k as int]));
            lemma_concat_map_push(ts.take(k as int), ts[k as int], block);
        }
        k = k + 1;
    }
    assert(ts.take(sorted.len() as int) =~= ts);
    md
}

/// The section of one paper: heading with number and name, its past
/// papers, its model question papers, and a rule.
pub open spec fn paper_section_spec(p: (Seq<char>, Seq<FileView>), base: Seq<char>) -> Seq<char> {
    "## P"@ + p.0 + " \u{2014} "@ + paper_name_spec(p.0) + "\n"@ + "\n"@
        + pyq_block_spec(p.1, base) + mqp_block_spec(p.1, base) + "---"@ + "\n"@ + "\n"@
}

/// The number by which papers are ordered: the paper number read as a
/// `u32`, or 99 where it does not read as one.
pub open spec fn paper_key(num: Seq<char>) -> nat {
    match parse_unsigned(num, u32::MAX as nat) {
        Some(v) => v,
        None => 99,
    }
}

/// The order of papers: by `paper_key`.
pub open spec fn paper_before(a: (Seq<char>, Seq<FileView>), b: (Seq<char>, Seq<FileView>)) -> bool {
    paper_key(a.0) < paper_key(b.0)
}

/// The first lines of the notes: how many files (saved or already present)
/// across how many papers.
pub open spec fn notes_header(total: Stats, papers: nat) -> Seq<char> {
    "> **"@ + decimal((total.success + total.skipped) as nat) + " files** across "@ + decimal(papers)
        + " papers. Files not listed here were not yet uploaded by ICMAI at time of release."@
        + "\n"@ + "\n"@
}

/// The release notes: the header, then the section of each paper in the
/// order of `paper_key`, papers with equal keys in their given order.
pub open spec fn release_notes_spec(per_paper: Seq<(Seq<char>, Seq<FileView>)>, base: Seq<char>, total: Stats) -> Seq<char> {
    notes_header(total, per_paper.len())
        + concat_seq(paper_order(per_paper).map_values(|p: (Seq<char>, Seq<FileView>)| paper_section_spec(p, base)))
}

/// The papers in the order of their sections: by `paper_key`, papers with
/// equal keys in their given order.
pub open spec fn paper_order(per_paper: Seq<(Seq<char>, Seq<FileView>)>) -> Seq<(Seq<char>, Seq<FileView>)> {
    sort_seq(per_paper, |a: (Seq<char>, Seq<FileView>), b: (Seq<char>, Seq<FileView>)| paper_before(a, b))
}

fn paper_section(p: &PaperDownloads, base: &str) -> (res: String)
    ensures
        res@ == paper_section_spec(p@, base@),
{
    let num = p.num.as_str();
    let parsed = parse_all(&p.files);
    let mut md = String::new();
    md.append("## P");
    md.append(num);
    md.append(" \u{2014} ");
    md.append(paper_name(num));
    md.append("\n");
    md.append("\n");
    md.append(pyq_block(&p.files, &parsed, base).as_str());
    md.append(mqp_block(&p.files, &parsed, base).as_str());
    md.append("---");
    md.append("\n");
    md.append("\n");
    assert(md@ =~= paper_section_spec(p@, base@));
    md
}

/// The number by which paper `num` is ordered in the notes.
pub fn paper_sort_key(num: &str) -> (res: u32)
    ensures
        res as nat == paper_key(num@),
{
    match parse_u32(num) {
        Some(v) => v,
        None => 99,
    }
}

fn paper_lt(a: &&PaperDownloads, b: &&PaperDownloads) -> (r: bool)
    ensures
        r == (paper_key(a.num@) < paper_key(b.num@)),
{
    paper_sort_key(a.num.as_str()) < paper_sort_key(b.num.as_str())
}

/// Writes the release notes in Markdown: for each paper, links to the
/// release assets of its past papers and of its model question papers with
/// their answer keys.
pub fn generate_release_notes(per_paper: &Vec<PaperDownloads>, release_base: &str, total: &Stats) -> (res: String)
    requires
        total.success + total.skipped <= u32::MAX,
    ensures
        res@ == release_notes_spec(per_paper@.map_values(|p: PaperDownloads| p@), release_base@, *total),
{
    let ghost pv = per_paper@.map_values(|p: PaperDownloads| p@);
    let mut md = String::new();
    md.append("> **");
    md.append(decimal_string((total.success + total.skipped) as u64).as_str());
    md.append(" files** across ");
    md.append(decimal_string(per_paper.len() as u64).as_str());
    md.append(" papers. Files not listed here were not yet uploaded by ICMAI at time of release.");
    md.append("\n");
    md.append("\n");
    assert(md@ =~= notes_header(*total, pv.len()));
    let ghost head = md@;
    let ghost rv = |p: &PaperDownloads| p@;
    let mut refs: Vec<&PaperDownloads> = Vec::new();
    let mut i: usize = 0;
    while i < per_paper.len()
        invariant
            i <= per_paper.len(),
            pv == per_paper@.map_values(|p: PaperDownloads| p@),
            rv == (|p: &PaperDownloads| p@),
            refs@.map_values(rv) == pv.take(i as int),
        decreases per_paper.len() - i,
    {
        let ghost before = refs@;
        refs.push(&per_paper[i]);
        assert(pv.take(i + 1) =~= pv.take(i as int).push(pv[i as int]));
        assert(refs@.map_values(rv) =~= before.map_values(rv).push(pv[i as int]));
        i = i + 1;
    }
    assert(pv.take(per_paper.len() as int) =~= pv);
    let ghost exec_lt = |a: &PaperDownloads, b: &PaperDownloads| paper_key(a.num@) < paper_key(b.num@);
    let ghost spec_lt = |a: (Seq<char>, Seq<FileView>), b: (Seq<char>, Seq<FileView>)| paper_before(a, b);
    let sorted = sort_by(&refs, paper_lt, Ghost(exec_lt));
    proof {
        lemma_sort_seq_map(refs@, rv, exec_lt, spec_lt);
    }
    let ghost order = sorted@.map_values(rv);
    assert(order == paper_order(pv));
    let ghost section = |p: (Seq<char>, Seq<FileView>)| paper_section_spec(p, release_base@);
    let mut k: usize = 0;
    assert(order.take(0).map_values(section) =~= Seq::<Seq<char>>::empty());
    while k < sorted.len()
        invariant
            k <= sorted.len(),
            order == sorted@.map_values(rv),
            rv == (|p: &PaperDownloads| p@),
            section == (|p: (Seq<char>, Seq<FileView>)| paper_section_spec(p, release_base@)),
            md@ == head + concat_seq(order.take(k as int).map_values(section)),
        decreases sorted.len() - k,
    {
        assert(order[k as int] == sorted@[k as int]@);
        md.append(paper_section(sorted[k], release_base).as_str());
        proof {
            assert(order.take(k + 1) =~= order.take(k as int).push(order[k as int]));
            lemma_concat_map_push(order.take(k as int), order[k as int], section);
        }
        k = k + 1;
    }
    assert(order.take(sorted.len() as int) =~= order);
    md
}

/// Whether `f` is a model question paper of session `tag`.
pub open spec fn is_mqp_of(f: FileView, tag: Seq<char>) -> bool {
    match parse_filename_spec(f.0) {
        Some((t, _set, k)) => t == tag && k == "mqp"@,
        None => false,
    }
}

/// The release notes give each paper one section, in ascending order of
/// paper number (numbers that do not read as one count as 99).
pub proof fn lemma_papers_in_order(per_paper: Seq<(Seq<char>, Seq<FileView>)>)
    ensures
        paper_order(per_paper).to_multiset() == per_paper.to_multiset(),
        forall|i: int, j: int|
            0 <= i < j < per_paper.len() ==> paper_key((#[trigger] paper_order(per_paper)[i]).0)
                <= paper_key((#[trigger] paper_order(per_paper)[j]).0),
{
    let lt = |a: (Seq<char>, Seq<FileView>), b: (Seq<char>, Seq<FileView>)| paper_before(a, b);
    let key = |p: (Seq<char>, Seq<FileView>)| paper_key(p.0) as int;
    lemma_sort_seq_permutes(per_paper, lt);
    lemma_sort_seq_sorted(per_paper, lt, key);
    crate::sort::lemma_sort_seq_len(per_paper, lt);
}

/// The past papers section lists exactly the past papers among `files`,
/// most recent session first.
pub proof fn lemma_pyq_files_listed(files: Seq<FileView>)
    ensures
        forall|f: FileView| pyq_files(files).contains(f) <==> files.contains(f) && has_kind(f, "pyq"@),
        forall|i: int, j: int|
            0 <= i < j < pyq_files(files).len() ==> session_sort_key_spec((#[trigger] pyq_files(files)[i]).1)
                >= session_sort_key_spec((#[trigger] pyq_files(files)[j]).1),
{
    let pred = |f: FileView| has_kind(f, "pyq"@);
    let lt = |a: FileView, b: FileView| later_session(a, b);
    let key = |f: FileView| -(session_sort_key_spec(f.1) as int);
    let filtered = filter_seq(files, pred);
    lemma_sort_seq_permutes(filtered, lt);
    lemma_sort_seq_sorted(filtered, lt, key);
    assert forall|f: FileView| pyq_files(files).contains(f) <==> files.contains(f) && has_kind(f, "pyq"@) by {
        vstd::seq_lib::to_multiset_contains(pyq_files(files), f);
        vstd::seq_lib::to_multiset_contains(filtered, f);
        lemma_filter_seq_contains(files, pred, f);
    }
}

proof fn lemma_filter_ascending(s: Seq<u8>, pred: spec_fn(u8) -> bool)
    requires
        forall|i: int, j: int| 0 <= i < j < s.len() ==> s[i] < s[j],
    ensures
        forall|i: int, j: int| 0 <= i < j < filter_seq(s, pred).len() ==> filter_seq(s, pred)[i] < filter_seq(s, pred)[j],
    decreases s.len(),
{
    if s.len() > 0 {
        let t = filter_seq(s.drop_last(), pred);
        lemma_filter_ascending(s.drop_last(), pred);
        if pred(s.last()) {
            assert forall|i: int| 0 <= i < t.len() implies t[i] < s.last() by {
                lemma_filter_seq_contains(s.drop_last(), pred, t[i]);
                assert(t.contains(t[i]));
                let k = choose|k: int| 0 <= k < s.drop_last().len() && s.drop_last()[k] == t[i];
                assert(s[k] == t[i]);
            }
            let r = t.push(s.last());
            assert forall|i: int, j: int| 0 <= i < j < r.len() implies r[i] < r[j] by {
                if j == t.len() {
                    assert(r[i] == t[i]);
                } else {
                    assert(r[i] == t[i] && r[j] == t[j]);
                }
            }
        }
    }
}

/// Each session lists exactly the set numbers that have a question paper or
/// an answer key among `files`, each once, in ascending order.
pub proof fn lemma_set_list(files: Seq<FileView>, tag: Seq<char>)
    ensures
        forall|v: u8| set_list(files, tag).contains(v) <==> has_set(files, tag, v),
        forall|i: int, j: int|
            0 <= i < j < set_list(files, tag).len() ==> (#[trigger] set_list(files, tag)[i]) < (#[trigger] set_list(files, tag)[j]),
{
    let all = Seq::new(256, |i: int| i as u8);
    let pred = |v: u8| has_set(files, tag, v);
    assert forall|v: u8| set_list(files, tag).contains(v) <==> has_set(files, tag, v) by {
        lemma_filter_seq_contains(all, pred, v);
        assert(all[v as int] == v);
    }
    lemma_filter_ascending(all, pred);
}

proof fn lemma_mqp_tags(files: Seq<FileView>)
    ensures
        forall|t: Seq<char>| mqp_tags(files).contains(t) <==> exists|i: int| 0 <= i < files.len() && is_mqp_of(#[trigger] files[i], t),
        mqp_tags(files).no_duplicates(),
    decreases files.len(),
{
    if files.len() > 0 {
        let d = files.drop_last();
        let t = mqp_tags(d);
        lemma_mqp_tags(d);
        assert forall|x: Seq<char>| mqp_tags(files).contains(x) <==> exists|i: int| 0 <= i < files.len() && is_mqp_of(#[trigger] files[i], x) by {
            if exists|i: int| 0 <= i < d.len() && is_mqp_of(#[trigger] d[i], x) {
                let i = choose|i: int| 0 <= i < d.len() && is_mqp_of(#[trigger] d[i], x);
                assert(files[i] == d[i]);
            }
            if exists|i: int| 0 <= i < files.len() && is_mqp_of(#[trigger] files[i], x) {
                let i = choose|i: int| 0 <= i < files.len() && is_mqp_of(#[trigger] files[i], x);
                if i < d.len() {
                    assert(d[i] == files[i]);
                }
            }
            if mqp_tags(files) != t {
                let r = mqp_tags(files);
                if r.contains(x) {
                    let k = choose|k: int| 0 <= k < r.len() && r[k] == x;
                    if k < t.len() {
                        assert(t[k] == x);
                    }
                }
                if t.contains(x) {
                    let k = choose|k: int| 0 <= k < t.len() && t[k] == x;
                    assert(r[k] == x);
                }
                assert(r[t.len() as int] == r.last());
            }
        }
    }
}

/// The model question papers section has one part per session that has a
/// question paper among `files`, each session once, most recent first.
pub proof fn lemma_mqp_sessions(files: Seq<FileView>)
    ensures
        forall|t: Seq<char>| mqp_sessions(files).contains(t) <==> exists|i: int| 0 <= i < files.len() && is_mqp_of(#[trigger] files[i], t),
        mqp_sessions(files).no_duplicates(),
        forall|i: int, j: int|
            0 <= i < j < mqp_sessions(files).len() ==> session_sort_key_spec(#[trigger] mqp_sessions(files)[i])
                >= session_sort_key_spec(#[trigger] mqp_sessions(files)[j]),
{
    let tags = mqp_tags(files);
    let lt = |a: Seq<char>, b: Seq<char>| later_tag(a, b);
    let key = |t: Seq<char>| -(session_sort_key_spec(t) as int);
    lemma_mqp_tags(files);
    lemma_sort_seq_permutes(tags, lt);
    lemma_sort_seq_sorted(tags, lt, key);
    let r = mqp_sessions(files);
    assert forall|t: Seq<char>| r.contains(t) <==> tags.contains(t) by {
        vstd::seq_lib::to_multiset_contains(r, t);
        vstd::seq_lib::to_multiset_contains(tags, t);
    }
    tags.lemma_multiset_has_no_duplicates();
    r.lemma_multiset_has_no_duplicates_conv();
}

/// A set number is listed under a session exactly where a question paper
/// (kind `mqp`) or an answer key (kind `mqp_ans`) of that session and set is
/// among the files, and each listed set links at least one of them.
pub proof fn lemma_listed_sets_have_files(files: Seq<FileView>, tag: Seq<char>, base: Seq<char>)
    ensures
        forall|v: u8| #[trigger] set_list(files, tag).contains(v) <==> exists|i: int|
            0 <= i < files.len() && (parse_filename_spec((#[trigger] files[i]).0) == Some((tag, v, "mqp"@))
                || parse_filename_spec(files[i].0) == Some((tag, v, "mqp_ans"@))),
        forall|v: u8| #[trigger] set_list(files, tag).contains(v) ==> pair_block_spec(files, tag, v, base).len() > 0,
{
    lemma_set_list(files, tag);
    assert forall|v: u8| #[trigger] set_list(files, tag).contains(v) <==> exists|i: int|
        0 <= i < files.len() && (parse_filename_spec((#[trigger] files[i]).0) == Some((tag, v, "mqp"@))
            || parse_filename_spec(files[i].0) == Some((tag, v, "mqp_ans"@))) by {
        if has_set(files, tag, v) {
            let i = choose|i: int| 0 <= i < files.len() && (#[trigger] is_file(files[i], tag, v, "mqp"@) || is_file(files[i], tag, v, "mqp_ans"@));
            assert(parse_filename_spec(files[i].0) == Some((tag, v, "mqp"@))
                || parse_filename_spec(files[i].0) == Some((tag, v, "mqp_ans"@)));
        }
        if exists|i: int| 0 <= i < files.len() && (parse_filename_spec((#[trigger] files[i]).0) == Some((tag, v, "mqp"@))
            || parse_filename_spec(files[i].0) == Some((tag, v, "mqp_ans"@))) {
            let i = choose|i: int| 0 <= i < files.len() && (parse_filename_spec((#[trigger] files[i]).0) == Some((tag, v, "mqp"@))
                || parse_filename_spec(files[i].0) == Some((tag, v, "mqp_ans"@)));
            assert(is_file(files[i], tag, v, "mqp"@) || is_file(files[i], tag, v, "mqp_ans"@));
        }
    }
    assert forall|v: u8| #[trigger] set_list(files, tag).contains(v) implies pair_block_spec(files, tag, v, base).len() > 0 by {
        reveal_strlit("\n");
        assert(has_set(files, tag, v));
        let i = choose|i: int| 0 <= i < files.len() && (#[trigger] is_file(files[i], tag, v, "mqp"@) || is_file(files[i], tag, v, "mqp_ans"@));
        let pq = |f: FileView| is_file(f, tag, v, "mqp"@);
        let pa = |f: FileView| is_file(f, tag, v, "mqp_ans"@);
        lemma_find_index(files, pq);
        lemma_find_index(files, pa);
        if is_file(files[i], tag, v, "mqp"@) {
            assert(pq(files[i]));
            assert(find_file(files, tag, v, "mqp"@) is Some);
        } else {
            assert(pa(files[i]));
            assert(find_file(files, tag, v, "mqp_ans"@) is Some);
        }
    }
}

/// The notes depend on the counts only through the number of files saved
/// or already present: two runs with the same papers, address and number of
/// such files give the same notes, whatever their counts of missing files
/// or the split between saved and present.
pub proof fn lemma_notes_depend_on_present_count(
    per_paper: Seq<(Seq<char>, Seq<FileView>)>,
    base: Seq<char>,
    t1: Stats,
    t2: Stats,
)
    requires
        t1.success + t1.skipped == t2.success + t2.skipped,
    ensures
        release_notes_spec(per_paper, base, t1) == release_notes_spec(per_paper, base, t2),
{
}

} // verus!
