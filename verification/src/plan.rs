use vstd::prelude::*;

use crate::catalog::{fmt_url, fmt_url_spec};
use crate::filename::{parse_filename, parse_filename_spec, set_number_spec};
use crate::search::{find_last_index, lemma_find_last_index_is};
use crate::sort::{lemma_sort_seq_map, lemma_sort_seq_ordered, lemma_sort_seq_permutes, sort_by, sort_seq};
use crate::tables::{paper_entries_spec, lookup_spec, UrlEntry, UrlTable};
use crate::text::{
    decimal, decimal_string, lemma_decimal_digits, lemma_seq_lt_irreflexive, lemma_seq_lt_total,
    lemma_seq_lt_transitive, lemma_decimal_parses, lemma_split_seq_join,
    lemma_split_seq_single, leading_count, replace_seq, seq_lt, split_seq, str_eq, str_lt,
    strip_suffix_seq,
};

verus! {

/// The root under which every file is uploaded.
pub const BASE_URL: &'static str = "https://icmai.in/upload/";

/// A past examination term: the name of its upload folder and the tag of
/// its session.
pub struct PyqTerm {
    pub term: &'static str,
    pub prefix: &'static str,
}

impl View for PyqTerm {
    type V = (Seq<char>, Seq<char>);

    open spec fn view(&self) -> (Seq<char>, Seq<char>) {
        (self.term@, self.prefix@)
    }
}

/// Where the model question papers of a session are uploaded: the session
/// tag, the folder, the number of sets and the file name template.
pub struct MqpQConfig {
    pub tag: &'static str,
    pub path: &'static str,
    pub sets: u8,
    pub fmt: &'static str,
}

impl View for MqpQConfig {
    type V = (Seq<char>, Seq<char>, u8, Seq<char>);

    open spec fn view(&self) -> (Seq<char>, Seq<char>, u8, Seq<char>) {
        (self.tag@, self.path@, self.sets, self.fmt@)
    }
}

/// A file to fetch: the name to save it under, its address, its session and
/// its set number (0 for a past paper).
pub struct DownloadJob {
    pub filename: String,
    pub url: String,
    pub session: String,
    pub set: u8,
}

impl View for DownloadJob {
    type V = (Seq<char>, Seq<char>, Seq<char>, u8);

    open spec fn view(&self) -> (Seq<char>, Seq<char>, Seq<char>, u8) {
        (self.filename@, self.url@, self.session@, self.set)
    }
}

/// The past examination terms, most recent first.
pub open spec fn pyq_table() -> Seq<(Seq<char>, Seq<char>)> {
    seq![
        ("Dec25"@, "d25"@),
        ("June25"@, "j25"@),
        ("Dec24"@, "d24"@),
        ("Jun24"@, "j24"@),
        ("Dec23"@, "d23"@),
    ]
}

/// The upload places of the model question papers, most recent session first.
pub open spec fn mqp_config_table() -> Seq<(Seq<char>, Seq<char>, u8, Seq<char>)> {
    seq![
        ("d25"@, "MQP_2022_Dec2025/Intermediate/"@, 2u8, "Paper{p}_Syl22_Dec25_Set{s}.pdf"@),
        ("j25"@, "MQP_2022_June2025/Intermediate/"@, 2u8, "Paper{p}_Syl22_June25_Set{s}.pdf"@),
        ("d24"@, "MQP_2022/Inter/"@, 2u8, "MQP_Paper{p}_Set{s}_Dec24.pdf"@),
        ("j24"@, "MQP_2022/Inter/"@, 1u8, "Paper{p}_Syl22_June24_Set1.pdf"@),
        ("d23"@, "MQP_2022/Inter/"@, 2u8, "Paper{p}_Syl22_Dec23_Set{s}.pdf"@),
    ]
}

/// The past examination terms.
pub fn pyq_terms() -> (res: Vec<PyqTerm>)
    ensures
        res@.map_values(|t: PyqTerm| t@) == pyq_table(),
{
    let v = vec![
        PyqTerm { term: "Dec25", prefix: "d25" },
        PyqTerm { term: "June25", prefix: "j25" },
        PyqTerm { term: "Dec24", prefix: "d24" },
        PyqTerm { term: "Jun24", prefix: "j24" },
        PyqTerm { term: "Dec23", prefix: "d23" },
    ];
    assert(v@.map_values(|t: PyqTerm| t@) =~= pyq_table());
    v
}

/// The upload places of the model question papers.
pub fn mqp_q_configs() -> (res: Vec<MqpQConfig>)
    ensures
        res@.map_values(|c: MqpQConfig| c@) == mqp_config_table(),
{
    let v = vec![
        MqpQConfig { tag: "d25", path: "MQP_2022_Dec2025/Intermediate/", sets: 2, fmt: "Paper{p}_Syl22_Dec25_Set{s}.pdf" },
        MqpQConfig { tag: "j25", path: "MQP_2022_June2025/Intermediate/", sets: 2, fmt: "Paper{p}_Syl22_June25_Set{s}.pdf" },
        MqpQConfig { tag: "d24", path: "MQP_2022/Inter/", sets: 2, fmt: "MQP_Paper{p}_Set{s}_Dec24.pdf" },
        MqpQConfig { tag: "j24", path: "MQP_2022/Inter/", sets: 1, fmt: "Paper{p}_Syl22_June24_Set1.pdf" },
        MqpQConfig { tag: "d23", path: "MQP_2022/Inter/", sets: 2, fmt: "Paper{p}_Syl22_Dec23_Set{s}.pdf" },
    ];
    assert(v@.map_values(|c: MqpQConfig| c@) =~= mqp_config_table());
    v
}

/// The name under which a past paper is saved: `pyq_<tag>_p<paper>.pdf`.
pub open spec fn pyq_filename_spec(prefix: Seq<char>, num: Seq<char>) -> Seq<char> {
    "pyq_"@ + prefix + "_p"@ + num + ".pdf"@
}

/// The name under which a model question paper is saved:
/// `mqp_<tag>_s<set>_p<paper>.pdf`.
pub open spec fn mqp_filename_spec(tag: Seq<char>, set: u8, num: Seq<char>) -> Seq<char> {
    "mqp_"@ + tag + "_s"@ + decimal(set as nat) + "_p"@ + num + ".pdf"@
}

/// The address of file `filename` of paper `num`: the one that `overrides`
/// gives, under the upload root, or else `default`.
pub open spec fn url_or_override(
    overrides: Seq<(Seq<char>, Seq<(Seq<char>, Seq<char>)>)>,
    num: Seq<char>,
    filename: Seq<char>,
    default: Seq<char>,
) -> Seq<char> {
    match lookup_spec(overrides, num, filename) {
        Some(rel) => BASE_URL@ + rel,
        None => default,
    }
}

/// The job of the past paper of term `t` for paper `num`.
pub open spec fn pyq_job_spec(
    t: (Seq<char>, Seq<char>),
    num: Seq<char>,
    overrides: Seq<(Seq<char>, Seq<(Seq<char>, Seq<char>)>)>,
) -> (Seq<char>, Seq<char>, Seq<char>, u8) {
    let filename = pyq_filename_spec(t.1, num);
    let default = BASE_URL@ + "QuestionPaper/syllabus2022/"@ + t.0 + "/Paper"@ + num + ".pdf"@;
    (filename, url_or_override(overrides, num, filename, default), t.1, 0u8)
}

/// The job of set `set` of the model question paper of session `c` for paper `num`.
pub open spec fn mqp_job_spec(
    c: (Seq<char>, Seq<char>, u8, Seq<char>),
    set: u8,
    num: Seq<char>,
    overrides: Seq<(Seq<char>, Seq<(Seq<char>, Seq<char>)>)>,
) -> (Seq<char>, Seq<char>, Seq<char>, u8) {
    let filename = mqp_filename_spec(c.0, set, num);
    let default = BASE_URL@ + "Students/"@ + c.1 + fmt_url_spec(c.3, num, set);
    (filename, url_or_override(overrides, num, filename, default), c.0, set)
}

/// The jobs of sets 1 to `c.2` of session `c`.
pub open spec fn config_jobs_spec(
    c: (Seq<char>, Seq<char>, u8, Seq<char>),
    num: Seq<char>,
    overrides: Seq<(Seq<char>, Seq<(Seq<char>, Seq<char>)>)>,
) -> Seq<(Seq<char>, Seq<char>, Seq<char>, u8)> {
    Seq::new(c.2 as nat, |i: int| mqp_job_spec(c, (i + 1) as u8, num, overrides))
}

/// The jobs of all sets of all sessions in `cs`, session by session.
pub open spec fn mqp_jobs_spec(
    cs: Seq<(Seq<char>, Seq<char>, u8, Seq<char>)>,
    num: Seq<char>,
    overrides: Seq<(Seq<char>, Seq<(Seq<char>, Seq<char>)>)>,
) -> Seq<(Seq<char>, Seq<char>, Seq<char>, u8)>
    decreases cs.len(),
{
    if cs.len() == 0 {
        Seq::empty()
    } else {
        mqp_jobs_spec(cs.drop_last(), num, overrides) + config_jobs_spec(cs.last(), num, overrides)
    }
}

/// The question papers to fetch for paper `num`: the past paper of each
/// term, then each set of each session's model question paper.
pub open spec fn question_jobs_spec(
    num: Seq<char>,
    overrides: Seq<(Seq<char>, Seq<(Seq<char>, Seq<char>)>)>,
) -> Seq<(Seq<char>, Seq<char>, Seq<char>, u8)> {
    pyq_table().map_values(|t: (Seq<char>, Seq<char>)| pyq_job_spec(t, num, overrides))
        + mqp_jobs_spec(mqp_config_table(), num, overrides)
}

/// The job of the answer key `e`: saved under its name, fetched from its
/// address under the upload root; its session and set are those that its
/// name carries, or empty and 0.
pub open spec fn answer_job_spec(e: (Seq<char>, Seq<char>)) -> (Seq<char>, Seq<char>, Seq<char>, u8) {
    match parse_filename_spec(e.0) {
        Some((tag, set, _kind)) => (e.0, BASE_URL@ + e.1, tag, set),
        None => (e.0, BASE_URL@ + e.1, Seq::empty(), 0u8),
    }
}

/// The order of answer keys: by file name.
pub open spec fn entry_lt(a: (Seq<char>, Seq<char>), b: (Seq<char>, Seq<char>)) -> bool {
    seq_lt(a.0, b.0)
}

/// The entries of `s` with each file name once: an entry is dropped where a
/// later one has the same name, as a map filled in order keeps the last.
pub open spec fn keep_last_names(s: Seq<(Seq<char>, Seq<char>)>) -> Seq<(Seq<char>, Seq<char>)>
    decreases s.len(),
{
    if s.len() == 0 {
        s
    } else {
        let rest = keep_last_names(s.drop_first());
        if exists|j: int| 1 <= j < s.len() && (#[trigger] s[j]).0 == s[0].0 {
            rest
        } else {
            seq![s[0]] + rest
        }
    }
}

/// The answer keys to fetch for paper `num`, in the order of their file
/// names, or nothing where `answers` has no entry for the paper.
pub open spec fn answer_jobs_spec(
    answers: Seq<(Seq<char>, Seq<(Seq<char>, Seq<char>)>)>,
    num: Seq<char>,
) -> Option<Seq<(Seq<char>, Seq<char>, Seq<char>, u8)>> {
    match paper_entries_spec(answers, num) {
        Some(es) => Some(
            sort_seq(keep_last_names(es), |a: (Seq<char>, Seq<char>), b: (Seq<char>, Seq<char>)| entry_lt(a, b))
                .map_values(|e: (Seq<char>, Seq<char>)| answer_job_spec(e)),
        ),
        None => None,
    }
}

/// The name under which the past paper of session `prefix` for paper `num` is saved.
pub fn pyq_filename(prefix: &str, num: &str) -> (res: String)
    ensures
        res@ == pyq_filename_spec(prefix@, num@),
{
    let mut s = String::new();
    s.append("pyq_");
    s.append(prefix);
    s.append("_p");
    s.append(num);
    s.append(".pdf");
    assert(s@ =~= pyq_filename_spec(prefix@, num@));
    s
}

/// The name under which set `set` of the model question paper of session
/// `tag` for paper `num` is saved.
pub fn mqp_filename(tag: &str, set: u8, num: &str) -> (res: String)
    ensures
        res@ == mqp_filename_spec(tag@, set, num@),
{
    let set_text = decimal_string(set as u64);
    let mut s = String::new();
    s.append("mqp_");
    s.append(tag);
    s.append("_s");
    s.append(set_text.as_str());
    s.append("_p");
    s.append(num);
    s.append(".pdf");
    assert(s@ =~= mqp_filename_spec(tag@, set, num@));
    s
}

fn url_with_override(overrides: &UrlTable, num: &str, filename: &str, default: String) -> (res: String)
    ensures
        res@ == url_or_override(overrides@, num@, filename@, default@),
{
    match overrides.lookup(num, filename) {
        Some(rel) => {
            let mut u = String::new();
            u.append(BASE_URL);
            u.append(rel);
            u
        },
        None => default,
    }
}

/// The question papers to fetch for paper `num`, with their addresses.
pub fn question_jobs(num: &str, overrides: &UrlTable) -> (res: Vec<DownloadJob>)
    ensures
        res@.map_values(|j: DownloadJob| j@) == question_jobs_spec(num@, overrides@),
{
    let mut jobs: Vec<DownloadJob> = Vec::new();
    let terms = pyq_terms();
    let ghost tt = terms@.map_values(|t: PyqTerm| t@);
    let mut i: usize = 0;
    while i < terms.len()
        invariant
            i <= terms.len(),
            tt == terms@.map_values(|t: PyqTerm| t@),
            tt == pyq_table(),
            jobs@.map_values(|j: DownloadJob| j@)
                == tt.take(i as int).map_values(|t: (Seq<char>, Seq<char>)| pyq_job_spec(t, num@, overrides@)),
        decreases terms.len() - i,
    {
        let t = &terms[i];
        assert(tt[i as int] == t@);
        let filename = pyq_filename(t.prefix, num);
        let mut default = String::new();
        default.append(BASE_URL);
        default.append("QuestionPaper/syllabus2022/");
        default.append(t.term);
        default.append("/Paper");
        default.append(num);
        default.append(".pdf");
        let url = url_with_override(overrides, num, filename.as_str(), default);
        let mut session = String::new();
        session.append(t.prefix);
        let job = DownloadJob { filename, url, session, set: 0 };
        assert(job@ == pyq_job_spec(tt[i as int], num@, overrides@));
        let ghost before = jobs@;
        jobs.push(job);
        assert(tt.take(i + 1) =~= tt.take(i as int).push(tt[i as int]));
        assert(jobs@.map_values(|j: DownloadJob| j@) =~= before.map_values(|j: DownloadJob| j@).push(job@));
        i = i + 1;
    }
    assert(tt.take(terms.len() as int) =~= tt);
    let configs = mqp_q_configs();
    let ghost cc = configs@.map_values(|c: MqpQConfig| c@);
    let ghost pyqs = jobs@.map_values(|j: DownloadJob| j@);
    let mut k: usize = 0;
    assert(cc.take(0) =~= Seq::<(Seq<char>, Seq<char>, u8, Seq<char>)>::empty());
    while k < configs.len()
        invariant
            k <= configs.len(),
            cc == configs@.map_values(|c: MqpQConfig| c@),
            jobs@.map_values(|j: DownloadJob| j@) == pyqs + mqp_jobs_spec(cc.take(k as int), num@, overrides@),
        decreases configs.len() - k,
    {
        let c = &configs[k];
        assert(cc[k as int] == c@);
        let ghost start = jobs@.map_values(|j: DownloadJob| j@);
        let mut done: u8 = 0;
        while done < c.sets
            invariant
                done <= c.sets,
                jobs@.map_values(|j: DownloadJob| j@)
                    == start + config_jobs_spec(c@, num@, overrides@).take(done as int),
            decreases c.sets - done,
        {
            let s: u8 = done + 1;
            let filename = mqp_filename(c.tag, s, num);
            let file_part = fmt_url(c.fmt, num, s);
            let mut default = String::new();
            default.append(BASE_URL);
            default.append("Students/");
            default.append(c.path);
            default.append(file_part.as_str());
            let url = url_with_override(overrides, num, filename.as_str(), default);
            let mut session = String::new();
            session.append(c.tag);
            let job = DownloadJob { filename, url, session, set: s };
            let ghost cj = config_jobs_spec(c@, num@, overrides@);
            assert(job@ == cj[done as int]);
            let ghost before = jobs@;
            jobs.push(job);
            assert(cj.take(done + 1) =~= cj.take(done as int).push(cj[done as int]));
            assert(jobs@.map_values(|j: DownloadJob| j@) =~= before.map_values(|j: DownloadJob| j@).push(job@));
            done = done + 1;
        }
        assert(config_jobs_spec(c@, num@, overrides@).take(c.sets as int) =~= config_jobs_spec(c@, num@, overrides@));
        assert(cc.take(k + 1).drop_last() =~= cc.take(k as int));
        assert(cc.take(k + 1).last() == c@);
        k = k + 1;
    }
    assert(cc.take(configs.len() as int) =~= cc);
    jobs
}

fn file_lt(a: &(&'static str, &'static str), b: &(&'static str, &'static str)) -> (r: bool)
    ensures
        r == seq_lt(a.0@, b.0@),
{
    str_lt(a.0, b.0)
}

/// The answer keys to fetch for paper `num`, in the order of their file
/// names, or nothing where `answers` has no entry for the paper.
pub fn answer_jobs(num: &str, answers: &UrlTable) -> (res: Option<Vec<DownloadJob>>)
    ensures
        match res {
            Some(v) => answer_jobs_spec(answers@, num@) == Some(v@.map_values(|j: DownloadJob| j@)),
            None => answer_jobs_spec(answers@, num@) is None,
        },
{
    let i = match answers.find_paper(num) {
        Some(i) => i,
        None => return None,
    };
    let entries = &answers.papers[i].entries;
    assert(answers@[i as int] == answers.papers@[i as int]@);
    let ghost es = entries@.map_values(|e: UrlEntry| e@);
    assert(paper_entries_spec(answers@, num@) == Some(es));
    let ghost vp = |p: (&'static str, &'static str)| (p.0@, p.1@);
    let mut pairs: Vec<(&'static str, &'static str)> = Vec::new();
    let mut j: usize = 0;
    assert(es.skip(0) =~= es);
    while j < entries.len()
        invariant
            j <= entries.len(),
            es == entries@.map_values(|e: UrlEntry| e@),
            vp == (|p: (&'static str, &'static str)| (p.0@, p.1@)),
            keep_last_names(es) == pairs@.map_values(vp) + keep_last_names(es.skip(j as int)),
        decreases entries.len() - j,
    {
        let ghost rest = es.skip(j as int);
        assert(rest[0] == es[j as int]);
        assert(rest.drop_first() =~= es.skip(j + 1));
        assert(es[j as int] == entries@[j as int]@);
        let mut later = false;
        let mut m: usize = j + 1;
        while m < entries.len()
            invariant
                j < m <= entries.len(),
                es == entries@.map_values(|e: UrlEntry| e@),
                rest == es.skip(j as int),
                later == exists|t: int| 1 <= t < m - j && (#[trigger] rest[t]).0 == rest[0].0,
            decreases entries.len() - m,
        {
            assert(rest[m - j] == es[m as int]);
            assert(es[m as int] == entries@[m as int]@);
            assert(rest[0] == es[j as int]);
            assert(es[j as int] == entries@[j as int]@);
            if str_eq(entries[m].file, entries[j].file) {
                later = true;
            }
            m = m + 1;
        }
        if !later {
            let ghost before = pairs@;
            pairs.push((entries[j].file, entries[j].path));
            assert(pairs@.map_values(vp) =~= before.map_values(vp).push(es[j as int]));
        }
        j = j + 1;
    }
    assert(keep_last_names(es.skip(entries.len() as int)) =~= Seq::<(Seq<char>, Seq<char>)>::empty());
    let ghost kept = keep_last_names(es);
    let ghost view_pair = |p: (&'static str, &'static str)| (p.0@, p.1@);
    let ghost exec_lt = |a: (&'static str, &'static str), b: (&'static str, &'static str)| seq_lt(a.0@, b.0@);
    let ghost spec_lt = |a: (Seq<char>, Seq<char>), b: (Seq<char>, Seq<char>)| entry_lt(a, b);
    let sorted = sort_by(
        &pairs,
        file_lt,
        Ghost(exec_lt),
    );
    proof {
        assert(pairs@.map_values(view_pair) =~= kept);
        lemma_sort_seq_map(pairs@, view_pair, exec_lt, spec_lt);
    }
    let ghost sorted_view = sorted@.map_values(view_pair);
    assert(sorted_view == sort_seq(kept, spec_lt));
    let mut jobs: Vec<DownloadJob> = Vec::new();
    let mut k: usize = 0;
    while k < sorted.len()
        invariant
            k <= sorted.len(),
            sorted_view == sorted@.map_values(view_pair),
            view_pair == (|p: (&'static str, &'static str)| (p.0@, p.1@)),
            jobs@.map_values(|j: DownloadJob| j@)
                == sorted_view.take(k as int).map_values(|e: (Seq<char>, Seq<char>)| answer_job_spec(e)),
        decreases sorted.len() - k,
    {
        let (file, path) = sorted[k];
        assert(sorted_view[k as int] == (file@, path@));
        let mut url = String::new();
        url.append(BASE_URL);
        url.append(path);
        let mut session = String::new();
        let mut set: u8 = 0;
        match parse_filename(file) {
            Some((tag, s, _kind)) => {
                session.append(tag);
                set = s;
            },
            None => {},
        }
        let mut filename = String::new();
        filename.append(file);
        let job = DownloadJob { filename, url, session, set };
        assert(job@ == answer_job_spec(sorted_view[k as int]));
        let ghost before = jobs@;
        jobs.push(job);
        assert(sorted_view.take(k + 1) =~= sorted_view.take(k as int).push(sorted_view[k as int]));
        assert(jobs@.map_values(|j: DownloadJob| j@) =~= before.map_values(|j: DownloadJob| j@).push(job@));
        k = k + 1;
    }
    assert(sorted_view.take(sorted.len() as int) =~= sorted_view);
    Some(jobs)
}

proof fn lemma_strip_pdf(stem: Seq<char>)
    ensures
        strip_suffix_seq(stem + ".pdf"@, ".pdf"@) == Some(stem),
{
    reveal_strlit(".pdf");
    let w = stem + ".pdf"@;
    assert(w.skip(w.len() - 4) =~= ".pdf"@);
    assert(w.take(w.len() - 4) =~= stem);
}

proof fn lemma_set_piece(set: u8)
    ensures
        set_number_spec(seq!['s'] + decimal(set as nat)) == Some(set),
{
    let d = decimal(set as nat);
    let piece = seq!['s'] + d;
    lemma_decimal_digits(set as nat);
    lemma_decimal_parses(set as nat, u8::MAX as nat);
    assert(crate::text::is_digit(d[0]));
    assert(piece.drop_first() =~= d);
    assert(leading_count(d, 's') == 0);
    assert(leading_count(piece, 's') == 1);
    assert(piece.skip(1) =~= d);
}

proof fn lemma_digits_no_separator(set: u8)
    ensures
        !(seq!['s'] + decimal(set as nat)).contains('_'),
{
    lemma_decimal_digits(set as nat);
    let piece = seq!['s'] + decimal(set as nat);
    if piece.contains('_') {
        let i = choose|i: int| 0 <= i < piece.len() && piece[i] == '_';
        assert(crate::text::is_digit(decimal(set as nat)[i - 1]));
    }
}

proof fn lemma_no_separator_prefixed(x: Seq<char>, c: char)
    requires
        !x.contains('_'),
        c != '_',
    ensures
        !(seq![c] + x).contains('_'),
{
    let y = seq![c] + x;
    if y.contains('_') {
        let i = choose|i: int| 0 <= i < y.len() && y[i] == '_';
        assert(x[i - 1] == '_');
    }
}

/// The name under which a past paper is saved reads back as its session,
/// set 0 and kind `pyq`, where neither the session tag nor the paper number
/// holds an underscore.
pub proof fn lemma_pyq_filename_parses(prefix: Seq<char>, num: Seq<char>)
    requires
        !prefix.contains('_'),
        !num.contains('_'),
    ensures
        parse_filename_spec(pyq_filename_spec(prefix, num)) == Some((prefix, 0u8, "pyq"@)),
{
    reveal_strlit("pyq_");
    reveal_strlit("_p");
    reveal_strlit("pyq");
    let pnum = seq!['p'] + num;
    let stem = "pyq"@ + seq!['_'] + (prefix + seq!['_'] + pnum);
    assert(pyq_filename_spec(prefix, num) =~= stem + ".pdf"@);
    lemma_strip_pdf(stem);
    lemma_no_separator_prefixed(num, 'p');
    lemma_split_seq_single("pyq"@, '_');
    lemma_split_seq_single(prefix, '_');
    lemma_split_seq_single(pnum, '_');
    lemma_split_seq_join(prefix, pnum, '_');
    lemma_split_seq_join("pyq"@, prefix + seq!['_'] + pnum, '_');
    assert(split_seq(stem, '_') =~= seq!["pyq"@, prefix, pnum]);
}

/// The name under which a model question paper is saved reads back as its
/// session, set and kind `mqp`, where neither the session tag nor the paper
/// number holds an underscore and the tag is not `ans`.
pub proof fn lemma_mqp_filename_parses(tag: Seq<char>, set: u8, num: Seq<char>)
    requires
        !tag.contains('_'),
        !num.contains('_'),
        tag != "ans"@,
    ensures
        parse_filename_spec(mqp_filename_spec(tag, set, num)) == Some((tag, set, "mqp"@)),
{
    reveal_strlit("mqp_");
    reveal_strlit("_s");
    reveal_strlit("_p");
    reveal_strlit("mqp");
    let spiece = seq!['s'] + decimal(set as nat);
    let pnum = seq!['p'] + num;
    let stem = "mqp"@ + seq!['_'] + (tag + seq!['_'] + (spiece + seq!['_'] + pnum));
    assert(mqp_filename_spec(tag, set, num) =~= stem + ".pdf"@);
    lemma_strip_pdf(stem);
    lemma_no_separator_prefixed(num, 'p');
    lemma_digits_no_separator(set);
    lemma_set_piece(set);
    lemma_split_seq_single("mqp"@, '_');
    lemma_split_seq_single(tag, '_');
    lemma_split_seq_single(spiece, '_');
    lemma_split_seq_single(pnum, '_');
    lemma_split_seq_join(spiece, pnum, '_');
    lemma_split_seq_join(tag, spiece + seq!['_'] + pnum, '_');
    lemma_split_seq_join("mqp"@, tag + seq!['_'] + (spiece + seq!['_'] + pnum), '_');
    assert(split_seq(stem, '_') =~= seq!["mqp"@, tag, spiece, pnum]);
}

/// The name `mqp_ans_<tag>_s<set>_p<num>.pdf` of an answer key reads back as
/// its session, set and kind `mqp_ans`, where neither the session tag nor
/// the paper number holds an underscore.
pub proof fn lemma_answer_filename_parses(tag: Seq<char>, set: u8, num: Seq<char>)
    requires
        !tag.contains('_'),
        !num.contains('_'),
    ensures
        parse_filename_spec("mqp_ans_"@ + tag + "_s"@ + decimal(set as nat) + "_p"@ + num + ".pdf"@)
            == Some((tag, set, "mqp_ans"@)),
{
    reveal_strlit("mqp_ans_");
    reveal_strlit("_s");
    reveal_strlit("_p");
    reveal_strlit("mqp");
    reveal_strlit("ans");
    let spiece = seq!['s'] + decimal(set as nat);
    let pnum = seq!['p'] + num;
    let rest = tag + seq!['_'] + (spiece + seq!['_'] + pnum);
    let stem = "mqp"@ + seq!['_'] + ("ans"@ + seq!['_'] + rest);
    assert("mqp_ans_"@ + tag + "_s"@ + decimal(set as nat) + "_p"@ + num + ".pdf"@ =~= stem + ".pdf"@);
    lemma_strip_pdf(stem);
    lemma_no_separator_prefixed(num, 'p');
    lemma_digits_no_separator(set);
    lemma_set_piece(set);
    lemma_split_seq_single("mqp"@, '_');
    lemma_split_seq_single("ans"@, '_');
    lemma_split_seq_single(tag, '_');
    lemma_split_seq_single(spiece, '_');
    lemma_split_seq_single(pnum, '_');
    lemma_split_seq_join(spiece, pnum, '_');
    lemma_split_seq_join(tag, spiece + seq!['_'] + pnum, '_');
    lemma_split_seq_join("ans"@, rest, '_');
    lemma_split_seq_join("mqp"@, "ans"@ + seq!['_'] + rest, '_');
    assert(split_seq(stem, '_') =~= seq!["mqp"@, "ans"@, tag, spiece, pnum]);
}

/// Whether the file name of job `j` reads back as the job's session and set.
pub open spec fn job_parses_back(j: (Seq<char>, Seq<char>, Seq<char>, u8)) -> bool {
    match parse_filename_spec(j.0) {
        Some((tag, set, _kind)) => tag == j.2 && set == j.3,
        None => false,
    }
}

proof fn lemma_mqp_jobs_parse_back(
    cs: Seq<(Seq<char>, Seq<char>, u8, Seq<char>)>,
    num: Seq<char>,
    overrides: Seq<(Seq<char>, Seq<(Seq<char>, Seq<char>)>)>,
)
    requires
        !num.contains('_'),
        forall|k: int| 0 <= k < cs.len() ==> !(#[trigger] cs[k]).0.contains('_') && cs[k].0 != "ans"@,
    ensures
        forall|i: int| 0 <= i < mqp_jobs_spec(cs, num, overrides).len()
            ==> job_parses_back(#[trigger] mqp_jobs_spec(cs, num, overrides)[i]),
    decreases cs.len(),
{
    if cs.len() > 0 {
        let d = cs.drop_last();
        assert forall|k: int| 0 <= k < d.len() implies !(#[trigger] d[k]).0.contains('_') && d[k].0 != "ans"@ by {
            assert(d[k] == cs[k]);
        }
        lemma_mqp_jobs_parse_back(d, num, overrides);
        let c = cs.last();
        assert(cs[cs.len() - 1] == c);
        let first = mqp_jobs_spec(d, num, overrides);
        let last = config_jobs_spec(c, num, overrides);
        let all = mqp_jobs_spec(cs, num, overrides);
        assert forall|i: int| 0 <= i < all.len() implies job_parses_back(#[trigger] all[i]) by {
            if i < first.len() {
                assert(all[i] == first[i]);
            } else {
                let k = i - first.len();
                assert(all[i] == last[k]);
                lemma_mqp_filename_parses(c.0, (k + 1) as u8, num);
            }
        }
    }
}

/// The file name of each question paper job reads back as the job's
/// session and set, so what is recorded of a file agrees with what the
/// release notes read from its name, where the paper number holds no
/// underscore.
pub proof fn lemma_question_jobs_parse_back(
    num: Seq<char>,
    overrides: Seq<(Seq<char>, Seq<(Seq<char>, Seq<char>)>)>,
)
    requires
        !num.contains('_'),
    ensures
        forall|i: int| 0 <= i < question_jobs_spec(num, overrides).len()
            ==> job_parses_back(#[trigger] question_jobs_spec(num, overrides)[i]),
{
    reveal_strlit("d25");
    reveal_strlit("j25");
    reveal_strlit("d24");
    reveal_strlit("j24");
    reveal_strlit("d23");
    reveal_strlit("ans");
    let pyqs = pyq_table().map_values(|t: (Seq<char>, Seq<char>)| pyq_job_spec(t, num, overrides));
    let cs = mqp_config_table();
    assert forall|k: int| 0 <= k < cs.len() implies !(#[trigger] cs[k]).0.contains('_') && cs[k].0 != "ans"@ by {
        assert(cs[k].0[0] != "ans"@[0]);
    }
    lemma_mqp_jobs_parse_back(cs, num, overrides);
    let mqps = mqp_jobs_spec(cs, num, overrides);
    let all = question_jobs_spec(num, overrides);
    assert forall|i: int| 0 <= i < all.len() implies job_parses_back(#[trigger] all[i]) by {
        if i < pyqs.len() {
            assert(all[i] == pyqs[i]);
            let t = pyq_table()[i];
            lemma_pyq_filename_parses(t.1, num);
        } else {
            assert(all[i] == mqps[i - pyqs.len()]);
        }
    }
}

/// Whether `j` is the job of set `j.3` of the model question paper of
/// session `c` for paper `num`: one of the session's sets, saved as
/// `mqp_<tag>_s<set>_p<num>.pdf`, carrying the session's tag and that set,
/// and fetched from the override address where `overrides` has one, else
/// from the session's folder under `Students/` with `{p}` of the template
/// replaced by the paper number and `{s}` by that same set.
pub open spec fn is_set_job(
    c: (Seq<char>, Seq<char>, u8, Seq<char>),
    j: (Seq<char>, Seq<char>, Seq<char>, u8),
    num: Seq<char>,
    overrides: Seq<(Seq<char>, Seq<(Seq<char>, Seq<char>)>)>,
) -> bool {
    &&& j.2 == c.0
    &&& 1 <= j.3 <= c.2
    &&& j.0 == "mqp_"@ + c.0 + "_s"@ + decimal(j.3 as nat) + "_p"@ + num + ".pdf"@
    &&& j.1 == match lookup_spec(overrides, num, j.0) {
        Some(rel) => BASE_URL@ + rel,
        None => BASE_URL@ + "Students/"@ + c.1
            + replace_seq(replace_seq(c.3, "{p}"@, num), "{s}"@, decimal(j.3 as nat)),
    }
}

/// Whether `j` is the job of the past paper of term `t` for paper `num`:
/// saved as `pyq_<tag>_p<num>.pdf`, carrying the term's tag and set 0, and
/// fetched from the override address where `overrides` has one, else from
/// `QuestionPaper/syllabus2022/<term>/Paper<num>.pdf`.
pub open spec fn is_pyq_job(
    t: (Seq<char>, Seq<char>),
    j: (Seq<char>, Seq<char>, Seq<char>, u8),
    num: Seq<char>,
    overrides: Seq<(Seq<char>, Seq<(Seq<char>, Seq<char>)>)>,
) -> bool {
    &&& j.2 == t.1
    &&& j.3 == 0
    &&& j.0 == "pyq_"@ + t.1 + "_p"@ + num + ".pdf"@
    &&& j.1 == match lookup_spec(overrides, num, j.0) {
        Some(rel) => BASE_URL@ + rel,
        None => BASE_URL@ + "QuestionPaper/syllabus2022/"@ + t.0 + "/Paper"@ + num + ".pdf"@,
    }
}

/// Whether some job of `jobs` carries session `tag` and set `set`.
pub open spec fn has_job_for(jobs: Seq<(Seq<char>, Seq<char>, Seq<char>, u8)>, tag: Seq<char>, set: int) -> bool {
    exists|i: int| 0 <= i < jobs.len() && (#[trigger] jobs[i]).2 == tag && jobs[i].3 == set
}

proof fn lemma_mqp_jobs_shape(
    cs: Seq<(Seq<char>, Seq<char>, u8, Seq<char>)>,
    num: Seq<char>,
    overrides: Seq<(Seq<char>, Seq<(Seq<char>, Seq<char>)>)>,
)
    ensures
        forall|i: int| 0 <= i < mqp_jobs_spec(cs, num, overrides).len() ==> exists|k: int|
            0 <= k < cs.len() && is_set_job(cs[k], #[trigger] mqp_jobs_spec(cs, num, overrides)[i], num, overrides),
        forall|k: int, s: int| 0 <= k < cs.len() && 1 <= s <= cs[k].2
            ==> #[trigger] has_job_for(mqp_jobs_spec(cs, num, overrides), cs[k].0, s),
    decreases cs.len(),
{
    if cs.len() > 0 {
        let d = cs.drop_last();
        lemma_mqp_jobs_shape(d, num, overrides);
        let c = cs.last();
        let first = mqp_jobs_spec(d, num, overrides);
        let last = config_jobs_spec(c, num, overrides);
        let all = mqp_jobs_spec(cs, num, overrides);
        assert(all == first + last);
        assert forall|i: int| 0 <= i < all.len() implies exists|k: int|
            0 <= k < cs.len() && is_set_job(cs[k], #[trigger] all[i], num, overrides) by {
            if i < first.len() {
                assert(all[i] == first[i]);
                let k = choose|k: int| 0 <= k < d.len() && is_set_job(d[k], #[trigger] first[i], num, overrides);
                assert(cs[k] == d[k]);
            } else {
                let m = i - first.len();
                assert(all[i] == last[m]);
                assert(((m + 1) as u8) as int == m + 1);
                assert(cs[cs.len() - 1] == c);
                assert(is_set_job(cs[cs.len() - 1], all[i], num, overrides));
            }
        }
        assert forall|k: int, s: int| 0 <= k < cs.len() && 1 <= s <= cs[k].2
            implies #[trigger] has_job_for(all, cs[k].0, s) by {
            if k < d.len() {
                assert(d[k] == cs[k]);
                assert(has_job_for(first, d[k].0, s));
                let i = choose|i: int| 0 <= i < first.len() && (#[trigger] first[i]).2 == d[k].0 && first[i].3 == s;
                assert(all[i] == first[i]);
            } else {
                let i = first.len() + s - 1;
                assert(cs[k] == c);
                assert(all[i] == last[s - 1]);
                assert(((s - 1 + 1) as u8) as int == s);
                assert(all[i].2 == cs[k].0 && all[i].3 == s);
            }
        }
    }
}

/// The question paper jobs of paper `num`: first the past paper of each
/// term, in the order of the terms; after them only model question paper
/// sets, each fetched from the address of its own set; and every set of
/// every session has a job.
pub proof fn lemma_question_jobs_addresses(
    num: Seq<char>,
    overrides: Seq<(Seq<char>, Seq<(Seq<char>, Seq<char>)>)>,
)
    ensures
        question_jobs_spec(num, overrides).len() >= pyq_table().len(),
        forall|i: int| 0 <= i < pyq_table().len() ==> is_pyq_job(
            pyq_table()[i],
            #[trigger] question_jobs_spec(num, overrides)[i],
            num,
            overrides,
        ),
        forall|i: int| pyq_table().len() <= i < question_jobs_spec(num, overrides).len() ==> exists|k: int|
            0 <= k < mqp_config_table().len() && is_set_job(
                mqp_config_table()[k],
                #[trigger] question_jobs_spec(num, overrides)[i],
                num,
                overrides,
            ),
        forall|k: int, s: int| 0 <= k < mqp_config_table().len() && 1 <= s <= mqp_config_table()[k].2
            ==> #[trigger] has_job_for(question_jobs_spec(num, overrides), mqp_config_table()[k].0, s),
{
    let cs = mqp_config_table();
    let pyqs = pyq_table().map_values(|t: (Seq<char>, Seq<char>)| pyq_job_spec(t, num, overrides));
    let mqps = mqp_jobs_spec(cs, num, overrides);
    let all = question_jobs_spec(num, overrides);
    lemma_mqp_jobs_shape(cs, num, overrides);
    assert(all == pyqs + mqps);
    assert forall|i: int| 0 <= i < pyq_table().len() implies is_pyq_job(pyq_table()[i], #[trigger] all[i], num, overrides) by {
        assert(all[i] == pyqs[i]);
    }
    assert forall|i: int| pyq_table().len() <= i < all.len() implies exists|k: int|
        0 <= k < cs.len() && is_set_job(cs[k], #[trigger] all[i], num, overrides) by {
        assert(all[i] == mqps[i - pyqs.len()]);
        let k = choose|k: int| 0 <= k < cs.len() && is_set_job(cs[k], #[trigger] mqps[i - pyqs.len()], num, overrides);
    }
    assert forall|k: int, s: int| 0 <= k < cs.len() && 1 <= s <= cs[k].2
        implies #[trigger] has_job_for(all, cs[k].0, s) by {
        assert(has_job_for(mqps, cs[k].0, s));
        let m = choose|m: int| 0 <= m < mqps.len() && (#[trigger] mqps[m]).2 == cs[k].0 && mqps[m].3 == s;
        assert(all[m + pyqs.len()] == mqps[m]);
    }
}

/// Whether no entry after index `i` of `s` has the name of entry `i`.
pub open spec fn is_last_of_name(s: Seq<(Seq<char>, Seq<char>)>, i: int) -> bool {
    forall|j: int| i < j < s.len() ==> (#[trigger] s[j]).0 != s[i].0
}

proof fn lemma_keep_last_names(s: Seq<(Seq<char>, Seq<char>)>)
    ensures
        forall|e: (Seq<char>, Seq<char>)| #[trigger] keep_last_names(s).contains(e) <==> exists|i: int|
            0 <= i < s.len() && s[i] == e && #[trigger] is_last_of_name(s, i),
        forall|i: int, j: int| 0 <= i < j < keep_last_names(s).len()
            ==> (#[trigger] keep_last_names(s)[i]).0 != (#[trigger] keep_last_names(s)[j]).0,
    decreases s.len(),
{
    if s.len() > 0 {
        let t = s.drop_first();
        let rest = keep_last_names(t);
        lemma_keep_last_names(t);
        let k = keep_last_names(s);
        let later = exists|j: int| 1 <= j < s.len() && (#[trigger] s[j]).0 == s[0].0;
        assert(later <==> !is_last_of_name(s, 0)) by {
            if later {
                let j = choose|j: int| 1 <= j < s.len() && (#[trigger] s[j]).0 == s[0].0;
                assert(!is_last_of_name(s, 0));
            }
            if !is_last_of_name(s, 0) {
                let j = choose|j: int| 0 < j < s.len() && (#[trigger] s[j]).0 == s[0].0;
                assert(1 <= j < s.len() && s[j].0 == s[0].0);
            }
        }
        assert forall|i: int| 1 <= i < s.len() implies #[trigger] is_last_of_name(s, i) == is_last_of_name(t, i - 1) by {
            assert(t[i - 1] == s[i]);
            if is_last_of_name(t, i - 1) {
                assert forall|j: int| i < j < s.len() implies (#[trigger] s[j]).0 != s[i].0 by {
                    assert(t[j - 1] == s[j]);
                }
            }
            if is_last_of_name(s, i) {
                assert forall|j: int| i - 1 < j < t.len() implies (#[trigger] t[j]).0 != t[i - 1].0 by {
                    assert(t[j] == s[j + 1]);
                }
            }
        }
        assert forall|e: (Seq<char>, Seq<char>)| #[trigger] k.contains(e) <==> exists|i: int|
            0 <= i < s.len() && s[i] == e && #[trigger] is_last_of_name(s, i) by {
            if rest.contains(e) {
                let i = choose|i: int| 0 <= i < t.len() && t[i] == e && #[trigger] is_last_of_name(t, i);
                assert(s[i + 1] == e && is_last_of_name(s, i + 1));
            }
            if exists|i: int| 0 <= i < s.len() && s[i] == e && #[trigger] is_last_of_name(s, i) {
                let i = choose|i: int| 0 <= i < s.len() && s[i] == e && #[trigger] is_last_of_name(s, i);
                if i > 0 {
                    assert(t[i - 1] == e && is_last_of_name(t, i - 1));
                    assert(rest.contains(e));
                    if !later {
                        assert(k == seq![s[0]] + rest);
                        let m = choose|m: int| 0 <= m < rest.len() && rest[m] == e;
                        assert(k[m + 1] == e);
                    }
                } else {
                    assert(k == seq![s[0]] + rest);
                    assert(k[0] == e);
                }
            }
            if !later {
                assert(k == seq![s[0]] + rest);
                if k.contains(e) {
                    let m = choose|m: int| 0 <= m < k.len() && k[m] == e;
                    if m > 0 {
                        assert(rest[m - 1] == e);
                    }
                }
            }
        }
        if !later {
            assert(k == seq![s[0]] + rest);
            assert forall|j: int| 0 <= j < rest.len() implies (#[trigger] rest[j]).0 != s[0].0 by {
                assert(rest.contains(rest[j]));
                let i = choose|i: int| 0 <= i < t.len() && t[i] == rest[j] && #[trigger] is_last_of_name(t, i);
                assert(s[i + 1] == t[i]);
            }
            assert forall|i: int, j: int| 0 <= i < j < k.len() implies (#[trigger] k[i]).0 != (#[trigger] k[j]).0 by {
                if i == 0 {
                    assert(k[j] == rest[j - 1]);
                } else {
                    assert(k[i] == rest[i - 1] && k[j] == rest[j - 1]);
                }
            }
        }
    }
}

/// Whether some job of `jobs` is saved under `name`.
pub open spec fn has_job_named(jobs: Seq<(Seq<char>, Seq<char>, Seq<char>, u8)>, name: Seq<char>) -> bool {
    exists|i: int| 0 <= i < jobs.len() && (#[trigger] jobs[i]).0 == name
}

/// The answer key jobs of paper `num`: there are none exactly where the
/// table has no entry for the paper; otherwise each file name of the
/// paper's entries has exactly one job, the jobs come in ascending order of
/// file name, each is fetched from the address that the table gives its
/// name, and each carries the session and set that its own file name reads
/// as (empty and 0 where it does not read).
pub proof fn lemma_answer_jobs_shape(
    answers: Seq<(Seq<char>, Seq<(Seq<char>, Seq<char>)>)>,
    num: Seq<char>,
)
    ensures
        answer_jobs_spec(answers, num) is None <==> paper_entries_spec(answers, num) is None,
        answer_jobs_spec(answers, num) matches Some(js) ==> {
            &&& forall|i: int| 0 <= i < js.len() ==> match parse_filename_spec((#[trigger] js[i]).0) {
                Some((tag, set, _kind)) => js[i].2 == tag && js[i].3 == set,
                None => js[i].2 == Seq::<char>::empty() && js[i].3 == 0,
            }
            &&& forall|i: int| 0 <= i < js.len() ==> (lookup_spec(answers, num, (#[trigger] js[i]).0) matches Some(rel)
                && js[i].1 == BASE_URL@ + rel)
            &&& forall|i: int, j: int| 0 <= i < j < js.len() ==> seq_lt((#[trigger] js[i]).0, (#[trigger] js[j]).0)
            &&& forall|m: int| 0 <= m < paper_entries_spec(answers, num)->Some_0.len()
                ==> #[trigger] has_job_named(js, paper_entries_spec(answers, num)->Some_0[m].0)
        },
{
    match paper_entries_spec(answers, num) {
        None => {},
        Some(es) => {
            let kept = keep_last_names(es);
            let lt = |a: (Seq<char>, Seq<char>), b: (Seq<char>, Seq<char>)| entry_lt(a, b);
            let r = sort_seq(kept, lt);
            let js = r.map_values(|e: (Seq<char>, Seq<char>)| answer_job_spec(e));
            assert(answer_jobs_spec(answers, num) == Some(js));
            lemma_keep_last_names(es);
            lemma_sort_seq_permutes(kept, lt);
            crate::sort::lemma_sort_seq_len(kept, lt);
            assert forall|e: (Seq<char>, Seq<char>)| #[trigger] r.contains(e) <==> kept.contains(e) by {
                vstd::seq_lib::to_multiset_contains(r, e);
                vstd::seq_lib::to_multiset_contains(kept, e);
            }
            assert forall|i: int| 0 <= i < js.len() implies (lookup_spec(answers, num, (#[trigger] js[i]).0) matches Some(rel)
                && js[i].1 == BASE_URL@ + rel) by {
                assert(js[i] == answer_job_spec(r[i]));
                assert(r.contains(r[i]));
                assert(kept.contains(r[i]));
                let m = choose|m: int| 0 <= m < es.len() && es[m] == r[i] && #[trigger] is_last_of_name(es, m);
                let pred = |e: (Seq<char>, Seq<char>)| e.0 == r[i].0;
                lemma_find_last_index_is(es, pred, m);
            }
            assert forall|a: (Seq<char>, Seq<char>)| !(#[trigger] lt(a, a)) by {
                lemma_seq_lt_irreflexive(a.0);
            }
            assert forall|a: (Seq<char>, Seq<char>), b: (Seq<char>, Seq<char>), c: (Seq<char>, Seq<char>)|
                #[trigger] lt(a, b) && #[trigger] lt(b, c) implies lt(a, c) by {
                lemma_seq_lt_transitive(a.0, b.0, c.0);
            }
            lemma_sort_seq_ordered(kept, lt);
            assert(kept.no_duplicates()) by {
                assert forall|a: int, b: int| 0 <= a < kept.len() && 0 <= b < kept.len() && a != b
                    implies kept[a] != kept[b] by {
                    if a < b {
                        assert(kept[a].0 != kept[b].0);
                    } else {
                        assert(kept[b].0 != kept[a].0);
                    }
                }
            }
            kept.lemma_multiset_has_no_duplicates();
            r.lemma_multiset_has_no_duplicates_conv();
            assert forall|i: int, j: int| 0 <= i < j < js.len() implies seq_lt((#[trigger] js[i]).0, (#[trigger] js[j]).0) by {
                assert(js[i].0 == r[i].0 && js[j].0 == r[j].0);
                assert(!lt(r[j], r[i]));
                assert(r.contains(r[i]) && r.contains(r[j]));
                let a = choose|a: int| 0 <= a < kept.len() && kept[a] == r[i];
                let b = choose|b: int| 0 <= b < kept.len() && kept[b] == r[j];
                assert(r[i] != r[j]);
                if a < b {
                    assert(kept[a].0 != kept[b].0);
                } else {
                    assert(kept[b].0 != kept[a].0);
                }
                lemma_seq_lt_total(r[i].0, r[j].0);
            }
            assert forall|m: int| 0 <= m < es.len() implies #[trigger] has_job_named(js, es[m].0) by {
                let pred = |e: (Seq<char>, Seq<char>)| e.0 == es[m].0;
                crate::search::lemma_find_last_index(es, pred);
                let last = find_last_index(es, pred)->Some_0;
                assert(is_last_of_name(es, last));
                assert(kept.contains(es[last]));
                assert(r.contains(es[last]));
                let i = choose|i: int| 0 <= i < r.len() && r[i] == es[last];
                assert(js[i].0 == es[m].0);
            }
        },
    }
}

} // verus!
