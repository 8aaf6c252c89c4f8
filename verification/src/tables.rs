use vstd::prelude::*;

use crate::search::{find_last_index, lemma_find_last_index_is, lemma_find_last_index_none};
use crate::text::str_eq;

verus! {

/// One file of a paper and its address relative to the upload root.
pub struct UrlEntry {
    pub file: &'static str,
    pub path: &'static str,
}

impl View for UrlEntry {
    type V = (Seq<char>, Seq<char>);

    open spec fn view(&self) -> (Seq<char>, Seq<char>) {
        (self.file@, self.path@)
    }
}

/// The addresses of the files of one paper.
pub struct PaperUrls {
    pub paper: &'static str,
    pub entries: Vec<UrlEntry>,
}

impl View for PaperUrls {
    type V = (Seq<char>, Seq<(Seq<char>, Seq<char>)>);

    open spec fn view(&self) -> (Seq<char>, Seq<(Seq<char>, Seq<char>)>) {
        (self.paper@, self.entries@.map_values(|e: UrlEntry| e@))
    }
}

/// Addresses of files, by paper number and file name. Where a paper or a
/// file name is given twice, the later one counts, as in a map filled in
/// order.
pub struct UrlTable {
    pub papers: Vec<PaperUrls>,
}

impl View for UrlTable {
    type V = Seq<(Seq<char>, Seq<(Seq<char>, Seq<char>)>)>;

    open spec fn view(&self) -> Seq<(Seq<char>, Seq<(Seq<char>, Seq<char>)>)> {
        self.papers@.map_values(|p: PaperUrls| p@)
    }
}

/// The files of paper `paper` in `table`: those of its last entry.
pub open spec fn paper_entries_spec(
    table: Seq<(Seq<char>, Seq<(Seq<char>, Seq<char>)>)>,
    paper: Seq<char>,
) -> Option<Seq<(Seq<char>, Seq<char>)>> {
    match find_last_index(table, |p: (Seq<char>, Seq<(Seq<char>, Seq<char>)>)| p.0 == paper) {
        Some(i) => Some(table[i].1),
        None => None,
    }
}

/// The address of file `file` of paper `paper` in `table`, if it has one.
pub open spec fn lookup_spec(
    table: Seq<(Seq<char>, Seq<(Seq<char>, Seq<char>)>)>,
    paper: Seq<char>,
    file: Seq<char>,
) -> Option<Seq<char>> {
    match paper_entries_spec(table, paper) {
        Some(es) => match find_last_index(es, |e: (Seq<char>, Seq<char>)| e.0 == file) {
            Some(j) => Some(es[j].1),
            None => None,
        },
        None => None,
    }
}

impl UrlTable {
    /// The index of the entry of paper `paper`, the last if there are several.
    pub fn find_paper(&self, paper: &str) -> (res: Option<usize>)
        ensures
            find_last_index(self@, |p: (Seq<char>, Seq<(Seq<char>, Seq<char>)>)| p.0 == paper@) == match res {
                Some(i) => Some(i as int),
                None => None::<int>,
            },
            res matches Some(i) ==> i < self.papers.len(),
    {
        let ghost t = self@;
        let ghost pred = |p: (Seq<char>, Seq<(Seq<char>, Seq<char>)>)| p.0 == paper@;
        let mut k: usize = self.papers.len();
        while k > 0
            invariant
                t == self@,
                t.len() == self.papers.len(),
                pred == (|p: (Seq<char>, Seq<(Seq<char>, Seq<char>)>)| p.0 == paper@),
                k <= self.papers.len(),
                forall|j: int| k <= j < t.len() ==> !pred(#[trigger] t[j]),
            decreases k,
        {
            assert(t[k - 1] == self.papers@[k - 1]@);
            if str_eq(self.papers[k - 1].paper, paper) {
                proof {
                    lemma_find_last_index_is(t, pred, k - 1);
                }
                return Some(k - 1);
            }
            k = k - 1;
        }
        proof {
            lemma_find_last_index_none(t, pred);
        }
        None
    }

    /// The address of file `file` of paper `paper`, if the table has one.
    pub fn lookup(&self, paper: &str, file: &str) -> (res: Option<&'static str>)
        ensures
            match res {
                Some(r) => lookup_spec(self@, paper@, file@) == Some(r@),
                None => lookup_spec(self@, paper@, file@) is None,
            },
    {
        let i = match self.find_paper(paper) {
            Some(i) => i,
            None => return None,
        };
        let entries = &self.papers[i].entries;
        assert(self@[i as int] == self.papers@[i as int]@);
        let ghost es = entries@.map_values(|e: UrlEntry| e@);
        let ghost pred = |e: (Seq<char>, Seq<char>)| e.0 == file@;
        assert(paper_entries_spec(self@, paper@) == Some(es));
        let mut k: usize = entries.len();
        while k > 0
            invariant
                es == entries@.map_values(|e: UrlEntry| e@),
                paper_entries_spec(self@, paper@) == Some(es),
                pred == (|e: (Seq<char>, Seq<char>)| e.0 == file@),
                k <= entries.len(),
                forall|j: int| k <= j < es.len() ==> !pred(#[trigger] es[j]),
            decreases k,
        {
            assert(es[k - 1] == entries@[k - 1]@);
            if str_eq(entries[k - 1].file, file) {
                proof {
                    lemma_find_last_index_is(es, pred, k - 1);
                }
                return Some(entries[k - 1].path);
            }
            k = k - 1;
        }
        proof {
            lemma_find_last_index_none(es, pred);
        }
        None
    }
}

/// The question paper addresses that differ from the usual pattern, by paper and file name, relative to the upload root.
pub open spec fn q_override_table() -> Seq<(Seq<char>, Seq<(Seq<char>, Seq<char>)>)> {
    seq![
        ("6"@, seq![
            ("pyq_j24_p6.pdf"@, "QuestionPaper/syllabus2022/Jun24/P6_FA.pdf"@),
            ("mqp_d24_s1_p6.pdf"@, "Students/MQP_2022/Inter/Paper6_Syl22_Dec24_Set1.pdf"@),
            ("mqp_d24_s2_p6.pdf"@, "Students/MQP_2022_Dec2024/Inter/Q_MQP_Paper6_Set2_Dec24.pdf"@),
        ]),
        ("7"@, seq![
            ("mqp_d24_s2_p7.pdf"@, "Students/MQP_2022/Inter/Q_MQP_Paper7_Set2_Dec24.pdf"@),
        ]),
        ("8"@, seq![
            ("mqp_j25_s2_p8.pdf"@, "Students/MQP_2022_June2025/Intermediate/MQP_Paper8_Syl22_June2025_Set2.pdf"@),
            ("mqp_d24_s1_p8.pdf"@, "Students/MQP_2022/Inter/Paper8_Syl22_Dec24_Set1.pdf"@),
            ("mqp_d24_s2_p8.pdf"@, "Students/MQP_2022/Inter/Paper8_Syl22_Dec24_Set2.pdf"@),
        ]),
        ("9"@, seq![
            ("pyq_j24_p9.pdf"@, "/QuestionPaper/syllabus2022/Jun24/P9_OMSM.pdf"@),
            ("mqp_d24_s1_p9.pdf"@, "Students/MQP_2022/Inter/MQP_Paper9_Set1_Dec24_R.pdf"@),
            ("mqp_d24_s2_p9.pdf"@, "Students/MQP_2022/Inter/Paper9_Syl22_Dec24_Set2.pdf"@),
        ]),
        ("10"@, seq![
            ("pyq_j24_p10.pdf"@, "QuestionPaper/syllabus2022/Jun24/P10_CAA.pdf"@),
            ("mqp_d25_s2_p10.pdf"@, "Students/MQP_2022_Dec2025/Intermediate/MQP_Paper10_syllabus22_Dec2025_Set2.pdf"@),
        ]),
        ("11"@, seq![
            ("mqp_d25_s2_p11.pdf"@, "Students/MQP_2022_Dec2025/Intermediate/MQP_Paper11_Set2_December2025.pdf"@),
            ("mqp_j25_s2_p11.pdf"@, "Students/MQP_2022_June2025/Intermediate/MQP_Paper11_Syl22_June2025_Set2.pdf"@),
            ("mqp_d24_s1_p11.pdf"@, "Students/MQP_2022/Inter/Paper11_Syl22_Dec24_Set1.pdf"@),
        ]),
        ("12"@, seq![
            ("mqp_d25_s2_p12.pdf"@, "Students/MQP_2022_Dec2025/Intermediate/MQP_Paper12_syllabus2022_Dec25_Set_2.pdf"@),
            ("mqp_j25_s2_p12.pdf"@, "Students/MQP_2022_June2025/Intermediate/MQP_Paper12_Syl22_June2025_Set2.pdf"@),
            ("mqp_d24_s2_p12.pdf"@, "Students/MQP_2022/Inter/Q_MQP_Paper12_Set2_Dec24.pdf"@),
        ]),
    ]
}

/// The answer key addresses of the model question papers, by paper and file name, relative to the upload root.
pub open spec fn answer_table() -> Seq<(Seq<char>, Seq<(Seq<char>, Seq<char>)>)> {
    seq![
        ("5"@, seq![
            ("mqp_ans_d25_s1_p5.pdf"@, "Students/MQP_2022_Dec2025/Intermediate/AnswersMQP_Set1_Paper5_Dec25_Syl22.pdf"@),
            ("mqp_ans_d25_s2_p5.pdf"@, "Students/MQP_2022_Dec2025/Intermediate/Ans_Paper5_Syl22_Dec25_Set2.pdf"@),
            ("mqp_ans_j25_s1_p5.pdf"@, "Students/MQP_2022_June2025/Intermediate/MQP_Paper5_Set1_Jun25_Answer.pdf"@),
            ("mqp_ans_j25_s2_p5.pdf"@, "Students/MQP_2022_June2025/Intermediate/Paper5_Syl22_June25_Set2_Sol.pdf"@),
            ("mqp_ans_d24_s1_p5.pdf"@, "Students/MQP_2022/Inter/A_MQP_Paper5_Set1_Dec24.pdf"@),
            ("mqp_ans_d24_s2_p5.pdf"@, "Students/MQP_2022/Inter/A_MQP_Paper5_Set2_Dec24.pdf"@),
            ("mqp_ans_j24_s1_p5.pdf"@, "Students/MQP_2022/Inter/Paper5_Syl22_June24_Set1_Sol.pdf"@),
            ("mqp_ans_d23_s1_p5.pdf"@, "Students/MQP_2022/Inter/Paper5_Syl22_Dec23_Set1_Sol.pdf"@),
            ("mqp_ans_d23_s2_p5.pdf"@, "Students/MQP_2022/Inter/Paper5_Syl22_Dec23_Set2_Sol.pdf"@),
        ]),
        ("6"@, seq![
            ("mqp_ans_d25_s1_p6.pdf"@, "Students/MQP_2022_Dec2025/Intermediate/AnswersMQP_Set1_Paper6_Dec25_Syl22.pdf"@),
            ("mqp_ans_d25_s2_p6.pdf"@, "Students/MQP_2022_Dec2025/Intermediate/Ans_Paper6_Syl22_Dec25_Set2.pdf"@),
            ("mqp_ans_j25_s1_p6.pdf"@, "Students/MQP_2022_June2025/Intermediate/Paper6_Syl22_June25_Set1_Sol.pdf"@),
            ("mqp_ans_j25_s2_p6.pdf"@, "Students/MQP_2022_June2025/Intermediate/Paper6_Syl22_June25_Set2_Sol.pdf"@),
            ("mqp_ans_d24_s1_p6.pdf"@, "Students/MQP_2022/Inter/A_MQP_Paper6_Set1_Dec24.pdf"@),
            ("mqp_ans_d24_s2_p6.pdf"@, "Students/MQP_2022/Inter/A_MQP_Paper6_Set2_Dec24.pdf"@),
            ("mqp_ans_j24_s1_p6.pdf"@, "Students/MQP_2022/Inter/Paper6_Syl22_June24_Set1_Sol.pdf"@),
            ("mqp_ans_d23_s1_p6.pdf"@, "Students/MQP_2022/Inter/Paper6_Syl22_Dec23_Set1_Sol.pdf"@),
            ("mqp_ans_d23_s2_p6.pdf"@, "Students/MQP_2022/Inter/Paper6_Syl22_Dec23_Set2_Sol.pdf"@),
        ]),
        ("7"@, seq![
            ("mqp_ans_d25_s1_p7.pdf"@, "Students/MQP_2022_Dec2025/Intermediate/AnswersMQP_Set1_Paper7_Dec25_Syl22.pdf"@),
            ("mqp_ans_j25_s1_p7.pdf"@, "Students/MQP_2022_June2025/Intermediate/Paper7_Syl22_June25_Set1_Sol.pdf"@),
            ("mqp_ans_j25_s2_p7.pdf"@, "Students/MQP_2022_June2025/Intermediate/Paper7_Syl22_June25_Set2_Sol.pdf"@),
            ("mqp_ans_d24_s1_p7.pdf"@, "Students/MQP_2022/Inter/A_MQP_Paper7_Set1_Dec24.pdf"@),
            ("mqp_ans_d24_s2_p7.pdf"@, "Students/MQP_2022/Inter/A_MQP_Paper7_Set2_Dec24.pdf"@),
            ("mqp_ans_j24_s1_p7.pdf"@, "Students/MQP_2022/Inter/Paper7_Syl22_June24_Set1_Sol.pdf"@),
            ("mqp_ans_d23_s1_p7.pdf"@, "Students/MQP_2022/Inter/Paper7_Syl22_Dec23_Set1_Sol.pdf"@),
            ("mqp_ans_d23_s2_p7.pdf"@, "Students/MQP_2022/Inter/Paper7_Syl22_Dec23_Set2_Sol.pdf"@),
        ]),
        ("8"@, seq![
            ("mqp_ans_d25_s1_p8.pdf"@, "Students/MQP_2022_Dec2025/Intermediate/AnswersMQP_Set1_Paper8_Dec25_Syl22.pdf"@),
            ("mqp_ans_d25_s2_p8.pdf"@, "Students/MQP_2022_Dec2025/Intermediate/Q&A_MQP_Paper8_Syllabus22_Dec2025_Set2.pdf"@),
            ("mqp_ans_j25_s1_p8.pdf"@, "Students/MQP_2022_June2025/Intermediate/A_MQP_Paper8_Set1_Jun25.pdf"@),
            ("mqp_ans_j25_s2_p8.pdf"@, "Students/MQP_2022_June2025/Intermediate/A_MQP_Paper8_Syl22_June2025_Set2.pdf"@),
            ("mqp_ans_d24_s1_p8.pdf"@, "Students/MQP_2022/Inter/A_MQP_Paper8_Set1_Dec24.pdf"@),
            ("mqp_ans_d24_s2_p8.pdf"@, "Students/MQP_2022/Inter/A_MQP_Paper8_Set2_Dec24.pdf"@),
            ("mqp_ans_j24_s1_p8.pdf"@, "Students/MQP_2022/Inter/Paper8_Syl22_June24_Set1_Sol.pdf"@),
            ("mqp_ans_d23_s1_p8.pdf"@, "Students/MQP_2022/Inter/Paper8_Syl22_Dec23_Set1_Sol.pdf"@),
            ("mqp_ans_d23_s2_p8.pdf"@, "Students/MQP_2022/Inter/Paper8_Syl22_Dec23_Set2_Sol.pdf"@),
        ]),
    ]
}

/// The question paper addresses that differ from the usual pattern.
pub fn q_overrides() -> (res: UrlTable)
    ensures
        res@ == q_override_table(),
{
    let papers = vec![
        PaperUrls {
            paper: "6",
            entries: vec![
                UrlEntry { file: "pyq_j24_p6.pdf", path: "QuestionPaper/syllabus2022/Jun24/P6_FA.pdf" },
                UrlEntry { file: "mqp_d24_s1_p6.pdf", path: "Students/MQP_2022/Inter/Paper6_Syl22_Dec24_Set1.pdf" },
                UrlEntry { file: "mqp_d24_s2_p6.pdf", path: "Students/MQP_2022_Dec2024/Inter/Q_MQP_Paper6_Set2_Dec24.pdf" },
            ],
        },
        PaperUrls {
            paper: "7",
            entries: vec![
                UrlEntry { file: "mqp_d24_s2_p7.pdf", path: "Students/MQP_2022/Inter/Q_MQP_Paper7_Set2_Dec24.pdf" },
            ],
        },
        PaperUrls {
            paper: "8",
            entries: vec![
                UrlEntry { file: "mqp_j25_s2_p8.pdf", path: "Students/MQP_2022_June2025/Intermediate/MQP_Paper8_Syl22_June2025_Set2.pdf" },
                UrlEntry { file: "mqp_d24_s1_p8.pdf", path: "Students/MQP_2022/Inter/Paper8_Syl22_Dec24_Set1.pdf" },
                UrlEntry { file: "mqp_d24_s2_p8.pdf", path: "Students/MQP_2022/Inter/Paper8_Syl22_Dec24_Set2.pdf" },
            ],
        },
        PaperUrls {
            paper: "9",
            entries: vec![
                UrlEntry { file: "pyq_j24_p9.pdf", path: "/QuestionPaper/syllabus2022/Jun24/P9_OMSM.pdf" },
                UrlEntry { file: "mqp_d24_s1_p9.pdf", path: "Students/MQP_2022/Inter/MQP_Paper9_Set1_Dec24_R.pdf" },
                UrlEntry { file: "mqp_d24_s2_p9.pdf", path: "Students/MQP_2022/Inter/Paper9_Syl22_Dec24_Set2.pdf" },
            ],
        },
        PaperUrls {
            paper: "10",
            entries: vec![
                UrlEntry { file: "pyq_j24_p10.pdf", path: "QuestionPaper/syllabus2022/Jun24/P10_CAA.pdf" },
                UrlEntry { file: "mqp_d25_s2_p10.pdf", path: "Students/MQP_2022_Dec2025/Intermediate/MQP_Paper10_syllabus22_Dec2025_Set2.pdf" },
            ],
        },
        PaperUrls {
            paper: "11",
            entries: vec![
                UrlEntry { file: "mqp_d25_s2_p11.pdf", path: "Students/MQP_2022_Dec2025/Intermediate/MQP_Paper11_Set2_December2025.pdf" },
                UrlEntry { file: "mqp_j25_s2_p11.pdf", path: "Students/MQP_2022_June2025/Intermediate/MQP_Paper11_Syl22_June2025_Set2.pdf" },
                UrlEntry { file: "mqp_d24_s1_p11.pdf", path: "Students/MQP_2022/Inter/Paper11_Syl22_Dec24_Set1.pdf" },
            ],
        },
        PaperUrls {
            paper: "12",
            entries: vec![
                UrlEntry { file: "mqp_d25_s2_p12.pdf", path: "Students/MQP_2022_Dec2025/Intermediate/MQP_Paper12_syllabus2022_Dec25_Set_2.pdf" },
                UrlEntry { file: "mqp_j25_s2_p12.pdf", path: "Students/MQP_2022_June2025/Intermediate/MQP_Paper12_Syl22_June2025_Set2.pdf" },
                UrlEntry { file: "mqp_d24_s2_p12.pdf", path: "Students/MQP_2022/Inter/Q_MQP_Paper12_Set2_Dec24.pdf" },
            ],
        },
    ];
    let t = UrlTable { papers };
    assert(t@ =~~= q_override_table());
    t
}

/// The answer key addresses of the model question papers.
pub fn answer_urls() -> (res: UrlTable)
    ensures
        res@ == answer_table(),
{
    let papers = vec![
        PaperUrls {
            paper: "5",
            entries: vec![
                UrlEntry { file: "mqp_ans_d25_s1_p5.pdf", path: "Students/MQP_2022_Dec2025/Intermediate/AnswersMQP_Set1_Paper5_Dec25_Syl22.pdf" },
                UrlEntry { file: "mqp_ans_d25_s2_p5.pdf", path: "Students/MQP_2022_Dec2025/Intermediate/Ans_Paper5_Syl22_Dec25_Set2.pdf" },
                UrlEntry { file: "mqp_ans_j25_s1_p5.pdf", path: "Students/MQP_2022_June2025/Intermediate/MQP_Paper5_Set1_Jun25_Answer.pdf" },
                UrlEntry { file: "mqp_ans_j25_s2_p5.pdf", path: "Students/MQP_2022_June2025/Intermediate/Paper5_Syl22_June25_Set2_Sol.pdf" },
                UrlEntry { file: "mqp_ans_d24_s1_p5.pdf", path: "Students/MQP_2022/Inter/A_MQP_Paper5_Set1_Dec24.pdf" },
                UrlEntry { file: "mqp_ans_d24_s2_p5.pdf", path: "Students/MQP_2022/Inter/A_MQP_Paper5_Set2_Dec24.pdf" },
                UrlEntry { file: "mqp_ans_j24_s1_p5.pdf", path: "Students/MQP_2022/Inter/Paper5_Syl22_June24_Set1_Sol.pdf" },
                UrlEntry { file: "mqp_ans_d23_s1_p5.pdf", path: "Students/MQP_2022/Inter/Paper5_Syl22_Dec23_Set1_Sol.pdf" },
                UrlEntry { file: "mqp_ans_d23_s2_p5.pdf", path: "Students/MQP_2022/Inter/Paper5_Syl22_Dec23_Set2_Sol.pdf" },
            ],
        },
        PaperUrls {
            paper: "6",
            entries: vec![
                UrlEntry { file: "mqp_ans_d25_s1_p6.pdf", path: "Students/MQP_2022_Dec2025/Intermediate/AnswersMQP_Set1_Paper6_Dec25_Syl22.pdf" },
                UrlEntry { file: "mqp_ans_d25_s2_p6.pdf", path: "Students/MQP_2022_Dec2025/Intermediate/Ans_Paper6_Syl22_Dec25_Set2.pdf" },
                UrlEntry { file: "mqp_ans_j25_s1_p6.pdf", path: "Students/MQP_2022_June2025/Intermediate/Paper6_Syl22_June25_Set1_Sol.pdf" },
                UrlEntry { file: "mqp_ans_j25_s2_p6.pdf", path: "Students/MQP_2022_June2025/Intermediate/Paper6_Syl22_June25_Set2_Sol.pdf" },
                UrlEntry { file: "mqp_ans_d24_s1_p6.pdf", path: "Students/MQP_2022/Inter/A_MQP_Paper6_Set1_Dec24.pdf" },
                UrlEntry { file: "mqp_ans_d24_s2_p6.pdf", path: "Students/MQP_2022/Inter/A_MQP_Paper6_Set2_Dec24.pdf" },
                UrlEntry { file: "mqp_ans_j24_s1_p6.pdf", path: "Students/MQP_2022/Inter/Paper6_Syl22_June24_Set1_Sol.pdf" },
                UrlEntry { file: "mqp_ans_d23_s1_p6.pdf", path: "Students/MQP_2022/Inter/Paper6_Syl22_Dec23_Set1_Sol.pdf" },
                UrlEntry { file: "mqp_ans_d23_s2_p6.pdf", path: "Students/MQP_2022/Inter/Paper6_Syl22_Dec23_Set2_Sol.pdf" },
            ],
        },
        PaperUrls {
            paper: "7",
            entries: vec![
                UrlEntry { file: "mqp_ans_d25_s1_p7.pdf", path: "Students/MQP_2022_Dec2025/Intermediate/AnswersMQP_Set1_Paper7_Dec25_Syl22.pdf" },
                UrlEntry { file: "mqp_ans_j25_s1_p7.pdf", path: "Students/MQP_2022_June2025/Intermediate/Paper7_Syl22_June25_Set1_Sol.pdf" },
                UrlEntry { file: "mqp_ans_j25_s2_p7.pdf", path: "Students/MQP_2022_June2025/Intermediate/Paper7_Syl22_June25_Set2_Sol.pdf" },
                UrlEntry { file: "mqp_ans_d24_s1_p7.pdf", path: "Students/MQP_2022/Inter/A_MQP_Paper7_Set1_Dec24.pdf" },
                UrlEntry { file: "mqp_ans_d24_s2_p7.pdf", path: "Students/MQP_2022/Inter/A_MQP_Paper7_Set2_Dec24.pdf" },
                UrlEntry { file: "mqp_ans_j24_s1_p7.pdf", path: "Students/MQP_2022/Inter/Paper7_Syl22_June24_Set1_Sol.pdf" },
                UrlEntry { file: "mqp_ans_d23_s1_p7.pdf", path: "Students/MQP_2022/Inter/Paper7_Syl22_Dec23_Set1_Sol.pdf" },
                UrlEntry { file: "mqp_ans_d23_s2_p7.pdf", path: "Students/MQP_2022/Inter/Paper7_Syl22_Dec23_Set2_Sol.pdf" },
            ],
        },
        PaperUrls {
            paper: "8",
            entries: vec![
                UrlEntry { file: "mqp_ans_d25_s1_p8.pdf", path: "Students/MQP_2022_Dec2025/Intermediate/AnswersMQP_Set1_Paper8_Dec25_Syl22.pdf" },
                UrlEntry { file: "mqp_ans_d25_s2_p8.pdf", path: "Students/MQP_2022_Dec2025/Intermediate/Q&A_MQP_Paper8_Syllabus22_Dec2025_Set2.pdf" },
                UrlEntry { file: "mqp_ans_j25_s1_p8.pdf", path: "Students/MQP_2022_June2025/Intermediate/A_MQP_Paper8_Set1_Jun25.pdf" },
                UrlEntry { file: "mqp_ans_j25_s2_p8.pdf", path: "Students/MQP_2022_June2025/Intermediate/A_MQP_Paper8_Syl22_June2025_Set2.pdf" },
                UrlEntry { file: "mqp_ans_d24_s1_p8.pdf", path: "Students/MQP_2022/Inter/A_MQP_Paper8_Set1_Dec24.pdf" },
                UrlEntry { file: "mqp_ans_d24_s2_p8.pdf", path: "Students/MQP_2022/Inter/A_MQP_Paper8_Set2_Dec24.pdf" },
                UrlEntry { file: "mqp_ans_j24_s1_p8.pdf", path: "Students/MQP_2022/Inter/Paper8_Syl22_June24_Set1_Sol.pdf" },
                UrlEntry { file: "mqp_ans_d23_s1_p8.pdf", path: "Students/MQP_2022/Inter/Paper8_Syl22_Dec23_Set1_Sol.pdf" },
                UrlEntry { file: "mqp_ans_d23_s2_p8.pdf", path: "Students/MQP_2022/Inter/Paper8_Syl22_Dec23_Set2_Sol.pdf" },
            ],
        },
    ];
    let t = UrlTable { papers };
    assert(t@ =~~= answer_table());
    t
}

} // verus!
