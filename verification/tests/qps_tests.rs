use qps::args::{parse_args, parse_papers};
use qps::catalog::{fmt_url, paper_name, papers, session_label, session_sort_key, sessions};
use qps::filename::{asset_url, parse_filename};
use qps::notes::{generate_release_notes, paper_sort_key, PaperDownloads, QUESTION_ITEM, QUESTION_ROW};
use qps::plan::{answer_jobs, mqp_filename, mqp_q_configs, pyq_filename, pyq_terms, question_jobs, BASE_URL};
use qps::stats::{record, DownloadResult, Downloaded, Stats};
use qps::tables::{answer_urls, q_overrides, PaperUrls, UrlEntry, UrlTable};
use qps::text::{decimal_string, parse_u32, parse_u8, replace_str, split_char, str_lt};

fn strings(v: &[&str]) -> Vec<String> {
    v.iter().map(|s| s.to_string()).collect()
}

fn file(name: &str, session: &str, set: u8) -> Downloaded {
    Downloaded { filename: name.to_string(), session: session.to_string(), set }
}

// ---- catalog ----

#[test]
fn paper_name_known_and_unknown() {
    assert_eq!(paper_name("5"), "Law and Ethics");
    assert_eq!(paper_name("12"), "Management Accounting");
    assert_eq!(paper_name("9"), "Operations Management and Strategic Management");
    assert_eq!(paper_name("13"), "Unknown");
    assert_eq!(paper_name(""), "Unknown");
    assert_eq!(papers().len(), 8);
}

#[test]
fn session_label_and_key() {
    assert_eq!(session_label("d25"), "Dec 2025");
    assert_eq!(session_label("j24"), "Jun 2024");
    assert_eq!(session_label("x99"), "x99");
    assert_eq!(session_sort_key("d25"), 50);
    assert_eq!(session_sort_key("d23"), 46);
    assert_eq!(session_sort_key("nope"), 0);
    assert_eq!(sessions().len(), 5);
}

#[test]
fn fmt_url_fills_placeholders() {
    assert_eq!(fmt_url("Paper{p}_Syl22_Dec25_Set{s}.pdf", "5", 2), "Paper5_Syl22_Dec25_Set2.pdf");
    assert_eq!(fmt_url("MQP_Paper{p}_Set{s}_Dec24.pdf", "12", 1), "MQP_Paper12_Set1_Dec24.pdf");
    assert_eq!(fmt_url("Paper{p}_Syl22_June24_Set1.pdf", "7", 1), "Paper7_Syl22_June24_Set1.pdf");
    assert_eq!(fmt_url("{p}{p}{s}", "ab", 255), "abab255");
    assert_eq!(fmt_url("{{p}}", "x", 0), "{x}");
}

// ---- text ----

#[test]
fn text_helpers_match_std() {
    for n in [0u64, 7, 10, 99, 255, 4294967295, 18446744073709551615] {
        assert_eq!(decimal_string(n), n.to_string());
    }
    for s in ["0", "+5", "+", "", "-1", "4294967295", "4294967296", "007", "1a", "00000000000000000004294967295"] {
        assert_eq!(parse_u32(s), s.parse::<u32>().ok(), "{}", s);
    }
    for s in ["255", "256", "s1", "+0", "12"] {
        assert_eq!(parse_u8(s), s.parse::<u8>().ok(), "{}", s);
    }
    for (s, p, r) in [("aXbXc", "X", "yy"), ("aaa", "aa", "b"), ("", "x", "y"), ("héllo", "é", "e")] {
        assert_eq!(replace_str(s, p, r), s.replace(p, r));
    }
    for s in ["a_b__c", "", "_", "abc", "_x_"] {
        let expected: Vec<&str> = s.split('_').collect();
        assert_eq!(split_char(s, '_'), expected);
    }
    for (a, b) in [("a", "b"), ("ab", "a"), ("", "a"), ("a", ""), ("mqp_ans_d23", "mqp_ans_d24"), ("é", "z")] {
        assert_eq!(str_lt(a, b), a < b);
    }
}

#[test]
fn decimal_reads_back() {
    for n in [0u32, 5, 12, 100, 4294967295] {
        assert_eq!(parse_u32(decimal_string(n as u64).as_str()), Some(n));
    }
}

// ---- file names ----

#[test]
fn parse_filename_doc_examples() {
    assert_eq!(parse_filename("pyq_d25_p5.pdf"), Some(("d25", 0, "pyq")));
    assert_eq!(parse_filename("mqp_j24_s1_p8.pdf"), Some(("j24", 1, "mqp")));
    assert_eq!(parse_filename("mqp_ans_d23_s2_p7.pdf"), Some(("d23", 2, "mqp_ans")));
}

#[test]
fn parse_filename_rejects() {
    assert_eq!(parse_filename("pyq_d25_p5.txt"), None);
    assert_eq!(parse_filename("pyq_d25.pdf"), None);
    assert_eq!(parse_filename("mqp_d25_sx_p5.pdf"), None);
    assert_eq!(parse_filename("mqp_d25_s256_p5.pdf"), None);
    assert_eq!(parse_filename("mqp_ans_s1_p5.pdf"), None);
    assert_eq!(parse_filename("mqp_ans_d23_s2_p7_x.pdf"), None);
    assert_eq!(parse_filename("mqp_a_b_c_d_e_f.pdf"), None);
    assert_eq!(parse_filename(""), None);
    assert_eq!(parse_filename("mqp_d25_sss3_p5.pdf"), Some(("d25", 3, "mqp")));
    assert_eq!(parse_filename("mqp_d25_s+3_p5.pdf"), Some(("d25", 3, "mqp")));
    assert_eq!(parse_filename("pyq_x_y_z.pdf"), None);
}

#[test]
fn built_names_parse_back() {
    let p = pyq_filename("d24", "11");
    assert_eq!(p, "pyq_d24_p11.pdf");
    assert_eq!(parse_filename(&p), Some(("d24", 0, "pyq")));
    let m = mqp_filename("j25", 2, "6");
    assert_eq!(m, "mqp_j25_s2_p6.pdf");
    assert_eq!(parse_filename(&m), Some(("j25", 2, "mqp")));
}

#[test]
fn asset_url_trims_slashes() {
    let base = "https://github.com/abhinandh-s/cma_resources/releases/download/2026-03";
    let expected = "https://github.com/abhinandh-s/cma_resources/releases/download/2026-03/pyq_d25_p5.pdf";
    assert_eq!(asset_url(base, "pyq_d25_p5.pdf"), expected);
    assert_eq!(asset_url(&format!("{}/", base), "pyq_d25_p5.pdf"), expected);
    assert_eq!(asset_url(&format!("{}///", base), "pyq_d25_p5.pdf"), expected);
    assert_eq!(asset_url("", "f"), "/f");
}

// ---- arguments ----

#[test]
fn parse_papers_cases() {
    assert_eq!(parse_papers("all"), Ok(strings(&["5", "6", "7", "8", "9", "10", "11", "12"])));
    assert_eq!(parse_papers("5-8"), Ok(strings(&["5", "6", "7", "8"])));
    assert_eq!(parse_papers("7-7"), Ok(strings(&["7"])));
    assert_eq!(parse_papers("+9-+10"), Ok(strings(&["9", "10"])));
    assert_eq!(parse_papers("8-5"), Err("range 8-5 is empty".to_string()));
    assert_eq!(parse_papers("7"), Ok(strings(&["7"])));
    assert_eq!(parse_papers("007"), Ok(strings(&["007"])));
    assert_eq!(parse_papers(""), Ok(strings(&[""])));
    assert_eq!(parse_papers("abc"), Err("unrecognised input: abc".to_string()));
    assert_eq!(parse_papers("5-"), Err("unrecognised input: 5-".to_string()));
    assert_eq!(parse_papers("-5"), Err("unrecognised input: -5".to_string()));
}

#[test]
fn parse_args_cases() {
    let a = parse_args(&vec![]).unwrap();
    assert_eq!(a.papers, strings(&["5"]));
    assert_eq!(a.release_base, "");
    assert_eq!(a.tag, "");

    let a = parse_args(&strings(&["6-7", "--release-base", "https://r/x", "--tag", "2026-03"])).unwrap();
    assert_eq!(a.papers, strings(&["6", "7"]));
    assert_eq!(a.release_base, "https://r/x");
    assert_eq!(a.tag, "2026-03");

    let a = parse_args(&strings(&["5", "9"])).unwrap();
    assert_eq!(a.papers, strings(&["9"]));

    assert_eq!(parse_args(&strings(&["--tag"])).err(), Some("--tag requires a value".to_string()));
    assert_eq!(
        parse_args(&strings(&["5", "--release-base"])).err(),
        Some("--release-base requires a value".to_string())
    );
    assert_eq!(parse_args(&strings(&["x"])).err(), Some("unrecognised input: x".to_string()));
    let a = parse_args(&strings(&["--release-base", "--tag"])).unwrap();
    assert_eq!(a.release_base, "--tag");
}

// ---- plan ----

#[test]
fn question_jobs_for_paper_6() {
    let ov = q_overrides();
    let jobs = question_jobs("6", &ov);
    assert_eq!(jobs.len(), 5 + 9);
    assert_eq!(jobs[0].filename, "pyq_d25_p6.pdf");
    assert_eq!(jobs[0].url, "https://icmai.in/upload/QuestionPaper/syllabus2022/Dec25/Paper6.pdf");
    assert_eq!(jobs[0].session, "d25");
    assert_eq!(jobs[0].set, 0);
    assert_eq!(jobs[3].filename, "pyq_j24_p6.pdf");
    assert_eq!(jobs[3].url, "https://icmai.in/upload/QuestionPaper/syllabus2022/Jun24/P6_FA.pdf");
    assert_eq!(jobs[5].filename, "mqp_d25_s1_p6.pdf");
    assert_eq!(jobs[5].url, "https://icmai.in/upload/Students/MQP_2022_Dec2025/Intermediate/Paper6_Syl22_Dec25_Set1.pdf");
    assert_eq!(jobs[5].set, 1);
    assert_eq!(jobs[9].filename, "mqp_d24_s1_p6.pdf");
    assert_eq!(jobs[9].url, "https://icmai.in/upload/Students/MQP_2022/Inter/Paper6_Syl22_Dec24_Set1.pdf");
    assert_eq!(jobs[10].filename, "mqp_d24_s2_p6.pdf");
    assert_eq!(jobs[10].url, "https://icmai.in/upload/Students/MQP_2022_Dec2024/Inter/Q_MQP_Paper6_Set2_Dec24.pdf");
    assert_eq!(jobs[11].filename, "mqp_j24_s1_p6.pdf");
    assert_eq!(jobs[11].url, "https://icmai.in/upload/Students/MQP_2022/Inter/Paper6_Syl22_June24_Set1.pdf");
    assert_eq!(jobs[13].filename, "mqp_d23_s2_p6.pdf");
    for j in &jobs {
        assert_eq!(parse_filename(&j.filename).map(|(t, s, _)| (t.to_string(), s)), Some((j.session.clone(), j.set)));
    }
    assert_eq!(pyq_terms().len(), 5);
    assert_eq!(mqp_q_configs().len(), 5);
    assert_eq!(BASE_URL, "https://icmai.in/upload/");
}

#[test]
fn question_jobs_without_overrides() {
    let ov = q_overrides();
    let jobs = question_jobs("5", &ov);
    assert_eq!(jobs.len(), 14);
    assert_eq!(jobs[1].url, "https://icmai.in/upload/QuestionPaper/syllabus2022/June25/Paper5.pdf");
    assert_eq!(jobs[9].url, "https://icmai.in/upload/Students/MQP_2022/Inter/MQP_Paper5_Set1_Dec24.pdf");
}

#[test]
fn answer_jobs_sorted_by_name() {
    let ans = answer_urls();
    let jobs = answer_jobs("7", &ans).unwrap();
    let names: Vec<&str> = jobs.iter().map(|j| j.filename.as_str()).collect();
    let mut sorted = names.clone();
    sorted.sort();
    assert_eq!(names, sorted);
    assert_eq!(jobs.len(), 8);
    assert_eq!(jobs[0].filename, "mqp_ans_d23_s1_p7.pdf");
    assert_eq!(jobs[0].url, "https://icmai.in/upload/Students/MQP_2022/Inter/Paper7_Syl22_Dec23_Set1_Sol.pdf");
    assert_eq!(jobs[0].session, "d23");
    assert_eq!(jobs[0].set, 1);
    assert!(answer_jobs("9", &ans).is_none());
    assert!(answer_jobs("13", &ans).is_none());
}

#[test]
fn override_tables_lookup() {
    let ov = q_overrides();
    assert_eq!(ov.lookup("9", "pyq_j24_p9.pdf"), Some("/QuestionPaper/syllabus2022/Jun24/P9_OMSM.pdf"));
    assert_eq!(ov.lookup("9", "pyq_j24_p6.pdf"), None);
    assert_eq!(ov.lookup("5", "pyq_j24_p5.pdf"), None);
    let ans = answer_urls();
    assert_eq!(
        ans.lookup("8", "mqp_ans_d25_s2_p8.pdf"),
        Some("Students/MQP_2022_Dec2025/Intermediate/Q&A_MQP_Paper8_Syllabus22_Dec2025_Set2.pdf")
    );
    assert_eq!(ans.papers.len(), 4);
    assert_eq!(ov.papers.len(), 7);
}

// ---- counting ----

#[test]
fn record_counts_outcomes() {
    let mut stats = Stats::default();
    let mut total = Stats { success: 3, skipped: 0, failed: 1 };
    let mut downloaded: Vec<Downloaded> = Vec::new();
    record(&mut stats, &mut total, DownloadResult::Saved, "pyq_d25_p5.pdf", &mut downloaded, "d25", 0);
    record(&mut stats, &mut total, DownloadResult::Skipped, "mqp_d25_s1_p5.pdf", &mut downloaded, "d25", 1);
    record(&mut stats, &mut total, DownloadResult::Missing, "mqp_d25_s2_p5.pdf", &mut downloaded, "d25", 2);
    assert_eq!((stats.success, stats.skipped, stats.failed), (1, 1, 1));
    assert_eq!((total.success, total.skipped, total.failed), (4, 1, 2));
    assert_eq!(downloaded.len(), 2);
    assert_eq!(downloaded.len() as u32, stats.success + stats.skipped);
    assert_eq!(downloaded[1].filename, "mqp_d25_s1_p5.pdf");
    assert_eq!(downloaded[1].session, "d25");
    assert_eq!(downloaded[1].set, 1);
}

// ---- release notes ----

#[test]
fn release_notes_full_example() {
    let per_paper = vec![
        PaperDownloads {
            num: "6".to_string(),
            files: vec![
                file("pyq_j24_p6.pdf", "j24", 0),
                file("pyq_d25_p6.pdf", "d25", 0),
                file("mqp_d24_s2_p6.pdf", "d24", 2),
                file("mqp_ans_d24_s1_p6.pdf", "d24", 1),
                file("mqp_ans_d24_s2_p6.pdf", "d24", 2),
            ],
        },
        PaperDownloads { num: "5".to_string(), files: vec![] },
    ];
    let total = Stats { success: 4, skipped: 1, failed: 9 };
    let notes = generate_release_notes(&per_paper, "B/", &total);
    let picture = "<picture>\n<source media=\"(prefers-color-scheme: dark)\"\nsrcset=\"https://raw.githubusercontent.com/abhinandh-s/cma_qps/refs/heads/master/assets/file-unknown-dark.svg\">\n<img src=\"https://raw.githubusercontent.com/abhinandh-s/cma_qps/refs/heads/master/assets/file-unknown-light.svg\" width=\"24\">\n</picture>";
    let mut expected = String::new();
    expected.push_str("> **5 files** across 2 papers. Files not listed here were not yet uploaded by ICMAI at time of release.\n\n");
    expected.push_str("## P5 \u{2014} Law and Ethics\n\n---\n\n");
    expected.push_str("## P6 \u{2014} Financial Accounting\n\n");
    expected.push_str("### Previous Year Question Papers\n\n- [Dec 2025](B/pyq_d25_p6.pdf)\n- [Jun 2024](B/pyq_j24_p6.pdf)\n\n");
    expected.push_str("### Model Question Papers\n\n#### Dec 2024\n\n");
    expected.push_str("**Set 1**\n\n- ~~Question Paper~~ *(not uploaded by ICMAI)*\n- [\u{f1a9a} Answer Key](B/mqp_ans_d24_s1_p6.pdf)\n\n");
    expected.push_str(&format!(
        "**Set 2**\n\n| [{} Question Paper](B/mqp_d24_s2_p6.pdf) | [\u{f1a9a} Answer Key](B/mqp_ans_d24_s2_p6.pdf) |\n|---|---|\n\n",
        picture
    ));
    expected.push_str("---\n\n");
    assert_eq!(notes, expected);
    assert_eq!(QUESTION_ROW, format!("| [{} Question Paper](", picture));
    assert_eq!(QUESTION_ITEM, format!("- [{} Question Paper](", picture));
}

#[test]
fn release_notes_question_without_answer() {
    let per_paper = vec![PaperDownloads {
        num: "9".to_string(),
        files: vec![
            file("mqp_j25_s1_p9.pdf", "j25", 1),
            file("mqp_d25_s2_p9.pdf", "d25", 2),
            file("other.pdf", "", 0),
        ],
    }];
    let total = Stats { success: 0, skipped: 3, failed: 0 };
    let notes = generate_release_notes(&per_paper, "https://b", &total);
    assert!(notes.starts_with("> **3 files** across 1 papers."));
    let d25 = notes.find("#### Dec 2025").unwrap();
    let j25 = notes.find("#### Jun 2025").unwrap();
    assert!(d25 < j25);
    assert!(notes.contains(&format!("{}https://b/mqp_d25_s2_p9.pdf)\n- ~~Answer Key~~ *(not uploaded by ICMAI)*\n", QUESTION_ITEM)));
    assert!(!notes.contains("### Previous Year Question Papers"));
    assert!(notes.ends_with("---\n\n"));
}

#[test]
fn papers_in_ascending_order() {
    let per_paper: Vec<PaperDownloads> = ["12", "x", "5", "10"]
        .iter()
        .map(|n| PaperDownloads { num: n.to_string(), files: vec![] })
        .collect();
    let total = Stats::default();
    let notes = generate_release_notes(&per_paper, "b", &total);
    let pos = |n: &str| notes.find(&format!("## P{} \u{2014}", n)).unwrap();
    assert!(pos("5") < pos("10"));
    assert!(pos("10") < pos("12"));
    assert!(pos("12") < pos("x"));
    assert_eq!(paper_sort_key("x"), 99);
    assert_eq!(paper_sort_key("11"), 11);
}


#[test]
fn repeated_names_keep_the_last_address() {
    let table = UrlTable {
        papers: vec![
            PaperUrls { paper: "5", entries: vec![UrlEntry { file: "x.pdf", path: "old" }] },
            PaperUrls {
                paper: "5",
                entries: vec![
                    UrlEntry { file: "mqp_ans_j25_s1_p5.pdf", path: "first" },
                    UrlEntry { file: "mqp_ans_d24_s2_p5.pdf", path: "other" },
                    UrlEntry { file: "mqp_ans_j25_s1_p5.pdf", path: "second" },
                ],
            },
        ],
    };
    assert_eq!(table.lookup("5", "mqp_ans_j25_s1_p5.pdf"), Some("second"));
    assert_eq!(table.lookup("5", "x.pdf"), None);
    let jobs = answer_jobs("5", &table).unwrap();
    assert_eq!(jobs.len(), 2);
    assert_eq!(jobs[0].filename, "mqp_ans_d24_s2_p5.pdf");
    assert_eq!(jobs[0].url, "https://icmai.in/upload/other");
    assert_eq!((jobs[0].session.as_str(), jobs[0].set), ("d24", 2));
    assert_eq!(jobs[1].filename, "mqp_ans_j25_s1_p5.pdf");
    assert_eq!(jobs[1].url, "https://icmai.in/upload/second");
}
