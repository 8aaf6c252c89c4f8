use vstd::prelude::*;

use crate::search::{find_index, lemma_find_index_is, lemma_find_index_none};
use crate::text::{decimal, decimal_string, replace_seq, replace_str, str_eq};

verus! {

/// A paper of the syllabus: its number and its name.
pub struct Paper {
    pub num: &'static str,
    pub name: &'static str,
}

impl View for Paper {
    type V = (Seq<char>, Seq<char>);

    open spec fn view(&self) -> (Seq<char>, Seq<char>) {
        (self.num@, self.name@)
    }
}

/// An examination session: its tag, the label shown for it, and a key that
/// is higher for a more recent session.
pub struct Session {
    pub tag: &'static str,
    pub label: &'static str,
    pub sort_key: u32,
}

impl View for Session {
    type V = (Seq<char>, Seq<char>, u32);

    open spec fn view(&self) -> (Seq<char>, Seq<char>, u32) {
        (self.tag@, self.label@, self.sort_key)
    }
}

/// The papers, by number.
pub open spec fn paper_table() -> Seq<(Seq<char>, Seq<char>)> {
    seq![
        ("5"@, "Law and Ethics"@),
        ("6"@, "Financial Accounting"@),
        ("7"@, "Direct and Indirect Taxation"@),
        ("8"@, "Cost Accounting"@),
        ("9"@, "Operations Management and Strategic Management"@),
        ("10"@, "Corporate Accounting and Auditing"@),
        ("11"@, "Financial Management and Business Data Analytics"@),
        ("12"@, "Management Accounting"@),
    ]
}

/// The sessions, most recent first.
pub open spec fn session_table() -> Seq<(Seq<char>, Seq<char>, u32)> {
    seq![
        ("d25"@, "Dec 2025"@, 50u32),
        ("j25"@, "Jun 2025"@, 49u32),
        ("d24"@, "Dec 2024"@, 48u32),
        ("j24"@, "Jun 2024"@, 47u32),
        ("d23"@, "Dec 2023"@, 46u32),
    ]
}

/// The papers of the syllabus.
pub fn papers() -> (res: Vec<Paper>)
    ensures
        res@.map_values(|p: Paper| p@) == paper_table(),
{
    let v = vec![
        Paper { num: "5", name: "Law and Ethics" },
        Paper { num: "6", name: "Financial Accounting" },
        Paper { num: "7", name: "Direct and Indirect Taxation" },
        Paper { num: "8", name: "Cost Accounting" },
        Paper { num: "9", name: "Operations Management and Strategic Management" },
        Paper { num: "10", name: "Corporate Accounting and Auditing" },
        Paper { num: "11", name: "Financial Management and Business Data Analytics" },
        Paper { num: "12", name: "Management Accounting" },
    ];
    assert(v@.map_values(|p: Paper| p@) =~= paper_table());
    v
}

/// The examination sessions.
pub fn sessions() -> (res: Vec<Session>)
    ensures
        res@.map_values(|s: Session| s@) == session_table(),
{
    let v = vec![
        Session { tag: "d25", label: "Dec 2025", sort_key: 50 },
        Session { tag: "j25", label: "Jun 2025", sort_key: 49 },
        Session { tag: "d24", label: "Dec 2024", sort_key: 48 },
        Session { tag: "j24", label: "Jun 2024", sort_key: 47 },
        Session { tag: "d23", label: "Dec 2023", sort_key: 46 },
    ];
    assert(v@.map_values(|s: Session| s@) =~= session_table());
    v
}

/// Whether a paper of the table has number `num`.
pub open spec fn paper_num_is(num: Seq<char>) -> spec_fn((Seq<char>, Seq<char>)) -> bool {
    |p: (Seq<char>, Seq<char>)| p.0 == num
}

/// Whether a session of the table has tag `tag`.
pub open spec fn session_tag_is(tag: Seq<char>) -> spec_fn((Seq<char>, Seq<char>, u32)) -> bool {
    |s: (Seq<char>, Seq<char>, u32)| s.0 == tag
}

/// The name of paper `num`: that of the first paper of the table with that
/// number, or `Unknown`.
pub open spec fn paper_name_spec(num: Seq<char>) -> Seq<char> {
    match find_index(paper_table(), paper_num_is(num)) {
        Some(i) => paper_table()[i].1,
        None => "Unknown"@,
    }
}

/// The label of session `tag`, or `tag` itself for a session not in the table.
pub open spec fn session_label_spec(tag: Seq<char>) -> Seq<char> {
    match find_index(session_table(), session_tag_is(tag)) {
        Some(i) => session_table()[i].1,
        None => tag,
    }
}

/// The sort key of session `tag`, or 0 for a session not in the table.
pub open spec fn session_sort_key_spec(tag: Seq<char>) -> u32 {
    match find_index(session_table(), session_tag_is(tag)) {
        Some(i) => session_table()[i].2,
        None => 0,
    }
}

/// The name of paper `num`, or `Unknown`.
pub fn paper_name(num: &str) -> (res: &'static str)
    ensures
        res@ == paper_name_spec(num@),
{
    let table = papers();
    let ghost t = table@.map_values(|p: Paper| p@);
    let ghost pred = paper_num_is(num@);
    let mut i: usize = 0;
    while i < table.len()
        invariant
            t == paper_table(),
            t == table@.map_values(|p: Paper| p@),
            pred == (paper_num_is(num@)),
            i <= table.len(),
            forall|j: int| 0 <= j < i ==> !pred(#[trigger] t[j]),
        decreases table.len() - i,
    {
        if str_eq(table[i].num, num) {
            proof {
                assert(t[i as int] == table@[i as int]@);
                lemma_find_index_is(t, pred, i as int);
            }
            return table[i].name;
        }
        assert(t[i as int] == table@[i as int]@);
        i = i + 1;
    }
    proof {
        lemma_find_index_none(t, pred);
    }
    "Unknown"
}

fn find_session(tag: &str) -> (res: Option<usize>)
    ensures
        find_index(session_table(), session_tag_is(tag@)) == match res {
            Some(i) => Some(i as int),
            None => None::<int>,
        },
        res matches Some(i) ==> i < session_table().len(),
{
    let table = sessions();
    let ghost t = table@.map_values(|s: Session| s@);
    let ghost pred = session_tag_is(tag@);
    let mut i: usize = 0;
    while i < table.len()
        invariant
            t == session_table(),
            t == table@.map_values(|s: Session| s@),
            pred == (session_tag_is(tag@)),
            i <= table.len(),
            forall|j: int| 0 <= j < i ==> !pred(#[trigger] t[j]),
        decreases table.len() - i,
    {
        if str_eq(table[i].tag, tag) {
            proof {
                assert(t[i as int] == table@[i as int]@);
                lemma_find_index_is(t, pred, i as int);
            }
            return Some(i);
        }
        assert(t[i as int] == table@[i as int]@);
        i = i + 1;
    }
    proof {
        lemma_find_index_none(t, pred);
    }
    None
}

/// The label of session `tag`, or `tag` itself for an unknown session.
pub fn session_label(tag: &str) -> (res: &str)
    ensures
        res@ == session_label_spec(tag@),
{
    match find_session(tag) {
        Some(i) => {
            let table = sessions();
            assert(table@.map_values(|s: Session| s@)[i as int] == table@[i as int]@);
            table[i].label
        },
        None => tag,
    }
}

/// The sort key of session `tag` (higher is more recent), or 0 for an unknown
/// session.
pub fn session_sort_key(tag: &str) -> (res: u32)
    ensures
        res == session_sort_key_spec(tag@),
{
    match find_session(tag) {
        Some(i) => {
            let table = sessions();
            assert(table@.map_values(|s: Session| s@)[i as int] == table@[i as int]@);
            table[i].sort_key
        },
        None => 0,
    }
}

/// The file part of a model question paper's address: `template` with each
/// `{p}` replaced by the paper number and each `{s}` by the set number.
pub open spec fn fmt_url_spec(template: Seq<char>, paper: Seq<char>, set: u8) -> Seq<char> {
    replace_seq(replace_seq(template, "{p}"@, paper), "{s}"@, decimal(set as nat))
}

/// Fills in a file name template: `{p}` becomes `paper`, `{s}` becomes `set`.
pub fn fmt_url(template: &str, paper: &str, set: u8) -> (res: String)
    ensures
        res@ == fmt_url_spec(template@, paper@, set),
{
    proof {
        reveal_strlit("{p}");
        reveal_strlit("{s}");
    }
    let with_paper = replace_str(template, "{p}", paper);
    let set_text = decimal_string(set as u64);
    replace_str(with_paper.as_str(), "{s}", set_text.as_str())
}

/// Each session of the table has its own label and sort key, the keys are
/// higher for more recent sessions, and a session not in the table is
/// shown by its tag and sorts with key 0.
pub proof fn lemma_session_lookup(tag: Seq<char>)
    ensures
        forall|k: int| 0 <= k < session_table().len() ==> session_label_spec(#[trigger] session_table()[k].0)
            == session_table()[k].1 && session_sort_key_spec(session_table()[k].0) == session_table()[k].2,
        forall|i: int, j: int| 0 <= i < j < session_table().len() ==> (#[trigger] session_table()[i]).2
            > (#[trigger] session_table()[j]).2,
        (forall|k: int| 0 <= k < session_table().len() ==> (#[trigger] session_table()[k]).0 != tag)
            ==> session_label_spec(tag) == tag && session_sort_key_spec(tag) == 0,
{
    reveal_strlit("d25");
    reveal_strlit("j25");
    reveal_strlit("d24");
    reveal_strlit("j24");
    reveal_strlit("d23");
    let t = session_table();
    assert forall|i: int, j: int| 0 <= i < j < t.len() implies t[i].0 != t[j].0 by {
        assert(t[i].0[0] != t[j].0[0] || t[i].0[2] != t[j].0[2]);
    }
    assert forall|k: int| 0 <= k < t.len() implies session_label_spec(#[trigger] t[k].0) == t[k].1
        && session_sort_key_spec(t[k].0) == t[k].2 by {
        let pred = |s: (Seq<char>, Seq<char>, u32)| s.0 == t[k].0;
        assert forall|j: int| 0 <= j < k implies !pred(#[trigger] t[j]) by {
            assert(t[j].0 != t[k].0);
        }
        lemma_find_index_is(t, pred, k);
    }
    lemma_unknown_session(tag);
}

proof fn lemma_unknown_session(tag: Seq<char>)
    ensures
        (forall|k: int| 0 <= k < session_table().len() ==> (#[trigger] session_table()[k]).0 != tag)
            ==> session_label_spec(tag) == tag && session_sort_key_spec(tag) == 0,
{
    let t = session_table();
    if forall|k: int| 0 <= k < t.len() ==> (#[trigger] t[k]).0 != tag {
        let pred = session_tag_is(tag);
        assert forall|j: int| 0 <= j < t.len() implies !pred(#[trigger] t[j]) by {}
        lemma_find_index_none(t, pred);
    }
}

/// Each paper of the table has its own name, and a paper not in the table
/// is named `Unknown`.
pub proof fn lemma_paper_lookup(num: Seq<char>)
    ensures
        forall|k: int| 0 <= k < paper_table().len() ==> paper_name_spec(#[trigger] paper_table()[k].0)
            == paper_table()[k].1,
        (forall|k: int| 0 <= k < paper_table().len() ==> (#[trigger] paper_table()[k]).0 != num)
            ==> paper_name_spec(num) == "Unknown"@,
{
    reveal_strlit("5");
    reveal_strlit("6");
    reveal_strlit("7");
    reveal_strlit("8");
    reveal_strlit("9");
    reveal_strlit("10");
    reveal_strlit("11");
    reveal_strlit("12");
    let t = paper_table();
    assert forall|i: int, j: int| 0 <= i < j < t.len() implies t[i].0 != t[j].0 by {
        assert(t[i].0.len() != t[j].0.len() || t[i].0[0] != t[j].0[0] || t[i].0[t[i].0.len() - 1] != t[j].0[t[j].0.len() - 1]);
    }
    assert forall|k: int| 0 <= k < t.len() implies paper_name_spec(#[trigger] t[k].0) == t[k].1 by {
        let pred = |p: (Seq<char>, Seq<char>)| p.0 == t[k].0;
        assert forall|j: int| 0 <= j < k implies !pred(#[trigger] t[j]) by {
            assert(t[j].0 != t[k].0);
        }
        lemma_find_index_is(t, pred, k);
    }
    lemma_unknown_paper(num);
}

proof fn lemma_unknown_paper(num: Seq<char>)
    ensures
        (forall|k: int| 0 <= k < paper_table().len() ==> (#[trigger] paper_table()[k]).0 != num)
            ==> paper_name_spec(num) == "Unknown"@,
{
    let t = paper_table();
    if forall|k: int| 0 <= k < t.len() ==> (#[trigger] t[k]).0 != num {
        let pred = paper_num_is(num);
        assert forall|j: int| 0 <= j < t.len() implies !pred(#[trigger] t[j]) by {}
        lemma_find_index_none(t, pred);
    }
}

} // verus!
