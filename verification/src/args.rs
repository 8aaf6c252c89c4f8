use vstd::prelude::*;

use crate::plan::{job_parses_back, lemma_question_jobs_parse_back, question_jobs_spec};
use crate::text::{
    all_ascii_digits, all_digits, decimal, lemma_decimal_digits, lemma_decimal_parses, decimal_string, parse_u32, parse_unsigned,
    split_once_char, split_once_seq, str_eq,
};

verus! {

/// The options of a run: the papers to fetch, the release address under
/// which the notes point (empty for no notes), and the release tag.
pub struct Args {
    pub papers: Vec<String>,
    pub release_base: String,
    pub tag: String,
}

/// The decimal numbers from `start` to `end`, both included.
pub open spec fn range_strings(start: nat, end: nat) -> Seq<Seq<char>> {
    Seq::new((end + 1 - start) as nat, |i: int| decimal((start + i) as nat))
}

/// What the paper selection `input` means:
/// `all` is papers 5 to 12;
/// `<a>-<b>`, where `a` and `b` read as `u32`, is papers `a` to `b`, and an
/// error where `a > b`;
/// a string of ASCII digits (the empty string too) is that one paper;
/// anything else is an error.
pub open spec fn parse_papers_spec(input: Seq<char>) -> Result<Seq<Seq<char>>, Seq<char>> {
    if input == "all"@ {
        Ok(range_strings(5, 12))
    } else {
        let range = match split_once_seq(input, '-') {
            Some((a, b)) => match (parse_unsigned(a, u32::MAX as nat), parse_unsigned(b, u32::MAX as nat)) {
                (Some(start), Some(end)) => Some((start, end)),
                _ => None,
            },
            None => None,
        };
        match range {
            Some((start, end)) => if start > end {
                Err("range "@ + decimal(start) + "-"@ + decimal(end) + " is empty"@)
            } else {
                Ok(range_strings(start, end))
            },
            None => if all_digits(input) {
                Ok(seq![input])
            } else {
                Err("unrecognised input: "@ + input)
            },
        }
    }
}

fn number_range(start: u32, end: u32) -> (res: Vec<String>)
    requires
        start <= end,
    ensures
        res@.map_values(|s: String| s@) == range_strings(start as nat, end as nat),
{
    let mut v: Vec<String> = Vec::new();
    let mut n: u64 = start as u64;
    while n <= end as u64
        invariant
            start <= n <= end as u64 + 1,
            v@.map_values(|s: String| s@) == range_strings(start as nat, end as nat).take(n - start),
        decreases end as u64 + 1 - n,
    {
        let ghost before = v@;
        v.push(decimal_string(n));
        let ghost r = range_strings(start as nat, end as nat);
        assert(r.take(n + 1 - start) =~= r.take(n - start).push(r[n - start]));
        assert(v@.map_values(|s: String| s@) =~= before.map_values(|s: String| s@).push(decimal(n as nat)));
        n = n + 1;
    }
    assert(range_strings(start as nat, end as nat).take(end + 1 - start) =~= range_strings(start as nat, end as nat));
    v
}

/// Reads a paper selection: `all`, a range `<a>-<b>`, or one paper number.
pub fn parse_papers(input: &str) -> (res: Result<Vec<String>, String>)
    ensures
        match res {
            Ok(v) => parse_papers_spec(input@) == Ok::<Seq<Seq<char>>, Seq<char>>(v@.map_values(|s: String| s@)),
            Err(e) => parse_papers_spec(input@) == Err::<Seq<Seq<char>>, Seq<char>>(e@),
        },
{
    if str_eq(input, "all") {
        return Ok(number_range(5, 12));
    }
    if let Some((a, b)) = split_once_char(input, '-') {
        if let (Some(start), Some(end)) = (parse_u32(a), parse_u32(b)) {
            if start > end {
                let mut e = String::new();
                e.append("range ");
                e.append(decimal_string(start as u64).as_str());
                e.append("-");
                e.append(decimal_string(end as u64).as_str());
                e.append(" is empty");
                assert(e@ =~= "range "@ + decimal(start as nat) + "-"@ + decimal(end as nat) + " is empty"@);
                return Err(e);
            }
            return Ok(number_range(start, end));
        }
    }
    if all_ascii_digits(input) {
        let mut s = String::new();
        s.append(input);
        let v = vec![s];
        assert(v@.map_values(|s: String| s@) =~= seq![input@]);
        return Ok(v);
    }
    let mut e = String::new();
    e.append("unrecognised input: ");
    e.append(input);
    Err(e)
}

/// The paper selection, release address and release tag that the command
/// line arguments `args` (after the program name) set, starting from paper
/// `paper`, address `base` and tag `tag`: `--release-base` and `--tag` take
/// the next argument as their value, and any other argument is the paper
/// selection; the last one given counts.
pub open spec fn scan_args(
    args: Seq<Seq<char>>,
    paper: Seq<char>,
    base: Seq<char>,
    tag: Seq<char>,
) -> Result<(Seq<char>, Seq<char>, Seq<char>), Seq<char>>
    decreases args.len(),
{
    if args.len() == 0 {
        Ok((paper, base, tag))
    } else if args[0] == "--release-base"@ {
        if args.len() < 2 {
            Err("--release-base requires a value"@)
        } else {
            scan_args(args.skip(2), paper, args[1], tag)
        }
    } else if args[0] == "--tag"@ {
        if args.len() < 2 {
            Err("--tag requires a value"@)
        } else {
            scan_args(args.skip(2), paper, base, args[1])
        }
    } else {
        scan_args(args.skip(1), args[0], base, tag)
    }
}

/// What the command line arguments `args` (after the program name) ask for:
/// the paper selection defaults to `5` and the address and tag to empty.
pub open spec fn parse_args_spec(args: Seq<Seq<char>>) -> Result<(Seq<Seq<char>>, Seq<char>, Seq<char>), Seq<char>> {
    match scan_args(args, "5"@, Seq::empty(), Seq::empty()) {
        Err(e) => Err(e),
        Ok((paper, base, tag)) => match parse_papers_spec(paper) {
            Err(e) => Err(e),
            Ok(papers) => Ok((papers, base, tag)),
        },
    }
}

/// Reads the command line arguments `args`, the program name left out.
pub fn parse_args(args: &Vec<String>) -> (res: Result<Args, String>)
    ensures
        match res {
            Ok(a) => parse_args_spec(args@.map_values(|s: String| s@))
                == Ok::<(Seq<Seq<char>>, Seq<char>, Seq<char>), Seq<char>>(
                    (a.papers@.map_values(|s: String| s@), a.release_base@, a.tag@)),
            Err(e) => parse_args_spec(args@.map_values(|s: String| s@))
                == Err::<(Seq<Seq<char>>, Seq<char>, Seq<char>), Seq<char>>(e@),
        },
{
    let ghost av = args@.map_values(|s: String| s@);
    let mut paper: String = String::new();
    paper.append("5");
    let mut release_base: String = String::new();
    let mut tag: String = String::new();
    let mut i: usize = 0;
    assert(av.skip(0) =~= av);
    while i < args.len()
        invariant
            i <= args.len(),
            av == args@.map_values(|s: String| s@),
            scan_args(av, "5"@, Seq::empty(), Seq::empty())
                == scan_args(av.skip(i as int), paper@, release_base@, tag@),
        decreases args.len() - i,
    {
        let arg = args[i].as_str();
        let ghost rest = av.skip(i as int);
        assert(rest[0] == arg@);
        if str_eq(arg, "--release-base") {
            if i + 1 >= args.len() {
                let mut e = String::new();
                e.append("--release-base requires a value");
                return Err(e);
            }
            assert(rest[1] == args@[i + 1]@);
            assert(rest.skip(2) =~= av.skip(i + 2));
            release_base = args[i + 1].clone();
            i = i + 2;
        } else if str_eq(arg, "--tag") {
            if i + 1 >= args.len() {
                let mut e = String::new();
                e.append("--tag requires a value");
                return Err(e);
            }
            assert(rest[1] == args@[i + 1]@);
            assert(rest.skip(2) =~= av.skip(i + 2));
            tag = args[i + 1].clone();
            i = i + 2;
        } else {
            assert(rest.skip(1) =~= av.skip(i + 1));
            paper = args[i].clone();
            i = i + 1;
        }
    }
    assert(av.skip(i as int) =~= Seq::<Seq<char>>::empty());
    match parse_papers(paper.as_str()) {
        Ok(papers) => Ok(Args { papers, release_base, tag }),
        Err(e) => Err(e),
    }
}

/// Every paper that a selection names is a string of ASCII digits.
pub proof fn lemma_papers_are_numbers(input: Seq<char>)
    ensures
        parse_papers_spec(input) matches Ok(papers) ==> forall|i: int|
            0 <= i < papers.len() ==> all_digits(#[trigger] papers[i]),
{
    match parse_papers_spec(input) {
        Ok(papers) => {
            assert forall|i: int| 0 <= i < papers.len() implies all_digits(#[trigger] papers[i]) by {
                if input == "all"@ {
                    lemma_decimal_digits((5 + i) as nat);
                } else {
                    match split_once_seq(input, '-') {
                        Some((a, b)) => match (parse_unsigned(a, u32::MAX as nat), parse_unsigned(b, u32::MAX as nat)) {
                            (Some(start), Some(end)) => {
                                lemma_decimal_digits((start + i) as nat);
                            },
                            _ => {},
                        },
                        None => {},
                    }
                }
            }
        },
        Err(_) => {},
    }
}

/// For every paper that a selection names, the file name of each question
/// paper job reads back as the job's session and set.
pub proof fn lemma_selected_jobs_parse_back(
    input: Seq<char>,
    k: int,
    overrides: Seq<(Seq<char>, Seq<(Seq<char>, Seq<char>)>)>,
)
    requires
        parse_papers_spec(input) is Ok,
        0 <= k < parse_papers_spec(input)->Ok_0.len(),
    ensures
        forall|i: int| 0 <= i < question_jobs_spec(parse_papers_spec(input)->Ok_0[k], overrides).len()
            ==> job_parses_back(#[trigger] question_jobs_spec(parse_papers_spec(input)->Ok_0[k], overrides)[i]),
{
    let num = parse_papers_spec(input)->Ok_0[k];
    lemma_papers_are_numbers(input);
    assert(all_digits(num));
    if num.contains('_') {
        let i = choose|i: int| 0 <= i < num.len() && num[i] == '_';
        assert(crate::text::is_digit(num[i]));
    }
    lemma_question_jobs_parse_back(num, overrides);
}

proof fn lemma_scan_args_push(
    args: Seq<Seq<char>>,
    paper: Seq<char>,
    base: Seq<char>,
    tag: Seq<char>,
    x: Seq<char>,
)
    requires
        scan_args(args, paper, base, tag) is Ok,
        x != "--release-base"@,
        x != "--tag"@,
    ensures
        scan_args(args.push(x), paper, base, tag) == Ok::<(Seq<char>, Seq<char>, Seq<char>), Seq<char>>(
            (x, scan_args(args, paper, base, tag)->Ok_0.1, scan_args(args, paper, base, tag)->Ok_0.2),
        ),
    decreases args.len(),
{
    let w = args.push(x);
    reveal_strlit("--release-base");
    reveal_strlit("--tag");
    if args.len() == 0 {
        assert(w[0] == x);
        assert(w.skip(1) =~= Seq::<Seq<char>>::empty());
        assert(scan_args(w.skip(1), x, base, tag) == Ok::<(Seq<char>, Seq<char>, Seq<char>), Seq<char>>((x, base, tag)));
        assert(scan_args(w, paper, base, tag) == scan_args(w.skip(1), x, base, tag));
    } else {
        assert(w[0] == args[0]);
        if args[0] == "--release-base"@ || args[0] == "--tag"@ {
            assert(w[1] == args[1]);
            assert(w.skip(2) =~= args.skip(2).push(x));
            if args[0] == "--release-base"@ {
                lemma_scan_args_push(args.skip(2), paper, args[1], tag, x);
            } else {
                lemma_scan_args_push(args.skip(2), paper, base, args[1], x);
            }
        } else {
            assert(w.skip(1) =~= args.skip(1).push(x));
            lemma_scan_args_push(args.skip(1), args[0], base, tag, x);
        }
    }
}

/// An argument that is not a flag, put after any arguments that read
/// without error, becomes the paper selection, whatever flags came before
/// it; the release address and tag stay those of the earlier arguments.
pub proof fn lemma_last_argument_selects_papers(args: Seq<Seq<char>>, x: Seq<char>)
    requires
        scan_args(args, "5"@, Seq::empty(), Seq::empty()) is Ok,
        x != "--release-base"@,
        x != "--tag"@,
    ensures
        parse_args_spec(args.push(x)) == match parse_papers_spec(x) {
            Ok(papers) => Ok::<(Seq<Seq<char>>, Seq<char>, Seq<char>), Seq<char>>((
                papers,
                scan_args(args, "5"@, Seq::empty(), Seq::empty())->Ok_0.1,
                scan_args(args, "5"@, Seq::empty(), Seq::empty())->Ok_0.2,
            )),
            Err(e) => Err(e),
        },
{
    lemma_scan_args_push(args, "5"@, Seq::empty(), Seq::empty(), x);
}

/// A flag and its value, put after any arguments that read without error,
/// set the release address or the tag and keep the paper selection.
pub proof fn lemma_flag_sets_value(args: Seq<Seq<char>>, flag: Seq<char>, v: Seq<char>)
    requires
        scan_args(args, "5"@, Seq::empty(), Seq::empty()) is Ok,
        flag == "--release-base"@ || flag == "--tag"@,
    ensures
        ({
            let before = scan_args(args, "5"@, Seq::empty(), Seq::empty())->Ok_0;
            scan_args(args.push(flag).push(v), "5"@, Seq::empty(), Seq::empty())
                == Ok::<(Seq<char>, Seq<char>, Seq<char>), Seq<char>>(
                if flag == "--release-base"@ { (before.0, v, before.2) } else { (before.0, before.1, v) },
            )
        }),
{
    lemma_scan_args_pair(args, "5"@, Seq::empty(), Seq::empty(), flag, v);
}

proof fn lemma_scan_args_pair(
    args: Seq<Seq<char>>,
    paper: Seq<char>,
    base: Seq<char>,
    tag: Seq<char>,
    flag: Seq<char>,
    v: Seq<char>,
)
    requires
        scan_args(args, paper, base, tag) is Ok,
        flag == "--release-base"@ || flag == "--tag"@,
    ensures
        ({
            let before = scan_args(args, paper, base, tag)->Ok_0;
            scan_args(args.push(flag).push(v), paper, base, tag)
                == Ok::<(Seq<char>, Seq<char>, Seq<char>), Seq<char>>(
                if flag == "--release-base"@ { (before.0, v, before.2) } else { (before.0, before.1, v) },
            )
        }),
    decreases args.len(),
{
    let w = args.push(flag).push(v);
    reveal_strlit("--release-base");
    reveal_strlit("--tag");
    assert("--release-base"@ != "--tag"@) by {
        assert("--release-base"@.len() != "--tag"@.len());
    }
    if args.len() == 0 {
        assert(w[0] == flag);
        assert(w[1] == v);
        assert(w.skip(2) =~= Seq::<Seq<char>>::empty());
        if flag == "--release-base"@ {
            assert(scan_args(w.skip(2), paper, v, tag) == Ok::<(Seq<char>, Seq<char>, Seq<char>), Seq<char>>((paper, v, tag)));
            assert(scan_args(w, paper, base, tag) == scan_args(w.skip(2), paper, v, tag));
        } else {
            assert(scan_args(w.skip(2), paper, base, v) == Ok::<(Seq<char>, Seq<char>, Seq<char>), Seq<char>>((paper, base, v)));
            assert(scan_args(w, paper, base, tag) == scan_args(w.skip(2), paper, base, v));
        }
    } else {
        assert(w[0] == args[0]);
        if args[0] == "--release-base"@ || args[0] == "--tag"@ {
            assert(w[1] == args[1]);
            assert(w.skip(2) =~= args.skip(2).push(flag).push(v));
            if args[0] == "--release-base"@ {
                lemma_scan_args_pair(args.skip(2), paper, args[1], tag, flag, v);
            } else {
                lemma_scan_args_pair(args.skip(2), paper, base, args[1], flag, v);
            }
        } else {
            assert(w.skip(1) =~= args.skip(1).push(flag).push(v));
            lemma_scan_args_pair(args.skip(1), args[0], base, tag, flag, v);
        }
    }
}

/// A range `<a>-<b>` of numbers with `a <= b` selects `b - a + 1` papers,
/// the `i`-th of which reads as the number `a + i`; `all` selects the
/// papers 5 to 12 in the same way.
pub proof fn lemma_range_selects_each_number(input: Seq<char>)
    ensures
        input == "all"@ ==> (parse_papers_spec(input) matches Ok(papers) && papers.len() == 8
            && forall|i: int| 0 <= i < 8 ==> parse_unsigned(#[trigger] papers[i], u32::MAX as nat) == Some((5 + i) as nat)),
        input != "all"@ ==> (split_once_seq(input, '-') matches Some((a, b)) ==> (
            parse_unsigned(a, u32::MAX as nat) matches Some(start) ==> (
            parse_unsigned(b, u32::MAX as nat) matches Some(end) ==> (start <= end ==> (
                parse_papers_spec(input) matches Ok(papers) && papers.len() == end - start + 1
                && forall|i: int| 0 <= i < papers.len() ==> parse_unsigned(#[trigger] papers[i], u32::MAX as nat)
                    == Some((start + i) as nat)))))),
{
    if input == "all"@ {
        assert forall|i: int| 0 <= i < 8 implies parse_unsigned(#[trigger] range_strings(5, 12)[i], u32::MAX as nat)
            == Some((5 + i) as nat) by {
            lemma_decimal_parses((5 + i) as nat, u32::MAX as nat);
        }
    } else {
        match split_once_seq(input, '-') {
            Some((a, b)) => match (parse_unsigned(a, u32::MAX as nat), parse_unsigned(b, u32::MAX as nat)) {
                (Some(start), Some(end)) => {
                    if start <= end {
                        let papers = range_strings(start, end);
                        assert forall|i: int| 0 <= i < papers.len() implies parse_unsigned(#[trigger] papers[i], u32::MAX as nat)
                            == Some((start + i) as nat) by {
                            lemma_decimal_parses((start + i) as nat, u32::MAX as nat);
                        }
                    }
                },
                _ => {},
            },
            None => {},
        }
    }
}

} // verus!
