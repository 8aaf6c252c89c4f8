use vstd::prelude::*;

use crate::text::{
    trailing_count, parse_u8, parse_unsigned, split_char, split_seq, strip_suffix_seq, strip_suffix_str,
    str_eq, trim_end_char, trim_end_seq, trim_start_char, trim_start_seq,
};

verus! {

/// The set number written in a piece such as `s2`: the piece without its
/// leading `s`, read as a `u8`.
pub open spec fn set_number_spec(piece: Seq<char>) -> Option<u8> {
    match parse_unsigned(trim_start_seq(piece, 's'), u8::MAX as nat) {
        Some(v) => Some(v as u8),
        None => None,
    }
}

/// The session tag, set number and kind that a downloaded file's name
/// carries:
/// `pyq_<tag>_p<n>.pdf` gives `(tag, 0, "pyq")`,
/// `mqp_<tag>_s<set>_p<n>.pdf` gives `(tag, set, "mqp")` where `tag` is not `ans`,
/// `mqp_ans_<tag>_s<set>_p<n>.pdf` gives `(tag, set, "mqp_ans")`;
/// any other name, or a set number that is not a `u8`, gives nothing.
pub open spec fn parse_filename_spec(filename: Seq<char>) -> Option<(Seq<char>, u8, Seq<char>)> {
    match strip_suffix_seq(filename, ".pdf"@) {
        None => None,
        Some(stem) => {
            let parts = split_seq(stem, '_');
            if parts[0] == "pyq"@ && parts.len() == 3 {
                Some((parts[1], 0u8, "pyq"@))
            } else if parts[0] == "mqp"@ && parts.len() == 4 && parts[1] != "ans"@ {
                match set_number_spec(parts[2]) {
                    Some(set) => Some((parts[1], set, "mqp"@)),
                    None => None,
                }
            } else if parts[0] == "mqp"@ && parts.len() == 5 && parts[1] == "ans"@ {
                match set_number_spec(parts[3]) {
                    Some(set) => Some((parts[2], set, "mqp_ans"@)),
                    None => None,
                }
            } else {
                None
            }
        },
    }
}

fn set_number(piece: &str) -> (res: Option<u8>)
    ensures
        res == set_number_spec(piece@),
{
    let digits = trim_start_char(piece, 's');
    parse_u8(digits)
}

/// Reads the session tag, set number and kind out of a downloaded file's name.
pub fn parse_filename(filename: &str) -> (res: Option<(&str, u8, &'static str)>)
    ensures
        match res {
            Some((tag, set, kind)) => parse_filename_spec(filename@) == Some((tag@, set, kind@)),
            None => parse_filename_spec(filename@) is None,
        },
{
    let stem = match strip_suffix_str(filename, ".pdf") {
        Some(stem) => stem,
        None => return None,
    };
    let parts = split_char(stem, '_');
    let ghost sp = split_seq(stem@, '_');
    proof {
        crate::text::lemma_split_seq_nonempty(stem@, '_');
        assert(parts@[0]@ == sp[0]);
    }
    let n = parts.len();
    if str_eq(parts[0], "pyq") && n == 3 {
        assert(parts@[1]@ == sp[1]);
        return Some((parts[1], 0, "pyq"));
    }
    if str_eq(parts[0], "mqp") && n == 4 && !str_eq(parts[1], "ans") {
        assert(parts@[1]@ == sp[1]);
        assert(parts@[2]@ == sp[2]);
        return match set_number(parts[2]) {
            Some(set) => Some((parts[1], set, "mqp")),
            None => None,
        };
    }
    if str_eq(parts[0], "mqp") && n == 5 && str_eq(parts[1], "ans") {
        assert(parts@[1]@ == sp[1]);
        assert(parts@[2]@ == sp[2]);
        assert(parts@[3]@ == sp[3]);
        return match set_number(parts[3]) {
            Some(set) => Some((parts[2], set, "mqp_ans")),
            None => None,
        };
    }
    None
}

/// The download address of a release asset: `base` without its trailing
/// slashes, a slash, and the file name.
pub open spec fn asset_url_spec(base: Seq<char>, filename: Seq<char>) -> Seq<char> {
    trim_end_seq(base, '/') + "/"@ + filename
}

/// The download address of the release asset `filename` under `base`.
pub fn asset_url(base: &str, filename: &str) -> (res: String)
    ensures
        res@ == asset_url_spec(base@, filename@),
{
    let mut s = String::new();
    s.append(trim_end_char(base, '/'));
    s.append("/");
    s.append(filename);
    assert(s@ =~= asset_url_spec(base@, filename@));
    s
}

/// A slash more at the end of the release address gives the same asset
/// address.
pub proof fn lemma_asset_url_trailing_slash(base: Seq<char>, filename: Seq<char>)
    ensures
        asset_url_spec(base.push('/'), filename) == asset_url_spec(base, filename),
{
    let b = base.push('/');
    assert(b.drop_last() =~= base);
    assert(trailing_count(b, '/') == 1 + trailing_count(base, '/'));
    crate::text::lemma_trailing_count_bound(base, '/');
    assert(trim_end_seq(b, '/') =~= trim_end_seq(base, '/'));
}

} // verus!
