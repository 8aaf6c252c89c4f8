use vstd::prelude::*;

verus! {

/// Counts of the files of a run: saved now, already present, and missing.
#[derive(Clone, Copy, Debug)]
pub struct Stats {
    pub success: u32,
    pub skipped: u32,
    pub failed: u32,
}

impl Default for Stats {
    fn default() -> (res: Self)
        ensures
            res.success == 0,
            res.skipped == 0,
            res.failed == 0,
    {
        Stats { success: 0, skipped: 0, failed: 0 }
    }
}

/// What became of one file: fetched and saved, already on disk, or not
/// available.
#[derive(Clone, Copy, Debug, PartialEq, Eq, Structural)]
pub enum DownloadResult {
    Saved,
    Skipped,
    Missing,
}

/// A file that is on disk after the run, for the release notes.
pub struct Downloaded {
    pub filename: String,
    /// The session tag (d25, j25, ...).
    pub session: String,
    /// The set number of a model question paper, else 0.
    pub set: u8,
}

impl View for Downloaded {
    type V = (Seq<char>, Seq<char>, u8);

    open spec fn view(&self) -> (Seq<char>, Seq<char>, u8) {
        (self.filename@, self.session@, self.set)
    }
}

/// The counts after one more file with outcome `result`.
pub open spec fn recorded_stats(s: Stats, result: DownloadResult) -> Stats {
    match result {
        DownloadResult::Saved => Stats { success: (s.success + 1) as u32, ..s },
        DownloadResult::Skipped => Stats { skipped: (s.skipped + 1) as u32, ..s },
        DownloadResult::Missing => Stats { failed: (s.failed + 1) as u32, ..s },
    }
}

/// The files on disk after one more file with outcome `result`: a saved or
/// already present file is added at the end.
pub open spec fn recorded_files(
    files: Seq<(Seq<char>, Seq<char>, u8)>,
    result: DownloadResult,
    filename: Seq<char>,
    session: Seq<char>,
    set: u8,
) -> Seq<(Seq<char>, Seq<char>, u8)> {
    match result {
        DownloadResult::Missing => files,
        _ => files.push((filename, session, set)),
    }
}

/// Whether one more file with outcome `result` fits in the counts of `s`.
pub open spec fn can_record(s: Stats, result: DownloadResult) -> bool {
    match result {
        DownloadResult::Saved => s.success < u32::MAX,
        DownloadResult::Skipped => s.skipped < u32::MAX,
        DownloadResult::Missing => s.failed < u32::MAX,
    }
}

/// Counts the outcome of one file in the paper's counts and in the run's
/// totals, and keeps a saved or already present file for the release notes.
pub fn record(
    stats: &mut Stats,
    total: &mut Stats,
    result: DownloadResult,
    filename: &str,
    downloaded: &mut Vec<Downloaded>,
    session: &str,
    set: u8,
)
    requires
        can_record(*old(stats), result),
        can_record(*old(total), result),
    ensures
        *final(stats) == recorded_stats(*old(stats), result),
        *final(total) == recorded_stats(*old(total), result),
        final(downloaded)@.map_values(|d: Downloaded| d@) == recorded_files(
            old(downloaded)@.map_values(|d: Downloaded| d@),
            result,
            filename@,
            session@,
            set,
        ),
        final(stats).success == old(stats).success + (if result == DownloadResult::Saved { 1int } else { 0int }),
        final(stats).skipped == old(stats).skipped + (if result == DownloadResult::Skipped { 1int } else { 0int }),
        final(stats).failed == old(stats).failed + (if result == DownloadResult::Missing { 1int } else { 0int }),
        final(total).success == old(total).success + (if result == DownloadResult::Saved { 1int } else { 0int }),
        final(total).skipped == old(total).skipped + (if result == DownloadResult::Skipped { 1int } else { 0int }),
        final(total).failed == old(total).failed + (if result == DownloadResult::Missing { 1int } else { 0int }),
        result == DownloadResult::Missing ==> final(downloaded)@.len() == old(downloaded)@.len(),
        result != DownloadResult::Missing ==> final(downloaded)@.len() == old(downloaded)@.len() + 1,
        result != DownloadResult::Missing ==> final(downloaded)@.last().filename@ == filename@,
        result != DownloadResult::Missing ==> final(downloaded)@.last().session@ == session@,
        result != DownloadResult::Missing ==> final(downloaded)@.last().set == set,
        forall|i: int| 0 <= i < old(downloaded)@.len() ==> (#[trigger] final(downloaded)@[i])@ == old(downloaded)@[i]@,
{
    let ghost before = downloaded@;
    match result {
        DownloadResult::Saved => {
            stats.success = stats.success + 1;
            total.success = total.success + 1;
        },
        DownloadResult::Skipped => {
            stats.skipped = stats.skipped + 1;
            total.skipped = total.skipped + 1;
        },
        DownloadResult::Missing => {
            stats.failed = stats.failed + 1;
            total.failed = total.failed + 1;
        },
    }
    if result != DownloadResult::Missing {
        let mut f = String::new();
        f.append(filename);
        let mut s = String::new();
        s.append(session);
        let d = Downloaded { filename: f, session: s, set };
        downloaded.push(d);
        assert(downloaded@.last()@ == (filename@, session@, set));
        assert(downloaded@.map_values(|d: Downloaded| d@) =~= before.map_values(|d: Downloaded| d@).push(
            (filename@, session@, set),
        ));
    }
}

/// Recording keeps the list of files on disk as long as the count of files
/// saved or already present, and counts each file exactly once.
pub proof fn lemma_record_keeps_counts(
    s: Stats,
    files: Seq<(Seq<char>, Seq<char>, u8)>,
    result: DownloadResult,
    filename: Seq<char>,
    session: Seq<char>,
    set: u8,
)
    requires
        can_record(s, result),
        files.len() == s.success + s.skipped,
    ensures
        recorded_files(files, result, filename, session, set).len()
            == recorded_stats(s, result).success + recorded_stats(s, result).skipped,
        recorded_stats(s, result).success + recorded_stats(s, result).skipped
            + recorded_stats(s, result).failed == s.success + s.skipped + s.failed + 1,
{
}

/// One more file: the counts of its outcome, and of no other, go up by one;
/// a saved or already present file is added at the end of the files on disk
/// with exactly the name, session and set given, the files before it kept;
/// a missing file leaves the files as they were.
pub proof fn lemma_record_outcome(
    s: Stats,
    files: Seq<(Seq<char>, Seq<char>, u8)>,
    result: DownloadResult,
    filename: Seq<char>,
    session: Seq<char>,
    set: u8,
)
    requires
        can_record(s, result),
    ensures
        recorded_stats(s, result).success == s.success + (if result == DownloadResult::Saved { 1int } else { 0int }),
        recorded_stats(s, result).skipped == s.skipped + (if result == DownloadResult::Skipped { 1int } else { 0int }),
        recorded_stats(s, result).failed == s.failed + (if result == DownloadResult::Missing { 1int } else { 0int }),
        result == DownloadResult::Missing ==> recorded_files(files, result, filename, session, set) == files,
        result != DownloadResult::Missing ==> recorded_files(files, result, filename, session, set).len() == files.len() + 1,
        result != DownloadResult::Missing ==> recorded_files(files, result, filename, session, set).last()
            == (filename, session, set),
        forall|i: int| 0 <= i < files.len() ==> #[trigger] recorded_files(files, result, filename, session, set)[i] == files[i],
{
}

} // verus!
