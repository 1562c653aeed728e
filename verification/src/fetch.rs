//! Fetching received files from the mail server over SSH: the commands
//! sent, how their output is read, and the tally of what happened.
use vstd::prelude::*;
use crate::text::{
    chars_of, concat3, same_text, trim, trim_chars, split_lines, lines, texts, is_suffix_of,
    ends_with, string_from_chars,
};

verus! {

/// Refuses SSH settings that lack a host or a user name.
pub fn check_ssh_settings(host: &str, username: &str) -> (r: Result<(), &'static str>)
    ensures
        r is Ok <==> (host@.len() > 0 && username@.len() > 0),
        r matches Err(e) ==> e@ == "Username and host are required in nymx.json"@,
{
    if host.is_empty() || username.is_empty() {
        return Err("Username and host are required in nymx.json");
    }
    Ok(())
}

/// The directory on the server where the received files of `username` lie.
pub fn remote_received_dir(username: &str) -> (dir: String)
    ensures
        dir@ == "/home/"@ + username@ + "/received"@,
{
    concat3("/home/", username, "/received")
}

/// The command that prints `exists` when `remote_dir` is a directory.
pub fn dir_check_command(remote_dir: &str) -> (cmd: String)
    ensures
        cmd@ == "test -d "@ + remote_dir@ + " && echo 'exists' || echo 'not'"@,
{
    concat3("test -d ", remote_dir, " && echo 'exists' || echo 'not'")
}

/// The command that lists the files under `remote_path` that some process
/// holds open.
pub fn in_use_command(remote_path: &str) -> (cmd: String)
    ensures
        cmd@ == "lsof +D "@ + remote_path@ + " | awk 'NR >1 {print $9}' | sort -u"@,
{
    concat3("lsof +D ", remote_path, " | awk 'NR >1 {print $9}' | sort -u")
}

/// The command that lists the names of the regular files in `remote_path`,
/// one per line.
pub fn list_files_command(remote_path: &str) -> (cmd: String)
    ensures
        cmd@ == "find "@ + remote_path@ + " -maxdepth 1 -type f -printf '%f\n'"@,
{
    concat3("find ", remote_path, " -maxdepth 1 -type f -printf '%f\n'")
}

/// The command that deletes `remote_path`.
pub fn delete_command(remote_path: &str) -> (cmd: String)
    ensures
        cmd@ == "rm -f "@ + remote_path@ + ""@,
{
    concat3("rm -f ", remote_path, "")
}

/// The path of file `filename` in directory `dir`.
pub fn remote_file_path(dir: &str, filename: &str) -> (path: String)
    ensures
        path@ == dir@ + "/"@ + filename@,
{
    concat3(dir, "/", filename)
}

/// Whether the output of the directory check says that it exists.
pub fn dir_exists(output: &str) -> (b: bool)
    ensures
        b == (trim(output@) == "exists"@),
{
    let c = chars_of(output);
    let t = trim_chars(c.as_slice());
    let text = string_from_chars(t.as_slice());
    same_text(text.as_str(), "exists")
}

/// A line of `lsof` output that names an open file.
pub open spec fn is_path_line(line: Seq<char>) -> bool {
    line.len() > 0 && line[0] == '/'
}

/// A line of `find` output that names a file.
pub open spec fn is_name_line(line: Seq<char>) -> bool {
    line.len() > 0
}

/// The names that `find`'s `output` lists: its lines that name a file.
pub open spec fn listed_names(output: Seq<char>) -> Seq<Seq<char>> {
    lines(output).filter(|m: Seq<char>| is_name_line(m))
}

/// The files listed from `find`'s output are exactly its non-empty lines,
/// whatever their length: every non-empty line is listed, and every listed
/// name is a non-empty line of the output.
pub proof fn lemma_file_list_is_nonempty_lines(output: Seq<char>)
    ensures
        forall|l: Seq<char>|
            lines(output).contains(l) && l.len() > 0 ==> #[trigger] listed_names(output).contains(l),
        forall|l: Seq<char>|
            #[trigger] listed_names(output).contains(l) ==> lines(output).contains(l) && l.len() > 0,
{
    let all = lines(output);
    let pred = |m: Seq<char>| is_name_line(m);
    assert(listed_names(output) == all.filter(pred));
    assert forall|l: Seq<char>| all.contains(l) && l.len() > 0 implies #[trigger] listed_names(
        output,
    ).contains(l) by {
        let k = choose|k: int| 0 <= k < all.len() && all[k] == l;
        assert(pred(all[k]));
        all.lemma_filter_contains(pred, k);
    }
    assert forall|l: Seq<char>| #[trigger] listed_names(output).contains(l) implies all.contains(l)
        && l.len() > 0 by {
        let k = choose|k: int| 0 <= k < all.filter(pred).len() && all.filter(pred)[k] == l;
        all.lemma_filter_pred(pred, k);
        all.lemma_filter_contains_rev(pred, l);
    }
}

/// The names of the files that `find` listed, in its order.
pub fn parse_file_list(output: &str) -> (files: Vec<String>)
    ensures
        texts(files@) == lines(output@).filter(|l: Seq<char>| is_name_line(l)),
        forall|l: Seq<char>|
            lines(output@).contains(l) && l.len() > 0 ==> #[trigger] texts(files@).contains(l),
        forall|l: Seq<char>|
            #[trigger] texts(files@).contains(l) ==> lines(output@).contains(l) && l.len() > 0,
{
    proof {
        lemma_file_list_is_nonempty_lines(output@);
    }
    let all = split_lines(output);
    let ghost src = texts(all@);
    let ghost pred = |l: Seq<char>| is_name_line(l);
    let mut files: Vec<String> = Vec::new();
    let n: usize = all.len();
    let mut k: usize = 0;
    assert(src.subrange(0, 0).filter(pred) == Seq::<Seq<char>>::empty());
    while k < n
        invariant
            n == all@.len(),
            src == texts(all@),
            k <= n,
            texts(files@) == src.subrange(0, k as int).filter(pred),
            pred == (|l: Seq<char>| is_name_line(l)),
        decreases n - k,
    {
        assert(src.subrange(0, k + 1) == src.subrange(0, k as int).push(src[k as int]));
        proof {
            src.subrange(0, k as int).lemma_filter_push(src[k as int], pred);
        }
        if !all[k].as_str().is_empty() {
            let ghost before = files@;
            let line = all[k].clone();
            files.push(line);
            assert(texts(files@) == texts(before).push(src[k as int]));
        }
        k = k + 1;
    }
    assert(src.subrange(0, n as int) == src);
    assert(texts(files@) == listed_names(output@));
    files
}

/// Whether `texts` holds `t`.
pub open spec fn holds_text(v: Seq<String>, t: Seq<char>) -> bool {
    exists|k: int| 0 <= k < v.len() && v[k]@ == t
}

/// The distinct paths of open files that `lsof` listed: every line that
/// starts with `/`, each once.
pub fn parse_in_use_files(output: &str) -> (paths: Vec<String>)
    ensures
        forall|t: Seq<char>|
            #![trigger holds_text(paths@, t)]
            holds_text(paths@, t) <==> (lines(output@).contains(t) && is_path_line(t)),
        forall|a: int, b: int| 0 <= a < b < paths@.len() ==> paths@[a]@ != paths@[b]@,
{
    let all = split_lines(output);
    let ghost src = texts(all@);
    let mut paths: Vec<String> = Vec::new();
    let n: usize = all.len();
    let mut k: usize = 0;
    while k < n
        invariant
            n == all@.len(),
            src == texts(all@),
            src == lines(output@),
            k <= n,
            forall|t: Seq<char>|
                #![trigger holds_text(paths@, t)]
                holds_text(paths@, t) <==> (exists|m: int| 0 <= m < k && src[m] == t)
                    && is_path_line(t),
            forall|a: int, b: int| 0 <= a < b < paths@.len() ==> paths@[a]@ != paths@[b]@,
        decreases n - k,
    {
        let line = &all[k];
        assert(line@ == src[k as int]);
        let is_path = starts_with_slash(line.as_str());
        let seen = contains_text(&paths, line.as_str());
        let ghost before = paths@;
        if is_path && !seen {
            paths.push(line.clone());
        }
        assert forall|t: Seq<char>|
            #![trigger holds_text(paths@, t)]
            holds_text(paths@, t) <==> (exists|m: int| 0 <= m < k + 1 && src[m] == t)
                && is_path_line(t) by {
            assert(holds_text(before, t) <==> (exists|m: int| 0 <= m < k && src[m] == t)
                && is_path_line(t));
            if holds_text(paths@, t) {
                let a = choose|a: int| 0 <= a < paths@.len() && paths@[a]@ == t;
                if a < before.len() {
                    assert(holds_text(before, t));
                    let m = choose|m: int| 0 <= m < k && src[m] == t;
                    assert(0 <= m < k + 1 && src[m] == t);
                } else {
                    assert(t == line@);
                    assert(src[k as int] == t);
                }
            }
            if (exists|m: int| 0 <= m < k + 1 && src[m] == t) && is_path_line(t) {
                let m = choose|m: int| 0 <= m < k + 1 && src[m] == t;
                if m < k {
                    assert(holds_text(before, t));
                    let a = choose|a: int| 0 <= a < before.len() && before[a]@ == t;
                    assert(paths@[a]@ == t);
                } else {
                    assert(t == line@);
                    if seen {
                        let a = choose|a: int| 0 <= a < before.len() && before[a]@ == t;
                        assert(paths@[a]@ == t);
                    } else {
                        assert(paths@[paths@.len() - 1]@ == t);
                    }
                }
            }
        }
        assert forall|a: int, b: int| 0 <= a < b < paths@.len() implies paths@[a]@
            != paths@[b]@ by {
            if b == before.len() {
                assert(!holds_text(before, line@));
                assert(before[a]@ != line@);
            }
        }
        k = k + 1;
    }
    assert forall|t: Seq<char>|
        #![trigger holds_text(paths@, t)]
        holds_text(paths@, t) <==> (lines(output@).contains(t) && is_path_line(t)) by {
        assert(holds_text(paths@, t) <==> (exists|m: int| 0 <= m < n && src[m] == t)
            && is_path_line(t));
        if lines(output@).contains(t) {
            let m = choose|m: int| 0 <= m < src.len() && src[m] == t;
            assert(0 <= m < n && src[m] == t);
        }
        if holds_text(paths@, t) {
            let m = choose|m: int| 0 <= m < n && src[m] == t;
            assert(src.contains(t));
        }
    }
    paths
}

fn starts_with_slash(s: &str) -> (b: bool)
    ensures
        b == (s@.len() > 0 && s@[0] == '/'),
{
    let c = chars_of(s);
    c.len() > 0 && c[0] == '/'
}

/// Whether `v` holds the text `t`.
pub fn contains_text(v: &Vec<String>, t: &str) -> (b: bool)
    ensures
        b == holds_text(v@, t@),
{
    let n: usize = v.len();
    let mut k: usize = 0;
    while k < n
        invariant
            n == v@.len(),
            k <= n,
            forall|m: int| 0 <= m < k ==> v@[m]@ != t@,
        decreases n - k,
    {
        if same_text(v[k].as_str(), t) {
            return true;
        }
        k = k + 1;
    }
    false
}

/// Whether some open file's path ends with `filename`.
pub fn is_in_use(in_use: &Vec<String>, filename: &str) -> (b: bool)
    ensures
        b == exists|k: int| 0 <= k < in_use@.len() && is_suffix_of(filename@, in_use@[k]@),
{
    let name = chars_of(filename);
    let n: usize = in_use.len();
    let mut k: usize = 0;
    while k < n
        invariant
            n == in_use@.len(),
            name@ == filename@,
            k <= n,
            forall|m: int| 0 <= m < k ==> !is_suffix_of(filename@, #[trigger] in_use@[m]@),
        decreases n - k,
    {
        let path = chars_of(in_use[k].as_str());
        if ends_with(path.as_slice(), name.as_slice()) {
            return true;
        }
        k = k + 1;
    }
    false
}

/// What became of one remote file.
pub enum FileOutcome {
    /// It was in use and left alone.
    Skipped,
    /// Its download failed.
    DownloadFailed,
    /// It was downloaded; then deleted from the server or not.
    Downloaded { deleted: bool },
}

/// The tally of a fetch.
pub struct FetchSummary {
    pub downloaded: usize,
    pub deleted: usize,
    pub failed: usize,
    pub skipped: usize,
}

impl FetchSummary {
    /// Files that the tally accounts for: skipped, downloaded, or failed in
    /// download (a failed deletion counts as a failure of a downloaded file).
    pub open spec fn files_seen(&self) -> int {
        self.skipped + self.downloaded + self.failed - (self.downloaded - self.deleted)
    }

    /// Every deletion follows a download, and every downloaded file that was
    /// not deleted counts as a failure.
    pub open spec fn consistent(&self) -> bool {
        self.deleted <= self.downloaded && self.downloaded - self.deleted <= self.failed
    }

    /// An empty tally.
    pub fn new() -> (s: Self)
        ensures
            s.downloaded == 0 && s.deleted == 0 && s.failed == 0 && s.skipped == 0,
            s.consistent(),
            s.files_seen() == 0,
    {
        FetchSummary { downloaded: 0, deleted: 0, failed: 0, skipped: 0 }
    }

    /// Counts the outcome of one more file.
    pub fn record(&mut self, outcome: FileOutcome)
        requires
            old(self).skipped + old(self).downloaded + old(self).deleted + old(self).failed + 2 <= usize::MAX,
        ensures
            final(self).skipped == old(self).skipped + (if outcome is Skipped { 1int } else { 0 }),
            final(self).downloaded == old(self).downloaded + (if outcome is Downloaded {
                1int
            } else {
                0
            }),
            final(self).deleted == old(self).deleted + (if outcome matches FileOutcome::Downloaded {
                deleted: true,
            } {
                1int
            } else {
                0
            }),
            final(self).failed == old(self).failed + (if outcome is DownloadFailed
                || outcome matches FileOutcome::Downloaded { deleted: false } {
                1int
            } else {
                0
            }),
            old(self).consistent() ==> final(self).consistent(),
            final(self).files_seen() == old(self).files_seen() + 1,
    {
        match outcome {
            FileOutcome::Skipped => {
                self.skipped = self.skipped + 1;
            },
            FileOutcome::DownloadFailed => {
                self.failed = self.failed + 1;
            },
            FileOutcome::Downloaded { deleted } => {
                self.downloaded = self.downloaded + 1;
                if deleted {
                    self.deleted = self.deleted + 1;
                } else {
                    self.failed = self.failed + 1;
                }
            },
        }
    }
}

} // verus!
