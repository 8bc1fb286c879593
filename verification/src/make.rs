//! Decisions of the safe-build orchestrator: whether watched files make a
//! rebuild necessary, whether an existing output may be overwritten, what
//! the backup is called, and how each outcome maps to an exit code. The
//! orchestrating loop itself performs the file reads and writes and hands
//! plain values in.

use vstd::prelude::*;

use crate::table::KeySet;

verus! {

/// How a build ends short of writing: nothing changed on disk, nothing
/// changed in content, or a fatal failure. The first two exit with one
/// distinct code, everything fatal with another, so calling scripts can
/// branch on the three outcomes.
#[derive(Debug)]
pub enum MakeError {
    /// No watched file is newer than the output; the rebuild is skipped.
    NoFilesChanged,
    /// The rendered text equals the existing output; nothing is written.
    NoChangeFromPrevious,
    /// Any fatal failure, with its report.
    Fatal(String),
}

impl MakeError {
    /// The human-readable report of this outcome.
    pub fn message(&self) -> (r: String)
        ensures
            self is NoFilesChanged ==> r@ == "No files have changed, skipping rebuild."@,
            self is NoChangeFromPrevious ==> r@ == "No change from previous version, exiting."@,
            self matches MakeError::Fatal(m) ==> r@ == m@,
    {
        match self {
            MakeError::NoFilesChanged => "No files have changed, skipping rebuild.".to_owned(),
            MakeError::NoChangeFromPrevious => {
                "No change from previous version, exiting.".to_owned()
            },
            MakeError::Fatal(m) => m.clone(),
        }
    }

    /// The process exit code of this outcome: the two no-op halts share
    /// one code, fatal failures another.
    pub fn exit_code(&self) -> (r: i32)
        ensures
            (self is NoFilesChanged || self is NoChangeFromPrevious) ==> r == 1,
            self is Fatal ==> r == 2,
    {
        match self {
            MakeError::NoFilesChanged => 1,
            MakeError::NoChangeFromPrevious => 1,
            MakeError::Fatal(_) => 2,
        }
    }
}

/// Whether any watched file's modification time is newer than the
/// output's: only then does a build with the change check proceed.
pub fn timestamps_newer_than(file_times: &Vec<u64>, out_time: u64) -> (r: bool)
    ensures
        r == exists|i: int| 0 <= i < file_times@.len() && file_times@[i] > out_time,
{
    let n = file_times.len();
    let mut i: usize = 0;
    while i < n
        invariant
            i <= n,
            n == file_times@.len(),
            forall|j: int| 0 <= j < i ==> file_times@[j] <= out_time,
        decreases n - i,
    {
        if file_times[i] > out_time {
            return true;
        }
        i = i + 1;
    }
    false
}

/// The watch set of a build: the configuration file, every file under the
/// template root, and every source file, each counted once.
#[verifier::loop_isolation(false)]
pub fn collect_file_list(
    cfg_file: &String,
    template_files: &Vec<String>,
    source_files: &Vec<String>,
) -> (r: KeySet)
    ensures
        r.well_formed(),
        forall|k: Seq<char>|
            r@.contains(k) <==> (k == cfg_file@ || (exists|i: int|
                0 <= i < template_files@.len() && (#[trigger] template_files@[i])@ == k) || (
            exists|i: int|
                0 <= i < source_files@.len() && (#[trigger] source_files@[i])@ == k)),
{
    let mut files = KeySet::new();
    files.insert(cfg_file.clone());
    let n1 = template_files.len();
    let mut i: usize = 0;
    while i < n1
        invariant
            i <= n1,
            files.well_formed(),
            forall|k: Seq<char>|
                files@.contains(k) <==> (k == cfg_file@ || (exists|j: int|
                    0 <= j < i && (#[trigger] template_files@[j])@ == k)),
        decreases n1 - i,
    {
        files.insert(template_files[i].clone());
        i = i + 1;
    }
    let n2 = source_files.len();
    let mut s: usize = 0;
    while s < n2
        invariant
            s <= n2,
            files.well_formed(),
            forall|k: Seq<char>|
                files@.contains(k) <==> (k == cfg_file@ || (exists|j: int|
                    0 <= j < template_files@.len() && (#[trigger] template_files@[j])@ == k) || (
                exists|j: int|
                    0 <= j < s && (#[trigger] source_files@[j])@ == k)),
        decreases n2 - s,
    {
        files.insert(source_files[s].clone());
        s = s + 1;
    }
    files
}

/// Relies on diffy::create_patch and Patch::hunks: the patch between two
/// texts has no hunks exactly when the texts are equal.
#[verifier::external_body]
fn texts_differ(old_text: &str, new_text: &str) -> (r: bool)
    ensures
        r == (old_text@ != new_text@),
{
    !diffy::create_patch(old_text, new_text).hunks().is_empty()
}

/// What to do about an existing output file.
#[derive(Debug, PartialEq, Eq, Structural)]
pub enum OverwriteDecision {
    /// The rendered text equals the existing output: halt, write nothing.
    NoChange,
    /// The texts differ and verification is on: show the diff and ask.
    AskFirst,
    /// The texts differ and verification is off: write.
    Overwrite,
}

/// Compares the rendered text against the decoded existing output. An
/// identical text halts the build; a differing one is written at once or
/// only after the operator confirms, as configured.
pub fn check_overwrite(old_text: &str, new_text: &str, verifycontent: bool) -> (r:
    OverwriteDecision)
    ensures
        r is NoChange <==> old_text@ == new_text@,
        r is AskFirst <==> old_text@ != new_text@ && verifycontent,
        r is Overwrite <==> old_text@ != new_text@ && !verifycontent,
{
    if !texts_differ(old_text, new_text) {
        OverwriteDecision::NoChange
    } else if verifycontent {
        OverwriteDecision::AskFirst
    } else {
        OverwriteDecision::Overwrite
    }
}

/// Where an existing output is moved before the new one is written: the
/// same path with `.bak` appended, which turns `name.ext` into
/// `name.ext.bak`. A prior backup at that path is overwritten.
pub fn backup_name(path: &str) -> (r: String)
    ensures
        r@ == path@ + ".bak"@,
{
    let mut out = path.to_owned();
    out.append(".bak");
    out
}

} // verus!
