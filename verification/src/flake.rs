//! Checking a Nix flake for lock-file updates, as a sequence of steps.
//!
//! The check never touches the project's own `flake.lock`: the caller runs
//! `nix flake update` with a separate output lock file and compares the two.
//! Each step says what the caller has to do next; the caller does it and
//! hands the outcome to the step's method, until the check is done.
use vstd::prelude::*;
use crate::scan::at_or_below;
use crate::text::{
    decimal, file_name, hexadecimal, join_path, lemma_file_name_of_join, no_separator, opt_view,
    path_join,
    push_decimal, push_hexadecimal, trim, trim_text, views,
};

verus! {

/// What the report says of one flake.
pub struct FlakeStatus {
    /// Where the flake is.
    pub path: String,
    /// Whether it has a `flake.lock`.
    pub has_lock_file: bool,
    /// Whether an update would change the lock file; `None` when that could
    /// not be found out.
    pub updates_available: Option<bool>,
    /// What the check has to say, if anything.
    pub update_output: Option<String>,
}

/// A `FlakeStatus` as plain values.
pub struct FlakeStatusView {
    pub path: Seq<char>,
    pub has_lock_file: bool,
    pub updates_available: Option<bool>,
    pub update_output: Option<Seq<char>>,
}

impl View for FlakeStatus {
    type V = FlakeStatusView;

    open spec fn view(&self) -> FlakeStatusView {
        FlakeStatusView {
            path: self.path@,
            has_lock_file: self.has_lock_file,
            updates_available: self.updates_available,
            update_output: opt_view(self.update_output),
        }
    }
}

/// How a `nix flake update` run ended.
pub struct UpdateOutput {
    /// Whether it exited successfully.
    pub success: bool,
    /// Its exit status as the system describes it.
    pub status: String,
    /// What it wrote to standard output.
    pub stdout: String,
    /// What it wrote to standard error.
    pub stderr: String,
}

/// The path of the flake's own lock file.
pub open spec fn flake_lock(flake: Seq<char>) -> Seq<char> {
    path_join(flake, "flake.lock"@)
}

/// The file name of the lock file an update writes: made of the process id,
/// a hash of the flake's path and a time stamp, so that checks of different
/// flakes, or of one flake at different times, do not share it.
pub open spec fn lock_name(pid: nat, path_hash: nat, timestamp: nat) -> Seq<char> {
    "zinc_oxide-flake-lock-"@ + decimal(pid) + "-"@ + hexadecimal(path_hash) + "-"@ + decimal(
        timestamp,
    ) + ".lock"@
}

/// The path of the lock file of the flake at `flake`.
pub fn flake_lock_path(flake: &str) -> (r: String)
    ensures
        r@ == flake_lock(flake@),
{
    join_path(flake, "flake.lock")
}

/// Where the update writes its lock file: in the temporary directory
/// `temp_dir`, never inside the flake.
pub open spec fn generated_lock(temp_dir: Seq<char>, pid: nat, path_hash: nat, timestamp: nat) -> Seq<char> {
    path_join(temp_dir, lock_name(pid, path_hash, timestamp))
}

/// The command line of the update: `nix flake update` on the flake, with
/// the resulting lock file written to `output` instead of the flake's own.
pub open spec fn update_command(flake: Seq<char>, output: Seq<char>) -> Seq<Seq<char>> {
    seq!["nix"@, "flake"@, "update"@, "--flake"@, flake, "--output-lock-file"@, output]
}

/// What a finished check says fits together: it is about `flake`, it has a
/// verdict only if the flake has a lock file, and it has a note exactly when
/// the flake has a lock file.
pub open spec fn status_consistent(s: FlakeStatusView, flake: Seq<char>) -> bool {
    &&& s.path == flake
    &&& s.updates_available is Some ==> s.has_lock_file
    &&& s.update_output is Some <==> s.has_lock_file
}

/// The check waits for the contents of the flake's `flake.lock`.
pub struct LockPending {
    path: String,
    output_lock: String,
}

/// The check waits for `nix flake update` to run into a separate lock file.
pub struct UpdatePending {
    path: String,
    old_content: String,
    output_lock: String,
}

/// The check waits for the contents of the lock file the update wrote.
pub struct GeneratedPending {
    path: String,
    old_content: String,
    output: String,
    output_lock: String,
}

impl LockPending {
    /// The flake being checked.
    pub closed spec fn flake(&self) -> Seq<char> {
        self.path@
    }

    /// Where the update is to write its lock file.
    pub closed spec fn output_lock(&self) -> Seq<char> {
        self.output_lock@
    }

    /// The flake being checked.
    pub fn path(&self) -> (r: &String)
        ensures
            r@ == self.flake(),
    {
        &self.path
    }

    /// The file to read: the flake's own lock file.
    pub fn lock_path(&self) -> (r: String)
        ensures
            r@ == flake_lock(self.flake()),
    {
        flake_lock_path(self.path.as_str())
    }
}

impl UpdatePending {
    /// The flake being checked.
    pub closed spec fn flake(&self) -> Seq<char> {
        self.path@
    }

    /// The contents of the flake's `flake.lock`.
    pub closed spec fn old_lock(&self) -> Seq<char> {
        self.old_content@
    }

    /// Where the update is to write its lock file.
    pub closed spec fn output_lock(&self) -> Seq<char> {
        self.output_lock@
    }

    /// The flake being checked.
    pub fn path(&self) -> (r: &String)
        ensures
            r@ == self.flake(),
    {
        &self.path
    }

    /// The command to run, program first.
    pub fn command(&self) -> (r: Vec<String>)
        ensures
            views(r@) == update_command(self.flake(), self.output_lock()),
    {
        let mut r: Vec<String> = Vec::new();
        r.push(String::from_str("nix"));
        r.push(String::from_str("flake"));
        r.push(String::from_str("update"));
        r.push(String::from_str("--flake"));
        r.push(self.path.clone());
        r.push(String::from_str("--output-lock-file"));
        r.push(self.output_lock.clone());
        assert(views(r@) =~= update_command(self.flake(), self.output_lock()));
        r
    }
}

impl GeneratedPending {
    /// The flake being checked.
    pub closed spec fn flake(&self) -> Seq<char> {
        self.path@
    }

    /// The contents of the flake's `flake.lock`.
    pub closed spec fn old_lock(&self) -> Seq<char> {
        self.old_content@
    }

    /// What the update printed, standard output then standard error.
    pub closed spec fn printed(&self) -> Seq<char> {
        self.output@
    }

    /// Where the update wrote its lock file.
    pub closed spec fn output_lock(&self) -> Seq<char> {
        self.output_lock@
    }

    /// The flake being checked.
    pub fn path(&self) -> (r: &String)
        ensures
            r@ == self.flake(),
    {
        &self.path
    }

    /// The file to read: the lock file the update wrote.
    pub fn output_path(&self) -> (r: &String)
        ensures
            r@ == self.output_lock(),
    {
        &self.output_lock
    }
}

/// What the caller does next.
pub enum FlakeStep {
    /// Read the flake's `flake.lock` (`LockPending::lock_path`), then call
    /// `LockPending::lock_read`.
    ReadLock(LockPending),
    /// Run `UpdatePending::command`, then call `UpdatePending::update_finished`.
    RunUpdate(UpdatePending),
    /// Read the lock file the update wrote (`GeneratedPending::output_path`),
    /// then call `GeneratedPending::generated_read`.
    ReadGenerated(GeneratedPending),
    /// The check is over; the file named, if any, is the lock file the update
    /// was told to write, and is to be removed.
    Done(FlakeStatus, Option<String>),
}

/// A report with no verdict on updates.
pub open spec fn undecided(path: Seq<char>, has_lock_file: bool, output: Option<Seq<char>>) -> FlakeStatusView {
    FlakeStatusView { path, has_lock_file, updates_available: None, update_output: output }
}

/// What a failed update run is reported with: what it printed, trimmed, or
/// its exit status when it printed nothing but whitespace.
pub open spec fn failure_text(printed: Seq<char>, status: Seq<char>) -> Seq<char> {
    if trim(printed).len() == 0 {
        "nix command failed with status "@ + status
    } else {
        trim(printed)
    }
}

/// What a successful update is reported with: whether the generated lock
/// file differs from the flake's, and the note that goes with it.
pub open spec fn comparison(path: Seq<char>, old: Seq<char>, new: Seq<char>, printed: Seq<char>) -> FlakeStatusView {
    if old != new {
        FlakeStatusView {
            path,
            has_lock_file: true,
            updates_available: Some(true),
            update_output: Some(
                if trim(printed).len() == 0 {
                    "Lock file differs after update"@
                } else {
                    trim(printed)
                },
            ),
        }
    } else {
        FlakeStatusView {
            path,
            has_lock_file: true,
            updates_available: Some(false),
            update_output: Some("No updates available"@),
        }
    }
}

/// `prefix` followed by `rest`.
fn joined(prefix: &str, rest: &str) -> (r: String)
    ensures
        r@ == prefix@ + rest@,
{
    let mut r = String::from_str(prefix);
    r.append(rest);
    r
}

/// The file name of the lock file an update writes.
pub fn lock_file_name(pid: u32, path_hash: u64, timestamp: u128) -> (r: String)
    ensures
        r@ == lock_name(pid as nat, path_hash as nat, timestamp as nat),
{
    let mut r = String::from_str("zinc_oxide-flake-lock-");
    push_decimal(&mut r, pid as u128);
    r.append("-");
    push_hexadecimal(&mut r, path_hash);
    r.append("-");
    push_decimal(&mut r, timestamp);
    r.append(".lock");
    r
}

/// Starts the check of the flake at `path`; `has_lock_file` says whether it
/// has a `flake.lock`.  Without one there is nothing to compare, and the
/// check is over at once.  With one, the update is to write its lock file
/// into `temp_dir`, under a name made of `pid`, `path_hash` and `timestamp`.
pub fn begin_flake_check(
    path: String,
    has_lock_file: bool,
    temp_dir: &str,
    pid: u32,
    path_hash: u64,
    timestamp: u128,
) -> (r: FlakeStep)
    ensures
        !has_lock_file ==> (r matches FlakeStep::Done(s, cleanup) && s@ == undecided(
            path@,
            false,
            None,
        ) && cleanup is None && status_consistent(s@, path@)),
        has_lock_file ==> (r matches FlakeStep::ReadLock(p) && p.flake() == path@ && p.output_lock()
            == generated_lock(temp_dir@, pid as nat, path_hash as nat, timestamp as nat)),
{
    if !has_lock_file {
        FlakeStep::Done(
            FlakeStatus { path, has_lock_file: false, updates_available: None, update_output: None },
            None,
        )
    } else {
        let name = lock_file_name(pid, path_hash, timestamp);
        let output_lock = join_path(temp_dir, name.as_str());
        FlakeStep::ReadLock(LockPending { path, output_lock })
    }
}

impl LockPending {
    /// Continues with the contents of `flake.lock`, or the reason it could
    /// not be read.
    pub fn lock_read(self, content: Result<String, String>) -> (r: FlakeStep)
        ensures
            match content {
                Ok(c) => r matches FlakeStep::RunUpdate(p) && p.flake() == self.flake()
                    && p.old_lock() == c@ && p.output_lock() == self.output_lock(),
                Err(e) => r matches FlakeStep::Done(s, cleanup) && s@ == undecided(
                    self.flake(),
                    true,
                    Some("Failed to read lock file: "@ + e@),
                ) && cleanup is None && status_consistent(s@, self.flake()),
            },
    {
        match content {
            Ok(c) => FlakeStep::RunUpdate(
                UpdatePending { path: self.path, old_content: c, output_lock: self.output_lock },
            ),
            Err(e) => {
                let msg = joined("Failed to read lock file: ", e.as_str());
                FlakeStep::Done(
                    FlakeStatus {
                        path: self.path,
                        has_lock_file: true,
                        updates_available: None,
                        update_output: Some(msg),
                    },
                    None,
                )
            },
        }
    }
}

impl UpdatePending {
    /// Continues with how the update ended, or the reason it could not be
    /// run.  A failed run ends the check; a successful one leads to reading
    /// the lock file it wrote.  Once the update was tried, the check ends by
    /// having that file removed.
    pub fn update_finished(self, outcome: Result<UpdateOutput, String>) -> (r: FlakeStep)
        ensures
            match outcome {
                Err(e) => r matches FlakeStep::Done(s, cleanup) && s@ == undecided(
                    self.flake(),
                    true,
                    Some("nix command failed: "@ + e@),
                ) && opt_view(cleanup) == Some(self.output_lock()) && status_consistent(
                    s@,
                    self.flake(),
                ),
                Ok(o) => if o.success {
                    r matches FlakeStep::ReadGenerated(p) && p.flake() == self.flake()
                        && p.old_lock() == self.old_lock() && p.printed() == o.stdout@
                        + o.stderr@ && p.output_lock() == self.output_lock()
                } else {
                    r matches FlakeStep::Done(s, cleanup) && s@ == undecided(
                        self.flake(),
                        true,
                        Some(failure_text(o.stdout@ + o.stderr@, o.status@)),
                    ) && opt_view(cleanup) == Some(self.output_lock()) && status_consistent(
                        s@,
                        self.flake(),
                    )
                },
            },
    {
        match outcome {
            Err(e) => {
                let msg = joined("nix command failed: ", e.as_str());
                FlakeStep::Done(
                    FlakeStatus {
                        path: self.path,
                        has_lock_file: true,
                        updates_available: None,
                        update_output: Some(msg),
                    },
                    Some(self.output_lock),
                )
            },
            Ok(o) => {
                let printed = joined(o.stdout.as_str(), o.stderr.as_str());
                if o.success {
                    FlakeStep::ReadGenerated(
                        GeneratedPending {
                            path: self.path,
                            old_content: self.old_content,
                            output: printed,
                            output_lock: self.output_lock,
                        },
                    )
                } else {
                    let trimmed = trim_text(printed.as_str());
                    let msg = if trimmed.as_str().unicode_len() == 0 {
                        joined("nix command failed with status ", o.status.as_str())
                    } else {
                        trimmed
                    };
                    FlakeStep::Done(
                        FlakeStatus {
                            path: self.path,
                            has_lock_file: true,
                            updates_available: None,
                            update_output: Some(msg),
                        },
                        Some(self.output_lock),
                    )
                }
            },
        }
    }
}

impl GeneratedPending {
    /// Finishes with the contents of the lock file the update wrote, or the
    /// reason it could not be read; that file is then to be removed.
    pub fn generated_read(self, content: Result<String, String>) -> (r: FlakeStep)
        ensures
            r matches FlakeStep::Done(s, cleanup) && opt_view(cleanup) == Some(self.output_lock()) && status_consistent(s@, self.flake()) && match content {
                Ok(c) => s@ == comparison(self.flake(), self.old_lock(), c@, self.printed()),
                Err(e) => s@ == undecided(
                    self.flake(),
                    true,
                    Some("Failed to read generated lock file: "@ + e@),
                ),
            },
    {
        let status = match content {
            Err(e) => {
                let msg = joined("Failed to read generated lock file: ", e.as_str());
                FlakeStatus {
                    path: self.path,
                    has_lock_file: true,
                    updates_available: None,
                    update_output: Some(msg),
                }
            },
            Ok(c) => {
                let has_updates = !(self.old_content == c);
                let msg = if has_updates {
                    let trimmed = trim_text(self.output.as_str());
                    if trimmed.as_str().unicode_len() == 0 {
                        String::from_str("Lock file differs after update")
                    } else {
                        trimmed
                    }
                } else {
                    String::from_str("No updates available")
                };
                FlakeStatus {
                    path: self.path,
                    has_lock_file: true,
                    updates_available: Some(has_updates),
                    update_output: Some(msg),
                }
            },
        };
        FlakeStep::Done(status, Some(self.output_lock))
    }
}

/// How many of `flakes` have updates available.
pub open spec fn updatable_count(flakes: Seq<FlakeStatus>) -> nat
    decreases flakes.len(),
{
    if flakes.len() == 0 {
        0
    } else {
        updatable_count(flakes.drop_last()) + if flakes.last().updates_available == Some(true) {
            1nat
        } else {
            0nat
        }
    }
}

/// How many of `flakes` have updates available.
pub fn count_updatable(flakes: &Vec<FlakeStatus>) -> (r: usize)
    ensures
        r == updatable_count(flakes@),
{
    let mut c: usize = 0;
    let mut i: usize = 0;
    while i < flakes.len()
        invariant
            i <= flakes.len(),
            c == updatable_count(flakes@.take(i as int)),
            c <= i,
        decreases flakes.len() - i,
    {
        assert(flakes@.take(i + 1).drop_last() =~= flakes@.take(i as int));
        let available = match flakes[i].updates_available {
            Some(b) => b,
            None => false,
        };
        if available {
            c = c + 1;
        }
        i = i + 1;
    }
    assert(flakes@.take(flakes.len() as int) =~= flakes@);
    c
}

/// Every digit is free of separators.
proof fn lemma_digits_no_separator(n: nat, hex: bool)
    ensures
        hex ==> no_separator(hexadecimal(n)),
        !hex ==> no_separator(decimal(n)),
    decreases n,
{
    reveal_strlit("0123456789abcdef");
    if hex && n >= 16 {
        lemma_digits_no_separator(n / 16, hex);
    }
    if !hex && n >= 10 {
        lemma_digits_no_separator(n / 10, hex);
    }
}

/// The update's lock file lies directly in the temporary directory, is named
/// by `lock_name`, and is never the flake's own lock file: the check leaves
/// the flake's `flake.lock` as it is.
pub proof fn lemma_generated_lock_placement(
    temp_dir: Seq<char>,
    flake: Seq<char>,
    pid: nat,
    path_hash: nat,
    timestamp: nat,
)
    ensures
        generated_lock(temp_dir, pid, path_hash, timestamp).subrange(0, temp_dir.len() as int)
            == temp_dir,
        file_name(generated_lock(temp_dir, pid, path_hash, timestamp)) == lock_name(
            pid,
            path_hash,
            timestamp,
        ),
        lock_name(pid, path_hash, timestamp) != "flake.lock"@,
        generated_lock(temp_dir, pid, path_hash, timestamp) != flake_lock(flake),
{
    reveal_strlit("zinc_oxide-flake-lock-");
    reveal_strlit("-");
    reveal_strlit(".lock");
    reveal_strlit("flake.lock");
    let name = lock_name(pid, path_hash, timestamp);
    lemma_digits_no_separator(pid, false);
    lemma_digits_no_separator(path_hash, true);
    lemma_digits_no_separator(timestamp, false);
    assert(no_separator(name));
    assert(no_separator("flake.lock"@));
    lemma_file_name_of_join(temp_dir, name);
    lemma_file_name_of_join(flake, "flake.lock"@);
    assert(name.len() >= 22);
    assert("flake.lock"@.len() == 10);
    let g = generated_lock(temp_dir, pid, path_hash, timestamp);
    assert(g.subrange(0, temp_dir.len() as int) =~= temp_dir);
}

/// The name of the update's lock file is non-empty and holds no separator.
proof fn lemma_lock_name_is_plain(pid: nat, path_hash: nat, timestamp: nat)
    ensures
        lock_name(pid, path_hash, timestamp).len() > 0,
        no_separator(lock_name(pid, path_hash, timestamp)),
{
    reveal_strlit("zinc_oxide-flake-lock-");
    reveal_strlit("-");
    reveal_strlit(".lock");
    lemma_digits_no_separator(pid, false);
    lemma_digits_no_separator(path_hash, true);
    lemma_digits_no_separator(timestamp, false);
}

/// The update's lock file never lies in the flake's directory or below it,
/// as long as the temporary directory does not (and the flake's path, not
/// ending in a separator, is not the generated file's path itself).
pub proof fn lemma_generated_lock_outside_flake(
    temp_dir: Seq<char>,
    flake: Seq<char>,
    pid: nat,
    path_hash: nat,
    timestamp: nat,
)
    requires
        !at_or_below(flake, temp_dir),
        !(flake.len() > 1 && flake.last() == '/'),
        flake != generated_lock(temp_dir, pid, path_hash, timestamp),
    ensures
        !at_or_below(flake, generated_lock(temp_dir, pid, path_hash, timestamp)),
{
    let name = lock_name(pid, path_hash, timestamp);
    lemma_lock_name_is_plain(pid, path_hash, timestamp);
    let g = generated_lock(temp_dir, pid, path_hash, timestamp);
    let base = if temp_dir.len() == 0 || temp_dir.last() == '/' {
        temp_dir
    } else {
        temp_dir + seq!['/']
    };
    assert(g == base + name);
    let fl = flake.len() as int;
    let tl = temp_dir.len() as int;
    if at_or_below(flake, g) {
        assert(g.len() > fl);
        assert(g.subrange(0, fl) == flake);
        assert forall|k: int| 0 <= k < tl implies g[k] == temp_dir[k] by {
            assert(base[k] == temp_dir[k]);
        }
        assert forall|k: int| 0 <= k < name.len() implies g[base.len() + k] == name[k] by {}
        if fl == 0 {
            if tl == 0 {
                assert(temp_dir =~= flake);
            } else {
                assert(temp_dir.subrange(0, 0) =~= flake);
            }
        } else if fl < tl {
            assert forall|k: int| 0 <= k < fl implies temp_dir[k] == flake[k] by {
                assert(g.subrange(0, fl)[k] == g[k]);
            }
            assert(temp_dir.subrange(0, fl) =~= flake);
            assert(flake.last() == flake[fl - 1]);
        } else if fl == tl {
            assert forall|k: int| 0 <= k < fl implies temp_dir[k] == flake[k] by {
                assert(g.subrange(0, fl)[k] == g[k]);
            }
            assert(temp_dir =~= flake);
        } else if fl == base.len() {
            assert(base != temp_dir);
            assert(flake.last() == g[fl - 1]);
            assert(g[fl - 1] == '/');
        } else {
            assert(flake.last() == g[fl - 1]);
            assert(g[fl - 1] == name[fl - 1 - base.len()]);
            if g.len() > fl {
                assert(g[fl] == name[fl - base.len()]);
            }
        }
    }
}

/// A successful check reports updates exactly when the lock file the update
/// wrote differs, anywhere in its contents, from the flake's own; with no
/// difference it says so.
pub proof fn lemma_comparison_verdict(
    path: Seq<char>,
    old: Seq<char>,
    new: Seq<char>,
    printed: Seq<char>,
)
    ensures
        comparison(path, old, new, printed).updates_available == Some(old != new),
        comparison(path, old, new, printed).has_lock_file,
        comparison(path, old, new, printed).path == path,
        comparison(path, old, new, printed).update_output is Some,
        old == new ==> comparison(path, old, new, printed).update_output == Some(
            "No updates available"@,
        ),
        (exists|k: int| 0 <= k < old.len() && 0 <= k < new.len() && old[k] != new[k]) ==> comparison(
            path,
            old,
            new,
            printed,
        ).updates_available == Some(true),
        old.len() != new.len() ==> comparison(path, old, new, printed).updates_available == Some(
            true,
        ),
{
}

/// The compact count of flakes with updates is the number of flakes whose
/// check found updates; a flake without a verdict, or without a lock file,
/// never adds to it.
pub proof fn lemma_updatable_count_counts(flakes: Seq<FlakeStatus>)
    ensures
        updatable_count(flakes) == flakes.filter(
            |f: FlakeStatus| f.updates_available == Some(true),
        ).len(),
    decreases flakes.len(),
{
    reveal(Seq::filter);
    if flakes.len() > 0 {
        lemma_updatable_count_counts(flakes.drop_last());
    }
}

} // verus!
