//! The text of the report, line by line.
use vstd::prelude::*;
use crate::args::{flakes_enabled, Args};
use crate::flake::{count_updatable, updatable_count, FlakeStatus, FlakeStatusView};
use crate::repo::{count_dirty, dirty_count, RepoStatus, RepoStatusView};
use crate::text::{
    chars_of, contains_chars, decimal, has_substring, lines, push_decimal, split_lines, views,
};

verus! {

/// Each of `ls` indented by two spaces.
pub open spec fn indented(ls: Seq<Seq<char>>) -> Seq<Seq<char>>
    decreases ls.len(),
{
    if ls.len() == 0 {
        seq![]
    } else {
        indented(ls.drop_last()).push("  "@ + ls.last())
    }
}

/// A line that tells of an update.
pub open spec fn mentions_update(l: Seq<char>) -> bool {
    has_substring(l, "Updated"@) || has_substring(l, "updated"@)
}

/// The lines of `ls` that tell of an update, indented.
pub open spec fn update_lines_of(ls: Seq<Seq<char>>) -> Seq<Seq<char>>
    decreases ls.len(),
{
    if ls.len() == 0 {
        seq![]
    } else if mentions_update(ls.last()) {
        update_lines_of(ls.drop_last()).push("  "@ + ls.last())
    } else {
        update_lines_of(ls.drop_last())
    }
}

/// The report's lines for one repository.
pub open spec fn repo_lines(r: RepoStatusView, show_files: bool) -> Seq<Seq<char>> {
    seq!["\n--- Repository: "@ + r.path + " ---"@] + if r.uncommitted_count == 0 {
        seq!["No uncommitted files"@]
    } else {
        seq!["Found "@ + decimal(r.uncommitted_count) + " uncommitted files"@] + if show_files {
            indented(r.files)
        } else {
            seq![]
        }
    }
}

/// The report's lines for the repositories `rs`, one after the other.
pub open spec fn repos_lines(rs: Seq<RepoStatus>, show_files: bool) -> Seq<Seq<char>>
    decreases rs.len(),
{
    if rs.len() == 0 {
        seq![]
    } else {
        repos_lines(rs.drop_last(), show_files) + repo_lines(rs.last()@, show_files)
    }
}

/// The report's lines for one flake.
pub open spec fn flake_lines(f: FlakeStatusView, show_files: bool) -> Seq<Seq<char>> {
    seq!["\n--- Flake: "@ + f.path + " ---"@] + if !f.has_lock_file {
        seq!["No flake.lock file (needs initialization)"@]
    } else {
        match f.updates_available {
            Some(true) => seq!["Updates available!"@] + match f.update_output {
                Some(o) => if show_files {
                    update_lines_of(lines(o))
                } else {
                    seq![]
                },
                None => seq![],
            },
            Some(false) => seq!["No updates available"@],
            None => seq!["Unable to check for updates (nix command failed)"@],
        }
    }
}

/// The report's lines for the flakes `fs`, one after the other.
pub open spec fn flakes_lines(fs: Seq<FlakeStatus>, show_files: bool) -> Seq<Seq<char>>
    decreases fs.len(),
{
    if fs.len() == 0 {
        seq![]
    } else {
        flakes_lines(fs.drop_last(), show_files) + flake_lines(fs.last()@, show_files)
    }
}

/// The whole report.  Compact: one line of counts.  Otherwise: a header, the
/// repositories (or that there are none), and, when flakes were checked, an
/// empty line and the flakes (or that there are none).
pub open spec fn report(
    repos: Seq<RepoStatus>,
    flakes: Seq<FlakeStatus>,
    args: Args,
    search_path: Seq<char>,
    total_repos: nat,
    total_flakes: nat,
    version: Seq<char>,
) -> Seq<Seq<char>> {
    if args.compact && !args.flakes {
        seq![decimal(dirty_count(repos)) + " repos"@]
    } else if args.compact {
        seq![
            decimal(dirty_count(repos)) + " repos, "@ + decimal(updatable_count(flakes))
                + " flakes with updates"@,
        ]
    } else {
        seq!["zinc_oxide v"@ + version, "Searching for git repositories in: "@ + search_path]
            + if total_repos == 0 {
            seq!["No git repositories found."@]
        } else {
            seq!["Found "@ + decimal(total_repos) + " git repositories:"@] + repos_lines(
                repos,
                args.files,
            )
        } + if args.flakes {
            seq![Seq::<char>::empty()] + if total_flakes == 0 {
                seq!["No Nix flakes found."@]
            } else {
                seq!["Found "@ + decimal(total_flakes) + " Nix flakes:"@] + flakes_lines(
                    flakes,
                    args.files,
                )
            }
        } else {
            seq![]
        }
    }
}

/// Appends `line` to the report.
fn emit(out: &mut Vec<String>, line: String)
    ensures
        views(final(out)@) == views(old(out)@).push(line@),
{
    out.push(line);
    assert(views(out@) =~= views(old(out)@).push(line@));
}

/// `a`, the decimal digits of `n`, then `b`.
fn numbered(a: &str, n: usize, b: &str) -> (r: String)
    ensures
        r@ == a@ + decimal(n as nat) + b@,
{
    let mut r = String::from_str(a);
    push_decimal(&mut r, n as u128);
    r.append(b);
    r
}

/// `a`, `s`, then `b`.
fn framed(a: &str, s: &str, b: &str) -> (r: String)
    ensures
        r@ == a@ + s@ + b@,
{
    let mut r = String::from_str(a);
    r.append(s);
    r.append(b);
    r
}

/// `a` followed by `s`.
fn prefixed(a: &str, s: &str) -> (r: String)
    ensures
        r@ == a@ + s@,
{
    let mut r = String::from_str(a);
    r.append(s);
    r
}

/// The decimal digits of `n`, then `b`.
fn count_line(n: usize, b: &str) -> (r: String)
    ensures
        r@ == decimal(n as nat) + b@,
{
    let mut r = String::new();
    push_decimal(&mut r, n as u128);
    r.append(b);
    assert(r@ =~= decimal(n as nat) + b@);
    r
}

/// Appends the lines of `output` that tell of an update, indented.
fn emit_update_lines(out: &mut Vec<String>, output: &String)
    ensures
        views(final(out)@) == views(old(out)@) + update_lines_of(lines(output@)),
{
    let ls = split_lines(output.as_str());
    let upper = chars_of("Updated");
    let lower = chars_of("updated");
    let mut i: usize = 0;
    while i < ls.len()
        invariant
            i <= ls.len(),
            views(ls@) == lines(output@),
            upper@ == "Updated"@,
            lower@ == "updated"@,
            views(out@) == views(old(out)@) + update_lines_of(views(ls@).take(i as int)),
        decreases ls.len() - i,
    {
        let ghost before = views(out@);
        let cs = chars_of(ls[i].as_str());
        assert(views(ls@).take(i + 1).drop_last() =~= views(ls@).take(i as int));
        assert(views(ls@).take(i + 1).last() == ls[i as int]@);
        if contains_chars(&cs, &upper) || contains_chars(&cs, &lower) {
            emit(out, prefixed("  ", ls[i].as_str()));
            assert(views(out@) =~= views(old(out)@) + update_lines_of(views(ls@).take(i + 1)));
        }
        i = i + 1;
    }
    assert(views(ls@).take(ls.len() as int) =~= views(ls@));
}

/// Appends `files`, indented.
fn emit_indented(out: &mut Vec<String>, files: &Vec<String>)
    ensures
        views(final(out)@) == views(old(out)@) + indented(views(files@)),
{
    let mut i: usize = 0;
    while i < files.len()
        invariant
            i <= files.len(),
            views(out@) == views(old(out)@) + indented(views(files@).take(i as int)),
        decreases files.len() - i,
    {
        assert(views(files@).take(i + 1).drop_last() =~= views(files@).take(i as int));
        assert(views(files@).take(i + 1).last() == files[i as int]@);
        emit(out, prefixed("  ", files[i].as_str()));
        assert(views(out@) =~= views(old(out)@) + indented(views(files@).take(i + 1)));
        i = i + 1;
    }
    assert(views(files@).take(files.len() as int) =~= views(files@));
}

/// Appends the lines for one repository.
fn emit_repo(out: &mut Vec<String>, r: &RepoStatus, show_files: bool)
    ensures
        views(final(out)@) == views(old(out)@) + repo_lines(r@, show_files),
{
    emit(out, framed("\n--- Repository: ", r.path.as_str(), " ---"));
    if r.uncommitted_count == 0 {
        emit(out, String::from_str("No uncommitted files"));
    } else {
        emit(out, numbered("Found ", r.uncommitted_count, " uncommitted files"));
        if show_files {
            emit_indented(out, &r.files);
        }
    }
    assert(views(out@) =~= views(old(out)@) + repo_lines(r@, show_files));
}

/// Appends the lines for one flake.
fn emit_flake(out: &mut Vec<String>, f: &FlakeStatus, show_files: bool)
    ensures
        views(final(out)@) == views(old(out)@) + flake_lines(f@, show_files),
{
    emit(out, framed("\n--- Flake: ", f.path.as_str(), " ---"));
    if !f.has_lock_file {
        emit(out, String::from_str("No flake.lock file (needs initialization)"));
    } else {
        match f.updates_available {
            Some(true) => {
                emit(out, String::from_str("Updates available!"));
                match &f.update_output {
                    Some(o) => {
                        if show_files {
                            emit_update_lines(out, o);
                        }
                    },
                    None => {},
                }
            },
            Some(false) => {
                emit(out, String::from_str("No updates available"));
            },
            None => {
                emit(out, String::from_str("Unable to check for updates (nix command failed)"));
            },
        }
    }
    assert(views(out@) =~= views(old(out)@) + flake_lines(f@, show_files));
}

/// The lines of the report, each to be printed on a line of its own (a line
/// that starts with a line feed is preceded by an empty line).
pub fn report_lines(
    repo_statuses: &Vec<RepoStatus>,
    flake_statuses: &Vec<FlakeStatus>,
    args: &Args,
    search_path: &str,
    total_repos: usize,
    total_flakes: usize,
    version: &str,
) -> (r: Vec<String>)
    ensures
        views(r@) == report(
            repo_statuses@,
            flake_statuses@,
            *args,
            search_path@,
            total_repos as nat,
            total_flakes as nat,
            version@,
        ),
{
    let include_flakes = flakes_enabled(args);
    let mut out: Vec<String> = Vec::new();
    if args.compact && !include_flakes {
        let count = count_dirty(repo_statuses);
        emit(&mut out, count_line(count, " repos"));
        assert(views(out@) =~= report(
            repo_statuses@,
            flake_statuses@,
            *args,
            search_path@,
            total_repos as nat,
            total_flakes as nat,
            version@,
        ));
        return out;
    }
    if args.compact && include_flakes {
        let repo_count = count_dirty(repo_statuses);
        let flake_count = count_updatable(flake_statuses);
        let mut line = count_line(repo_count, " repos, ");
        push_decimal(&mut line, flake_count as u128);
        line.append(" flakes with updates");
        emit(&mut out, line);
        assert(views(out@) =~= report(
            repo_statuses@,
            flake_statuses@,
            *args,
            search_path@,
            total_repos as nat,
            total_flakes as nat,
            version@,
        ));
        return out;
    }
    emit(&mut out, prefixed("zinc_oxide v", version));
    emit(&mut out, prefixed("Searching for git repositories in: ", search_path));
    let ghost head = views(out@);
    if total_repos == 0 {
        emit(&mut out, String::from_str("No git repositories found."));
    } else {
        emit(&mut out, numbered("Found ", total_repos, " git repositories:"));
        let ghost start = views(out@);
        let mut i: usize = 0;
        while i < repo_statuses.len()
            invariant
                i <= repo_statuses.len(),
                views(out@) == start + repos_lines(repo_statuses@.take(i as int), args.files),
            decreases repo_statuses.len() - i,
        {
            assert(repo_statuses@.take(i + 1).drop_last() =~= repo_statuses@.take(i as int));
            assert(repo_statuses@.take(i + 1).last() == repo_statuses@[i as int]);
            emit_repo(&mut out, &repo_statuses[i], args.files);
            assert(views(out@) =~= start + repos_lines(repo_statuses@.take(i + 1), args.files));
            i = i + 1;
        }
        assert(repo_statuses@.take(repo_statuses.len() as int) =~= repo_statuses@);
    }
    let ghost middle = views(out@);
    if include_flakes {
        emit(&mut out, String::new());
        if total_flakes == 0 {
            emit(&mut out, String::from_str("No Nix flakes found."));
        } else {
            emit(&mut out, numbered("Found ", total_flakes, " Nix flakes:"));
            let ghost start = views(out@);
            let mut i: usize = 0;
            while i < flake_statuses.len()
                invariant
                    i <= flake_statuses.len(),
                    views(out@) == start + flakes_lines(flake_statuses@.take(i as int), args.files),
                decreases flake_statuses.len() - i,
            {
                assert(flake_statuses@.take(i + 1).drop_last() =~= flake_statuses@.take(i as int));
                assert(flake_statuses@.take(i + 1).last() == flake_statuses@[i as int]);
                emit_flake(&mut out, &flake_statuses[i], args.files);
                assert(views(out@) =~= start + flakes_lines(
                    flake_statuses@.take(i + 1),
                    args.files,
                ));
                i = i + 1;
            }
            assert(flake_statuses@.take(flake_statuses.len() as int) =~= flake_statuses@);
        }
    }
    assert(views(out@) =~= report(
        repo_statuses@,
        flake_statuses@,
        *args,
        search_path@,
        total_repos as nat,
        total_flakes as nat,
        version@,
    ));
    out
}

/// The full report opens with the version, the directory searched, and then
/// either that no repository was found or how many were.
pub proof fn lemma_report_opening(
    repos: Seq<RepoStatus>,
    flakes: Seq<FlakeStatus>,
    args: Args,
    search_path: Seq<char>,
    total_repos: nat,
    total_flakes: nat,
    version: Seq<char>,
)
    requires
        !args.compact,
    ensures
        ({
            let r = report(repos, flakes, args, search_path, total_repos, total_flakes, version);
            &&& r.len() >= 3
            &&& r[0] == "zinc_oxide v"@ + version
            &&& r[1] == "Searching for git repositories in: "@ + search_path
            &&& r[2] == if total_repos == 0 {
                "No git repositories found."@
            } else {
                "Found "@ + decimal(total_repos) + " git repositories:"@
            }
        }),
{
}

/// The compact report is one line: the number of repositories with
/// uncommitted changes and, when flakes were checked, the number of flakes
/// whose check found updates.
pub proof fn lemma_compact_report_is_one_line(
    repos: Seq<RepoStatus>,
    flakes: Seq<FlakeStatus>,
    args: Args,
    search_path: Seq<char>,
    total_repos: nat,
    total_flakes: nat,
    version: Seq<char>,
)
    requires
        args.compact,
    ensures
        report(repos, flakes, args, search_path, total_repos, total_flakes, version).len() == 1,
        ({
            let dirty = repos.filter(|r: RepoStatus| r.uncommitted_count > 0).len();
            let updatable = flakes.filter(|f: FlakeStatus| f.updates_available == Some(true)).len();
            report(repos, flakes, args, search_path, total_repos, total_flakes, version)[0] == if args.flakes {
                decimal(dirty) + " repos, "@ + decimal(updatable) + " flakes with updates"@
            } else {
                decimal(dirty) + " repos"@
            }
        }),
{
    crate::repo::lemma_dirty_count_counts(repos);
    crate::flake::lemma_updatable_count_counts(flakes);
}

/// Indenting gives one line per given line, each the given line after two
/// spaces, in the same order.
pub proof fn lemma_indented_each(ls: Seq<Seq<char>>)
    ensures
        indented(ls).len() == ls.len(),
        forall|k: int| 0 <= k < ls.len() ==> #[trigger] indented(ls)[k] == "  "@ + ls[k],
    decreases ls.len(),
{
    if ls.len() > 0 {
        lemma_indented_each(ls.drop_last());
    }
}

/// The update lines shown are the output lines that mention an update, in
/// order, each after two spaces.
pub proof fn lemma_update_lines_selected(ls: Seq<Seq<char>>)
    ensures
        update_lines_of(ls) == ls.filter(
            |l: Seq<char>| has_substring(l, "Updated"@) || has_substring(l, "updated"@),
        ).map_values(|l: Seq<char>| "  "@ + l),
    decreases ls.len(),
{
    reveal(Seq::filter);
    let pred = |l: Seq<char>| has_substring(l, "Updated"@) || has_substring(l, "updated"@);
    let f = |l: Seq<char>| "  "@ + l;
    if ls.len() == 0 {
        assert(ls.filter(pred).map_values(f) =~= Seq::<Seq<char>>::empty());
    } else {
        lemma_update_lines_selected(ls.drop_last());
        let init = ls.drop_last().filter(pred);
        if pred(ls.last()) {
            assert(ls.filter(pred) == init.push(ls.last()));
            assert(init.push(ls.last()).map_values(f) =~= init.map_values(f).push(f(ls.last())));
        } else {
            assert(ls.filter(pred) == init);
        }
    }
}

/// With `-f`, a changed repository's lines are its header, its count, and
/// then one line per changed file, in order, each after two spaces; without
/// `-f` the files are left out.
pub proof fn lemma_repo_lines_show_files(r: RepoStatusView, show_files: bool)
    ensures
        r.uncommitted_count > 0 ==> repo_lines(r, show_files).len() == 2 + if show_files {
            r.files.len()
        } else {
            0
        },
        r.uncommitted_count > 0 && show_files ==> forall|k: int|
            0 <= k < r.files.len() ==> #[trigger] repo_lines(r, show_files)[2 + k] == "  "@
                + r.files[k],
        r.uncommitted_count == 0 ==> repo_lines(r, show_files).len() == 2,
{
    lemma_indented_each(r.files);
}

} // verus!
