//! Which repositories the report lists, and with what.
//!
//! For each repository the search found, the caller opens it with git and
//! asks for its status (untracked files included, ignored files excluded),
//! and describes the outcome as a `RepoProbe`.
use vstd::prelude::*;
use crate::text::{opt_view, views};

verus! {

/// What opening a repository and asking for its status gave.
pub enum RepoProbe {
    /// The repository could not be opened, for the reason git gives.
    Unopenable(String),
    /// The repository is bare.
    Bare,
    /// Its status could not be read.
    StatusUnavailable,
    /// One item per path with uncommitted changes: the path, or `None` when
    /// git could not give it as UTF-8.
    Changes(Vec<Option<String>>),
}

/// A repository as the report lists it.
pub struct RepoStatus {
    /// Where the repository is.
    pub path: String,
    /// How many paths have uncommitted changes.
    pub uncommitted_count: usize,
    /// Those of the changed paths that could be given as text, in git's order.
    pub files: Vec<String>,
}

/// A `RepoStatus` as plain values.
pub struct RepoStatusView {
    pub path: Seq<char>,
    pub uncommitted_count: nat,
    pub files: Seq<Seq<char>>,
}

impl View for RepoStatus {
    type V = RepoStatusView;

    open spec fn view(&self) -> RepoStatusView {
        RepoStatusView {
            path: self.path@,
            uncommitted_count: self.uncommitted_count as nat,
            files: views(self.files@),
        }
    }
}

/// The paths that are present, in order.
pub open spec fn present_paths(entries: Seq<Option<String>>) -> Seq<Seq<char>>
    decreases entries.len(),
{
    if entries.len() == 0 {
        seq![]
    } else {
        match entries.last() {
            Some(p) => present_paths(entries.drop_last()).push(p@),
            None => present_paths(entries.drop_last()),
        }
    }
}

/// What the report lists for the repository at `path`: nothing when it
/// could not be opened, is bare or has no readable status, and nothing when
/// it has no changes unless clean repositories are shown as well.
pub open spec fn listed_status(path: Seq<char>, probe: RepoProbe, show_empty: bool) -> Option<
    RepoStatusView,
> {
    match probe {
        RepoProbe::Changes(entries) => if entries.len() == 0 && !show_empty {
            None
        } else {
            Some(
                RepoStatusView {
                    path,
                    uncommitted_count: entries.len() as nat,
                    files: present_paths(entries@),
                },
            )
        },
        _ => None,
    }
}

/// What the report lists for each probed repository, in order.
pub open spec fn listed_statuses(probes: Seq<(String, RepoProbe)>, show_empty: bool) -> Seq<
    RepoStatusView,
>
    decreases probes.len(),
{
    if probes.len() == 0 {
        seq![]
    } else {
        let rest = listed_statuses(probes.drop_last(), show_empty);
        match listed_status(probes.last().0@, probes.last().1, show_empty) {
            Some(v) => rest.push(v),
            None => rest,
        }
    }
}

/// The views of a sequence of repository statuses.
pub open spec fn status_views(v: Seq<RepoStatus>) -> Seq<RepoStatusView> {
    v.map_values(|r: RepoStatus| r@)
}

/// The paths that are present, in order.
fn collect_present(entries: Vec<Option<String>>) -> (r: Vec<String>)
    ensures
        views(r@) == present_paths(entries@),
{
    let ghost all = entries@;
    let mut r: Vec<String> = Vec::new();
    for e in it: entries.into_iter()
        invariant
            it.seq() == all,
            views(r@) == present_paths(all.take(it.index() as int)),
    {
        let ghost i = it.index() as int;
        assert(all.take(i + 1).drop_last() =~= all.take(i));
        match e {
            Some(p) => {
                r.push(p);
                assert(views(r@) =~= present_paths(all.take(i)).push(all[i]->0@));
            },
            None => {},
        }
    }
    assert(all.take(all.len() as int) =~= all);
    r
}

/// The report's entry for the repository at `path`, from what git said of it.
pub fn repo_status(path: String, probe: RepoProbe, show_empty: bool) -> (r: Option<RepoStatus>)
    ensures
        match r {
            Some(s) => listed_status(path@, probe, show_empty) == Some(s@),
            None => listed_status(path@, probe, show_empty) is None,
        },
{
    match probe {
        RepoProbe::Changes(entries) => {
            let n = entries.len();
            if n == 0 && !show_empty {
                None
            } else {
                let files = collect_present(entries);
                Some(RepoStatus { path, uncommitted_count: n, files })
            }
        },
        _ => None,
    }
}

/// What is reported on standard error for the repository at `path`: that
/// git could not open it, and why.
pub open spec fn probe_diagnostic(path: Seq<char>, probe: RepoProbe) -> Option<Seq<char>> {
    match probe {
        RepoProbe::Unopenable(reason) => Some("Cannot open repository "@ + path + ": "@ + reason@),
        _ => None,
    }
}

/// What is reported on standard error for each probed repository, in order.
pub open spec fn probe_diagnostics(probes: Seq<(String, RepoProbe)>) -> Seq<Seq<char>>
    decreases probes.len(),
{
    if probes.len() == 0 {
        seq![]
    } else {
        let rest = probe_diagnostics(probes.drop_last());
        match probe_diagnostic(probes.last().0@, probes.last().1) {
            Some(d) => rest.push(d),
            None => rest,
        }
    }
}

/// The line reported on standard error for the repository at `path`, if any.
pub fn repo_diagnostic(path: &String, probe: &RepoProbe) -> (r: Option<String>)
    ensures
        opt_view(r) == probe_diagnostic(path@, *probe),
{
    match probe {
        RepoProbe::Unopenable(reason) => {
            let mut line = String::from_str("Cannot open repository ");
            line.append(path.as_str());
            line.append(": ");
            line.append(reason.as_str());
            Some(line)
        },
        _ => None,
    }
}

/// The report's entries for the probed repositories, in the order given,
/// and the lines to report on standard error: the loop over the
/// repositories the search found.
pub fn collect_repo_statuses(probes: Vec<(String, RepoProbe)>, show_empty: bool) -> (r: (
    Vec<RepoStatus>,
    Vec<String>,
))
    ensures
        status_views(r.0@) == listed_statuses(probes@, show_empty),
        views(r.1@) == probe_diagnostics(probes@),
{
    let ghost all = probes@;
    let mut r: Vec<RepoStatus> = Vec::new();
    let mut diagnostics: Vec<String> = Vec::new();
    for item in it: probes.into_iter()
        invariant
            it.seq() == all,
            status_views(r@) == listed_statuses(all.take(it.index() as int), show_empty),
            views(diagnostics@) == probe_diagnostics(all.take(it.index() as int)),
    {
        let ghost i = it.index() as int;
        assert(all.take(i + 1).drop_last() =~= all.take(i));
        assert(all.take(i + 1).last() == all[i]);
        let (path, probe) = item;
        match repo_diagnostic(&path, &probe) {
            Some(d) => {
                diagnostics.push(d);
                assert(views(diagnostics@) =~= probe_diagnostics(all.take(i)).push(d@));
            },
            None => {},
        }
        match repo_status(path, probe, show_empty) {
            Some(s) => {
                r.push(s);
                assert(status_views(r@) =~= listed_statuses(all.take(i), show_empty).push(s@));
            },
            None => {},
        }
    }
    assert(all.take(all.len() as int) =~= all);
    (r, diagnostics)
}

/// How many of `repos` have uncommitted changes.
pub open spec fn dirty_count(repos: Seq<RepoStatus>) -> nat
    decreases repos.len(),
{
    if repos.len() == 0 {
        0
    } else {
        dirty_count(repos.drop_last()) + if repos.last().uncommitted_count > 0 {
            1nat
        } else {
            0nat
        }
    }
}

/// How many of `repos` have uncommitted changes.
pub fn count_dirty(repos: &Vec<RepoStatus>) -> (r: usize)
    ensures
        r == dirty_count(repos@),
{
    let mut c: usize = 0;
    let mut i: usize = 0;
    while i < repos.len()
        invariant
            i <= repos.len(),
            c == dirty_count(repos@.take(i as int)),
            c <= i,
        decreases repos.len() - i,
    {
        assert(repos@.take(i + 1).drop_last() =~= repos@.take(i as int));
        if repos[i].uncommitted_count > 0 {
            c = c + 1;
        }
        i = i + 1;
    }
    assert(repos@.take(repos.len() as int) =~= repos@);
    c
}

/// Without clean repositories shown, every listed repository has
/// uncommitted changes.
pub proof fn lemma_listed_are_dirty(probes: Seq<(String, RepoProbe)>)
    ensures
        forall|k: int|
            0 <= k < listed_statuses(probes, false).len() ==> #[trigger] listed_statuses(
                probes,
                false,
            )[k].uncommitted_count > 0,
    decreases probes.len(),
{
    if probes.len() > 0 {
        let rest = listed_statuses(probes.drop_last(), false);
        lemma_listed_are_dirty(probes.drop_last());
        match listed_status(probes.last().0@, probes.last().1, false) {
            Some(v) => {
                assert(v.uncommitted_count > 0);
                assert forall|k: int|
                    0 <= k < listed_statuses(probes, false).len() implies #[trigger] listed_statuses(
                    probes,
                    false,
                )[k].uncommitted_count > 0 by {
                    if k < rest.len() {
                        assert(listed_statuses(probes, false)[k] == rest[k]);
                    }
                }
            },
            None => {},
        }
    }
}

/// Without clean repositories shown, the count of repositories with changes
/// is the number of repositories listed.
pub proof fn lemma_dirty_count_without_empty(repos: Seq<RepoStatus>, probes: Seq<(String, RepoProbe)>)
    requires
        status_views(repos) == listed_statuses(probes, false),
    ensures
        dirty_count(repos) == repos.len(),
{
    lemma_listed_are_dirty(probes);
    lemma_all_dirty_count(repos);
}

proof fn lemma_all_dirty_count(repos: Seq<RepoStatus>)
    requires
        forall|k: int| 0 <= k < repos.len() ==> #[trigger] status_views(repos)[k].uncommitted_count
            > 0,
    ensures
        dirty_count(repos) == repos.len(),
    decreases repos.len(),
{
    if repos.len() > 0 {
        let init = repos.drop_last();
        assert forall|k: int| 0 <= k < init.len() implies #[trigger] status_views(
            init,
        )[k].uncommitted_count > 0 by {
            assert(status_views(repos)[k] == repos[k]@);
            assert(init[k] == repos[k]);
        }
        lemma_all_dirty_count(init);
        assert(status_views(repos)[repos.len() - 1] == repos.last()@);
        assert(status_views(repos)[repos.len() - 1].uncommitted_count > 0);
        assert(repos.last().uncommitted_count > 0);
    }
}

// ---------------------------------------------------------------------------
// The listing rule, stated on the probes themselves
// ---------------------------------------------------------------------------

/// A repository is listed exactly when git gave its changes and it has at
/// least one, or clean repositories are shown too: a repository with changes
/// is listed whether or not `show_empty` is set, and `show_empty` only adds
/// the clean ones.  A listed repository counts every changed path and lists
/// the paths git could give as text.
pub proof fn lemma_listing_rule(path: Seq<char>, probe: RepoProbe, show_empty: bool)
    ensures
        listed_status(path, probe, show_empty) is Some <==> (probe is Changes && (probe->Changes_0.len()
            > 0 || show_empty)),
        probe is Changes && probe->Changes_0.len() > 0 ==> listed_status(path, probe, show_empty)
            == listed_status(path, probe, !show_empty),
        probe is Changes && (probe->Changes_0.len() > 0 || show_empty) ==> listed_status(
            path,
            probe,
            show_empty,
        ) == Some(
            RepoStatusView {
                path,
                uncommitted_count: probe->Changes_0.len() as nat,
                files: present_paths(probe->Changes_0@),
            },
        ),
{
}

/// The listed paths of a repository are the entries git could give as
/// text, in git's order.
pub proof fn lemma_present_paths_in_order(entries: Seq<Option<String>>)
    ensures
        present_paths(entries) == entries.filter(|e: Option<String>| e is Some).map_values(
            |e: Option<String>| e->0@,
        ),
    decreases entries.len(),
{
    reveal(Seq::filter);
    let pred = |e: Option<String>| e is Some;
    let f = |e: Option<String>| e->0@;
    if entries.len() == 0 {
        assert(entries.filter(pred).map_values(f) =~= Seq::<Seq<char>>::empty());
    } else {
        lemma_present_paths_in_order(entries.drop_last());
        let init = entries.drop_last().filter(pred);
        if pred(entries.last()) {
            assert(entries.filter(pred) == init.push(entries.last()));
            assert(init.push(entries.last()).map_values(f) =~= init.map_values(f).push(
                f(entries.last()),
            ));
        } else {
            assert(entries.filter(pred) == init);
        }
    }
}

/// The report lists the listed repositories, in the order they were probed.
pub proof fn lemma_listed_statuses_in_order(probes: Seq<(String, RepoProbe)>, show_empty: bool)
    ensures
        listed_statuses(probes, show_empty) == probes.filter(
            |p: (String, RepoProbe)| listed_status(p.0@, p.1, show_empty) is Some,
        ).map_values(|p: (String, RepoProbe)| listed_status(p.0@, p.1, show_empty)->0),
    decreases probes.len(),
{
    reveal(Seq::filter);
    let pred = |p: (String, RepoProbe)| listed_status(p.0@, p.1, show_empty) is Some;
    let f = |p: (String, RepoProbe)| listed_status(p.0@, p.1, show_empty)->0;
    if probes.len() == 0 {
        assert(probes.filter(pred).map_values(f) =~= Seq::<RepoStatusView>::empty());
    } else {
        lemma_listed_statuses_in_order(probes.drop_last(), show_empty);
        let init = probes.drop_last().filter(pred);
        if pred(probes.last()) {
            assert(probes.filter(pred) == init.push(probes.last()));
            assert(init.push(probes.last()).map_values(f) =~= init.map_values(f).push(
                f(probes.last()),
            ));
        } else {
            assert(probes.filter(pred) == init);
        }
    }
}

/// The compact count of repositories with changes is the number of them
/// whose uncommitted count is not zero.
pub proof fn lemma_dirty_count_counts(repos: Seq<RepoStatus>)
    ensures
        dirty_count(repos) == repos.filter(|r: RepoStatus| r.uncommitted_count > 0).len(),
    decreases repos.len(),
{
    reveal(Seq::filter);
    if repos.len() > 0 {
        lemma_dirty_count_counts(repos.drop_last());
    }
}

} // verus!
