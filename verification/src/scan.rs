//! The recursive project search as a state machine.
//!
//! The search visits directories depth-first: a directory is reported when it
//! holds a marker entry (`.git` for git repositories, `flake.nix` for Nix
//! flakes), and the search then descends into each of its subdirectories in
//! listing order, skipping those whose name starts with a dot.  The caller
//! performs the file-system work: it asks `next_dir` which directory to look
//! at, inspects it, and hands what it saw to `record`.
use vstd::prelude::*;
use crate::text::{no_separator, opt_view, path_join, views};

verus! {

/// The entry whose presence makes a directory a git repository.
pub const GIT_MARKER: &'static str = ".git";

/// The entry whose presence makes a directory a Nix flake project.
pub const FLAKE_MARKER: &'static str = "flake.nix";

/// What the search learns of one entry of a directory listing.
pub struct DirEntryInfo {
    /// The entry's path.
    pub path: String,
    /// The entry's file name.
    pub name: String,
    /// Whether the entry is a directory (symbolic links followed).
    pub is_dir: bool,
}

/// What listing a directory gave.
pub enum Listing {
    /// The path is no directory (or does not exist).
    NotADirectory,
    /// The directory could not be listed, for the reason given.
    Unreadable(String),
    /// The directory's entries, in the order the file system gives them; an
    /// entry that could not be read is `None`.
    Entries(Vec<Option<DirEntryInfo>>),
}

/// What the search learns of one directory.
pub struct DirVisit {
    /// Whether the directory holds the marker entry.
    pub has_marker: bool,
    /// What listing the directory gave.
    pub listing: Listing,
}

/// A name that starts with a dot.
pub open spec fn is_hidden(name: Seq<char>) -> bool {
    name.len() > 0 && name[0] == '.'
}

/// The search descends into a listing entry when it could be read, is a
/// directory and is not hidden.
pub open spec fn descends_into(e: Option<DirEntryInfo>) -> bool {
    match e {
        Some(info) => info.is_dir && !is_hidden(info.name@),
        None => false,
    }
}

/// The paths of the entries the search descends into, in listing order.
pub open spec fn subdirs(entries: Seq<Option<DirEntryInfo>>) -> Seq<Seq<char>>
    decreases entries.len(),
{
    if entries.len() == 0 {
        seq![]
    } else {
        let rest = subdirs(entries.drop_last());
        match entries.last() {
            Some(info) => if descends_into(entries.last()) {
                rest.push(info.path@)
            } else {
                rest
            },
            None => rest,
        }
    }
}

/// The subdirectories a visit leads to.
pub open spec fn visit_subdirs(v: DirVisit) -> Seq<Seq<char>> {
    match v.listing {
        Listing::Entries(es) => subdirs(es@),
        _ => seq![],
    }
}

/// What the search reports on standard error for a visit of `dir`: that it
/// could not be listed, and why.
pub open spec fn visit_diagnostic(dir: Seq<char>, v: DirVisit) -> Option<Seq<char>> {
    match v.listing {
        Listing::Unreadable(reason) => Some("Cannot read directory "@ + dir + ": "@ + reason@),
        _ => None,
    }
}

/// `s` in reverse order.
pub open spec fn reversed<A>(s: Seq<A>) -> Seq<A>
    decreases s.len(),
{
    if s.len() == 0 {
        seq![]
    } else {
        reversed(s.drop_first()).push(s[0])
    }
}

/// `[path]` when `has_marker`, else nothing.
pub open spec fn marked(path: Seq<char>, has_marker: bool) -> Seq<Seq<char>> {
    if has_marker {
        seq![path]
    } else {
        seq![]
    }
}

/// The search state: the directories still to visit (the next one last) and
/// the directories found so far, in the order found.
pub struct Scanner {
    pending: Vec<String>,
    found: Vec<String>,
}

impl Scanner {
    /// The directories still to visit; the next one is the last.
    pub closed spec fn pending(&self) -> Seq<Seq<char>> {
        views(self.pending@)
    }

    /// The directories found so far.
    pub closed spec fn found(&self) -> Seq<Seq<char>> {
        views(self.found@)
    }

    /// A search that starts at `root`.
    pub fn new(root: String) -> (s: Scanner)
        ensures
            s.pending() == seq![root@],
            s.found() == Seq::<Seq<char>>::empty(),
    {
        let mut pending: Vec<String> = Vec::new();
        pending.push(root);
        let s = Scanner { pending, found: Vec::new() };
        assert(s.pending() =~= seq![root@]);
        assert(s.found() =~= Seq::<Seq<char>>::empty());
        s
    }

    /// Whether no directory is left to visit.
    pub fn is_done(&self) -> (r: bool)
        ensures
            r == (self.pending().len() == 0),
    {
        self.pending.len() == 0
    }

    /// Takes the next directory to visit, if any.
    pub fn next_dir(&mut self) -> (r: Option<String>)
        ensures
            old(self).pending().len() == 0 ==> r is None && final(self).pending() == old(
                self,
            ).pending(),
            old(self).pending().len() > 0 ==> r is Some && r->0@ == old(self).pending().last()
                && final(self).pending() == old(self).pending().drop_last(),
            final(self).found() == old(self).found(),
    {
        let r = self.pending.pop();
        proof {
            if old(self).pending@.len() > 0 {
                assert(self.pending() =~= old(self).pending().drop_last());
            }
        }
        r
    }

    /// Records what the visit of `dir` found: `dir` is found when it holds
    /// the marker, and the subdirectories to descend into are queued so that
    /// they are visited in listing order, before anything queued earlier.
    /// Returns the line to report on standard error, if the directory could
    /// not be listed; the search goes on regardless.
    pub fn record(&mut self, dir: String, visit: DirVisit) -> (diagnostic: Option<String>)
        ensures
            final(self).found() == old(self).found() + marked(dir@, visit.has_marker),
            final(self).pending() == old(self).pending() + reversed(visit_subdirs(visit)),
            opt_view(diagnostic) == visit_diagnostic(dir@, visit),
    {
        let ghost found0 = self.found();
        let ghost pending0 = self.pending();
        let diagnostic = match &visit.listing {
            Listing::Unreadable(reason) => {
                let mut line = String::from_str("Cannot read directory ");
                line.append(dir.as_str());
                line.append(": ");
                line.append(reason.as_str());
                Some(line)
            },
            _ => None,
        };
        if visit.has_marker {
            self.found.push(dir);
        }
        assert(self.found() =~= found0 + marked(dir@, visit.has_marker));
        match visit.listing {
            Listing::Entries(entries) => {
                self.queue_subdirs(entries);
            },
            _ => {
                assert(reversed(Seq::<Seq<char>>::empty()) =~= Seq::<Seq<char>>::empty());
                assert(self.pending() =~= pending0 + reversed(visit_subdirs(visit)));
            },
        }
        diagnostic
    }

    /// Queues the subdirectories of a listing, the first one last.
    fn queue_subdirs(&mut self, entries: Vec<Option<DirEntryInfo>>)
        ensures
            final(self).found() == old(self).found(),
            final(self).pending() == old(self).pending() + reversed(subdirs(entries@)),
    {
        let ghost pending0 = self.pending();
        let mut rest = entries;
        assert(self.pending() + reversed(subdirs(rest@)) =~= pending0 + reversed(subdirs(entries@)));
        while rest.len() > 0
            invariant
                self.found() == old(self).found(),
                self.pending() + reversed(subdirs(rest@)) == pending0 + reversed(subdirs(entries@)),
            decreases rest.len(),
        {
            let ghost before = rest@;
            let ghost pending_before = self.pending();
            let e = rest.pop();
            assert(rest@ == before.drop_last());
            match e {
                Some(Some(info)) => {
                    if info.is_dir && !starts_with_dot(&info.name) {
                        let ghost p = info.path@;
                        self.pending.push(info.path);
                        proof {
                            lemma_reversed_push(subdirs(rest@), p);
                            assert(self.pending() =~= pending_before.push(p));
                            assert(subdirs(before) == subdirs(rest@).push(p));
                            assert(self.pending() + reversed(subdirs(rest@)) =~= pending_before
                                + reversed(subdirs(before)));
                        }
                    } else {
                        assert(subdirs(before) == subdirs(rest@));
                    }
                },
                _ => {
                    assert(subdirs(before) == subdirs(rest@));
                },
            }
        }
        assert(subdirs(rest@) =~= Seq::<Seq<char>>::empty());
        assert(reversed(subdirs(rest@)) =~= Seq::<Seq<char>>::empty());
        assert(self.pending() + reversed(subdirs(rest@)) =~= self.pending());
    }

    /// The directories found, in the order found.
    pub fn into_found(self) -> (r: Vec<String>)
        ensures
            views(r@) == self.found(),
    {
        self.found
    }
}

/// Whether `name` starts with a dot.
pub fn starts_with_dot(name: &String) -> (r: bool)
    ensures
        r == is_hidden(name@),
{
    let s = name.as_str();
    s.unicode_len() > 0 && s.get_char(0) == '.'
}

/// Reversing after appending puts the appended item first.
pub proof fn lemma_reversed_push<A>(s: Seq<A>, x: A)
    ensures
        reversed(s.push(x)) == seq![x] + reversed(s),
    decreases s.len(),
{
    if s.len() == 0 {
        assert(s.push(x).drop_first() =~= s);
        assert(reversed(s) =~= Seq::<A>::empty());
        assert(reversed(s.push(x)) =~= seq![x] + reversed(s));
    } else {
        assert(s.push(x).drop_first() =~= s.drop_first().push(x));
        lemma_reversed_push(s.drop_first(), x);
        assert(reversed(s.push(x)) =~= seq![x] + reversed(s));
    }
}

// ---------------------------------------------------------------------------
// The search against a model of the directory tree
// ---------------------------------------------------------------------------

/// A finite directory tree as the search sees it: a directory's path,
/// whether it holds the marker, and the subdirectories the search descends
/// into, in listing order.
pub struct DirTree {
    pub path: Seq<char>,
    pub has_marker: bool,
    pub children: Seq<DirTree>,
}

/// The directories of `t` that hold the marker, in depth-first pre-order:
/// what the recursive search reports for the tree `t`.
pub open spec fn tree_found(t: DirTree) -> Seq<Seq<char>>
    decreases t,
{
    marked(t.path, t.has_marker) + forest_found(t.children)
}

/// `tree_found` of each tree of `ts`, one after the other.
pub open spec fn forest_found(ts: Seq<DirTree>) -> Seq<Seq<char>>
    decreases ts,
{
    if ts.len() == 0 {
        seq![]
    } else {
        tree_found(ts[0]) + forest_found(ts.subrange(1, ts.len() as int))
    }
}

/// What a stack of trees still to visit (the next one last) will report.
pub open spec fn stack_found(stack: Seq<DirTree>) -> Seq<Seq<char>>
    decreases stack.len(),
{
    if stack.len() == 0 {
        seq![]
    } else {
        tree_found(stack.last()) + stack_found(stack.drop_last())
    }
}

/// The paths of the roots of `ts`.
pub open spec fn paths(ts: Seq<DirTree>) -> Seq<Seq<char>> {
    ts.map_values(|t: DirTree| t.path)
}

/// A visit agrees with a tree node: same marker, and the subdirectories it
/// leads to are the node's children.
pub open spec fn visit_agrees(v: DirVisit, t: DirTree) -> bool {
    &&& v.has_marker == t.has_marker
    &&& visit_subdirs(v) == paths(t.children)
}

/// The stack of trees after visiting the last one of `stack`.
pub open spec fn stack_after_visit(stack: Seq<DirTree>) -> Seq<DirTree> {
    stack.drop_last() + reversed(stack.last().children)
}

/// The scanner is in step with a search of the tree `root`, with `stack`
/// the trees still to visit: its queue holds their roots, and what it found
/// followed by what they will report is the pre-order of `root`.
pub open spec fn in_step(s: Scanner, stack: Seq<DirTree>, root: DirTree) -> bool {
    &&& s.pending() == paths(stack)
    &&& s.found() + stack_found(stack) == tree_found(root)
}

proof fn lemma_paths_reversed(ts: Seq<DirTree>)
    ensures
        paths(reversed(ts)) == reversed(paths(ts)),
    decreases ts.len(),
{
    if ts.len() == 0 {
        assert(paths(reversed(ts)) =~= reversed(paths(ts)));
    } else {
        lemma_paths_reversed(ts.drop_first());
        assert(paths(ts).drop_first() =~= paths(ts.drop_first()));
        assert(paths(reversed(ts)) =~= paths(reversed(ts.drop_first())).push(ts[0].path));
        assert(paths(reversed(ts)) =~= reversed(paths(ts)));
    }
}

proof fn lemma_stack_found_append_reversed(stack: Seq<DirTree>, ts: Seq<DirTree>)
    ensures
        stack_found(stack + reversed(ts)) == forest_found(ts) + stack_found(stack),
    decreases ts.len(),
{
    if ts.len() == 0 {
        assert(stack + reversed(ts) =~= stack);
        assert(forest_found(ts) + stack_found(stack) =~= stack_found(stack));
    } else {
        let rest = ts.subrange(1, ts.len() as int);
        assert(rest =~= ts.drop_first());
        lemma_stack_found_append_reversed(stack, rest);
        let big = stack + reversed(ts);
        assert(big =~= (stack + reversed(rest)).push(ts[0]));
        assert(big.drop_last() =~= stack + reversed(rest));
        assert(stack_found(big) =~= forest_found(ts) + stack_found(stack));
    }
}

/// A new search of `root` is in step with the tree `root`, with `root`
/// still to visit.
pub proof fn lemma_scan_start(s: Scanner, root: DirTree)
    requires
        s.pending() == seq![root.path],
        s.found() == Seq::<Seq<char>>::empty(),
    ensures
        in_step(s, seq![root], root),
{
    assert(paths(seq![root]) =~= seq![root.path]);
    assert(seq![root].drop_last() =~= Seq::<DirTree>::empty());
    assert(stack_found(Seq::<DirTree>::empty()) =~= Seq::<Seq<char>>::empty());
    assert(seq![root].last() == root);
    assert(stack_found(seq![root]) =~= tree_found(root));
    assert(s.found() + stack_found(seq![root]) =~= tree_found(root));
}

/// Every step of the search keeps it in step with the tree: taking the next
/// directory and recording a visit that agrees with the tree's node for it
/// leaves the scanner in step, with that node replaced on the stack by its
/// children (the first one last).
pub proof fn lemma_scan_step(
    before: Scanner,
    taken: Scanner,
    after: Scanner,
    dir: Seq<char>,
    visit: DirVisit,
    stack: Seq<DirTree>,
    root: DirTree,
)
    requires
        in_step(before, stack, root),
        stack.len() > 0,
        visit_agrees(visit, stack.last()),
        before.pending().len() > 0,
        dir == before.pending().last(),
        taken.pending() == before.pending().drop_last(),
        taken.found() == before.found(),
        after.found() == taken.found() + marked(dir, visit.has_marker),
        after.pending() == taken.pending() + reversed(visit_subdirs(visit)),
    ensures
        in_step(after, stack_after_visit(stack), root),
{
    let t = stack.last();
    let rest = stack.drop_last();
    lemma_paths_reversed(t.children);
    assert(paths(stack).drop_last() =~= paths(rest));
    assert(paths(rest + reversed(t.children)) =~= paths(rest) + paths(reversed(t.children)));
    assert(after.pending() == paths(stack_after_visit(stack)));
    assert(dir == t.path);
    lemma_stack_found_append_reversed(rest, t.children);
    assert(stack_found(stack) == tree_found(t) + stack_found(rest));
    assert(after.found() + stack_found(stack_after_visit(stack)) =~= before.found()
        + stack_found(stack));
}

/// When nothing is left to visit, the search has found exactly the
/// directories of the tree that hold the marker, in depth-first pre-order.
pub proof fn lemma_scan_done(s: Scanner, root: DirTree)
    requires
        in_step(s, Seq::<DirTree>::empty(), root),
    ensures
        s.found() == tree_found(root),
{
    assert(s.found() + stack_found(Seq::<DirTree>::empty()) =~= s.found());
}

/// The search descends exactly into the listed entries that could be read,
/// are directories and are not hidden: a directory whose name starts with a
/// dot is never entered.
pub proof fn lemma_subdirs_exact(entries: Seq<Option<DirEntryInfo>>, p: Seq<char>)
    ensures
        subdirs(entries).contains(p) <==> exists|i: int|
            0 <= i < entries.len() && descends_into(#[trigger] entries[i]) && entries[i]->0.path@
                == p,
    decreases entries.len(),
{
    if entries.len() > 0 {
        let init = entries.drop_last();
        lemma_subdirs_exact(init, p);
        let last = entries.last();
        if subdirs(entries).contains(p) {
            if subdirs(init).contains(p) {
                let i = choose|i: int|
                    0 <= i < init.len() && descends_into(#[trigger] init[i]) && init[i]->0.path@
                        == p;
                assert(entries[i] == init[i]);
            } else {
                let k = choose|k: int| 0 <= k < subdirs(entries).len() && subdirs(entries)[k] == p;
                assert(descends_into(last));
                assert(entries[entries.len() - 1] == last);
            }
        }
        if exists|i: int|
            0 <= i < entries.len() && descends_into(#[trigger] entries[i]) && entries[i]->0.path@
                == p {
            let i = choose|i: int|
                0 <= i < entries.len() && descends_into(#[trigger] entries[i])
                    && entries[i]->0.path@ == p;
            if i < entries.len() - 1 {
                assert(init[i] == entries[i]);
                let k = choose|k: int| 0 <= k < subdirs(init).len() && subdirs(init)[k] == p;
                assert(subdirs(entries)[k] == p);
            } else {
                assert(subdirs(entries).last() == p);
            }
        }
    }
}

// ---------------------------------------------------------------------------
// Each directory is found once, and below the root
// ---------------------------------------------------------------------------

/// `c` is the path of an entry of the directory `p`: `p` joined with a
/// non-empty name without separators.
pub open spec fn is_child_path(c: Seq<char>, p: Seq<char>) -> bool {
    exists|n: Seq<char>| n.len() > 0 && no_separator(n) && c == path_join(p, n)
}

/// The tree is shaped as a file system shapes it: each child's path is an
/// entry of its parent's directory, and siblings have different paths.
pub open spec fn tree_ok(t: DirTree) -> bool
    decreases t,
{
    &&& forall|i: int|
        0 <= i < t.children.len() ==> is_child_path(#[trigger] t.children[i].path, t.path)
    &&& forall|i: int, j: int|
        0 <= i < j < t.children.len() ==> t.children[i].path != t.children[j].path
    &&& forall|i: int| 0 <= i < t.children.len() ==> tree_ok(#[trigger] t.children[i])
}

/// `q` is `p` or lies below the directory `p`.
pub open spec fn at_or_below(p: Seq<char>, q: Seq<char>) -> bool {
    ||| q == p
    ||| {
        &&& q.len() > p.len()
        &&& q.subrange(0, p.len() as int) == p
        &&& (p.len() == 0 || p.last() == '/' || q[p.len() as int] == '/')
    }
}

/// No path occurs twice in `s`.
pub open spec fn no_repeats(s: Seq<Seq<char>>) -> bool {
    forall|i: int, j: int| 0 <= i < j < s.len() ==> s[i] != s[j]
}

proof fn lemma_below_child(p: Seq<char>, c: Seq<char>, q: Seq<char>)
    requires
        is_child_path(c, p),
        at_or_below(c, q),
    ensures
        at_or_below(p, q),
        q != p,
{
    let n = choose|n: Seq<char>| n.len() > 0 && no_separator(n) && c == path_join(p, n);
    assert(c.len() > p.len());
    assert(c.subrange(0, p.len() as int) =~= p);
    assert(q.subrange(0, p.len() as int) =~= c.subrange(0, p.len() as int));
    if !(p.len() == 0 || p.last() == '/') {
        assert(c[p.len() as int] == '/');
        assert(q[p.len() as int] == c[p.len() as int]);
    }
}

proof fn lemma_siblings_disjoint(p: Seq<char>, c1: Seq<char>, c2: Seq<char>, q: Seq<char>)
    requires
        is_child_path(c1, p),
        is_child_path(c2, p),
        c1 != c2,
    ensures
        !(at_or_below(c1, q) && at_or_below(c2, q)),
{
    let n1 = choose|n: Seq<char>| n.len() > 0 && no_separator(n) && c1 == path_join(p, n);
    let n2 = choose|n: Seq<char>| n.len() > 0 && no_separator(n) && c2 == path_join(p, n);
    let base = if p.len() == 0 || p.last() == '/' {
        p
    } else {
        p + seq!['/']
    };
    assert(c1 == base + n1);
    assert(c2 == base + n2);
    if at_or_below(c1, q) && at_or_below(c2, q) {
        let b = base.len() as int;
        assert forall|k: int| 0 <= k < n1.len() implies q[b + k] == n1[k] by {
            assert(q.subrange(0, c1.len() as int)[b + k] == c1[b + k]);
        }
        assert forall|k: int| 0 <= k < n2.len() implies q[b + k] == n2[k] by {
            assert(q.subrange(0, c2.len() as int)[b + k] == c2[b + k]);
        }
        if n1.len() == n2.len() {
            assert(n1 =~= n2);
        } else if n1.len() < n2.len() {
            assert(q != c1);
            assert(c1.last() == n1.last());
            assert(q[c1.len() as int] == n2[n1.len() as int]);
        } else {
            assert(q != c2);
            assert(c2.last() == n2.last());
            assert(q[c2.len() as int] == n1[n2.len() as int]);
        }
    }
}

/// What a forest of sibling trees reports: each path lies below one of the
/// siblings, and none occurs twice.
proof fn lemma_forest_found_shape(p: Seq<char>, ts: Seq<DirTree>)
    requires
        forall|i: int| 0 <= i < ts.len() ==> is_child_path(#[trigger] ts[i].path, p),
        forall|i: int, j: int| 0 <= i < j < ts.len() ==> ts[i].path != ts[j].path,
        forall|i: int| 0 <= i < ts.len() ==> tree_ok(#[trigger] ts[i]),
    ensures
        no_repeats(forest_found(ts)),
        forall|k: int|
            0 <= k < forest_found(ts).len() ==> exists|i: int|
                0 <= i < ts.len() && at_or_below(ts[i].path, #[trigger] forest_found(ts)[k]),
    decreases ts,
{
    if ts.len() > 0 {
        let rest = ts.subrange(1, ts.len() as int);
        assert forall|i: int| 0 <= i < rest.len() implies is_child_path(
            #[trigger] rest[i].path,
            p,
        ) by {
            assert(rest[i] == ts[i + 1]);
        }
        assert forall|i: int| 0 <= i < rest.len() implies tree_ok(#[trigger] rest[i]) by {
            assert(rest[i] == ts[i + 1]);
        }
        assert forall|i: int, j: int| 0 <= i < j < rest.len() implies rest[i].path
            != rest[j].path by {
            assert(rest[i] == ts[i + 1]);
            assert(rest[j] == ts[j + 1]);
        }
        lemma_tree_found_shape(ts[0]);
        lemma_forest_found_shape(p, rest);
        let a = tree_found(ts[0]);
        let b = forest_found(rest);
        assert(forest_found(ts) == a + b);
        assert forall|x: int, y: int| 0 <= x < a.len() && 0 <= y < b.len() implies a[x] != b[y] by {
            let j = choose|j: int| 0 <= j < rest.len() && at_or_below(rest[j].path, b[y]);
            assert(rest[j] == ts[j + 1]);
            if a[x] == b[y] {
                lemma_siblings_disjoint(p, ts[0].path, ts[j + 1].path, a[x]);
            }
        }
        assert forall|k: int| 0 <= k < forest_found(ts).len() implies exists|i: int|
            0 <= i < ts.len() && at_or_below(ts[i].path, #[trigger] forest_found(ts)[k]) by {
            if k < a.len() {
                assert(forest_found(ts)[k] == a[k]);
                assert(at_or_below(ts[0].path, forest_found(ts)[k]));
            } else {
                assert(forest_found(ts)[k] == b[k - a.len()]);
                let j = choose|j: int|
                    0 <= j < rest.len() && at_or_below(rest[j].path, b[k - a.len()]);
                assert(rest[j] == ts[j + 1]);
                assert(at_or_below(ts[j + 1].path, forest_found(ts)[k]));
            }
        }
        assert forall|x: int, y: int| 0 <= x < y < forest_found(ts).len() implies forest_found(
            ts,
        )[x] != forest_found(ts)[y] by {
            if y < a.len() {
                assert(forest_found(ts)[x] == a[x]);
                assert(forest_found(ts)[y] == a[y]);
            } else if x >= a.len() {
                assert(forest_found(ts)[x] == b[x - a.len()]);
                assert(forest_found(ts)[y] == b[y - a.len()]);
            } else {
                assert(forest_found(ts)[x] == a[x]);
                assert(forest_found(ts)[y] == b[y - a.len()]);
            }
        }
    }
}

/// What a tree reports: each path lies at or below the tree's root, and none
/// occurs twice.
proof fn lemma_tree_found_shape(t: DirTree)
    requires
        tree_ok(t),
    ensures
        no_repeats(tree_found(t)),
        forall|k: int|
            0 <= k < tree_found(t).len() ==> at_or_below(t.path, #[trigger] tree_found(t)[k]),
    decreases t,
{
    lemma_forest_found_shape(t.path, t.children);
    let m = marked(t.path, t.has_marker);
    let f = forest_found(t.children);
    assert(tree_found(t) == m + f);
    assert forall|k: int| 0 <= k < f.len() implies at_or_below(t.path, #[trigger] f[k]) && f[k]
        != t.path by {
        let i = choose|i: int| 0 <= i < t.children.len() && at_or_below(t.children[i].path, f[k]);
        lemma_below_child(t.path, t.children[i].path, f[k]);
    }
    assert forall|k: int| 0 <= k < tree_found(t).len() implies at_or_below(
        t.path,
        #[trigger] tree_found(t)[k],
    ) by {
        if k >= m.len() {
            assert(tree_found(t)[k] == f[k - m.len()]);
        }
    }
    assert forall|x: int, y: int| 0 <= x < y < tree_found(t).len() implies tree_found(t)[x]
        != tree_found(t)[y] by {
        if x < m.len() {
            assert(tree_found(t)[x] == t.path);
            assert(tree_found(t)[y] == f[y - m.len()]);
        } else {
            assert(tree_found(t)[x] == f[x - m.len()]);
            assert(tree_found(t)[y] == f[y - m.len()]);
        }
    }
}

/// On a tree shaped as a file system shapes it, the search finds each
/// directory at most once, and only the root or directories below it.
pub proof fn lemma_found_once_below_root(root: DirTree)
    requires
        tree_ok(root),
    ensures
        no_repeats(tree_found(root)),
        forall|k: int|
            0 <= k < tree_found(root).len() ==> at_or_below(
                root.path,
                #[trigger] tree_found(root)[k],
            ),
{
    lemma_tree_found_shape(root);
}

/// A finished search of a tree shaped as a file system shapes it has found
/// exactly the marked directories in depth-first pre-order, each once, all
/// at or below the root.
pub proof fn lemma_scan_result(s: Scanner, root: DirTree)
    requires
        in_step(s, Seq::<DirTree>::empty(), root),
        tree_ok(root),
    ensures
        s.found() == tree_found(root),
        no_repeats(s.found()),
        forall|k: int| 0 <= k < s.found().len() ==> at_or_below(root.path, #[trigger] s.found()[k]),
{
    lemma_scan_done(s, root);
    lemma_found_once_below_root(root);
}

// ---------------------------------------------------------------------------
// Which entries are entered, stated on the entries themselves
// ---------------------------------------------------------------------------

/// A name is hidden exactly when its first character is a dot; any other
/// name, whatever its first character, is not.
pub proof fn lemma_hidden_iff_leading_dot(name: Seq<char>)
    ensures
        is_hidden(name) <==> (name.len() > 0 && name[0] == '.'),
        name.len() == 0 || name[0] != '.' ==> !is_hidden(name),
{
}

/// The search enters a listed entry exactly when the entry could be read,
/// is a directory, and its name does not start with a dot.
pub proof fn lemma_descends_iff_visible_dir(e: Option<DirEntryInfo>)
    ensures
        descends_into(e) <==> (e is Some && e->0.is_dir && !(e->0.name@.len() > 0
            && e->0.name@[0] == '.')),
{
}

/// The subdirectories a listing leads to are the paths of its readable,
/// non-hidden directory entries, in listing order, and nothing else.
pub proof fn lemma_subdirs_in_listing_order(entries: Seq<Option<DirEntryInfo>>)
    ensures
        subdirs(entries) == entries.filter(
            |e: Option<DirEntryInfo>|
                e is Some && e->0.is_dir && !(e->0.name@.len() > 0 && e->0.name@[0] == '.'),
        ).map_values(|e: Option<DirEntryInfo>| e->0.path@),
    decreases entries.len(),
{
    reveal(Seq::filter);
    let pred = |e: Option<DirEntryInfo>|
        e is Some && e->0.is_dir && !(e->0.name@.len() > 0 && e->0.name@[0] == '.');
    let f = |e: Option<DirEntryInfo>| e->0.path@;
    if entries.len() == 0 {
        assert(entries.filter(pred).map_values(f) =~= Seq::<Seq<char>>::empty());
    } else {
        lemma_subdirs_in_listing_order(entries.drop_last());
        let init = entries.drop_last().filter(pred);
        if pred(entries.last()) {
            assert(entries.filter(pred) == init.push(entries.last()));
            assert(init.push(entries.last()).map_values(f) =~= init.map_values(f).push(
                f(entries.last()),
            ));
        } else {
            assert(entries.filter(pred) == init);
        }
    }
}

/// Reversing keeps the length and mirrors the positions.
pub proof fn lemma_reversed_mirrors<A>(s: Seq<A>)
    ensures
        reversed(s).len() == s.len(),
        forall|k: int| 0 <= k < s.len() ==> #[trigger] reversed(s)[k] == s[s.len() - 1 - k],
    decreases s.len(),
{
    if s.len() > 0 {
        lemma_reversed_mirrors(s.drop_first());
        assert forall|k: int| 0 <= k < s.len() implies #[trigger] reversed(s)[k] == s[s.len() - 1
            - k] by {
            if k < s.len() - 1 {
                assert(reversed(s)[k] == reversed(s.drop_first())[k]);
                assert(s.drop_first()[s.len() - 2 - k] == s[s.len() - 1 - k]);
            }
        }
    }
}

} // verus!
