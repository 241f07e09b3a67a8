//! The walk that reads everything below a directory.
use vstd::prelude::*;

verus! {

/// The glob by which a directory that the walk comes across is read.
pub const DIRECTORY_GLOB: &'static str = "**";

/// What a glob matched in one directory. `P` is the type of a path.
#[derive(Debug)]
pub enum DirectoryEntry<P> {
    File(P),
    Directory(P),
    Symlink(P),
    Other(P),
    Error,
}

/// The matches of a glob: those in the directory itself, and those in the
/// directories below it. `G` is the type of a glob that is being read.
#[derive(Debug)]
pub struct ReadGlobResult<P, G> {
    pub results: Vec<DirectoryEntry<P>>,
    pub inner: Vec<G>,
}

/// Something that the walk has yet to visit.
#[derive(Debug)]
pub enum Pending<P, G> {
    Glob(G),
    Entry(DirectoryEntry<P>),
}

/// Something to be read and waited for.
#[derive(Debug)]
pub enum WalkAction<P, G> {
    /// The matches of this glob, to be reported by [`DirDependency::glob_read`].
    ReadGlob(G),
    /// This file.
    ReadFile(P),
    /// This directory, by [`DIRECTORY_GLOB`]. The glob is to be reported by
    /// [`DirDependency::directory_read`].
    ReadDirectory(P),
    /// The target of this symbolic link.
    ReadLink(P),
    /// The type of this file system entry.
    GetType(P),
}

/// What visiting something begins with, if it takes any reading.
pub open spec fn action_for<P, G>(pending: Pending<P, G>) -> Option<WalkAction<P, G>> {
    match pending {
        Pending::Glob(glob) => Some(WalkAction::ReadGlob(glob)),
        Pending::Entry(DirectoryEntry::File(file)) => Some(WalkAction::ReadFile(file)),
        Pending::Entry(DirectoryEntry::Directory(dir)) => Some(WalkAction::ReadDirectory(dir)),
        Pending::Entry(DirectoryEntry::Symlink(symlink)) => Some(WalkAction::ReadLink(symlink)),
        Pending::Entry(DirectoryEntry::Other(other)) => Some(WalkAction::GetType(other)),
        Pending::Entry(DirectoryEntry::Error) => None,
    }
}

/// What is pending from the first thing on that takes any reading.
pub open spec fn from_first_action<P, G>(pending: Seq<Pending<P, G>>) -> Seq<Pending<P, G>>
    decreases pending.len(),
{
    if pending.len() > 0 && action_for(pending[0]) is None {
        from_first_action(pending.drop_first())
    } else {
        pending
    }
}

/// Between what was pending and what still is, there were only entries that could
/// not be read.
spec fn only_errors_before<P, G>(
    pending: Seq<Pending<P, G>>,
    rest: Seq<Pending<P, G>>,
) -> bool {
    let skipped = pending.len() - rest.len();
    &&& skipped >= 0
    &&& rest == pending.skip(skipped)
    &&& forall|i: int|
        0 <= i < skipped ==> #[trigger] pending[i] == Pending::<P, G>::Entry(DirectoryEntry::Error)
    &&& rest.len() > 0 ==> rest[0] != Pending::<P, G>::Entry(DirectoryEntry::Error)
}

/// What takes no action is exactly an entry that could not be read, and only such
/// entries are passed over on the way to the next action.
proof fn lemma_only_errors_are_skipped<P, G>(pending: Seq<Pending<P, G>>)
    ensures
        only_errors_before(pending, from_first_action(pending)),
    decreases pending.len(),
{
    if pending.len() > 0 && action_for(pending[0]) is None {
        let rest = pending.drop_first();
        lemma_only_errors_are_skipped(rest);
        let skipped = rest.len() - from_first_action(rest).len();
        assert(rest.skip(skipped) =~= pending.skip(skipped + 1));
        assert forall|i: int| 0 <= i < skipped + 1 implies #[trigger] pending[i] == Pending::<
            P,
            G,
        >::Entry(DirectoryEntry::Error) by {
            if i > 0 {
                assert(pending[i] == rest[i - 1]);
            }
        }
    } else {
        assert(pending.skip(0) =~= pending);
    }
}

/// What the matches of a glob give to visit: first the directories below, then
/// the directory itself.
pub open spec fn opened<P, G>(
    results: Seq<DirectoryEntry<P>>,
    inner: Seq<G>,
) -> Seq<Pending<P, G>> {
    inner.map_values(|glob: G| Pending::<P, G>::Glob(glob)) + results.map_values(
        |entry: DirectoryEntry<P>| Pending::<P, G>::Entry(entry),
    )
}

/// A walk under way. What it has yet to visit is kept with the next thing at the
/// end.
#[derive(Debug)]
pub struct DirDependency<P, G> {
    pending: Vec<Pending<P, G>>,
}

impl<P, G> View for DirDependency<P, G> {
    type V = Seq<Pending<P, G>>;

    /// What the walk has yet to visit, in order.
    closed spec fn view(&self) -> Seq<Pending<P, G>> {
        self.pending@.reverse()
    }
}

/// A hack to invalidate when any file in a directory changes: begins a walk over
/// everything that a glob matches. Need to be completed before files are
/// accessed.
pub fn dir_dependency<P, G>(glob: G) -> (walk: DirDependency<P, G>)
    ensures
        walk@ == seq![Pending::<P, G>::Glob(glob)],
{
    let mut pending: Vec<Pending<P, G>> = Vec::new();
    pending.push(Pending::Glob(glob));
    let walk = DirDependency { pending };
    assert(walk@ =~= seq![Pending::<P, G>::Glob(glob)]);
    walk
}

impl<P, G> DirDependency<P, G> {
    /// The next thing to read, or `None` when the walk is complete.
    pub fn next_action(&mut self) -> (action: Option<WalkAction<P, G>>)
        ensures
            ({
                let visited = from_first_action(old(self)@);
                if visited.len() == 0 {
                    action is None && final(self)@ == visited
                } else {
                    action == action_for(visited[0]) && final(self)@ == visited.drop_first()
                }
            }),
            action is None ==> final(self)@.len() == 0 && forall|i: int|
                0 <= i < old(self)@.len() ==> #[trigger] old(self)@[i] == Pending::<P, G>::Entry(
                    DirectoryEntry::Error,
                ),
            action matches Some(action) ==> ({
                let skipped = old(self)@.len() - final(self)@.len() - 1;
                &&& skipped >= 0
                &&& forall|i: int|
                    0 <= i < skipped ==> #[trigger] old(self)@[i] == Pending::<P, G>::Entry(
                        DirectoryEntry::Error,
                    )
                &&& final(self)@ == old(self)@.skip(skipped + 1)
                &&& match old(self)@[skipped] {
                    Pending::Glob(glob) => action == WalkAction::<P, G>::ReadGlob(glob),
                    Pending::Entry(DirectoryEntry::File(file)) => action == WalkAction::<
                        P,
                        G,
                    >::ReadFile(file),
                    Pending::Entry(DirectoryEntry::Directory(dir)) => action == WalkAction::<
                        P,
                        G,
                    >::ReadDirectory(dir),
                    Pending::Entry(DirectoryEntry::Symlink(symlink)) => action == WalkAction::<
                        P,
                        G,
                    >::ReadLink(symlink),
                    Pending::Entry(DirectoryEntry::Other(other)) => action == WalkAction::<
                        P,
                        G,
                    >::GetType(other),
                    Pending::Entry(DirectoryEntry::Error) => false,
                }
            }),
    {
        proof {
            lemma_only_errors_are_skipped(self@);
        }
        loop
            invariant
                from_first_action(self@) == from_first_action(old(self)@),
                only_errors_before(old(self)@, from_first_action(old(self)@)),
            decreases self.pending.len(),
        {
            let ghost before = self@;
            match self.pending.pop() {
                None => {
                    return None;
                },
                Some(pending) => {
                    assert(before[0] == pending);
                    assert(self@ =~= before.drop_first());
                    match pending {
                        Pending::Glob(glob) => {
                            return Some(WalkAction::ReadGlob(glob));
                        },
                        Pending::Entry(DirectoryEntry::File(file)) => {
                            return Some(WalkAction::ReadFile(file));
                        },
                        Pending::Entry(DirectoryEntry::Directory(dir)) => {
                            return Some(WalkAction::ReadDirectory(dir));
                        },
                        Pending::Entry(DirectoryEntry::Symlink(symlink)) => {
                            return Some(WalkAction::ReadLink(symlink));
                        },
                        Pending::Entry(DirectoryEntry::Other(other)) => {
                            return Some(WalkAction::GetType(other));
                        },
                        Pending::Entry(DirectoryEntry::Error) => {},
                    }
                },
            }
        }
    }

    /// Takes in the matches of a glob.
    pub fn glob_read(&mut self, glob: ReadGlobResult<P, G>)
        ensures
            final(self)@ == opened(glob.results@, glob.inner@) + old(self)@,
            final(self)@.len() == glob.inner@.len() + glob.results@.len() + old(self)@.len(),
            forall|i: int|
                0 <= i < glob.inner@.len() ==> final(self)@[i] == Pending::<P, G>::Glob(
                    #[trigger] glob.inner@[i],
                ),
            forall|i: int|
                0 <= i < glob.results@.len() ==> final(self)@[glob.inner@.len() + i] == Pending::<
                    P,
                    G,
                >::Entry(#[trigger] glob.results@[i]),
            forall|i: int|
                0 <= i < old(self)@.len() ==> final(self)@[glob.inner@.len() + glob.results@.len()
                    + i] == #[trigger] old(self)@[i],
    {
        let ReadGlobResult { results, inner } = glob;
        let ghost entries = results@.map_values(
            |entry: DirectoryEntry<P>| Pending::<P, G>::Entry(entry),
        );
        self.dir_dependency_shallow(results);
        let mut rest = inner;
        let ghost globs = rest@.map_values(|glob: G| Pending::<P, G>::Glob(glob));
        while rest.len() > 0
            invariant
                rest@.map_values(|glob: G| Pending::<P, G>::Glob(glob)) + self@ == globs + entries
                    + old(self)@,
            decreases rest.len(),
        {
            let ghost before = rest@.map_values(|glob: G| Pending::<P, G>::Glob(glob)) + self@;
            if let Some(glob) = rest.pop() {
                self.pending.push(Pending::Glob(glob));
            }
            assert(rest@.map_values(|glob: G| Pending::<P, G>::Glob(glob)) + self@ =~= before);
        }
        assert(rest@.map_values(|glob: G| Pending::<P, G>::Glob(glob)) + self@ =~= self@);
    }

    /// Takes in what a glob matched in the directory itself.
    fn dir_dependency_shallow(&mut self, results: Vec<DirectoryEntry<P>>)
        ensures
            final(self)@ == results@.map_values(
                |entry: DirectoryEntry<P>| Pending::<P, G>::Entry(entry),
            ) + old(self)@,
    {
        let mut rest = results;
        let ghost entries = rest@.map_values(
            |entry: DirectoryEntry<P>| Pending::<P, G>::Entry(entry),
        );
        while rest.len() > 0
            invariant
                rest@.map_values(|entry: DirectoryEntry<P>| Pending::<P, G>::Entry(entry)) + self@
                    == entries + old(self)@,
            decreases rest.len(),
        {
            let ghost before = rest@.map_values(
                |entry: DirectoryEntry<P>| Pending::<P, G>::Entry(entry),
            ) + self@;
            if let Some(entry) = rest.pop() {
                self.pending.push(Pending::Entry(entry));
            }
            assert(rest@.map_values(|entry: DirectoryEntry<P>| Pending::<P, G>::Entry(entry)) + self@
                =~= before);
        }
        assert(rest@.map_values(|entry: DirectoryEntry<P>| Pending::<P, G>::Entry(entry)) + self@
            =~= self@);
    }

    /// Takes in the glob by which a directory is being read.
    pub fn directory_read(&mut self, glob: G)
        ensures
            final(self)@ == seq![Pending::<P, G>::Glob(glob)] + old(self)@,
    {
        self.pending.push(Pending::Glob(glob));
        assert(self@ =~= seq![Pending::<P, G>::Glob(glob)] + old(self)@);
    }
}

/// A file system as a walk finds it.
#[verifier::reject_recursive_types(P)]
#[verifier::reject_recursive_types(G)]
pub struct FileTree<P, G> {
    /// What a glob matches, in the directory itself and below it.
    pub matches: spec_fn(G) -> (Seq<DirectoryEntry<P>>, Seq<G>),
    /// The glob by which a directory is read.
    pub listing: spec_fn(P) -> G,
    /// How deep the matches of a glob are nested, at most.
    pub depth: spec_fn(G) -> nat,
}

impl<P, G> FileTree<P, G> {
    /// What a glob gives to visit.
    pub open spec fn opened(self, glob: G) -> Seq<Pending<P, G>> {
        opened((self.matches)(glob).0, (self.matches)(glob).1)
    }

    /// How deep the things below something are nested, at most.
    pub open spec fn height(self, pending: Pending<P, G>) -> nat {
        match pending {
            Pending::Glob(glob) => 2 * (self.depth)(glob) + 2,
            Pending::Entry(DirectoryEntry::Directory(dir)) => 2 * (self.depth)((self.listing)(dir)) + 3,
            Pending::Entry(_) => 0,
        }
    }

    /// Directories are nested to a finite depth.
    pub open spec fn is_finite(self) -> bool {
        forall|glob: G, i: int|
            0 <= i < self.opened(glob).len() ==> self.height(#[trigger] self.opened(glob)[i])
                < self.height(Pending::Glob(glob))
    }

    /// Everything that is read to visit something, in order: a directory comes
    /// before what its glob matches.
    pub open spec fn reads(self, pending: Pending<P, G>) -> Seq<WalkAction<P, G>>
        decreases 2 * self.height(pending) + 1, 0nat,
        when self.is_finite()
    {
        let below = match pending {
            Pending::Glob(glob) => self.reads_below(
                self.opened(glob),
                self.height(Pending::Glob(glob)),
            ),
            Pending::Entry(DirectoryEntry::Directory(dir)) => self.reads(
                Pending::Glob((self.listing)(dir)),
            ),
            _ => Seq::empty(),
        };
        match action_for(pending) {
            Some(action) => seq![action] + below,
            None => Seq::empty(),
        }
    }

    /// Everything that is read to visit several things below some height.
    pub open spec fn reads_below(self, pending: Seq<Pending<P, G>>, height: nat) -> Seq<
        WalkAction<P, G>,
    >
        decreases 2 * height, pending.len(),
        when self.is_finite() && forall|i: int|
            0 <= i < pending.len() ==> self.height(#[trigger] pending[i]) < height
    {
        if pending.len() == 0 {
            Seq::empty()
        } else {
            self.reads(pending[0]) + self.reads_below(pending.drop_first(), height)
        }
    }

    /// Everything that is read to visit several things, one after the other.
    pub open spec fn reads_all(self, pending: Seq<Pending<P, G>>) -> Seq<WalkAction<P, G>>
        decreases pending.len(),
    {
        if pending.len() == 0 {
            Seq::empty()
        } else {
            self.reads(pending[0]) + self.reads_all(pending.drop_first())
        }
    }

    /// What a walk has yet to visit after its next action has been performed and
    /// reported.
    pub open spec fn after_action(self, pending: Seq<Pending<P, G>>) -> Seq<Pending<P, G>> {
        let visited = from_first_action(pending);
        if visited.len() == 0 {
            visited
        } else {
            match visited[0] {
                Pending::Glob(glob) => self.opened(glob) + visited.drop_first(),
                Pending::Entry(DirectoryEntry::Directory(dir)) => seq![
                    Pending::<P, G>::Glob((self.listing)(dir)),
                ] + visited.drop_first(),
                Pending::Entry(_) => visited.drop_first(),
            }
        }
    }

    /// The actions of a walk until it is complete, but no more than a number.
    pub open spec fn walk(self, pending: Seq<Pending<P, G>>, limit: nat) -> Seq<WalkAction<P, G>>
        decreases limit,
    {
        let visited = from_first_action(pending);
        if limit == 0 || visited.len() == 0 {
            Seq::empty()
        } else {
            seq![action_for(visited[0])->0] + self.walk(
                self.after_action(pending),
                (limit - 1) as nat,
            )
        }
    }
}

/// The height that bounds a sequence does not matter to what is read.
proof fn lemma_reads_below<P, G>(tree: FileTree<P, G>, pending: Seq<Pending<P, G>>, height: nat)
    requires
        tree.is_finite(),
        forall|i: int| 0 <= i < pending.len() ==> tree.height(#[trigger] pending[i]) < height,
    ensures
        tree.reads_below(pending, height) == tree.reads_all(pending),
    decreases pending.len(),
{
    if pending.len() > 0 {
        let rest = pending.drop_first();
        assert forall|i: int| 0 <= i < rest.len() implies tree.height(#[trigger] rest[i]) < height by {
            assert(rest[i] == pending[i + 1]);
        }
        lemma_reads_below(tree, rest, height);
    }
}

/// What is read for a glob: its matches, then everything that they give to visit.
pub proof fn law_glob_reads<P, G>(tree: FileTree<P, G>, glob: G)
    requires
        tree.is_finite(),
    ensures
        tree.reads(Pending::Glob(glob)) == seq![WalkAction::<P, G>::ReadGlob(glob)] + tree.reads_all(
            tree.opened(glob),
        ),
{
    lemma_reads_below(tree, tree.opened(glob), tree.height(Pending::Glob(glob)));
}

/// To visit two sequences one after the other reads what the first takes, then
/// what the second takes.
pub proof fn law_reads_concat<P, G>(
    tree: FileTree<P, G>,
    a: Seq<Pending<P, G>>,
    b: Seq<Pending<P, G>>,
)
    requires
        tree.is_finite(),
    ensures
        tree.reads_all(a + b) == tree.reads_all(a) + tree.reads_all(b),
    decreases a.len(),
{
    if a.len() == 0 {
        assert(a + b =~= b);
        assert(tree.reads_all(a) + tree.reads_all(b) =~= tree.reads_all(b));
    } else {
        assert((a + b).drop_first() =~= a.drop_first() + b);
        law_reads_concat(tree, a.drop_first(), b);
        assert(tree.reads_all(a + b) =~= tree.reads_all(a) + tree.reads_all(b));
    }
}

/// Entries that could not be read take no action.
proof fn lemma_from_first_action<P, G>(tree: FileTree<P, G>, pending: Seq<Pending<P, G>>)
    requires
        tree.is_finite(),
    ensures
        tree.reads_all(from_first_action(pending)) == tree.reads_all(pending),
        from_first_action(pending).len() > 0 ==> action_for(from_first_action(pending)[0]) is Some,
        from_first_action(from_first_action(pending)) == from_first_action(pending),
    decreases pending.len(),
{
    if pending.len() > 0 && action_for(pending[0]) is None {
        lemma_from_first_action(tree, pending.drop_first());
        assert(tree.reads(pending[0]) =~= Seq::empty());
        assert(tree.reads_all(pending) =~= tree.reads_all(pending.drop_first()));
    }
}

/// Each action of a walk is the next of the reads that are due, and leaves the
/// others due. The walk is complete exactly when none is due.
pub proof fn law_walk_step<P, G>(tree: FileTree<P, G>, pending: Seq<Pending<P, G>>)
    requires
        tree.is_finite(),
    ensures
        ({
            let visited = from_first_action(pending);
            if visited.len() == 0 {
                tree.reads_all(pending) == Seq::<WalkAction<P, G>>::empty()
            } else {
                &&& action_for(visited[0]) is Some
                &&& tree.reads_all(pending) == seq![action_for(visited[0])->0] + tree.reads_all(
                    tree.after_action(pending),
                )
            }
        }),
{
    lemma_from_first_action(tree, pending);
    let visited = from_first_action(pending);
    if visited.len() > 0 {
        let rest = visited.drop_first();
        let first = seq![action_for(visited[0])->0];
        match visited[0] {
            Pending::Glob(glob) => {
                law_glob_reads(tree, glob);
                law_reads_concat(tree, tree.opened(glob), rest);
            },
            Pending::Entry(DirectoryEntry::Directory(dir)) => {
                let listed = seq![Pending::<P, G>::Glob((tree.listing)(dir))];
                law_reads_concat(tree, listed, rest);
                assert(tree.reads_all(listed.drop_first()) =~= Seq::empty());
                assert(tree.reads_all(listed) =~= tree.reads(listed[0]));
            },
            _ => {},
        }
        assert(tree.reads_all(visited) =~= first + tree.reads_all(tree.after_action(pending)));
    }
}

/// A walk over a finite file system comes to its end. By then it has read
/// everything that is due, each thing once and in order, and nothing else.
pub proof fn law_walk_reads_everything<P, G>(
    tree: FileTree<P, G>,
    pending: Seq<Pending<P, G>>,
    limit: nat,
)
    requires
        tree.is_finite(),
        limit >= tree.reads_all(pending).len(),
    ensures
        tree.walk(pending, limit) == tree.reads_all(pending),
    decreases limit,
{
    law_walk_step(tree, pending);
    if from_first_action(pending).len() > 0 {
        law_walk_reads_everything(tree, tree.after_action(pending), (limit - 1) as nat);
        assert(tree.walk(pending, limit) =~= tree.reads_all(pending));
    }
}


/// What visiting something begins with, by its kind. Only an entry that could not
/// be read takes nothing.
pub proof fn law_visit_begins_by_kind<P, G>(glob: G, path: P, pending: Pending<P, G>)
    ensures
        action_for(Pending::<P, G>::Glob(glob)) == Some(WalkAction::<P, G>::ReadGlob(glob)),
        action_for(Pending::<P, G>::Entry(DirectoryEntry::File(path))) == Some(
            WalkAction::<P, G>::ReadFile(path),
        ),
        action_for(Pending::<P, G>::Entry(DirectoryEntry::Directory(path))) == Some(
            WalkAction::<P, G>::ReadDirectory(path),
        ),
        action_for(Pending::<P, G>::Entry(DirectoryEntry::Symlink(path))) == Some(
            WalkAction::<P, G>::ReadLink(path),
        ),
        action_for(Pending::<P, G>::Entry(DirectoryEntry::Other(path))) == Some(
            WalkAction::<P, G>::GetType(path),
        ),
        action_for(pending) is None <==> pending == Pending::<P, G>::Entry(DirectoryEntry::Error),
{
}

/// The way to the next action passes over entries that could not be read, and over
/// nothing else.
pub proof fn law_only_unreadable_entries_are_passed_over<P, G>(pending: Seq<Pending<P, G>>)
    ensures
        ({
            let rest = from_first_action(pending);
            let passed = pending.len() - rest.len();
            &&& passed >= 0
            &&& rest == pending.skip(passed)
            &&& forall|i: int|
                0 <= i < passed ==> #[trigger] pending[i] == Pending::<P, G>::Entry(
                    DirectoryEntry::Error,
                )
            &&& rest.len() > 0 ==> rest[0] != Pending::<P, G>::Entry(DirectoryEntry::Error)
        }),
{
    lemma_only_errors_are_skipped(pending);
}

/// The matches of a glob are all visited, whatever and however many they are:
/// each directory below as a glob, then each match in the directory itself as an
/// entry, in order, and nothing else.
pub proof fn law_all_matches_are_visited<P, G>(results: Seq<DirectoryEntry<P>>, inner: Seq<G>)
    ensures
        opened(results, inner).len() == inner.len() + results.len(),
        forall|i: int|
            0 <= i < inner.len() ==> opened(results, inner)[i] == Pending::<P, G>::Glob(
                #[trigger] inner[i],
            ),
        forall|i: int|
            0 <= i < results.len() ==> opened(results, inner)[inner.len() + i] == Pending::<
                P,
                G,
            >::Entry(#[trigger] results[i]),
{
}

/// Whatever is read for one of several things is read for all of them.
proof fn lemma_reads_all_contains<P, G>(
    tree: FileTree<P, G>,
    pending: Seq<Pending<P, G>>,
    at: int,
    action: WalkAction<P, G>,
)
    requires
        tree.is_finite(),
        0 <= at < pending.len(),
        tree.reads(pending[at]).contains(action),
    ensures
        tree.reads_all(pending).contains(action),
    decreases pending.len(),
{
    let first = tree.reads(pending[0]);
    let rest = tree.reads_all(pending.drop_first());
    if at == 0 {
        let k = choose|k: int| 0 <= k < first.len() && first[k] == action;
        assert((first + rest)[k] == action);
    } else {
        assert(pending.drop_first()[at - 1] == pending[at]);
        lemma_reads_all_contains(tree, pending.drop_first(), at - 1, action);
        let k = choose|k: int| 0 <= k < rest.len() && rest[k] == action;
        assert((first + rest)[first.len() + k] == action);
    }
}

/// What is read for an entry, by its kind: a file, a link or another entry once,
/// a directory and then what its glob takes, and nothing for an entry that could
/// not be read.
pub proof fn law_entry_reads<P, G>(tree: FileTree<P, G>, path: P)
    requires
        tree.is_finite(),
    ensures
        tree.reads(Pending::Entry(DirectoryEntry::File(path))) == seq![
            WalkAction::<P, G>::ReadFile(path),
        ],
        tree.reads(Pending::Entry(DirectoryEntry::Symlink(path))) == seq![
            WalkAction::<P, G>::ReadLink(path),
        ],
        tree.reads(Pending::Entry(DirectoryEntry::Other(path))) == seq![
            WalkAction::<P, G>::GetType(path),
        ],
        tree.reads(Pending::Entry(DirectoryEntry::Directory(path))) == seq![
            WalkAction::<P, G>::ReadDirectory(path),
        ] + tree.reads(Pending::Glob((tree.listing)(path))),
        tree.reads(Pending::Entry(DirectoryEntry::Error)).len() == 0,
{
    let none = Seq::<WalkAction<P, G>>::empty();
    assert(seq![WalkAction::<P, G>::ReadFile(path)] + none =~= seq![
        WalkAction::<P, G>::ReadFile(path),
    ]);
    assert(seq![WalkAction::<P, G>::ReadLink(path)] + none =~= seq![
        WalkAction::<P, G>::ReadLink(path),
    ]);
    assert(seq![WalkAction::<P, G>::GetType(path)] + none =~= seq![
        WalkAction::<P, G>::GetType(path),
    ]);
}

/// Reading a glob reads its own matches, then every directory below, and every
/// match in the directory itself, each by its kind. What a
/// directory holds does not keep those below it from being read.
pub proof fn law_glob_reads_all_its_matches<P, G>(tree: FileTree<P, G>, glob: G)
    requires
        tree.is_finite(),
    ensures
        tree.reads(Pending::Glob(glob)).len() > 0,
        tree.reads(Pending::Glob(glob))[0] == WalkAction::<P, G>::ReadGlob(glob),
        forall|i: int|
            0 <= i < (tree.matches)(glob).1.len() ==> tree.reads(Pending::Glob(glob)).contains(
                WalkAction::<P, G>::ReadGlob(#[trigger] (tree.matches)(glob).1[i]),
            ),
        forall|i: int|
            0 <= i < (tree.matches)(glob).0.len() ==> (match #[trigger] (tree.matches)(glob).0[i] {
                DirectoryEntry::File(file) => tree.reads(Pending::Glob(glob)).contains(
                    WalkAction::<P, G>::ReadFile(file),
                ),
                DirectoryEntry::Directory(dir) => tree.reads(Pending::Glob(glob)).contains(
                    WalkAction::<P, G>::ReadDirectory(dir),
                ) && tree.reads(Pending::Glob(glob)).contains(
                    WalkAction::<P, G>::ReadGlob((tree.listing)(dir)),
                ),
                DirectoryEntry::Symlink(symlink) => tree.reads(Pending::Glob(glob)).contains(
                    WalkAction::<P, G>::ReadLink(symlink),
                ),
                DirectoryEntry::Other(other) => tree.reads(Pending::Glob(glob)).contains(
                    WalkAction::<P, G>::GetType(other),
                ),
                DirectoryEntry::Error => true,
            }),
{
    let results = (tree.matches)(glob).0;
    let inner = (tree.matches)(glob).1;
    let visited = tree.opened(glob);
    let all = tree.reads_all(visited);
    let reads = tree.reads(Pending::Glob(glob));
    law_glob_reads(tree, glob);
    law_all_matches_are_visited(results, inner);
    assert forall|at: int, action: WalkAction<P, G>|
        0 <= at < visited.len() && #[trigger] tree.reads(visited[at]).contains(
            action,
        ) implies reads.contains(action) by {
        lemma_reads_all_contains(tree, visited, at, action);
        let k = choose|k: int| 0 <= k < all.len() && all[k] == action;
        assert(reads[k + 1] == action);
    }
    assert forall|i: int| 0 <= i < inner.len() implies reads.contains(
        WalkAction::<P, G>::ReadGlob(#[trigger] inner[i]),
    ) by {
        law_glob_reads(tree, inner[i]);
        assert(visited[i] == Pending::<P, G>::Glob(inner[i]));
        assert(tree.reads(visited[i])[0] == WalkAction::<P, G>::ReadGlob(inner[i]));
        assert(tree.reads(visited[i]).contains(WalkAction::<P, G>::ReadGlob(inner[i])));
    }
    assert forall|i: int| 0 <= i < results.len() implies (match #[trigger] results[i] {
        DirectoryEntry::File(file) => reads.contains(WalkAction::<P, G>::ReadFile(file)),
        DirectoryEntry::Directory(dir) => reads.contains(WalkAction::<P, G>::ReadDirectory(dir))
            && reads.contains(WalkAction::<P, G>::ReadGlob((tree.listing)(dir))),
        DirectoryEntry::Symlink(symlink) => reads.contains(WalkAction::<P, G>::ReadLink(symlink)),
        DirectoryEntry::Other(other) => reads.contains(WalkAction::<P, G>::GetType(other)),
        DirectoryEntry::Error => true,
    }) by {
        let at = inner.len() + i;
        assert(visited[at] == Pending::<P, G>::Entry(results[i]));
        let own = tree.reads(visited[at]);
        match results[i] {
            DirectoryEntry::File(path) => {
                law_entry_reads(tree, path);
                assert(own[0] == WalkAction::<P, G>::ReadFile(path));
                assert(own.contains(WalkAction::<P, G>::ReadFile(path)));
            },
            DirectoryEntry::Directory(path) => {
                law_entry_reads(tree, path);
                law_glob_reads(tree, (tree.listing)(path));
                assert(own[0] == WalkAction::<P, G>::ReadDirectory(path));
                assert(own.contains(WalkAction::<P, G>::ReadDirectory(path)));
                assert(own[1] == WalkAction::<P, G>::ReadGlob((tree.listing)(path)));
                assert(own.contains(WalkAction::<P, G>::ReadGlob((tree.listing)(path))));
            },
            DirectoryEntry::Symlink(path) => {
                law_entry_reads(tree, path);
                assert(own[0] == WalkAction::<P, G>::ReadLink(path));
                assert(own.contains(WalkAction::<P, G>::ReadLink(path)));
            },
            DirectoryEntry::Other(path) => {
                law_entry_reads(tree, path);
                assert(own[0] == WalkAction::<P, G>::GetType(path));
                assert(own.contains(WalkAction::<P, G>::GetType(path)));
            },
            DirectoryEntry::Error => {},
        }
    }
}

/// A directory below a glob is read with everything that it takes itself.
pub proof fn law_inner_reads_are_reads<P, G>(
    tree: FileTree<P, G>,
    glob: G,
    at: int,
    action: WalkAction<P, G>,
)
    requires
        tree.is_finite(),
        0 <= at < (tree.matches)(glob).1.len(),
        tree.reads(Pending::Glob((tree.matches)(glob).1[at])).contains(action),
    ensures
        tree.reads(Pending::Glob(glob)).contains(action),
{
    let visited = tree.opened(glob);
    let all = tree.reads_all(visited);
    law_glob_reads(tree, glob);
    law_all_matches_are_visited((tree.matches)(glob).0, (tree.matches)(glob).1);
    assert(visited[at] == Pending::<P, G>::Glob((tree.matches)(glob).1[at]));
    lemma_reads_all_contains(tree, visited, at, action);
    let k = choose|k: int| 0 <= k < all.len() && all[k] == action;
    assert(tree.reads(Pending::Glob(glob))[k + 1] == action);
}


/// A directory is read by the glob that matches everything below it.
pub proof fn law_directories_are_read_whole()
    ensures
        DIRECTORY_GLOB@ == seq!['*', '*'],
{
    reveal_strlit("**");
    assert("**"@ =~= seq!['*', '*']);
}

}
