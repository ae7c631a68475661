//! The search for repository roots, level by level, and the reading of a
//! repository's head pointer.
//!
//! The library never touches the disk. The caller lists the directory that a
//! [`Search`] asks for and hands the listing back; the search decides what to
//! record and what to ask for next.

use crate::config::CliArgs;
use crate::text::{chars_of, find, find_from, texts};
use vstd::prelude::*;
use vstd::string::*;

verus! {

/// One entry of a directory listing, as the caller read it.
pub struct Entry {
    /// The entry's full path.
    pub path: String,
    /// The entry's base name.
    pub name: String,
    /// Whether the entry is a directory.
    pub is_dir: bool,
}

/// The mathematical value of an [`Entry`].
pub struct EntryView {
    pub path: Seq<char>,
    pub name: Seq<char>,
    pub is_dir: bool,
}

impl View for Entry {
    type V = EntryView;

    open spec fn view(&self) -> EntryView {
        EntryView { path: self.path@, name: self.name@, is_dir: self.is_dir }
    }
}

/// A directory met by the search.
pub enum DirType {
    /// A directory that the search may still descend into.
    NormalDir(String),
    /// A repository root: recorded, never descended into.
    GitDir(String),
}

/// The mathematical value of a [`DirType`].
pub enum DirKind {
    NormalDir(Seq<char>),
    GitDir(Seq<char>),
}

impl View for DirType {
    type V = DirKind;

    open spec fn view(&self) -> DirKind {
        match self {
            DirType::NormalDir(p) => DirKind::NormalDir(p@),
            DirType::GitDir(p) => DirKind::GitDir(p@),
        }
    }
}

/// A repository root with the branch checked out in it.
pub struct SeekRes {
    /// The repository root.
    pub dir: String,
    /// The branch name; empty where none could be read.
    pub git_ref: String,
}

/// A directory that could not be listed.
pub struct DirectoryReadError {
    /// The directory that the search had asked for.
    pub path: String,
    /// What the caller reported as the cause.
    pub cause: String,
}

/// The values of a listing's entries.
pub open spec fn entries(v: Seq<Entry>) -> Seq<EntryView> {
    Seq::new(v.len(), |i: int| v[i]@)
}

/// The values of a vector of directories.
pub open spec fn kinds(v: Seq<DirType>) -> Seq<DirKind> {
    Seq::new(v.len(), |i: int| v[i]@)
}

/// The name of the metadata directory that marks a repository root.
pub open spec fn marker_name() -> Seq<char> {
    ".git"@
}

/// An entry survives the filter: it is a directory and its base name is not
/// ignored.
pub open spec fn kept(e: EntryView, ignore: Seq<Seq<char>>) -> bool {
    e.is_dir && !ignore.contains(e.name)
}

/// The filtered listing holds the marker.
pub open spec fn has_marker(listing: Seq<EntryView>, ignore: Seq<Seq<char>>) -> bool {
    exists|i: int|
        0 <= i < listing.len() && kept(#[trigger] listing[i], ignore) && listing[i].name
            == marker_name()
}

/// The entries that survive the filter, in listing order, each as a plain
/// directory.
pub open spec fn children(listing: Seq<EntryView>, ignore: Seq<Seq<char>>) -> Seq<DirKind>
    decreases listing.len(),
{
    if listing.len() == 0 {
        Seq::empty()
    } else {
        let before = children(listing.drop_last(), ignore);
        if kept(listing.last(), ignore) {
            before.push(DirKind::NormalDir(listing.last().path))
        } else {
            before
        }
    }
}

/// What a directory with the given listing is: a repository root by itself,
/// or the plain directories below it.
pub open spec fn classify(dir: Seq<char>, listing: Seq<EntryView>, ignore: Seq<Seq<char>>) -> Seq<
    DirKind,
> {
    if has_marker(listing, ignore) {
        seq![DirKind::GitDir(dir)]
    } else {
        children(listing, ignore)
    }
}

/// Whether `list` holds `name`.
pub fn is_ignored(list: &Vec<String>, name: &String) -> (b: bool)
    ensures
        b == texts(list@).contains(name@),
{
    let mut i: usize = 0;
    while i < list.len()
        invariant
            i <= list.len(),
            forall|j: int| 0 <= j < i ==> texts(list@)[j] != name@,
        decreases list.len() - i,
    {
        if list[i] == *name {
            assert(texts(list@)[i as int] == name@);
            return true;
        }
        i += 1;
    }
    false
}

/// Classifies the directory `tar_dir` from its listing: entries that are no
/// directories or whose base name is ignored are dropped; if the marker is
/// among the rest, the directory is a repository root, else the rest are the
/// directories to descend into.
pub fn get_dir_list(args: &CliArgs, tar_dir: &String, listing: &Vec<Entry>) -> (out: Vec<DirType>)
    ensures
        kinds(out@) == classify(tar_dir@, entries(listing@), texts(args.ignore_list@)),
{
    let marker = ".git".to_owned();
    let ghost ignore = texts(args.ignore_list@);
    let ghost all = entries(listing@);
    let mut kids: Vec<DirType> = Vec::new();
    let mut is_root = false;
    let mut i: usize = 0;
    assert(all.subrange(0, 0) =~= Seq::<EntryView>::empty());
    assert(kinds(kids@) =~= Seq::<DirKind>::empty());
    while i < listing.len()
        invariant
            i <= listing.len(),
            all == entries(listing@),
            ignore == texts(args.ignore_list@),
            marker@ == marker_name(),
            kinds(kids@) == children(all.subrange(0, i as int), ignore),
            is_root == has_marker(all.subrange(0, i as int), ignore),
        decreases listing.len() - i,
    {
        let e = &listing[i];
        let ghost prefix = all.subrange(0, i as int);
        let ghost longer = all.subrange(0, i + 1);
        let ghost old_kids = kinds(kids@);
        assert(longer.drop_last() =~= prefix);
        assert(longer.last() == e@);
        let keep = e.is_dir && !is_ignored(&args.ignore_list, &e.name);
        if keep {
            if e.name == marker {
                is_root = true;
            }
            kids.push(DirType::NormalDir(e.path.clone()));
            assert(kinds(kids@) =~= old_kids.push(DirKind::NormalDir(e@.path)));
        }
        proof {
            if has_marker(prefix, ignore) {
                let k = choose|k: int|
                    0 <= k < prefix.len() && kept(#[trigger] prefix[k], ignore) && prefix[k].name
                        == marker_name();
                assert(longer[k] == prefix[k]);
            }
            if has_marker(longer, ignore) && !is_root {
                let k = choose|k: int|
                    0 <= k < longer.len() && kept(#[trigger] longer[k], ignore) && longer[k].name
                        == marker_name();
                assert(k < i);
                assert(prefix[k] == longer[k]);
            }
            if keep && e@.name == marker_name() {
                assert(kept(longer[i as int], ignore));
            }
        }
        i += 1;
    }
    assert(all.subrange(0, i as int) =~= all);
    if is_root {
        let mut out: Vec<DirType> = Vec::new();
        out.push(DirType::GitDir(tar_dir.clone()));
        assert(kinds(out@) =~= seq![DirKind::GitDir(tar_dir@)]);
        out
    } else {
        kids
    }
}

/// The text without one trailing line end, `"\r\n"` or `"\n"`.
pub open spec fn strip_line_end(s: Seq<char>) -> Seq<char> {
    let n = s.len() as int;
    if n >= 2 && s[n - 2] == '\r' && s[n - 1] == '\n' {
        s.subrange(0, n - 2)
    } else if n >= 1 && s[n - 1] == '\n' {
        s.subrange(0, n - 1)
    } else {
        s
    }
}

/// What stands before the branch name in a symbolic head pointer.
pub open spec fn head_marker() -> Seq<char> {
    "ref: refs/heads/"@
}

/// The branch that a head pointer names: what follows the first marker, up
/// to the next marker if there is one; empty where the pointer holds no
/// marker.
pub open spec fn branch_of(head: Seq<char>) -> Seq<char> {
    let t = strip_line_end(head);
    let m = head_marker();
    match find_from(t, m, 0) {
        None => Seq::empty(),
        Some(i) => {
            let start = i + m.len();
            match find_from(t, m, start) {
                None => t.subrange(start, t.len() as int),
                Some(j) => t.subrange(start, j),
            }
        },
    }
}

/// Reads the branch name out of the text of a head pointer.
pub fn get_git_ref(head: &str) -> (branch: String)
    ensures
        branch@ == branch_of(head@),
{
    let mut chars = chars_of(head);
    let pat = chars_of("ref: refs/heads/");
    let n: usize = chars.len();
    let end: usize = if n >= 2 && chars[n - 2] == '\r' && chars[n - 1] == '\n' {
        n - 2
    } else if n >= 1 && chars[n - 1] == '\n' {
        n - 1
    } else {
        n
    };
    chars.truncate(end);
    assert(chars@ =~= strip_line_end(head@));
    match find(&chars, &pat, 0) {
        None => String::new(),
        Some(i) => {
            let start: usize = i + pat.len();
            let stop: usize = match find(&chars, &pat, start) {
                None => end,
                Some(j) => j,
            };
            assert(chars@.subrange(start as int, stop as int) =~= head@.subrange(
                start as int,
                stop as int,
            ));
            head.substring_char(start, stop).to_owned()
        },
    }
}

/// A search under way.
///
/// A search runs in rounds. The first round lists the start directory; each
/// later round is one level: the repository roots of the level are recorded,
/// and each plain directory of the level is listed and classified into the
/// next level. A search of depth `d` runs `d + 1` levels after the first
/// round, and what the last level would hand to a further one is dropped.
///
/// Between calls a search either waits for the listing of one directory,
/// which `wanted` names, or is finished.
pub struct Search {
    args: CliArgs,
    rounds_left: u8,
    frontier: Vec<DirType>,
    pos: usize,
    next: Vec<DirType>,
    found: Vec<String>,
}

/// The mathematical value of a [`Search`].
pub struct SearchState {
    /// The ignored base names.
    pub ignore: Seq<Seq<char>>,
    /// The rounds still to run, the current one included.
    pub rounds_left: nat,
    /// The directories of the current round.
    pub frontier: Seq<DirKind>,
    /// How many of them have been dealt with.
    pub pos: nat,
    /// The directories gathered for the next round.
    pub next: Seq<DirKind>,
    /// The repository roots recorded so far, in the order of discovery.
    pub found: Seq<Seq<char>>,
}

impl SearchState {
    /// The state in which a search with these parameters starts: it waits
    /// for the listing of the start directory, and `max_depth + 1` levels
    /// follow that round (none where `max_depth` is negative).
    pub open spec fn initial(dir: Seq<char>, max_depth: int, ignore: Seq<Seq<char>>) -> SearchState {
        SearchState {
            ignore,
            rounds_left: if max_depth < 0 {
                1nat
            } else {
                (max_depth + 2) as nat
            },
            frontier: seq![DirKind::NormalDir(dir)],
            pos: 0,
            next: Seq::empty(),
            found: Seq::empty(),
        }
    }

    /// The search is over.
    pub open spec fn finished(self) -> bool {
        self.rounds_left == 0
    }

    /// The directory whose listing the search waits for.
    pub open spec fn wanted(self) -> Option<Seq<char>> {
        if self.rounds_left > 0 && self.pos < self.frontier.len() {
            match self.frontier[self.pos as int] {
                DirKind::NormalDir(d) => Some(d),
                DirKind::GitDir(_) => None,
            }
        } else {
            None
        }
    }

    /// The search is finished or waits for a listing.
    pub open spec fn settled(self) -> bool {
        self.finished() || self.wanted() is Some
    }

    /// Runs the search on as far as it goes without a listing: repository
    /// roots are recorded and passed over, and a round that is used up gives
    /// way to the next, until a plain directory is met or no round is left.
    pub open spec fn settle(self) -> SearchState
        decreases self.rounds_left, self.frontier.len() - self.pos,
    {
        if self.rounds_left == 0 {
            self
        } else if self.pos < self.frontier.len() {
            match self.frontier[self.pos as int] {
                DirKind::GitDir(d) => SearchState {
                    pos: self.pos + 1,
                    found: self.found.push(d),
                    ..self
                }.settle(),
                DirKind::NormalDir(_) => self,
            }
        } else {
            SearchState {
                rounds_left: (self.rounds_left - 1) as nat,
                frontier: self.next,
                pos: 0,
                next: Seq::empty(),
                ..self
            }.settle()
        }
    }

    /// The state after the listing of the wanted directory has come in: the
    /// directory is classified into the next round, and the search runs on.
    /// A search that waits for nothing stays as it is.
    pub open spec fn supply(self, listing: Seq<EntryView>) -> SearchState {
        match self.wanted() {
            Some(dir) => SearchState {
                pos: self.pos + 1,
                next: self.next + classify(dir, listing, self.ignore),
                ..self
            }.settle(),
            None => self,
        }
    }
}

impl View for Search {
    type V = SearchState;

    closed spec fn view(&self) -> SearchState {
        SearchState {
            ignore: texts(self.args.ignore_list@),
            rounds_left: self.rounds_left as nat,
            frontier: kinds(self.frontier@),
            pos: self.pos as nat,
            next: kinds(self.next@),
            found: texts(self.found@),
        }
    }
}

impl Search {
    /// Runs on until a listing is needed or the search is over.
    fn settle(self) -> (out: Search)
        ensures
            out@ == self@.settle(),
            out@.settled(),
    {
        let ghost goal = self@.settle();
        let Search { args, rounds_left, frontier, pos, next, found } = self;
        let mut rounds_left = rounds_left;
        let mut frontier = frontier;
        let mut pos = pos;
        let mut next = next;
        let mut found = found;
        loop
            invariant
                (SearchState {
                    ignore: texts(args.ignore_list@),
                    rounds_left: rounds_left as nat,
                    frontier: kinds(frontier@),
                    pos: pos as nat,
                    next: kinds(next@),
                    found: texts(found@),
                }).settle() == goal,
            ensures
                rounds_left == 0 || (pos < frontier.len() && kinds(
                    frontier@,
                )[pos as int] is NormalDir),
            decreases rounds_left, frontier.len() - pos,
        {
            if rounds_left == 0 {
                break ;
            }
            if pos < frontier.len() {
                match &frontier[pos] {
                    DirType::GitDir(d) => {
                        let ghost before = texts(found@);
                        found.push(d.clone());
                        assert(texts(found@) =~= before.push(d@));
                        pos += 1;
                    },
                    DirType::NormalDir(_) => {
                        break ;
                    },
                }
            } else {
                rounds_left -= 1;
                frontier = next;
                next = Vec::new();
                pos = 0;
                assert(kinds(next@) =~= Seq::<DirKind>::empty());
            }
        }
        Search { args, rounds_left, frontier, pos, next, found }
    }

    /// The directory whose listing the search waits for; `None` once the
    /// search is over.
    pub fn wanted(&self) -> (dir: Option<String>)
        ensures
            match dir {
                Some(d) => self@.wanted() == Some(d@),
                None => self@.wanted() is None,
            },
    {
        if self.rounds_left > 0 && self.pos < self.frontier.len() {
            match &self.frontier[self.pos] {
                DirType::NormalDir(d) => Some(d.clone()),
                DirType::GitDir(_) => None,
            }
        } else {
            None
        }
    }

    /// Whether the search is over.
    pub fn finished(&self) -> (b: bool)
        ensures
            b == self@.finished(),
    {
        self.rounds_left == 0
    }

    /// Hands the search what came of listing the wanted directory. With a
    /// listing the search classifies the directory and runs on. With a
    /// failure the whole search fails, naming the directory and the cause.
    /// A search that waits for nothing is handed back unchanged.
    pub fn supply(self, event: Result<Vec<Entry>, String>) -> (out: Result<Search, DirectoryReadError>)
        ensures
            match (self@.wanted(), event) {
                (None, _) => out matches Ok(s) && s@ == self@,
                (Some(dir), Ok(listing)) => out matches Ok(s) && s@ == self@.supply(
                    entries(listing@),
                ) && s@.settled(),
                (Some(dir), Err(cause)) => out matches Err(e) && e.path@ == dir && e.cause@
                    == cause@,
            },
    {
        let dir = match self.wanted() {
            None => {
                return Ok(self);
            },
            Some(d) => d,
        };
        match event {
            Err(cause) => Err(DirectoryReadError { path: dir, cause }),
            Ok(listing) => {
                let ghost before = self@;
                let Search { args, rounds_left, frontier, pos, next, found } = self;
                let mut next = next;
                assert(before.wanted() is Some);
                assert(pos < frontier.len());
                let mut classified = get_dir_list(&args, &dir, &listing);
                let ghost old_next = kinds(next@);
                let ghost added = kinds(classified@);
                next.append(&mut classified);
                assert(kinds(next@) =~= old_next + added);
                let fed = Search { args, rounds_left, frontier, pos: pos + 1, next, found };
                Ok(fed.settle())
            },
        }
    }

    /// The repository roots recorded so far, in the order of discovery.
    pub fn into_found(self) -> (roots: Vec<String>)
        ensures
            texts(roots@) == self@.found,
    {
        self.found
    }
}

/// Starts a search: it waits for the listing of the start directory.
pub fn recursive_search(args: CliArgs) -> (search: Search)
    ensures
        search@ == SearchState::initial(
            args.dir@,
            args.max_depth as int,
            texts(args.ignore_list@),
        ),
        search@.wanted() == Some(args.dir@),
{
    let rounds_left: u8 = if args.max_depth < 0 {
        1
    } else {
        args.max_depth as u8 + 2
    };
    let mut frontier: Vec<DirType> = Vec::new();
    frontier.push(DirType::NormalDir(args.dir.clone()));
    assert(kinds(frontier@) =~= seq![DirKind::NormalDir(args.dir@)]);
    let next: Vec<DirType> = Vec::new();
    let found: Vec<String> = Vec::new();
    assert(kinds(next@) =~= Seq::<DirKind>::empty());
    assert(texts(found@) =~= Seq::<Seq<char>>::empty());
    Search { args, rounds_left, frontier, pos: 0, next, found }
}

/// The branch of a repository whose head pointer was read, or could not be.
pub open spec fn branch_or_empty(head: Option<String>) -> Seq<char> {
    match head {
        Some(h) => branch_of(h@),
        None => Seq::empty(),
    }
}

/// Pairs each repository root with its branch. Each root comes with the text
/// of its head pointer, or with `None` where that could not be read; the
/// branch is then empty.
pub fn fetch_git_dir(roots: Vec<(String, Option<String>)>) -> (out: Vec<SeekRes>)
    ensures
        out.len() == roots.len(),
        forall|i: int|
            0 <= i < roots.len() ==> (#[trigger] out[i]).dir@ == roots[i].0@ && out[i].git_ref@
                == branch_or_empty(roots[i].1),
{
    let mut out: Vec<SeekRes> = Vec::new();
    let mut i: usize = 0;
    while i < roots.len()
        invariant
            i <= roots.len(),
            out.len() == i,
            forall|k: int|
                0 <= k < i ==> (#[trigger] out[k]).dir@ == roots[k].0@ && out[k].git_ref@
                    == branch_or_empty(roots[k].1),
        decreases roots.len() - i,
    {
        let git_ref = match &roots[i].1 {
            Some(h) => get_git_ref(h.as_str()),
            None => String::new(),
        };
        out.push(SeekRes { dir: roots[i].0.clone(), git_ref });
        i += 1;
    }
    out
}

impl SeekRes {
    /// The line under which a result is shown: the directory as the caller
    /// wants it shown, then the branch in round brackets.
    pub fn label(&self, shown: &str) -> (line: String)
        ensures
            line@ == shown@ + " ("@ + self.git_ref@ + ")"@,
    {
        let mut line = shown.to_owned();
        line.append(" (");
        line.append(self.git_ref.as_str());
        line.append(")");
        line
    }
}

/// Every child that a classification yields is the path of an entry that
/// survived the filter, so a directory whose base name is ignored is never
/// handed on, and a file never is.
pub proof fn lemma_children_are_kept(listing: Seq<EntryView>, ignore: Seq<Seq<char>>)
    ensures
        forall|k: int|
            0 <= k < children(listing, ignore).len() ==> exists|j: int|
                0 <= j < listing.len() && kept(#[trigger] listing[j], ignore)
                    && #[trigger] children(listing, ignore)[k] == DirKind::NormalDir(
                    listing[j].path,
                ),
    decreases listing.len(),
{
    if listing.len() > 0 {
        let shorter = listing.drop_last();
        lemma_children_are_kept(shorter, ignore);
        assert forall|k: int| 0 <= k < children(listing, ignore).len() implies exists|j: int|
            0 <= j < listing.len() && kept(#[trigger] listing[j], ignore)
                && #[trigger] children(listing, ignore)[k] == DirKind::NormalDir(
                listing[j].path,
            ) by {
            if k < children(shorter, ignore).len() {
                let j = choose|j: int|
                    0 <= j < shorter.len() && kept(#[trigger] shorter[j], ignore) && children(
                        shorter,
                        ignore,
                    )[k] == DirKind::NormalDir(shorter[j].path);
                assert(listing[j] == shorter[j]);
            } else {
                assert(kept(listing[listing.len() - 1], ignore));
            }
        }
    }
}

/// A directory that holds a directory named `.git` is a repository root and
/// hands on no children, whatever else it holds, as long as that name is not
/// ignored.
pub proof fn lemma_marker_makes_root(
    dir: Seq<char>,
    listing: Seq<EntryView>,
    ignore: Seq<Seq<char>>,
    i: int,
)
    requires
        0 <= i < listing.len(),
        listing[i].is_dir,
        listing[i].name == marker_name(),
        !ignore.contains(marker_name()),
    ensures
        classify(dir, listing, ignore) == seq![DirKind::GitDir(dir)],
{
    assert(kept(listing[i], ignore));
}

/// Where the name `.git` is ignored, no directory is a repository root: its
/// classification is its surviving children, all of them plain.
pub proof fn lemma_ignored_marker_is_plain(
    dir: Seq<char>,
    listing: Seq<EntryView>,
    ignore: Seq<Seq<char>>,
)
    requires
        ignore.contains(marker_name()),
    ensures
        classify(dir, listing, ignore) == children(listing, ignore),
        forall|k: int|
            0 <= k < children(listing, ignore).len() ==> #[trigger] children(
                listing,
                ignore,
            )[k] is NormalDir,
{
    lemma_children_are_kept(listing, ignore);
}

/// A repository root in the current round is recorded and passed over: the
/// search goes on to the entry behind it and never asks for its listing.
pub proof fn lemma_root_is_not_entered(s: SearchState, d: Seq<char>)
    requires
        s.rounds_left > 0,
        s.pos < s.frontier.len(),
        s.frontier[s.pos as int] == DirKind::GitDir(d),
    ensures
        s.wanted() is None,
        s.settle() == (SearchState { pos: s.pos + 1, found: s.found.push(d), ..s }).settle(),
{
}

/// A search with nothing left in this round and nothing gathered for the
/// next runs out without a further listing and records nothing more.
pub proof fn lemma_idle_search_runs_out(s: SearchState)
    requires
        s.pos >= s.frontier.len(),
        s.next.len() == 0,
    ensures
        s.settle().finished(),
        s.settle().found == s.found,
    decreases s.rounds_left,
{
    if s.rounds_left > 0 {
        let t = SearchState {
            rounds_left: (s.rounds_left - 1) as nat,
            frontier: s.next,
            pos: 0,
            next: Seq::empty(),
            ..s
        };
        lemma_idle_search_runs_out(t);
    }
}

/// A start directory without entries gives no result at any depth: after
/// its empty listing the search is over and has recorded nothing.
pub proof fn lemma_empty_start_finds_nothing(dir: Seq<char>, max_depth: int, ignore: Seq<Seq<char>>)
    ensures
        SearchState::initial(dir, max_depth, ignore).supply(Seq::empty()).finished(),
        SearchState::initial(dir, max_depth, ignore).supply(Seq::empty()).found.len() == 0,
{
    let s = SearchState::initial(dir, max_depth, ignore);
    assert(s.wanted() == Some(dir));
    assert(!has_marker(Seq::<EntryView>::empty(), ignore));
    assert(classify(dir, Seq::<EntryView>::empty(), ignore) =~= Seq::<DirKind>::empty());
    let fed = SearchState { pos: s.pos + 1, next: s.next + Seq::<DirKind>::empty(), ..s };
    assert(fed.next =~= Seq::<DirKind>::empty());
    lemma_idle_search_runs_out(fed);
}

/// Running on never goes back: a search stays in its round and moves
/// forward in it, or it has fewer rounds left than before.
pub proof fn lemma_settle_moves_forward(s: SearchState)
    requires
        s.pos <= s.frontier.len(),
    ensures
        s.settle().rounds_left < s.rounds_left || (s.settle().rounds_left == s.rounds_left
            && s.settle().frontier == s.frontier && s.pos <= s.settle().pos
            <= s.frontier.len()),
        s.settle().settled(),
        s.settle().pos <= s.settle().frontier.len(),
    decreases s.rounds_left, s.frontier.len() - s.pos,
{
    if s.rounds_left == 0 {
    } else if s.pos < s.frontier.len() {
        match s.frontier[s.pos as int] {
            DirKind::GitDir(d) => {
                lemma_settle_moves_forward(
                    SearchState { pos: s.pos + 1, found: s.found.push(d), ..s },
                );
            },
            DirKind::NormalDir(_) => {},
        }
    } else {
        lemma_settle_moves_forward(
            SearchState {
                rounds_left: (s.rounds_left - 1) as nat,
                frontier: s.next,
                pos: 0,
                next: Seq::empty(),
                ..s
            },
        );
    }
}

/// Every listing brings the search nearer to its end: after it the search
/// has fewer rounds left, or as many and fewer directories left in the
/// round. The number of rounds is fixed at the start, so a search of any
/// tree ends, however the tree is shaped.
pub proof fn lemma_each_listing_is_progress(s: SearchState, listing: Seq<EntryView>)
    requires
        s.wanted() is Some,
    ensures
        s.supply(listing).rounds_left < s.rounds_left || (s.supply(listing).rounds_left
            == s.rounds_left && s.supply(listing).frontier == s.frontier && s.pos < s.supply(
            listing,
        ).pos <= s.frontier.len()),
        s.supply(listing).settled(),
        s.supply(listing).pos <= s.supply(listing).frontier.len(),
{
    let dir = s.wanted()->0;
    lemma_settle_moves_forward(
        SearchState { pos: s.pos + 1, next: s.next + classify(dir, listing, s.ignore), ..s },
    );
}

} // verus!
