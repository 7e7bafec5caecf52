//! Who waits for changes of which file, and which directories are watched for
//! that.

use crate::text::{chars_of, join, join_path, same_text, split};
use vstd::prelude::*;
use vstd::string::*;

verus! {

/// The parts of a path that count, `..` taking back the one before it.
pub open spec fn path_parts(pieces: Seq<Seq<char>>) -> Seq<Seq<char>>
    decreases pieces.len(),
{
    if pieces.len() == 0 {
        Seq::empty()
    } else {
        let before = path_parts(pieces.drop_last());
        let piece = pieces.last();
        if piece.len() == 0 || piece == "."@ {
            before
        } else if piece == ".."@ {
            if before.len() == 0 {
                before
            } else {
                before.drop_last()
            }
        } else {
            before.push(piece)
        }
    }
}

/// The absolute path with these parts.
pub open spec fn path_of(parts: Seq<Seq<char>>) -> Seq<char> {
    "/"@ + crate::text::joined(parts, "/"@)
}

/// Whether a path starts at the root.
pub open spec fn is_absolute_path(path: Seq<char>) -> bool {
    path.len() > 0 && path[0] == '/'
}

/// The parts of a path, seen from the current directory, if that is known.
pub open spec fn parts_of(path: Seq<char>, current: Option<Seq<char>>) -> Option<Seq<Seq<char>>> {
    if is_absolute_path(path) {
        Some(path_parts(crate::text::split_text(path, '/')))
    } else {
        match current {
            Some(directory) => Some(
                path_parts(crate::text::split_text(crate::text::path_joined(directory, path), '/')),
            ),
            None => None,
        }
    }
}

/// A path up to and with its last slash.
pub open spec fn up_to_slash(path: Seq<char>) -> Seq<char>
    decreases path.len(),
{
    if path.len() == 0 || path.last() == '/' {
        path
    } else {
        up_to_slash(path.drop_last())
    }
}

/// The directory that an absolute path stands in: what is before its last slash,
/// or the root.
pub open spec fn parent_of(path: Seq<char>) -> Seq<char> {
    let whole = up_to_slash(path);
    if whole.len() <= 1 {
        whole
    } else {
        whole.drop_last()
    }
}

proof fn up_to_slash_skips_a_name(before: Seq<char>, name: Seq<char>)
    requires
        before.len() > 0,
        before.last() == '/',
        !name.contains('/'),
    ensures
        up_to_slash(before + name) == before,
    decreases name.len(),
{
    let path = before + name;
    if name.len() == 0 {
        assert(path =~= before);
    } else {
        assert(path.last() == name[name.len() - 1]);
        assert(path.drop_last() =~= before + name.drop_last());
        assert(!name.drop_last().contains('/')) by {
            if name.drop_last().contains('/') {
                let i = choose|i: int| 0 <= i < name.len() - 1 && name.drop_last()[i] == '/';
                assert(name[i] == '/');
            }
        }
        up_to_slash_skips_a_name(before, name.drop_last());
    }
}

proof fn parent_of_parts(parts: Seq<Seq<char>>)
    requires
        parts.len() > 0,
        !parts.last().contains('/'),
    ensures
        parent_of(path_of(parts)) == path_of(parts.drop_last()),
{
    reveal_strlit("/");
    let path = path_of(parts);
    let rest = path_of(parts.drop_last());
    if parts.len() == 1 {
        assert(path =~= "/"@ + parts.last());
        up_to_slash_skips_a_name("/"@, parts.last());
        assert(rest =~= "/"@);
    } else {
        let before = rest + "/"@;
        assert(path =~= before + parts.last());
        up_to_slash_skips_a_name(before, parts.last());
        assert(before.drop_last() =~= rest);
    }
}

proof fn split_pieces_hold_no_separator(s: Seq<char>, c: char)
    ensures
        forall|k: int|
            0 <= k < crate::text::split_text(s, c).len() ==> !(
            #[trigger] crate::text::split_text(s, c)[k]).contains(c),
    decreases s.len(),
{
    crate::text::first_at_is_first(s, c);
    let pieces = crate::text::split_text(s, c);
    match crate::text::first_at(s, c) {
        None => {},
        Some(i) => {
            if 0 <= i < s.len() {
                split_pieces_hold_no_separator(s.skip(i + 1), c);
                let rest = crate::text::split_text(s.skip(i + 1), c);
                assert forall|k: int| 0 <= k < pieces.len() implies !(
                #[trigger] pieces[k]).contains(c) by {
                    if k == 0 {
                        assert(pieces[k] == s.take(i));
                        if s.take(i).contains(c) {
                            let j = choose|j: int| 0 <= j < i && s.take(i)[j] == c;
                            assert(s[j] == c);
                        }
                    } else {
                        assert(pieces[k] == rest[k - 1]);
                    }
                }
            }
        },
    }
}

proof fn path_parts_are_pieces(pieces: Seq<Seq<char>>, c: char)
    requires
        forall|k: int| 0 <= k < pieces.len() ==> !(#[trigger] pieces[k]).contains(c),
    ensures
        forall|k: int|
            0 <= k < path_parts(pieces).len() ==> !(#[trigger] path_parts(pieces)[k]).contains(c),
    decreases pieces.len(),
{
    if pieces.len() > 0 {
        assert(pieces[pieces.len() - 1] == pieces.last());
        assert forall|k: int| 0 <= k < pieces.drop_last().len() implies !(
        #[trigger] pieces.drop_last()[k]).contains(c) by {
            assert(pieces[k] == pieces.drop_last()[k]);
        }
        path_parts_are_pieces(pieces.drop_last(), c);
        let before = path_parts(pieces.drop_last());
        assert forall|k: int| 0 <= k < path_parts(pieces).len() implies !(
        #[trigger] path_parts(pieces)[k]).contains(c) by {
            if k < before.len() {
                assert(path_parts(pieces)[k] == before[k]);
            } else {
                assert(path_parts(pieces)[k] == pieces.last());
            }
        }
    }
}

fn collect_parts(path: &str) -> (r: Vec<String>)
    ensures
        crate::text::texts(r@) == path_parts(crate::text::split_text(path@, '/')),
        forall|k: int| 0 <= k < r@.len() ==> !(#[trigger] r@[k])@.contains('/'),
{
    let pieces = split(path, '/');
    let ghost views = crate::text::texts(pieces@);
    let mut out: Vec<String> = Vec::new();
    let mut i: usize = 0;
    assert(crate::text::texts(out@) =~= path_parts(views.take(0)));
    while i < pieces.len()
        invariant
            i <= pieces.len(),
            views == crate::text::texts(pieces@),
            crate::text::texts(out@) == path_parts(views.take(i as int)),
        decreases pieces.len() - i,
    {
        proof {
            assert(views.take(i + 1).drop_last() =~= views.take(i as int));
            assert(views.take(i + 1).last() == pieces@[i as int]@);
        }
        let ghost before = crate::text::texts(out@);
        let piece = pieces[i].as_str();
        if piece.is_empty() || same_text(piece, ".") {
        } else if same_text(piece, "..") {
            if out.len() > 0 {
                let gone = out.pop();
                assert(crate::text::texts(out@) =~= before.drop_last());
            }
        } else {
            out.push(piece.to_owned());
            assert(crate::text::texts(out@) =~= before.push(piece@));
        }
        i = i + 1;
    }
    assert(views.take(i as int) =~= views);
    proof {
        split_pieces_hold_no_separator(path@, '/');
        path_parts_are_pieces(views, '/');
        assert forall|k: int| 0 <= k < out@.len() implies !(#[trigger] out@[k])@.contains('/') by {
            assert(crate::text::texts(out@)[k] == out@[k]@);
        }
    }
    out
}

/// The path of a file that is watched: its own, and that of its directory,
/// unless it is the root.
#[derive(Debug, Clone)]
pub struct WatchedPath {
    pub path: String,
    pub directory: Option<String>,
}

impl WatchedPath {
    /// The directory is the one that the path stands in.
    pub open spec fn wf(self) -> bool {
        self.directory is Some ==> self.directory->0@ == parent_of(self.path@)
    }
}

fn path_text(parts: &Vec<String>) -> (r: String)
    ensures
        r@ == path_of(crate::text::texts(parts@)),
{
    let mut path = "/".to_owned();
    path.append(join(parts, "/").as_str());
    path
}

/// The path without `.`, `..` and doubled slashes, seen from the current
/// directory. It fails only for a relative path, where the current directory is
/// not known.
pub fn normalize_path(path: &str, current: Option<String>) -> (r: Option<WatchedPath>)
    ensures
        match r {
            Some(watched) => {
                let parts = parts_of(path@, crate::text::opt_text(current));
                &&& parts is Some
                &&& watched.wf()
                &&& watched.path@ == path_of(parts->0)
                &&& crate::text::opt_text(watched.directory) == (if parts->0.len() == 0 {
                    None
                } else {
                    Some(path_of(parts->0.drop_last()))
                })
            },
            None => parts_of(path@, crate::text::opt_text(current)) is None,
        },
{
    let chars = chars_of(path);
    let mut parts = if chars.len() > 0 && chars[0] == '/' {
        collect_parts(path)
    } else {
        match current {
            Some(directory) => {
                let whole = join_path(directory.as_str(), path);
                collect_parts(whole.as_str())
            },
            None => {
                return None;
            },
        }
    };
    let whole = path_text(&parts);
    let ghost all = crate::text::texts(parts@);
    if parts.len() == 0 {
        return Some(WatchedPath { path: whole, directory: None });
    }
    proof {
        assert(all.last() == parts@[parts@.len() - 1]@);
        parent_of_parts(all);
    }
    let last = parts.pop();
    assert(crate::text::texts(parts@) =~= all.drop_last());
    let directory = path_text(&parts);
    Some(WatchedPath { path: whole, directory: Some(directory) })
}

/// What happened to files.
#[derive(Debug, Clone, Copy, PartialEq, Eq, Structural)]
pub enum EventKind {
    Any,
    Other,
    Access,
    Create,
    Remove,
    ModifyAny,
    ModifyOther,
    ModifyData,
    ModifyMetadata,
    RenameAny,
    RenameOther,
    RenameFrom,
    RenameTo,
    RenameBoth,
}

/// Which paths of an event count: all of them, the last one, or none.
#[derive(Debug, Clone, Copy, PartialEq, Eq, Structural)]
pub enum Relevant {
    All,
    Last,
    Nothing,
}

/// Which paths of an event count. Where something was renamed, only its new name
/// does; reading, removing and renaming away do not count.
pub open spec fn relevant_paths(kind: EventKind) -> Relevant {
    match kind {
        EventKind::Access | EventKind::Remove | EventKind::ModifyMetadata
        | EventKind::RenameFrom => Relevant::Nothing,
        EventKind::RenameTo | EventKind::RenameBoth => Relevant::Last,
        _ => Relevant::All,
    }
}

fn relevant(kind: EventKind) -> (r: Relevant)
    ensures
        r == relevant_paths(kind),
{
    match kind {
        EventKind::Access | EventKind::Remove | EventKind::ModifyMetadata
        | EventKind::RenameFrom => Relevant::Nothing,
        EventKind::RenameTo | EventKind::RenameBoth => Relevant::Last,
        _ => Relevant::All,
    }
}

/// An event of the platform watcher.
#[derive(Debug)]
pub struct Event {
    pub need_rescan: bool,
    pub kind: EventKind,
    pub paths: Vec<String>,
}

/// Those who wait for changes of one file.
#[derive(Debug)]
pub struct Subscribers {
    pub path: String,
    pub directory: String,
    pub senders: Vec<u64>,
}

/// The files that are waited for, and how many of them are in each directory
/// that is watched.
#[derive(Debug)]
pub struct WatchRegistry {
    pub subscribers: Vec<Subscribers>,
    pub directories: Vec<(String, usize)>,
}

/// How many files are in a directory.
pub open spec fn files_in(subscribers: Seq<Subscribers>, directory: Seq<char>) -> nat
    decreases subscribers.len(),
{
    if subscribers.len() == 0 {
        0
    } else {
        let before = files_in(subscribers.drop_last(), directory);
        if subscribers.last().directory@ == directory {
            before + 1
        } else {
            before
        }
    }
}

/// Those who wait for changes of a file.
pub open spec fn senders_of(subscribers: Seq<Subscribers>, path: Seq<char>) -> Seq<u64>
    decreases subscribers.len(),
{
    if subscribers.len() == 0 {
        Seq::empty()
    } else if subscribers.last().path@ == path {
        subscribers.last().senders@
    } else {
        senders_of(subscribers.drop_last(), path)
    }
}

/// The paths of the files.
pub open spec fn paths_of(subscribers: Seq<Subscribers>) -> Seq<Seq<char>> {
    Seq::new(subscribers.len(), |i: int| subscribers[i].path@)
}

/// The senders that are not among the closed ones.
pub open spec fn still_open(senders: Seq<u64>, closed: Seq<u64>) -> Seq<u64>
    decreases senders.len(),
{
    if senders.len() == 0 {
        Seq::empty()
    } else if closed.contains(senders.last()) {
        still_open(senders.drop_last(), closed)
    } else {
        still_open(senders.drop_last(), closed).push(senders.last())
    }
}

/// Whether an event concerns a file: it names the file or its directory.
pub open spec fn concerns(event: Event, current: Option<Seq<char>>, file: Subscribers) -> bool {
    event.need_rescan || match relevant_paths(event.kind) {
        Relevant::Nothing => false,
        Relevant::All => exists|p: int|
            0 <= p < event.paths@.len() && names_file(#[trigger] event.paths@[p], current, file),
        Relevant::Last => event.paths@.len() > 0 && names_file(event.paths@.last(), current, file),
    }
}

/// Whether a path is that of a file or of its directory.
pub open spec fn names_file(path: String, current: Option<Seq<char>>, file: Subscribers) -> bool {
    match parts_of(path@, current) {
        Some(parts) => path_of(parts) == file.path@ || path_of(parts) == file.directory@,
        None => false,
    }
}

/// The files that an event concerns.
pub open spec fn concerned(
    subscribers: Seq<Subscribers>,
    event: Event,
    current: Option<Seq<char>>,
) -> Seq<Seq<char>>
    decreases subscribers.len(),
{
    if subscribers.len() == 0 {
        Seq::empty()
    } else {
        let before = concerned(subscribers.drop_last(), event, current);
        if concerns(event, current, subscribers.last()) {
            before.push(subscribers.last().path@)
        } else {
            before
        }
    }
}

proof fn files_in_bounds(subscribers: Seq<Subscribers>, directory: Seq<char>)
    ensures
        files_in(subscribers, directory) <= subscribers.len(),
        files_in(subscribers, directory) > 0 <==> exists|i: int|
            0 <= i < subscribers.len() && (#[trigger] subscribers[i]).directory@ == directory,
    decreases subscribers.len(),
{
    if subscribers.len() > 0 {
        let fewer = subscribers.drop_last();
        files_in_bounds(fewer, directory);
        if exists|i: int|
            0 <= i < fewer.len() && (#[trigger] fewer[i]).directory@ == directory {
            let i = choose|i: int|
                0 <= i < fewer.len() && (#[trigger] fewer[i]).directory@ == directory;
            assert(subscribers[i].directory@ == directory);
        }
        assert(subscribers[subscribers.len() - 1] == subscribers.last());
        if exists|i: int|
            0 <= i < subscribers.len() && (#[trigger] subscribers[i]).directory@ == directory {
            let i = choose|i: int|
                0 <= i < subscribers.len() && (#[trigger] subscribers[i]).directory@ == directory;
            if i < fewer.len() {
                assert(fewer[i].directory@ == directory);
            }
        }
    }
}

proof fn files_in_remove(subscribers: Seq<Subscribers>, i: int, directory: Seq<char>)
    requires
        0 <= i < subscribers.len(),
    ensures
        files_in(subscribers.remove(i), directory) + (if subscribers[i].directory@ == directory {
            1nat
        } else {
            0nat
        }) == files_in(subscribers, directory),
    decreases subscribers.len(),
{
    let fewer = subscribers.remove(i);
    if i == subscribers.len() - 1 {
        assert(fewer =~= subscribers.drop_last());
    } else {
        assert(fewer.drop_last() =~= subscribers.drop_last().remove(i));
        assert(fewer.last() == subscribers.last());
        files_in_remove(subscribers.drop_last(), i, directory);
    }
}

proof fn files_in_same(a: Seq<Subscribers>, b: Seq<Subscribers>, directory: Seq<char>)
    requires
        a.len() == b.len(),
        forall|i: int| 0 <= i < a.len() ==> (#[trigger] a[i]).directory@ == b[i].directory@,
    ensures
        files_in(a, directory) == files_in(b, directory),
    decreases a.len(),
{
    if a.len() > 0 {
        assert(a[a.len() - 1].directory@ == b[a.len() - 1].directory@);
        assert forall|i: int| 0 <= i < a.drop_last().len() implies (
        #[trigger] a.drop_last()[i]).directory@ == b.drop_last()[i].directory@ by {
            assert(a[i].directory@ == b[i].directory@);
        }
        files_in_same(a.drop_last(), b.drop_last(), directory);
    }
}

proof fn senders_at(subscribers: Seq<Subscribers>, i: int)
    requires
        0 <= i < subscribers.len(),
        paths_of(subscribers).no_duplicates(),
    ensures
        senders_of(subscribers, subscribers[i].path@) == subscribers[i].senders@,
    decreases subscribers.len(),
{
    let paths = paths_of(subscribers);
    if i < subscribers.len() - 1 {
        let fewer = subscribers.drop_last();
        assert(paths[i] != paths[subscribers.len() - 1]);
        assert(paths_of(fewer) =~= paths.drop_last());
        assert(fewer[i] == subscribers[i]);
        senders_at(fewer, i);
    }
}

proof fn senders_of_none(subscribers: Seq<Subscribers>, path: Seq<char>)
    requires
        forall|i: int| 0 <= i < subscribers.len() ==> (#[trigger] subscribers[i]).path@ != path,
    ensures
        senders_of(subscribers, path) == Seq::<u64>::empty(),
    decreases subscribers.len(),
{
    if subscribers.len() > 0 {
        let fewer = subscribers.drop_last();
        assert(subscribers[subscribers.len() - 1].path@ != path);
        assert forall|i: int| 0 <= i < fewer.len() implies (#[trigger] fewer[i]).path@ != path by {
            assert(fewer[i] == subscribers[i]);
        }
        senders_of_none(fewer, path);
    }
}

proof fn senders_of_either(subscribers: Seq<Subscribers>, path: Seq<char>) -> (at: Option<int>)
    requires
        paths_of(subscribers).no_duplicates(),
    ensures
        match at {
            Some(i) => 0 <= i < subscribers.len() && subscribers[i].path@ == path && senders_of(
                subscribers,
                path,
            ) == subscribers[i].senders@,
            None => (forall|i: int|
                0 <= i < subscribers.len() ==> (#[trigger] subscribers[i]).path@ != path)
                && senders_of(subscribers, path) == Seq::<u64>::empty(),
        },
{
    if exists|i: int| 0 <= i < subscribers.len() && (#[trigger] subscribers[i]).path@ == path {
        let i = choose|i: int|
            0 <= i < subscribers.len() && (#[trigger] subscribers[i]).path@ == path;
        senders_at(subscribers, i);
        Some(i)
    } else {
        senders_of_none(subscribers, path);
        None
    }
}

/// The names of the watched directories.
pub open spec fn directory_names(directories: Seq<(String, usize)>) -> Seq<Seq<char>> {
    Seq::new(directories.len(), |i: int| directories[i].0@)
}

/// Whether the counts of the directories are those of the files in them.
pub open spec fn counts_hold(
    subscribers: Seq<Subscribers>,
    directories: Seq<(String, usize)>,
) -> bool {
    forall|d: int|
        0 <= d < directories.len() ==> (#[trigger] directories[d]).1 > 0 && directories[d].1
            == files_in(subscribers, directories[d].0@)
}

/// Whether each file is filed under the directory that it stands in.
pub open spec fn filed_under_parents(subscribers: Seq<Subscribers>) -> bool {
    forall|i: int|
        0 <= i < subscribers.len() ==> (#[trigger] subscribers[i]).directory@ == parent_of(
            subscribers[i].path@,
        )
}

impl WatchRegistry {
    /// Every file is listed once, under the directory it stands in, and has
    /// somebody waiting for it; the watched directories are listed once, with the
    /// number of their files.
    pub open spec fn wf(self) -> bool {
        &&& paths_of(self.subscribers@).no_duplicates()
        &&& directory_names(self.directories@).no_duplicates()
        &&& counts_hold(self.subscribers@, self.directories@)
        &&& filed_under_parents(self.subscribers@)
        &&& forall|i: int|
            0 <= i < self.subscribers@.len() ==> (#[trigger] self.subscribers@[i]).senders@.len()
                > 0 && self.watches(self.subscribers@[i].directory@)
    }

    /// Whether a directory is watched.
    pub open spec fn watches(self, directory: Seq<char>) -> bool {
        directory_names(self.directories@).contains(directory)
    }

    /// Those who wait for changes of a file.
    pub open spec fn waiting(self, path: Seq<char>) -> Seq<u64> {
        senders_of(self.subscribers@, path)
    }

    pub fn new() -> (r: Self)
        ensures
            r.wf(),
            forall|path: Seq<char>| #[trigger] r.waiting(path) == Seq::<u64>::empty(),
            forall|directory: Seq<char>| !r.watches(directory),
    {
        WatchRegistry { subscribers: Vec::new(), directories: Vec::new() }
    }

    fn find(&self, path: &str) -> (r: Option<usize>)
        ensures
            match r {
                Some(i) => i < self.subscribers@.len() && self.subscribers@[i as int].path@
                    == path@,
                None => forall|i: int|
                    0 <= i < self.subscribers@.len() ==> (
                    #[trigger] self.subscribers@[i]).path@ != path@,
            },
    {
        let mut i: usize = 0;
        while i < self.subscribers.len()
            invariant
                i <= self.subscribers.len(),
                forall|k: int| 0 <= k < i ==> (#[trigger] self.subscribers@[k]).path@ != path@,
            decreases self.subscribers.len() - i,
        {
            if same_text(self.subscribers[i].path.as_str(), path) {
                return Some(i);
            }
            i = i + 1;
        }
        None
    }

    fn find_directory(&self, directory: &str) -> (r: Option<usize>)
        ensures
            match r {
                Some(d) => d < self.directories@.len() && self.directories@[d as int].0@
                    == directory@,
                None => !self.watches(directory@),
            },
    {
        let mut d: usize = 0;
        while d < self.directories.len()
            invariant
                d <= self.directories.len(),
                forall|k: int| 0 <= k < d ==> (#[trigger] self.directories@[k]).0@ != directory@,
            decreases self.directories.len() - d,
        {
            if same_text(self.directories[d].0.as_str(), directory) {
                return Some(d);
            }
            d = d + 1;
        }
        proof {
            if self.watches(directory@) {
                let names = directory_names(self.directories@);
                let k = choose|k: int| 0 <= k < names.len() && names[k] == directory@;
                assert(self.directories@[k].0@ == directory@);
            }
        }
        None
    }

    /// The directory that has to be watched before somebody can wait for a file:
    /// that of the file, unless the file is waited for or its directory watched
    /// already. The root cannot be waited for.
    pub fn to_watch(&self, file: &WatchedPath) -> (r: Result<Option<String>, String>)
        requires
            self.wf(),
        ensures
            match r {
                Ok(Some(directory)) => {
                    &&& self.waiting(file.path@).len() == 0
                    &&& crate::text::opt_text(file.directory) == Some(directory@)
                    &&& !self.watches(directory@)
                },
                Ok(None) => self.waiting(file.path@).len() > 0 || (file.directory is Some
                    && self.watches(file.directory->0@)),
                Err(message) => {
                    &&& self.waiting(file.path@).len() == 0
                    &&& file.directory is None
                    &&& message@ == "watched file has no parent directory"@
                },
            },
    {
        if let Some(i) = self.find(file.path.as_str()) {
            proof {
                senders_at(self.subscribers@, i as int);
            }
            return Ok(None);
        }
        proof {
            senders_of_none(self.subscribers@, file.path@);
        }
        match &file.directory {
            None => Err("watched file has no parent directory".to_owned()),
            Some(directory) => match self.find_directory(directory.as_str()) {
                Some(d) => {
                    assert(directory_names(self.directories@)[d as int] == directory@);
                    Ok(None)
                },
                None => Ok(Some(directory.clone())),
            },
        }
    }

    /// Lets somebody wait for a file, whose directory is watched by now.
    pub fn subscribe(&mut self, file: WatchedPath, sender: u64) -> (r: Result<(), String>)
        requires
            old(self).wf(),
            file.wf(),
        ensures
            final(self).wf(),
            match r {
                Ok(()) => {
                    &&& final(self).watches(parent_of(file.path@))
                    &&& final(self).waiting(file.path@) == old(self).waiting(file.path@).push(
                        sender,
                    )
                    &&& forall|path: Seq<char>|
                        path != file.path@ ==> #[trigger] final(self).waiting(path) == old(
                            self,
                        ).waiting(path)
                    &&& old(self).waiting(file.path@).len() > 0 || file.directory is Some
                    &&& forall|d: Seq<char>|
                        #[trigger] final(self).watches(d) == (old(self).watches(d) || (old(
                            self,
                        ).waiting(file.path@).len() == 0 && d == file.directory->0@))
                },
                Err(message) => {
                    &&& *final(self) == *old(self)
                    &&& old(self).waiting(file.path@).len() == 0
                    &&& file.directory is None
                    &&& message@ == "watched file has no parent directory"@
                },
            },
    {
        let ghost before = self.subscribers@;
        let ghost dirs = self.directories@;
        if let Some(i) = self.find(file.path.as_str()) {
            let mut entry = self.subscribers.remove(i);
            entry.senders.push(sender);
            self.subscribers.insert(i, entry);
            proof {
                let after = self.subscribers@;
                assert(after =~= before.update(i as int, entry));
                assert(paths_of(after) =~= paths_of(before));
                assert(before[i as int].directory@ == parent_of(file.path@));
                senders_at(before, i as int);
                senders_at(after, i as int);
                assert forall|path: Seq<char>| path != file.path@ implies #[trigger] senders_of(
                    after,
                    path,
                ) == senders_of(before, path) by {
                    let a = senders_of_either(after, path);
                    let b = senders_of_either(before, path);
                    if a is Some {
                        assert(before[a->0].path@ == path);
                        assert(paths_of(before)[a->0] == paths_of(before)[b->0]);
                    }
                    if b is Some {
                        assert(after[b->0].path@ == path);
                    }
                }
                assert(counts_hold(after, dirs)) by {
                    assert forall|d: int| 0 <= d < dirs.len() implies (#[trigger] dirs[d]).1 > 0
                        && dirs[d].1 == files_in(after, dirs[d].0@) by {
                        files_in_same(after, before, dirs[d].0@);
                    }
                }
                assert forall|k: int| 0 <= k < after.len() implies (
                #[trigger] after[k]).senders@.len() > 0 && self.watches(after[k].directory@) by {
                    assert(before[k].senders@.len() > 0 && old(self).watches(before[k].directory@));
                }
            }
            return Ok(());
        }
        proof {
            senders_of_none(before, file.path@);
        }
        let directory = match file.directory {
            None => {
                return Err("watched file has no parent directory".to_owned());
            },
            Some(directory) => directory,
        };
        let known = self.find_directory(directory.as_str());
        let mut senders: Vec<u64> = Vec::new();
        senders.push(sender);
        let entry = Subscribers { path: file.path, directory: directory.clone(), senders };
        self.subscribers.push(entry);
        let ghost after = self.subscribers@;
        proof {
            assert(after.drop_last() =~= before);
            assert(self.subscribers.len() == after.len());
            files_in_bounds(after, directory@);
            files_in_bounds(before, directory@);
            assert(entry.senders@ =~= Seq::<u64>::empty().push(sender));
            assert(paths_of(after) =~= paths_of(before).push(entry.path@));
            assert forall|a: int, b: int|
                0 <= a < after.len() && 0 <= b < after.len() && a != b implies paths_of(after)[a]
                != paths_of(after)[b] by {
                if a < before.len() {
                    assert(before[a].path@ != file.path@);
                }
                if b < before.len() {
                    assert(before[b].path@ != file.path@);
                }
                if a < before.len() && b < before.len() {
                    assert(paths_of(before)[a] != paths_of(before)[b]);
                }
            }
        }
        match known {
            Some(d) => {
                proof {
                    assert(dirs[d as int].1 == files_in(before, directory@));
                }
                let count: usize = self.directories[d].1 + 1;
                self.directories.set(d, (directory, count));
                proof {
                    let now = self.directories@;
                    assert(directory_names(now) =~= directory_names(dirs));
                    assert forall|k: int| 0 <= k < now.len() implies (#[trigger] now[k]).1 > 0
                        && now[k].1 == files_in(after, now[k].0@) by {
                        if k != d {
                            assert(now[k] == dirs[k]);
                            assert(directory_names(dirs)[k] != directory_names(dirs)[d as int]);
                        }
                    }
                }
            },
            None => {
                proof {
                    if files_in(before, directory@) > 0 {
                        let i = choose|i: int|
                            0 <= i < before.len() && (#[trigger] before[i]).directory@
                                == directory@;
                        assert(old(self).watches(before[i].directory@));
                    }
                }
                self.directories.push((directory, 1));
                proof {
                    let now = self.directories@;
                    assert(directory_names(now) =~= directory_names(dirs).push(directory@));
                    assert forall|k: int| 0 <= k < now.len() implies (#[trigger] now[k]).1 > 0
                        && now[k].1 == files_in(after, now[k].0@) by {
                        if k < dirs.len() {
                            assert(now[k] == dirs[k]);
                            assert(directory_names(dirs)[k] == dirs[k].0@);
                            assert(directory_names(dirs).contains(dirs[k].0@));
                        }
                    }
                }
            },
        }
        proof {
            let now = directory_names(self.directories@);
            let then = directory_names(dirs);
            assert forall|d: Seq<char>| #[trigger] self.watches(d) == (old(self).watches(d) || d
                == directory@) by {
                if then.contains(d) {
                    let k = choose|k: int| 0 <= k < then.len() && then[k] == d;
                    assert(now[k] == d);
                }
                if now.contains(d) && d != directory@ {
                    let k = choose|k: int| 0 <= k < now.len() && now[k] == d;
                    assert(then[k] == d);
                }
                if known is Some {
                    assert(now[known->0 as int] == directory@);
                } else {
                    assert(now[then.len() as int] == directory@);
                }
            }
            assert forall|k: int| 0 <= k < after.len() implies (
            #[trigger] after[k]).senders@.len() > 0 && self.watches(after[k].directory@) by {
                if k < before.len() {
                    assert(before[k].senders@.len() > 0 && old(self).watches(before[k].directory@));
                }
            }
        }
        Ok(())
    }

    /// The files that an event concerns, and for which somebody has to be told.
    pub fn dispatch(&self, event: &Event, current: Option<String>) -> (r: Vec<String>)
        ensures
            crate::text::texts(r@) == concerned(
                self.subscribers@,
                *event,
                crate::text::opt_text(current),
            ),
    {
        let ghost here = crate::text::opt_text(current);
        let mut paths: Vec<Option<WatchedPath>> = Vec::new();
        let mut p: usize = 0;
        while p < event.paths.len()
            invariant
                p <= event.paths.len(),
                here == crate::text::opt_text(current),
                paths@.len() == p,
                forall|k: int|
                    0 <= k < p ==> match #[trigger] paths@[k] {
                        Some(watched) => parts_of(event.paths@[k]@, here) is Some && watched.path@
                            == path_of(parts_of(event.paths@[k]@, here)->0),
                        None => parts_of(event.paths@[k]@, here) is None,
                    },
            decreases event.paths.len() - p,
        {
            paths.push(normalize_path(event.paths[p].as_str(), current.clone()));
            p = p + 1;
        }
        let kind = relevant(event.kind);
        let from: usize = match kind {
            Relevant::All => 0,
            Relevant::Last => if paths.len() > 0 {
                paths.len() - 1
            } else {
                0
            },
            Relevant::Nothing => paths.len(),
        };
        let mut out: Vec<String> = Vec::new();
        let mut i: usize = 0;
        assert(crate::text::texts(out@) =~= concerned(self.subscribers@.take(0), *event, here));
        while i < self.subscribers.len()
            invariant
                i <= self.subscribers.len(),
                paths@.len() == event.paths@.len(),
                from <= paths@.len(),
                kind == relevant_paths(event.kind),
                from == match kind {
                    Relevant::All => 0,
                    Relevant::Last => if paths@.len() > 0 {
                        paths@.len() - 1
                    } else {
                        0
                    },
                    Relevant::Nothing => paths@.len() as int,
                },
                forall|k: int|
                    0 <= k < paths@.len() ==> match #[trigger] paths@[k] {
                        Some(watched) => parts_of(event.paths@[k]@, here) is Some && watched.path@
                            == path_of(parts_of(event.paths@[k]@, here)->0),
                        None => parts_of(event.paths@[k]@, here) is None,
                    },
                crate::text::texts(out@) == concerned(
                    self.subscribers@.take(i as int),
                    *event,
                    here,
                ),
            decreases self.subscribers.len() - i,
        {
            proof {
                assert(self.subscribers@.take(i + 1).drop_last() =~= self.subscribers@.take(
                    i as int,
                ));
                assert(self.subscribers@.take(i + 1).last() == self.subscribers@[i as int]);
            }
            let file = &self.subscribers[i];
            let ghost whom = *file;
            let mut hit = event.need_rescan;
            let mut k: usize = from;
            while k < paths.len()
                invariant
                    from <= k <= paths@.len(),
                    paths@.len() == event.paths@.len(),
                    whom == *file,
                    forall|k: int|
                        0 <= k < paths@.len() ==> match #[trigger] paths@[k] {
                            Some(watched) => parts_of(event.paths@[k]@, here) is Some
                                && watched.path@ == path_of(parts_of(event.paths@[k]@, here)->0),
                            None => parts_of(event.paths@[k]@, here) is None,
                        },
                    hit == (event.need_rescan || exists|q: int|
                        from <= q < k && names_file(#[trigger] event.paths@[q], here, whom)),
                decreases paths.len() - k,
            {
                assert(paths@[k as int] == paths@[k as int]);
                let ghost path = event.paths@[k as int];
                let found = match &paths[k] {
                    Some(watched) => same_text(watched.path.as_str(), file.path.as_str())
                        || same_text(watched.path.as_str(), file.directory.as_str()),
                    None => false,
                };
                assert(found == names_file(path, here, whom));
                proof {
                    assert forall|q: int|
                        from <= q < k + 1 && names_file(
                            #[trigger] event.paths@[q],
                            here,
                            whom,
                        ) implies found || (exists|q: int|
                        from <= q < k && names_file(#[trigger] event.paths@[q], here, whom)) by {
                        if q < k {
                            assert(names_file(event.paths@[q], here, whom));
                        }
                    }
                    if found {
                        assert(names_file(event.paths@[k as int], here, whom));
                    }
                }
                if found {
                    hit = true;
                }
                k = k + 1;
            }
            proof {
                if kind is Last && event.paths@.len() > 0 {
                    assert(event.paths@.last() == event.paths@[event.paths@.len() - 1]);
                }
                assert(hit == concerns(*event, here, whom));
            }
            if hit {
                let ghost before = crate::text::texts(out@);
                out.push(file.path.clone());
                assert(crate::text::texts(out@) =~= before.push(whom.path@));
            }
            i = i + 1;
        }
        assert(self.subscribers@.take(i as int) =~= self.subscribers@);
        out
    }

    fn drop_file(&mut self, i: usize) -> (r: Option<String>)
        requires
            i < old(self).subscribers@.len(),
            paths_of(old(self).subscribers@).no_duplicates(),
            directory_names(old(self).directories@).no_duplicates(),
            counts_hold(old(self).subscribers@, old(self).directories@),
            forall|k: int|
                0 <= k < old(self).subscribers@.len() ==> old(self).watches(
                    (#[trigger] old(self).subscribers@[k]).directory@,
                ),
        ensures
            final(self).subscribers@ == old(self).subscribers@.remove(i as int),
            directory_names(final(self).directories@).no_duplicates(),
            counts_hold(final(self).subscribers@, final(self).directories@),
            forall|k: int|
                0 <= k < final(self).subscribers@.len() ==> final(self).watches(
                    (#[trigger] final(self).subscribers@[k]).directory@,
                ),
            match r {
                Some(directory) => {
                    &&& directory@ == old(self).subscribers@[i as int].directory@
                    &&& forall|d: Seq<char>|
                        #[trigger] final(self).watches(d) == (old(self).watches(d) && d
                            != directory@)
                },
                None => forall|d: Seq<char>|
                    #[trigger] final(self).watches(d) == old(self).watches(d),
            },
    {
        let ghost before = self.subscribers@;
        let ghost dirs = self.directories@;
        let entry = self.subscribers.remove(i);
        let ghost after = self.subscribers@;
        let ghost names = directory_names(dirs);
        let d: usize = match self.find_directory(entry.directory.as_str()) {
            Some(d) => d,
            None => {
                assert(old(self).watches(before[i as int].directory@));
                assert(false);
                return None;
            },
        };
        proof {
            files_in_remove(before, i as int, entry.directory@);
            files_in_bounds(after, entry.directory@);
            assert(dirs[d as int].1 == files_in(before, entry.directory@));
        }
        let count: usize = self.directories[d].1 - 1;
        if count == 0 {
            let gone = self.directories.remove(d);
            proof {
                let now = self.directories@;
                let left = directory_names(now);
                assert(left =~= names.remove(d as int));
                assert forall|k: int| 0 <= k < now.len() implies (#[trigger] now[k]).1 > 0
                    && now[k].1 == files_in(after, now[k].0@) by {
                    let o = if k < d {
                        k
                    } else {
                        k + 1
                    };
                    assert(now[k] == dirs[o]);
                    assert(names[o] != names[d as int]);
                    files_in_remove(before, i as int, dirs[o].0@);
                }
                assert forall|w: Seq<char>| #[trigger] self.watches(w) == (old(self).watches(w) && w
                    != entry.directory@) by {
                    if left.contains(w) {
                        let k = choose|k: int| 0 <= k < left.len() && left[k] == w;
                        let o = if k < d {
                            k
                        } else {
                            k + 1
                        };
                        assert(names[o] == w);
                        assert(names[o] != names[d as int]);
                    }
                    if names.contains(w) && w != entry.directory@ {
                        let o = choose|o: int| 0 <= o < names.len() && names[o] == w;
                        assert(left[if o < d {
                            o
                        } else {
                            o - 1
                        }] == w);
                    }
                }
                assert forall|k: int| 0 <= k < after.len() implies self.watches(
                    (#[trigger] after[k]).directory@,
                ) by {
                    let o = if k < i {
                        k
                    } else {
                        k + 1
                    };
                    assert(after[k] == before[o]);
                    assert(old(self).watches(before[o].directory@));
                }
                assert forall|a: int, b: int|
                    0 <= a < left.len() && 0 <= b < left.len() && a != b implies left[a]
                    != left[b] by {
                    let x = if a < d {
                        a
                    } else {
                        a + 1
                    };
                    let y = if b < d {
                        b
                    } else {
                        b + 1
                    };
                    assert(names[x] != names[y]);
                }
            }
            return Some(entry.directory);
        }
        self.directories.set(d, (entry.directory, count));
        proof {
            let now = self.directories@;
            assert(directory_names(now) =~= names);
            assert forall|k: int| 0 <= k < now.len() implies (#[trigger] now[k]).1 > 0 && now[k].1
                == files_in(after, now[k].0@) by {
                if k != d {
                    assert(now[k] == dirs[k]);
                    assert(names[k] != names[d as int]);
                    files_in_remove(before, i as int, dirs[k].0@);
                }
            }
            assert forall|k: int| 0 <= k < after.len() implies self.watches(
                (#[trigger] after[k]).directory@,
            ) by {
                let o = if k < i {
                    k
                } else {
                    k + 1
                };
                assert(after[k] == before[o]);
                assert(old(self).watches(before[o].directory@));
            }
        }
        None
    }

    /// Forgets those who wait for a file and have gone away. The result is the
    /// directory that is no longer watched for anybody, if any.
    pub fn retain(&mut self, path: &str, closed: &Vec<u64>) -> (r: Option<String>)
        requires
            old(self).wf(),
        ensures
            final(self).wf(),
            final(self).waiting(path@) == still_open(old(self).waiting(path@), closed@),
            forall|other: Seq<char>|
                other != path@ ==> #[trigger] final(self).waiting(other) == old(self).waiting(
                    other,
                ),
            match r {
                Some(directory) => {
                    &&& old(self).watches(directory@)
                    &&& forall|d: Seq<char>|
                        #[trigger] final(self).watches(d) == (old(self).watches(d) && d
                            != directory@)
                },
                None => forall|d: Seq<char>|
                    #[trigger] final(self).watches(d) == old(self).watches(d),
            },
    {
        let ghost before = self.subscribers@;
        let ghost dirs = self.directories@;
        let i: usize = match self.find(path) {
            Some(i) => i,
            None => {
                proof {
                    senders_of_none(before, path@);
                }
                return None;
            },
        };
        let mut entry = self.subscribers.remove(i);
        let kept = keep_open(&entry.senders, closed);
        let empty = kept.len() == 0;
        entry.senders = kept;
        self.subscribers.insert(i, entry);
        let ghost middle = self.subscribers@;
        proof {
            assert(middle =~= before.update(i as int, entry));
            assert(paths_of(middle) =~= paths_of(before));
            senders_at(before, i as int);
            senders_at(middle, i as int);
            assert forall|d: int| 0 <= d < dirs.len() implies (#[trigger] dirs[d]).1 > 0
                && dirs[d].1 == files_in(middle, dirs[d].0@) by {
                files_in_same(middle, before, dirs[d].0@);
            }
            assert forall|k: int| 0 <= k < middle.len() implies self.watches(
                (#[trigger] middle[k]).directory@,
            ) by {
                assert(old(self).watches(before[k].directory@));
            }
            assert forall|other: Seq<char>| other != path@ implies #[trigger] senders_of(
                middle,
                other,
            ) == senders_of(before, other) by {
                let a = senders_of_either(middle, other);
                let b = senders_of_either(before, other);
                if a is Some {
                    assert(before[a->0].path@ == other);
                    assert(paths_of(before)[a->0] == paths_of(before)[b->0]);
                }
                if b is Some {
                    assert(middle[b->0].path@ == other);
                }
            }
        }
        if !empty {
            proof {
                assert forall|k: int| 0 <= k < middle.len() implies (
                #[trigger] middle[k]).senders@.len() > 0 && self.watches(
                    middle[k].directory@,
                ) by {
                    assert(before[k].senders@.len() > 0);
                }
            }
            return None;
        }
        assert(self.watches(middle[i as int].directory@));
        let gone = self.drop_file(i);
        proof {
            let after = self.subscribers@;
            let paths = paths_of(middle);
            assert(after == middle.remove(i as int));
            assert forall|a: int, b: int|
                0 <= a < after.len() && 0 <= b < after.len() && a != b implies paths_of(after)[a]
                != paths_of(after)[b] by {
                let x = if a < i {
                    a
                } else {
                    a + 1
                };
                let y = if b < i {
                    b
                } else {
                    b + 1
                };
                assert(paths[x] != paths[y]);
            }
            assert forall|k: int| 0 <= k < after.len() implies (
            #[trigger] after[k]).senders@.len() > 0 && self.watches(after[k].directory@) by {
                let o = if k < i {
                    k
                } else {
                    k + 1
                };
                assert(after[k] == middle[o]);
                assert(before[o].senders@.len() > 0);
            }
            assert forall|other: Seq<char>| other != path@ implies #[trigger] senders_of(
                after,
                other,
            ) == senders_of(before, other) by {
                let a = senders_of_either(after, other);
                let b = senders_of_either(middle, other);
                if a is Some {
                    let o = if a->0 < i {
                        a->0
                    } else {
                        a->0 + 1
                    };
                    assert(middle[o].path@ == other);
                    assert(paths[o] == paths[b->0]);
                }
                if b is Some {
                    let k = if b->0 < i {
                        b->0
                    } else {
                        b->0 - 1
                    };
                    assert(after[k].path@ == other);
                }
            }
            let at = senders_of_either(after, path@);
            if at is Some {
                let o = if at->0 < i {
                    at->0
                } else {
                    at->0 + 1
                };
                assert(paths[o] == paths[i as int]);
            }
        }
        gone
    }

    /// Forgets everybody who has gone away. The result lists the directories that
    /// are no longer watched for anybody.
    pub fn prune_closed(&mut self, closed: &Vec<u64>) -> (r: Vec<String>)
        requires
            old(self).wf(),
        ensures
            final(self).wf(),
            forall|path: Seq<char>|
                #[trigger] final(self).waiting(path) == still_open(
                    old(self).waiting(path),
                    closed@,
                ),
            forall|d: Seq<char>|
                #[trigger] final(self).watches(d) == (old(self).watches(d)
                    && !crate::text::texts(r@).contains(d)),
            forall|k: int| 0 <= k < r@.len() ==> old(self).watches((#[trigger] r@[k])@),
            crate::text::texts(r@).no_duplicates(),
            forall|d: Seq<char>| #[trigger]
                final(self).watches(d) <==> exists|path: Seq<char>| #[trigger]
                    final(self).waiting(path).len() > 0 && parent_of(path) == d,
    {
        let mut names: Vec<String> = Vec::new();
        let mut i: usize = 0;
        while i < self.subscribers.len()
            invariant
                i <= self.subscribers.len(),
                *self == *old(self),
                names@.len() == i,
                forall|k: int| 0 <= k < i ==> (#[trigger] names@[k])@ == self.subscribers@[k].path@,
            decreases self.subscribers.len() - i,
        {
            names.push(self.subscribers[i].path.clone());
            i = i + 1;
        }
        let ghost before = *self;
        let ghost listed = crate::text::texts(names@);
        assert(listed =~= paths_of(before.subscribers@));
        let mut out: Vec<String> = Vec::new();
        let mut n: usize = 0;
        while n < names.len()
            invariant
                n <= names.len(),
                before.wf(),
                self.wf(),
                listed == crate::text::texts(names@),
                listed.no_duplicates(),
                forall|k: int|
                    0 <= k < n ==> self.waiting(#[trigger] listed[k]) == still_open(
                        before.waiting(listed[k]),
                        closed@,
                    ),
                forall|path: Seq<char>|
                    !listed.take(n as int).contains(path) ==> #[trigger] self.waiting(path)
                        == before.waiting(path),
                forall|d: Seq<char>|
                    #[trigger] self.watches(d) == (before.watches(d)
                        && !crate::text::texts(out@).contains(d)),
                forall|k: int| 0 <= k < out@.len() ==> before.watches((#[trigger] out@[k])@),
                crate::text::texts(out@).no_duplicates(),
            decreases names.len() - n,
        {
            let ghost middle = *self;
            let ghost told = crate::text::texts(out@);
            proof {
                assert(listed[n as int] == names@[n as int]@);
                assert(!listed.take(n as int).contains(listed[n as int]));
            }
            let gone = self.retain(names[n].as_str(), closed);
            if let Some(directory) = gone {
                let ghost d = directory@;
                out.push(directory);
                assert(crate::text::texts(out@) =~= told.push(d));
                proof {
                    assert(middle.watches(d));
                    assert(!told.contains(d));
                    assert forall|w: Seq<char>| #[trigger] self.watches(w) == (before.watches(w)
                        && !told.push(d).contains(w)) by {
                        if told.contains(w) {
                            let k = choose|k: int| 0 <= k < told.len() && told[k] == w;
                            assert(told.push(d)[k] == w);
                        }
                        if w == d {
                            assert(told.push(d)[told.len() as int] == w);
                        }
                        if told.push(d).contains(w) && w != d {
                            let k = choose|k: int|
                                0 <= k < told.push(d).len() && told.push(d)[k] == w;
                            assert(told[k] == w);
                        }
                        assert(self.watches(w) == (middle.watches(w) && w != d));
                    }
                }
            }
            proof {
                let done = listed.take(n + 1);
                assert(done =~= listed.take(n as int).push(listed[n as int]));
                assert forall|path: Seq<char>| !done.contains(path) implies #[trigger] self.waiting(
                    path,
                ) == before.waiting(path) by {
                    assert(done[n as int] == listed[n as int]);
                    if listed.take(n as int).contains(path) {
                        let k = choose|k: int|
                            0 <= k < n && listed.take(n as int)[k] == path;
                        assert(done[k] == path);
                    }
                    assert(middle.waiting(path) == before.waiting(path));
                }
                assert forall|k: int| 0 <= k < n + 1 implies self.waiting(#[trigger] listed[k])
                    == still_open(before.waiting(listed[k]), closed@) by {
                    if k < n {
                        assert(listed[k] != listed[n as int]);
                        assert(self.waiting(listed[k]) == middle.waiting(listed[k]));
                    } else {
                        assert(middle.waiting(listed[k]) == before.waiting(listed[k]));
                    }
                }
            }
            n = n + 1;
        }
        proof {
            assert(listed.take(n as int) =~= listed);
            assert forall|path: Seq<char>| #[trigger] self.waiting(path) == still_open(
                old(self).waiting(path),
                closed@,
            ) by {
                let at = senders_of_either(before.subscribers@, path);
                if at is Some {
                    assert(listed[at->0] == path);
                } else {
                    if listed.contains(path) {
                        let k = choose|k: int| 0 <= k < listed.len() && listed[k] == path;
                        assert(before.subscribers@[k].path@ == path);
                    }
                }
            }
            assert forall|d: Seq<char>| #[trigger] self.watches(d) <==> exists|path: Seq<char>|
                #[trigger] self.waiting(path).len() > 0 && parent_of(path) == d by {
                watched_directories_are_parents(*self, d);
            }
        }
        out
    }
}

fn keep_open(senders: &Vec<u64>, closed: &Vec<u64>) -> (r: Vec<u64>)
    ensures
        r@ == still_open(senders@, closed@),
{
    let mut out: Vec<u64> = Vec::new();
    let mut i: usize = 0;
    assert(out@ =~= still_open(senders@.take(0), closed@));
    while i < senders.len()
        invariant
            i <= senders.len(),
            out@ == still_open(senders@.take(i as int), closed@),
        decreases senders.len() - i,
    {
        proof {
            assert(senders@.take(i + 1).drop_last() =~= senders@.take(i as int));
            assert(senders@.take(i + 1).last() == senders@[i as int]);
        }
        if !holds(closed, senders[i]) {
            out.push(senders[i]);
        }
        i = i + 1;
    }
    assert(senders@.take(i as int) =~= senders@);
    out
}

fn holds(list: &Vec<u64>, wanted: u64) -> (r: bool)
    ensures
        r == list@.contains(wanted),
{
    let mut i: usize = 0;
    while i < list.len()
        invariant
            i <= list.len(),
            forall|k: int| 0 <= k < i ==> list@[k] != wanted,
        decreases list.len() - i,
    {
        if list[i] == wanted {
            return true;
        }
        i = i + 1;
    }
    false
}

/// Pruning keeps everybody who has not gone away, and nobody else.
pub proof fn only_the_closed_leave(senders: Seq<u64>, closed: Seq<u64>, sender: u64)
    ensures
        still_open(senders, closed).contains(sender) <==> senders.contains(sender)
            && !closed.contains(sender),
    decreases senders.len(),
{
    if senders.len() > 0 {
        let fewer = senders.drop_last();
        only_the_closed_leave(fewer, closed, sender);
        let before = still_open(fewer, closed);
        let after = still_open(senders, closed);
        assert(senders =~= fewer.push(senders.last()));
        if senders.contains(sender) && sender != senders.last() {
            let i = choose|i: int| 0 <= i < senders.len() && senders[i] == sender;
            assert(fewer[i] == sender);
        }
        if fewer.contains(sender) {
            let i = choose|i: int| 0 <= i < fewer.len() && fewer[i] == sender;
            assert(senders[i] == sender);
        }
        if !closed.contains(senders.last()) {
            assert(after == before.push(senders.last()));
            assert(after[before.len() as int] == senders.last());
            if before.contains(sender) {
                let i = choose|i: int| 0 <= i < before.len() && before[i] == sender;
                assert(after[i] == sender);
            }
            if after.contains(sender) && sender != senders.last() {
                let i = choose|i: int| 0 <= i < after.len() && after[i] == sender;
                assert(before[i] == sender);
            }
        }
    }
}

/// A directory is watched exactly as long as somebody waits for a file in it.
pub proof fn watched_while_waited_for(registry: WatchRegistry, directory: Seq<char>)
    requires
        registry.wf(),
    ensures
        registry.watches(directory) <==> exists|i: int|
            0 <= i < registry.subscribers@.len() && (
            #[trigger] registry.subscribers@[i]).directory@ == directory
                && registry.subscribers@[i].senders@.len() > 0,
{
    let names = directory_names(registry.directories@);
    if registry.watches(directory) {
        let d = choose|d: int| 0 <= d < names.len() && names[d] == directory;
        assert(registry.directories@[d].1 == files_in(registry.subscribers@, directory));
        files_in_bounds(registry.subscribers@, directory);
        let i = choose|i: int|
            0 <= i < registry.subscribers@.len() && (
            #[trigger] registry.subscribers@[i]).directory@ == directory;
        assert(registry.subscribers@[i].senders@.len() > 0);
    }
}

/// The watched directories are exactly those that the files somebody waits for
/// stand in, each listed once however many of these files it holds.
pub proof fn watched_directories_are_parents(registry: WatchRegistry, directory: Seq<char>)
    requires
        registry.wf(),
    ensures
        registry.watches(directory) <==> exists|path: Seq<char>| #[trigger]
            registry.waiting(path).len() > 0 && parent_of(path) == directory,
        directory_names(registry.directories@).no_duplicates(),
{
    watched_while_waited_for(registry, directory);
    if registry.watches(directory) {
        let i = choose|i: int|
            0 <= i < registry.subscribers@.len() && (
            #[trigger] registry.subscribers@[i]).directory@ == directory
                && registry.subscribers@[i].senders@.len() > 0;
        senders_at(registry.subscribers@, i);
        assert(registry.waiting(registry.subscribers@[i].path@).len() > 0);
    }
    if exists|path: Seq<char>| #[trigger]
        registry.waiting(path).len() > 0 && parent_of(path) == directory {
        let path = choose|path: Seq<char>| #[trigger]
            registry.waiting(path).len() > 0 && parent_of(path) == directory;
        let at = senders_of_either(registry.subscribers@, path);
        assert(registry.subscribers@[at->0].directory@ == directory);
    }
}

/// Of a path, empty pieces and single dots count for nothing, two dots take back
/// the piece before, and every other piece is kept.
pub proof fn dots_are_resolved(pieces: Seq<Seq<char>>, piece: Seq<char>)
    ensures
        path_parts(Seq::empty()).len() == 0,
        piece.len() == 0 || piece == seq!['.'] ==> path_parts(pieces.push(piece)) == path_parts(
            pieces,
        ),
        piece == seq!['.', '.'] && path_parts(pieces).len() > 0 ==> path_parts(pieces.push(piece))
            == path_parts(pieces).drop_last(),
        piece == seq!['.', '.'] && path_parts(pieces).len() == 0 ==> path_parts(
            pieces.push(piece),
        ).len() == 0,
        piece.len() > 0 && piece != seq!['.'] && piece != seq!['.', '.'] ==> path_parts(
            pieces.push(piece),
        ) == path_parts(pieces).push(piece),
{
    reveal_strlit(".");
    reveal_strlit("..");
    assert("."@ =~= seq!['.']);
    assert(".."@ =~= seq!['.', '.']);
    assert(seq!['.', '.'] != seq!['.']) by {
        assert(seq!['.', '.'].len() == 2);
    }
    assert(pieces.push(piece).drop_last() =~= pieces);
}

/// A path is seen from the root, or else from the current directory; without one
/// it stands for nothing.
pub proof fn paths_are_seen_from_the_current_directory(path: Seq<char>, current: Seq<char>)
    ensures
        path.len() > 0 && path[0] == '/' ==> parts_of(path, None) == Some(
            path_parts(crate::text::split_text(path, '/')),
        ) && parts_of(path, Some(current)) == parts_of(path, None),
        path.len() == 0 || path[0] != '/' ==> parts_of(path, None) is None && parts_of(
            path,
            Some(current),
        ) == Some(path_parts(crate::text::split_text(crate::text::path_joined(current, path), '/'))),
{
}

/// The directory of a path is the path without its last part.
pub proof fn directory_is_the_path_without_its_last_part(
    directory: Seq<Seq<char>>,
    name: Seq<char>,
)
    requires
        !name.contains('/'),
    ensures
        parent_of(path_of(directory.push(name))) == path_of(directory),
        path_of(Seq::empty()) == seq!['/'],
        directory.len() == 0 ==> path_of(directory.push(name)) == seq!['/'] + name,
        directory.len() > 0 ==> path_of(directory.push(name)) == path_of(directory) + seq!['/']
            + name,
{
    reveal_strlit("/");
    assert("/"@ =~= seq!['/']);
    reveal_with_fuel(crate::text::joined, 2);
    parent_of_parts(directory.push(name));
    assert(directory.push(name).drop_last() =~= directory);
    assert(path_of(Seq::empty()) =~= seq!['/']);
    if directory.len() == 0 {
        assert(directory.push(name) =~= seq![name]);
        assert(path_of(directory.push(name)) =~= seq!['/'] + name);
    } else {
        assert(path_of(directory.push(name)) =~= path_of(directory) + seq!['/'] + name);
    }
}

/// Somebody who waits for a file is told of an event exactly if the watcher lost
/// track, or the event may have changed contents and names the file or its
/// directory. Of a rename it is the new name that counts.
pub proof fn who_is_told_of_an_event(event: Event, current: Option<Seq<char>>, file: Subscribers)
    ensures
        event.need_rescan ==> concerns(event, current, file),
        !event.need_rescan && (event.kind is Access || event.kind is Remove || event.kind
            is ModifyMetadata || event.kind is RenameFrom) ==> !concerns(event, current, file),
        !event.need_rescan && (event.kind is RenameTo || event.kind is RenameBoth) ==> concerns(
            event,
            current,
            file,
        ) == (event.paths@.len() > 0 && names_file(event.paths@.last(), current, file)),
        !event.need_rescan && (event.kind is Any || event.kind is Other || event.kind is Create
            || event.kind is ModifyAny || event.kind is ModifyOther || event.kind is ModifyData
            || event.kind is RenameAny || event.kind is RenameOther) ==> (concerns(
            event,
            current,
            file,
        ) <==> exists|p: int|
            0 <= p < event.paths@.len() && names_file(#[trigger] event.paths@[p], current, file)),
{
}

/// A path of an event names a file if it leads to the file itself or to its
/// directory.
pub proof fn events_name_files_or_directories(
    path: String,
    current: Option<Seq<char>>,
    file: Subscribers,
)
    ensures
        parts_of(path@, current) is None ==> !names_file(path, current, file),
        parts_of(path@, current) is Some ==> (names_file(path, current, file) <==> path_of(
            parts_of(path@, current)->0,
        ) == file.path@ || path_of(parts_of(path@, current)->0) == file.directory@),
{
}

/// Everybody whom an event concerns is told, and nobody else.
pub proof fn all_concerned_are_told(
    subscribers: Seq<Subscribers>,
    event: Event,
    current: Option<Seq<char>>,
    path: Seq<char>,
)
    ensures
        concerned(subscribers, event, current).contains(path) <==> exists|i: int|
            0 <= i < subscribers.len() && (#[trigger] subscribers[i]).path@ == path && concerns(
                event,
                current,
                subscribers[i],
            ),
    decreases subscribers.len(),
{
    if subscribers.len() > 0 {
        let fewer = subscribers.drop_last();
        let n = fewer.len() as int;
        let before = concerned(fewer, event, current);
        let all = concerned(subscribers, event, current);
        all_concerned_are_told(fewer, event, current, path);
        assert(subscribers[n] == subscribers.last());
        if before.contains(path) {
            let k = choose|k: int| 0 <= k < before.len() && before[k] == path;
            assert(all[k] == path);
            let i = choose|i: int|
                0 <= i < fewer.len() && (#[trigger] fewer[i]).path@ == path && concerns(
                    event,
                    current,
                    fewer[i],
                );
            assert(subscribers[i] == fewer[i]);
        } else if all.contains(path) {
            let k = choose|k: int| 0 <= k < all.len() && all[k] == path;
            if k < before.len() {
                assert(before[k] == path);
            }
            assert(subscribers[n].path@ == path);
        }
        if exists|i: int|
            0 <= i < subscribers.len() && (#[trigger] subscribers[i]).path@ == path && concerns(
                event,
                current,
                subscribers[i],
            ) {
            let i = choose|i: int|
                0 <= i < subscribers.len() && (#[trigger] subscribers[i]).path@ == path && concerns(
                    event,
                    current,
                    subscribers[i],
                );
            if i < n {
                assert(fewer[i].path@ == path);
            } else {
                assert(all[before.len() as int] == path);
            }
        }
    }
}

/// Those who wait for a file are those of its entry.
pub proof fn entries_hold_who_waits(subscribers: Seq<Subscribers>, i: int, path: Seq<char>)
    requires
        paths_of(subscribers).no_duplicates(),
    ensures
        0 <= i < subscribers.len() ==> senders_of(subscribers, subscribers[i].path@)
            == subscribers[i].senders@,
        (forall|k: int| 0 <= k < subscribers.len() ==> (#[trigger] subscribers[k]).path@ != path)
            ==> senders_of(subscribers, path).len() == 0,
{
    if 0 <= i < subscribers.len() {
        senders_at(subscribers, i);
    }
    if forall|k: int| 0 <= k < subscribers.len() ==> (#[trigger] subscribers[k]).path@ != path {
        senders_of_none(subscribers, path);
    }
}

/// A directory counts each file of its own, and no other.
pub proof fn files_are_counted(subscribers: Seq<Subscribers>, file: Subscribers, directory: Seq<char>)
    ensures
        files_in(Seq::empty(), directory) == 0,
        file.directory@ == directory ==> files_in(subscribers.push(file), directory) == files_in(
            subscribers,
            directory,
        ) + 1,
        file.directory@ != directory ==> files_in(subscribers.push(file), directory) == files_in(
            subscribers,
            directory,
        ),
{
    assert(subscribers.push(file).drop_last() =~= subscribers);
}

/// Those who are told are told in the order in which they are filed.
pub proof fn told_in_order(
    subscribers: Seq<Subscribers>,
    file: Subscribers,
    event: Event,
    current: Option<Seq<char>>,
)
    ensures
        concerned(Seq::empty(), event, current).len() == 0,
        concerns(event, current, file) ==> concerned(subscribers.push(file), event, current)
            == concerned(subscribers, event, current).push(file.path@),
        !concerns(event, current, file) ==> concerned(subscribers.push(file), event, current)
            == concerned(subscribers, event, current),
{
    assert(subscribers.push(file).drop_last() =~= subscribers);
}

/// Those who stay keep their order.
pub proof fn the_others_keep_their_order(senders: Seq<u64>, sender: u64, closed: Seq<u64>)
    ensures
        still_open(Seq::empty(), closed).len() == 0,
        closed.contains(sender) ==> still_open(senders.push(sender), closed) == still_open(
            senders,
            closed,
        ),
        !closed.contains(sender) ==> still_open(senders.push(sender), closed) == still_open(
            senders,
            closed,
        ).push(sender),
{
    assert(senders.push(sender).drop_last() =~= senders);
}

} // verus!
