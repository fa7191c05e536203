//! Wikis that Node.js works on: the mirrors of stored wikis and how changes in
//! them go back, the servers that run, and the commands that are run.

use vstd::prelude::*;
use crate::folder_wiki_server;
use crate::outside;
use crate::table;
use crate::table::{StringMap, Table};
use crate::text;

verus! {

// ---------------------------------------------------------------------------
// Watching a mirror
// ---------------------------------------------------------------------------

/// When each file of a directory was last modified, by its path from there: the
/// nanoseconds since the epoch.
pub type FileTimes = Table<i128>;

/// The path of a directory's child, from where the directory's own path starts.
pub open spec fn child_path(rel: Seq<char>, name: Seq<char>) -> Seq<char> {
    if rel.len() == 0 {
        name
    } else {
        rel + "/"@ + name
    }
}

/// The path of a directory's child, from where the directory's own path starts.
pub fn child_rel(rel_path: &str, file_name: &str) -> (r: String)
    ensures
        r@ == child_path(rel_path@, file_name@),
{
    if rel_path.is_empty() {
        file_name.to_owned()
    } else {
        text::concat3(rel_path, "/", file_name)
    }
}

/// The files whose times are not those that were known.
pub open spec fn changed_files(
    known: Seq<(Seq<char>, i128)>,
    current: Seq<(Seq<char>, i128)>,
) -> Seq<Seq<char>>
    decreases current.len(),
{
    if current.len() == 0 {
        Seq::empty()
    } else {
        let before = changed_files(known, current.drop_last());
        let e = current.last();
        if table::lookup(known, e.0) == Some(e.1) {
            before
        } else {
            before.push(e.0)
        }
    }
}

/// The files that were known and are no longer there.
pub open spec fn deleted_files(
    known: Seq<(Seq<char>, i128)>,
    current: Seq<(Seq<char>, i128)>,
) -> Seq<Seq<char>>
    decreases known.len(),
{
    if known.len() == 0 {
        Seq::empty()
    } else {
        let before = deleted_files(known.drop_last(), current);
        if table::has_key(current, known.last().0) {
            before
        } else {
            before.push(known.last().0)
        }
    }
}

fn find_changed(known: &FileTimes, current: &FileTimes) -> (r: Vec<String>)
    ensures
        text::views(r@) == changed_files(known@, current@),
{
    let mut out: Vec<String> = Vec::new();
    let mut i: usize = 0;
    assert(text::views(out@) =~= changed_files(known@, current@.take(0)));
    while i < current.entries.len()
        invariant
            i <= current.entries.len(),
            text::views(out@) == changed_files(known@, current@.take(i as int)),
        decreases current.entries.len() - i,
    {
        let path: &str = current.entries[i].0.as_str();
        let time: i128 = current.entries[i].1;
        let ghost before = out@;
        assert(current@.take(i + 1).drop_last() =~= current@.take(i as int));
        assert(current@.take(i + 1).last() == (path@, time));
        let same: bool = match known.get(path) {
            Some(t) => *t == time,
            None => false,
        };
        if !same {
            let p: String = path.to_owned();
            out.push(p);
            assert(text::views(out@) =~= text::views(before).push(path@));
        }
        i = i + 1;
    }
    assert(current@.take(i as int) =~= current@);
    out
}

fn find_deleted(known: &FileTimes, current: &FileTimes) -> (r: Vec<String>)
    ensures
        text::views(r@) == deleted_files(known@, current@),
{
    let mut out: Vec<String> = Vec::new();
    let mut i: usize = 0;
    assert(text::views(out@) =~= deleted_files(known@.take(0), current@));
    while i < known.entries.len()
        invariant
            i <= known.entries.len(),
            text::views(out@) == deleted_files(known@.take(i as int), current@),
        decreases known.entries.len() - i,
    {
        let path: &str = known.entries[i].0.as_str();
        let ghost before = out@;
        assert(known@.take(i + 1).drop_last() =~= known@.take(i as int));
        assert(known@.take(i + 1).last().0 == path@);
        if !current.contains_key(path) {
            let p: String = path.to_owned();
            out.push(p);
            assert(text::views(out@) =~= text::views(before).push(path@));
        }
        i = i + 1;
    }
    assert(known@.take(i as int) =~= known@);
    out
}

/// What a scan finds in a directory: a name, and with it a directory, or a file
/// with its time, where that is known, or something else.
pub enum Found {
    Directory(String),
    File(String, Option<i128>),
    Other,
}

/// The times after the files of a directory were noted.
pub open spec fn noted_files(
    times: Seq<(Seq<char>, i128)>,
    rel: Seq<char>,
    found: Seq<Found>,
) -> Seq<(Seq<char>, i128)>
    decreases found.len(),
{
    if found.len() == 0 {
        times
    } else {
        let before = noted_files(times, rel, found.drop_last());
        match found.last() {
            Found::File(n, Some(t)) => table::put(before, child_path(rel, n@), t),
            _ => before,
        }
    }
}

/// The directories of a directory.
pub open spec fn inner_directories(rel: Seq<char>, found: Seq<Found>) -> Seq<Seq<char>>
    decreases found.len(),
{
    if found.len() == 0 {
        Seq::empty()
    } else {
        let before = inner_directories(rel, found.drop_last());
        match found.last() {
            Found::Directory(n) => before.push(child_path(rel, n@)),
            _ => before,
        }
    }
}

/// Notes the times of the files of a directory, and gives the directories in it,
/// which are to be scanned as well.
pub fn scan_directory(times: &mut FileTimes, rel_path: &str, found: &Vec<Found>) -> (r: Vec<String>)
    ensures
        final(times)@ == noted_files(old(times)@, rel_path@, found@),
        text::views(r@) == inner_directories(rel_path@, found@),
{
    let ghost start = times@;
    let mut out: Vec<String> = Vec::new();
    let mut i: usize = 0;
    assert(found@.take(0) =~= Seq::empty());
    assert(text::views(out@) =~= Seq::empty());
    while i < found.len()
        invariant
            i <= found.len(),
            times@ == noted_files(start, rel_path@, found@.take(i as int)),
            text::views(out@) == inner_directories(rel_path@, found@.take(i as int)),
        decreases found.len() - i,
    {
        let ghost before = out@;
        assert(found@.take(i + 1).drop_last() =~= found@.take(i as int));
        assert(found@.take(i + 1).last() == found@[i as int]);
        match &found[i] {
            Found::Directory(n) => {
                let p: String = child_rel(rel_path, n.as_str());
                out.push(p);
                assert(text::views(out@) =~= text::views(before).push(p@));
            },
            Found::File(n, Some(t)) => {
                times.insert(child_rel(rel_path, n.as_str()), *t);
            },
            _ => {},
        }
        i = i + 1;
    }
    assert(found@.take(i as int) =~= found@);
    out
}

/// Watches the mirror of a stored wiki, so that its changes can go back.
pub struct SyncWatcher {
    pub local_path: String,
    pub saf_uri: String,
    pub running: bool,
    pub file_mtimes: FileTimes,
}

/// What a watcher holds.
pub ghost struct SyncWatcherView {
    pub local_path: Seq<char>,
    pub saf_uri: Seq<char>,
    pub running: bool,
    pub file_mtimes: Seq<(Seq<char>, i128)>,
}

impl View for SyncWatcher {
    type V = SyncWatcherView;

    open spec fn view(&self) -> SyncWatcherView {
        SyncWatcherView {
            local_path: self.local_path@,
            saf_uri: self.saf_uri@,
            running: self.running,
            file_mtimes: self.file_mtimes@,
        }
    }
}

/// What a look at the mirror asks for: files to write back and files to delete.
pub struct SyncPlan {
    pub changed: Vec<String>,
    pub deleted: Vec<String>,
}

/// A watcher that knows no files yet and does not run.
pub open spec fn new_watcher(local_path: Seq<char>, saf_uri: Seq<char>) -> SyncWatcherView {
    SyncWatcherView { local_path, saf_uri, running: false, file_mtimes: Seq::empty() }
}

impl SyncWatcher {
    /// A watcher that knows no files yet and does not run.
    pub fn new(local_path: String, saf_uri: String) -> (r: Self)
        ensures
            r@ == new_watcher(local_path@, saf_uri@),
    {
        SyncWatcher { local_path, saf_uri, running: false, file_mtimes: Table::new() }
    }

    /// Sets the watcher going, and says whether it was not going yet.
    pub fn start(&mut self) -> (r: bool)
        ensures
            r == !old(self)@.running,
            final(self)@ == (SyncWatcherView { running: true, ..old(self)@ }),
    {
        let was: bool = self.running;
        self.running = true;
        !was
    }

    /// Stops the watcher.
    pub fn stop(&mut self)
        ensures
            final(self)@ == (SyncWatcherView { running: false, ..old(self)@ }),
    {
        self.running = false;
    }

    /// Takes what a scan found, as far as it came, for what is known.
    pub fn scan_files(&mut self, found: FileTimes)
        ensures
            final(self)@ == (SyncWatcherView { file_mtimes: found@, ..old(self)@ }),
    {
        self.file_mtimes = found;
    }

    /// Compares what a scan found with what is known, and takes it for what is
    /// known from then on. A scan that failed changes nothing.
    pub fn check_and_sync(&mut self, current: Result<FileTimes, String>) -> (r: SyncPlan)
        ensures
            match current {
                Ok(c) => {
                    &&& text::views(r.changed@) == changed_files(old(self)@.file_mtimes, c@)
                    &&& text::views(r.deleted@) == deleted_files(old(self)@.file_mtimes, c@)
                    &&& final(self)@ == (SyncWatcherView { file_mtimes: c@, ..old(self)@ })
                },
                Err(_) => r.changed@.len() == 0 && r.deleted@.len() == 0 && final(self)@ == old(
                    self,
                )@,
            },
    {
        match current {
            Ok(c) => {
                let changed: Vec<String> = find_changed(&self.file_mtimes, &c);
                let deleted: Vec<String> = find_deleted(&self.file_mtimes, &c);
                self.file_mtimes = c;
                SyncPlan { changed, deleted }
            },
            Err(_) => SyncPlan { changed: Vec::new(), deleted: Vec::new() },
        }
    }
}

proof fn lemma_changed_member(known: Seq<(Seq<char>, i128)>, current: Seq<(Seq<char>, i128)>, p: Seq<char>)
    ensures
        changed_files(known, current).contains(p) <==> exists|i: int|
            0 <= i < current.len() && (#[trigger] current[i]).0 == p && table::lookup(known, p)
                != Some(current[i].1),
    decreases current.len(),
{
    if current.len() > 0 {
        let short = current.drop_last();
        let e = current.last();
        let n = current.len() - 1;
        lemma_changed_member(known, short, p);
        let before = changed_files(known, short);
        if table::lookup(known, e.0) != Some(e.1) {
            let s = changed_files(known, current);
            assert(s == before.push(e.0));
            if before.contains(p) {
                let k = choose|k: int| 0 <= k < before.len() && before[k] == p;
                assert(s[k] == p);
            }
            if e.0 == p {
                assert(s[before.len() as int] == p);
            }
            if s.contains(p) && e.0 != p {
                let k = choose|k: int| 0 <= k < s.len() && s[k] == p;
                assert(before[k] == p);
            }
        }
        assert(current[n] == e);
        assert forall|i: int| 0 <= i < n implies current[i] == #[trigger] short[i] by {}
        if exists|i: int|
            0 <= i < current.len() && (#[trigger] current[i]).0 == p && table::lookup(known, p)
                != Some(current[i].1) {
            let i = choose|i: int|
                0 <= i < current.len() && (#[trigger] current[i]).0 == p && table::lookup(known, p)
                    != Some(current[i].1);
            if i < n {
                assert(short[i].0 == p);
            }
        }
    }
}

proof fn lemma_deleted_member(known: Seq<(Seq<char>, i128)>, current: Seq<(Seq<char>, i128)>, p: Seq<char>)
    ensures
        deleted_files(known, current).contains(p) <==> (!table::has_key(current, p) && exists|i: int|
            0 <= i < known.len() && (#[trigger] known[i]).0 == p),
    decreases known.len(),
{
    if known.len() > 0 {
        let short = known.drop_last();
        let e = known.last();
        let n = known.len() - 1;
        lemma_deleted_member(short, current, p);
        let before = deleted_files(short, current);
        if !table::has_key(current, e.0) {
            let s = deleted_files(known, current);
            assert(s == before.push(e.0));
            if before.contains(p) {
                let k = choose|k: int| 0 <= k < before.len() && before[k] == p;
                assert(s[k] == p);
            }
            if e.0 == p {
                assert(s[before.len() as int] == p);
            }
            if s.contains(p) && e.0 != p {
                let k = choose|k: int| 0 <= k < s.len() && s[k] == p;
                assert(before[k] == p);
            }
        }
        assert(known[n] == e);
        assert forall|i: int| 0 <= i < n implies known[i] == #[trigger] short[i] by {}
        if exists|i: int| 0 <= i < known.len() && (#[trigger] known[i]).0 == p {
            let i = choose|i: int| 0 <= i < known.len() && (#[trigger] known[i]).0 == p;
            if i < n {
                assert(short[i].0 == p);
            }
        }
    }
}

/// A file is written back if and only if it is there and its time is not the
/// known one, and deleted if and only if it was known and is no longer there:
/// so none is both.
pub proof fn law_sync_follows_the_mirror(
    known: Seq<(Seq<char>, i128)>,
    current: Seq<(Seq<char>, i128)>,
    path: Seq<char>,
)
    requires
        table::distinct_keys(known),
        table::distinct_keys(current),
    ensures
        changed_files(known, current).contains(path) <==> (table::has_key(current, path)
            && table::lookup(known, path) != table::lookup(current, path)),
        deleted_files(known, current).contains(path) <==> (table::has_key(known, path)
            && !table::has_key(current, path)),
        !(changed_files(known, current).contains(path) && deleted_files(known, current).contains(
            path,
        )),
{
    lemma_changed_member(known, current, path);
    lemma_deleted_member(known, current, path);
    table::lemma_position(current, path, 0);
    table::lemma_position(known, path, 0);
    match table::position(current, path, 0) {
        Some(i) => {
            assert(current[i].0 == path);
        },
        None => {},
    }
    match table::position(known, path, 0) {
        Some(i) => {
            assert(known[i].0 == path);
        },
        None => {},
    }
}

/// Where nothing changed, nothing is written back and nothing deleted.
pub proof fn law_quiet_mirror_is_left_alone(times: Seq<(Seq<char>, i128)>)
    requires
        table::distinct_keys(times),
    ensures
        changed_files(times, times).len() == 0,
        deleted_files(times, times).len() == 0,
{
    let c = changed_files(times, times);
    let d = deleted_files(times, times);
    if c.len() > 0 {
        law_sync_follows_the_mirror(times, times, c[0]);
        assert(c.contains(c[0]));
    }
    if d.len() > 0 {
        law_sync_follows_the_mirror(times, times, d[0]);
        assert(d.contains(d[0]));
    }
}

// ---------------------------------------------------------------------------
// Writing one file back
// ---------------------------------------------------------------------------

/// Where a file stands that is written back or deleted: the directories on the
/// way, how many of them were entered, the URI of the last one, and the file's
/// name.
pub struct Walk {
    pub dirs: Vec<String>,
    pub entered: usize,
    pub uri: String,
    pub name: String,
}

/// Where a walk stands.
pub ghost struct WalkView {
    pub dirs: Seq<Seq<char>>,
    pub entered: int,
    pub uri: Seq<char>,
    pub name: Seq<char>,
}

impl View for Walk {
    type V = WalkView;

    open spec fn view(&self) -> WalkView {
        WalkView {
            dirs: text::views(self.dirs@),
            entered: self.entered as int,
            uri: self.uri@,
            name: self.name@,
        }
    }
}

impl WalkView {
    /// No more directories were entered than there are.
    pub open spec fn wf(self) -> bool {
        0 <= self.entered <= self.dirs.len()
    }

    /// The walk with the next directory entered.
    pub open spec fn enter(self, uri: Seq<char>) -> WalkView {
        WalkView { entered: self.entered + 1, uri, ..self }
    }
}

/// The walk to a file before its first step.
pub open spec fn walk_to(rel_path: Seq<char>, uri: Seq<char>) -> WalkView {
    let parts = text::split_of(rel_path, '/');
    WalkView { dirs: parts.drop_last(), entered: 0, uri, name: parts.last() }
}

/// What is to be done next on a walk.
pub enum Step {
    /// Find the directory, or create it, and enter it.
    EnsureDirectory { parent: String, name: String },
    /// Find the directory, and enter it.
    FindDirectory { parent: String, name: String },
    FindFile { parent: String, name: String },
    CreateFile { parent: String, name: String, mime: String },
    Write { uri: String },
    Delete { uri: String },
    Finished(Result<(), String>),
}

/// What is to be done next on a walk.
pub ghost enum StepView {
    EnsureDirectory(Seq<char>, Seq<char>),
    FindDirectory(Seq<char>, Seq<char>),
    FindFile(Seq<char>, Seq<char>),
    CreateFile(Seq<char>, Seq<char>, Seq<char>),
    Write(Seq<char>),
    Delete(Seq<char>),
    Done,
    Failed(Seq<char>),
}

impl View for Step {
    type V = StepView;

    open spec fn view(&self) -> StepView {
        match self {
            Step::EnsureDirectory { parent, name } => StepView::EnsureDirectory(parent@, name@),
            Step::FindDirectory { parent, name } => StepView::FindDirectory(parent@, name@),
            Step::FindFile { parent, name } => StepView::FindFile(parent@, name@),
            Step::CreateFile { parent, name, mime } => StepView::CreateFile(parent@, name@, mime@),
            Step::Write { uri } => StepView::Write(uri@),
            Step::Delete { uri } => StepView::Delete(uri@),
            Step::Finished(Ok(_)) => StepView::Done,
            Step::Finished(Err(e)) => StepView::Failed(e@),
        }
    }
}

/// The next step of a walk: into the next directory, which is created where
/// `create` says so, or else to the file.
pub open spec fn next_step(w: WalkView, create: bool) -> StepView {
    if w.entered < w.dirs.len() {
        if create {
            StepView::EnsureDirectory(w.uri, w.dirs[w.entered])
        } else {
            StepView::FindDirectory(w.uri, w.dirs[w.entered])
        }
    } else {
        StepView::FindFile(w.uri, w.name)
    }
}

/// The MIME type with which a file of a mirror is created.
pub open spec fn mirror_mime(name: Seq<char>) -> Seq<char> {
    if ".tid"@.is_suffix_of(name) {
        "text/plain"@
    } else if ".json"@.is_suffix_of(name) {
        "application/json"@
    } else if ".html"@.is_suffix_of(name) || ".htm"@.is_suffix_of(name) {
        "text/html"@
    } else if ".meta"@.is_suffix_of(name) {
        "text/plain"@
    } else {
        "application/octet-stream"@
    }
}

/// The MIME type with which a file of a converted wiki is created.
pub open spec fn converted_mime(name: Seq<char>) -> Seq<char> {
    if ".js"@.is_suffix_of(name) {
        "application/javascript"@
    } else if ".css"@.is_suffix_of(name) {
        "text/css"@
    } else {
        mirror_mime(name)
    }
}

/// The MIME type with which a file is created when a whole mirror is written
/// back.
pub open spec fn synced_mime(name: Seq<char>) -> Seq<char> {
    if ".meta"@.is_suffix_of(name) {
        "application/octet-stream"@
    } else {
        mirror_mime(name)
    }
}

/// The MIME type with which a file of a mirror is created.
pub fn mirror_mime_type(name: &str) -> (r: &'static str)
    ensures
        r@ == mirror_mime(name@),
{
    if text::ends_with(name, ".tid") {
        "text/plain"
    } else if text::ends_with(name, ".json") {
        "application/json"
    } else if text::ends_with(name, ".html") || text::ends_with(name, ".htm") {
        "text/html"
    } else if text::ends_with(name, ".meta") {
        "text/plain"
    } else {
        "application/octet-stream"
    }
}

/// The MIME type with which a file of a converted wiki is created.
pub fn converted_mime_type(name: &str) -> (r: &'static str)
    ensures
        r@ == converted_mime(name@),
{
    if text::ends_with(name, ".js") {
        "application/javascript"
    } else if text::ends_with(name, ".css") {
        "text/css"
    } else {
        mirror_mime_type(name)
    }
}

/// The MIME type with which a file is created when a whole mirror is written
/// back.
pub fn synced_mime_type(name: &str) -> (r: &'static str)
    ensures
        r@ == synced_mime(name@),
{
    if text::ends_with(name, ".meta") {
        "application/octet-stream"
    } else {
        mirror_mime_type(name)
    }
}

impl Walk {
    /// The walk to the file at the path, from the URI on.
    pub fn begin(rel_path: &str, saf_uri: &str) -> (r: Self)
        ensures
            r@ == walk_to(rel_path@, saf_uri@),
            r@.wf(),
    {
        let mut dirs: Vec<String> = text::split_char(rel_path, '/');
        let ghost parts = text::views(dirs@);
        assert(parts.len() == dirs@.len());
        let n: usize = dirs.len();
        let name: String = dirs[n - 1].clone();
        dirs.truncate(n - 1);
        assert(text::views(dirs@) =~= parts.drop_last());
        assert(parts.last() == name@);
        Walk { dirs, entered: 0, uri: saf_uri.to_owned(), name }
    }

    /// The next step: into the next directory, or to the file.
    pub fn next(&self, create: bool) -> (r: Step)
        requires
            self@.wf(),
        ensures
            r@ == next_step(self@, create),
    {
        if self.entered < self.dirs.len() {
            let parent: String = self.uri.clone();
            let name: String = self.dirs[self.entered].clone();
            if create {
                Step::EnsureDirectory { parent, name }
            } else {
                Step::FindDirectory { parent, name }
            }
        } else {
            Step::FindFile { parent: self.uri.clone(), name: self.name.clone() }
        }
    }

    /// Goes on with a directory that was found or created, or stops where
    /// neither succeeded. This is a step of writing a file back.
    pub fn directory_ensured(&mut self, dir: Result<String, String>) -> (r: Step)
        requires
            old(self)@.wf(),
            old(self)@.entered < old(self)@.dirs.len(),
        ensures
            final(self)@.wf(),
            match dir {
                Ok(u) => final(self)@ == old(self)@.enter(u@) && r@ == next_step(
                    final(self)@,
                    true,
                ),
                Err(e) => final(self)@ == old(self)@ && r@ == StepView::Failed(e@),
            },
    {
        match dir {
            Ok(u) => {
                assert(self.entered < self.dirs.len());
                self.entered = self.entered + 1;
                self.uri = u;
                self.next(true)
            },
            Err(e) => Step::Finished(Err(e)),
        }
    }

    /// Goes on with a directory that was found. Where there is none, there is
    /// nothing to delete. This is a step of deleting a file.
    pub fn directory_found(&mut self, dir: Result<Option<String>, String>) -> (r: Step)
        requires
            old(self)@.wf(),
            old(self)@.entered < old(self)@.dirs.len(),
        ensures
            final(self)@.wf(),
            match dir {
                Ok(Some(u)) => final(self)@ == old(self)@.enter(u@) && r@ == next_step(
                    final(self)@,
                    false,
                ),
                _ => final(self)@ == old(self)@ && r@ == StepView::Done,
            },
    {
        match dir {
            Ok(Some(u)) => {
                assert(self.entered < self.dirs.len());
                self.entered = self.entered + 1;
                self.uri = u;
                self.next(false)
            },
            _ => Step::Finished(Ok(())),
        }
    }

    /// What to do with a file that is written back: write it where it was found,
    /// and else create it.
    pub fn file_to_write(&self, found: Result<Option<String>, String>) -> (r: Step)
        ensures
            r@ == match found {
                Ok(Some(u)) => StepView::Write(u@),
                _ => StepView::CreateFile(self@.uri, self@.name, mirror_mime(self@.name)),
            },
    {
        match found {
            Ok(Some(uri)) => Step::Write { uri },
            _ => Step::CreateFile {
                parent: self.uri.clone(),
                name: self.name.clone(),
                mime: mirror_mime_type(self.name.as_str()).to_owned(),
            },
        }
    }

    /// What to do once the file was created, or could not be.
    pub fn file_created(&self, created: Result<String, String>) -> (r: Step)
        ensures
            r@ == match created {
                Ok(u) => StepView::Write(u@),
                Err(e) => StepView::Failed(e@),
            },
    {
        match created {
            Ok(uri) => Step::Write { uri },
            Err(e) => Step::Finished(Err(e)),
        }
    }

    /// What to do with a file that is deleted: where it was not found, it is
    /// gone already.
    pub fn file_to_delete(&self, found: Result<Option<String>, String>) -> (r: Step)
        ensures
            r@ == match found {
                Ok(Some(u)) => StepView::Delete(u@),
                _ => StepView::Done,
            },
    {
        match found {
            Ok(Some(uri)) => Step::Delete { uri },
            _ => Step::Finished(Ok(())),
        }
    }
}

// ---------------------------------------------------------------------------
// Mirrors and servers
// ---------------------------------------------------------------------------

/// Starts a watcher for a stored wiki, and hands back the one that watched the
/// same mirror before, stopped.
pub fn start_saf_sync_watcher(
    watchers: &mut Table<SyncWatcher>,
    local_path: &str,
    saf_uri: &str,
) -> (r: Option<SyncWatcher>)
    ensures
        final(watchers)@ == table::put(
            table::without(old(watchers)@, local_path@),
            local_path@,
            (SyncWatcherView { running: true, ..new_watcher(local_path@, saf_uri@) }),
        ),
        match r {
            Some(w) => table::has_key(old(watchers)@, local_path@) && w@ == (SyncWatcherView {
                running: false,
                ..table::lookup(old(watchers)@, local_path@)->0
            }),
            None => !table::has_key(old(watchers)@, local_path@),
        },
{
    let mut watcher: SyncWatcher = SyncWatcher::new(local_path.to_owned(), saf_uri.to_owned());
    let before: Option<SyncWatcher> = take_watcher(watchers, local_path);
    let _: bool = watcher.start();
    watchers.insert(local_path.to_owned(), watcher);
    before
}

/// Takes out the watcher of a mirror, and stops it.
fn take_watcher(watchers: &mut Table<SyncWatcher>, local_path: &str) -> (r: Option<SyncWatcher>)
    ensures
        final(watchers)@ == table::without(old(watchers)@, local_path@),
        match r {
            Some(w) => table::has_key(old(watchers)@, local_path@) && w@ == (SyncWatcherView {
                running: false,
                ..table::lookup(old(watchers)@, local_path@)->0
            }),
            None => !table::has_key(old(watchers)@, local_path@),
        },
{
    match watchers.remove(local_path) {
        Some(mut w) => {
            w.stop();
            Some(w)
        },
        None => None,
    }
}

/// What stopping a watcher left: the watcher, and whether its mirror is to be
/// removed.
pub struct Stopped {
    pub watcher: Option<SyncWatcher>,
    pub remove_mirror: bool,
}

/// Stops the watcher of a mirror. The mirror itself is then to be removed,
/// watched or not.
pub fn stop_saf_sync_watcher(watchers: &mut Table<SyncWatcher>, local_path: &str) -> (r: Stopped)
    ensures
        final(watchers)@ == table::without(old(watchers)@, local_path@),
        r.remove_mirror == (local_path@.len() > 0),
        match r.watcher {
            Some(w) => table::has_key(old(watchers)@, local_path@) && w@ == (SyncWatcherView {
                running: false,
                ..table::lookup(old(watchers)@, local_path@)->0
            }),
            None => !table::has_key(old(watchers)@, local_path@),
        },
{
    let watcher: Option<SyncWatcher> = take_watcher(watchers, local_path);
    Stopped { watcher, remove_mirror: !local_path.is_empty() }
}

/// The address of the server that runs for a wiki.
pub fn get_running_server(servers: &StringMap, wiki_path: &str) -> (r: Option<String>)
    ensures
        text::opt_view(r) == table::lookup(servers@, wiki_path@),
{
    match servers.get(wiki_path) {
        Some(u) => Some(u.clone()),
        None => None,
    }
}

/// Notes the address of the server that runs for a wiki.
pub fn register_running_server(servers: &mut StringMap, wiki_path: &str, server_url: &str)
    ensures
        final(servers)@ == table::put(old(servers)@, wiki_path@, server_url@),
{
    servers.insert(wiki_path.to_owned(), server_url.to_owned());
}

/// Forgets the server of a wiki.
pub fn unregister_running_server(servers: &mut StringMap, wiki_path: &str)
    ensures
        final(servers)@ == table::without(old(servers)@, wiki_path@),
{
    let _: Option<String> = servers.remove(wiki_path);
}

/// Notes where the mirror of a wiki is.
pub fn track_wiki_local_path(paths: &mut StringMap, wiki_path: &str, local_path: &str)
    ensures
        final(paths)@ == table::put(old(paths)@, wiki_path@, local_path@),
{
    paths.insert(wiki_path.to_owned(), local_path.to_owned());
}

/// Once a server was noted for a wiki its address is known, until it is
/// forgotten; other wikis are not concerned.
pub proof fn law_running_server_is_known(
    servers: Seq<(Seq<char>, Seq<char>)>,
    wiki: Seq<char>,
    url: Seq<char>,
    other: Seq<char>,
)
    requires
        table::distinct_keys(servers),
        other != wiki,
    ensures
        ({
            let noted = table::put(servers, wiki, url);
            &&& table::lookup(noted, wiki) == Some(url)
            &&& table::lookup(noted, other) == table::lookup(servers, other)
            &&& table::lookup(table::without(noted, wiki), wiki) is None
            &&& table::lookup(table::without(noted, wiki), other) == table::lookup(servers, other)
        }),
{
    table::law_put_then_lookup(servers, wiki, url, other);
    table::law_without_then_lookup(table::put(servers, wiki, url), wiki, other);
}

/// After a watcher was started, it runs, and it is the only one for its mirror.
pub proof fn law_started_watcher_runs(
    watchers: Seq<(Seq<char>, SyncWatcherView)>,
    local_path: Seq<char>,
    saf_uri: Seq<char>,
)
    requires
        table::distinct_keys(watchers),
    ensures
        ({
            let w = SyncWatcherView { running: true, ..new_watcher(local_path, saf_uri) };
            let after = table::put(table::without(watchers, local_path), local_path, w);
            &&& table::lookup(after, local_path) == Some(w)
            &&& table::distinct_keys(after)
        }),
{
    let w = SyncWatcherView { running: true, ..new_watcher(local_path, saf_uri) };
    table::law_without_then_lookup(watchers, local_path, local_path);
    table::law_put_then_lookup(table::without(watchers, local_path), local_path, w, local_path);
}

/// The directory of a wiki's mirror.
pub open spec fn mirror_path(data_dir: Seq<char>, saf_uri: Seq<char>) -> Seq<char> {
    folder_wiki_server::path_from(
        folder_wiki_server::path_from(data_dir, "wiki-mirrors"@),
        outside::md5_hex_of(vstd::utf8::encode_utf8(saf_uri)),
    )
}

/// The directory of a wiki's mirror: named by the digest of its URI, so that
/// each wiki has its own.
pub fn mirror_dir(data_dir: &str, saf_uri: &str) -> (r: String)
    ensures
        r@ == mirror_path(data_dir@, saf_uri@),
{
    let mirrors: String = folder_wiki_server::join_path(data_dir, "wiki-mirrors");
    let hash: String = outside::md5_hex(saf_uri);
    folder_wiki_server::join_path(mirrors.as_str(), hash.as_str())
}

/// Where a local copy of a wiki is to be had.
pub enum LocalCopy {
    /// It is there.
    At(String),
    /// It is to be made, in that directory.
    ToMake(String),
    Failed(String),
}

/// Where a local copy of a wiki is to be had.
pub ghost enum LocalCopyView {
    At(Seq<char>),
    ToMake(Seq<char>),
    Failed(Seq<char>),
}

impl View for LocalCopy {
    type V = LocalCopyView;

    open spec fn view(&self) -> LocalCopyView {
        match self {
            LocalCopy::At(p) => LocalCopyView::At(p@),
            LocalCopy::ToMake(p) => LocalCopyView::ToMake(p@),
            LocalCopy::Failed(e) => LocalCopyView::Failed(e@),
        }
    }
}

/// Where a local copy of a wiki is to be had: the copy that is noted, where it
/// is a directory; else its mirror, where that holds a wiki; else it is made
/// there.
pub open spec fn local_copy(
    noted: Option<Seq<char>>,
    noted_is_dir: bool,
    mirror: Result<Seq<char>, Seq<char>>,
    mirror_is_wiki: bool,
) -> LocalCopyView {
    if noted is Some && noted_is_dir {
        LocalCopyView::At(noted->0)
    } else {
        match mirror {
            Err(e) => LocalCopyView::Failed(e),
            Ok(m) => if mirror_is_wiki {
                LocalCopyView::At(m)
            } else {
                LocalCopyView::ToMake(m)
            },
        }
    }
}

/// Where a local copy of a wiki is to be had. `noted_is_dir` says whether the
/// copy that is noted for it is a directory, and `mirror_is_wiki` whether its
/// mirror is one that holds a wiki; such a mirror is noted.
pub fn get_or_create_local_copy(
    paths: &mut StringMap,
    saf_uri: &str,
    noted_is_dir: bool,
    data_dir: &Result<String, String>,
    mirror_is_wiki: bool,
) -> (r: LocalCopy)
    ensures
        ({
            let mirror = match text::result_view(*data_dir) {
                Ok(d) => Ok(mirror_path(d, saf_uri@)),
                Err(e) => Err(e),
            };
            let noted = table::lookup(old(paths)@, saf_uri@);
            &&& r@ == local_copy(noted, noted_is_dir, mirror, mirror_is_wiki)
            &&& final(paths)@ == if !(noted is Some && noted_is_dir) && mirror is Ok
                && mirror_is_wiki {
                table::put(old(paths)@, saf_uri@, mirror->Ok_0)
            } else {
                old(paths)@
            }
        }),
{
    if noted_is_dir {
        if let Some(local) = paths.get(saf_uri) {
            return LocalCopy::At(local.clone());
        }
    }
    match data_dir {
        Err(e) => LocalCopy::Failed(e.clone()),
        Ok(d) => {
            let mirror: String = mirror_dir(d.as_str(), saf_uri);
            if mirror_is_wiki {
                paths.insert(saf_uri.to_owned(), mirror.clone());
                LocalCopy::At(mirror)
            } else {
                LocalCopy::ToMake(mirror)
            }
        },
    }
}

/// Stops the watcher of a wiki's mirror and gives the mirror's directory, which is
/// then cleared and filled anew. A watcher that still ran would take the files
/// that are cleared away for deleted, and delete them in the wiki.
pub fn copy_saf_wiki_to_local(
    watchers: &mut Table<SyncWatcher>,
    data_dir: &Result<String, String>,
    saf_uri: &str,
) -> (r: Result<String, String>)
    ensures
        match text::result_view(*data_dir) {
            Ok(d) => r is Ok && r->Ok_0@ == mirror_path(d, saf_uri@) && final(watchers)@
                == table::without(old(watchers)@, mirror_path(d, saf_uri@)),
            Err(e) => r is Err && r->Err_0@ == e && final(watchers)@ == old(watchers)@,
        },
{
    match data_dir {
        Ok(d) => {
            let mirror: String = mirror_dir(d.as_str(), saf_uri);
            let _: Option<SyncWatcher> = take_watcher(watchers, mirror.as_str());
            Ok(mirror)
        },
        Err(e) => Err(e.clone()),
    }
}

/// Nobody watches a mirror while it is filled anew; the watchers of other
/// mirrors stay.
pub proof fn law_nobody_watches_a_cleared_mirror(
    watchers: Seq<(Seq<char>, SyncWatcherView)>,
    mirror: Seq<char>,
    other: Seq<char>,
)
    requires
        table::distinct_keys(watchers),
        other != mirror,
    ensures
        !table::has_key(table::without(watchers, mirror), mirror),
        table::lookup(table::without(watchers, mirror), other) == table::lookup(watchers, other),
{
    table::law_without_then_lookup(watchers, mirror, other);
}

/// What is to be done next in starting a server for a stored wiki.
pub enum StartStep {
    /// The wiki is copied to its mirror.
    Copy,
    /// The mirror's list of plugins is prepared; a failure is passed over.
    Prepare { mirror: String },
    /// A port is looked for.
    FindPort { mirror: String },
    /// The server is run on the mirror.
    Run { mirror: String, port: u16 },
    /// The server runs at the address.
    Done { url: String, mirror: String },
    Failed(String),
}

/// What came of a step in starting a server.
pub enum StartEvent {
    Copied(Result<String, String>),
    Prepared,
    Port(Result<u16, String>),
    Ran(Result<(), String>),
}

/// The step follows the given one after the event. One that the event does not
/// belong to stays.
pub open spec fn start_follows(step: StartStep, event: StartEvent, next: StartStep) -> bool {
    match (step, event) {
        (StartStep::Copy, StartEvent::Copied(Ok(m))) => next matches StartStep::Prepare {
            mirror,
        } && mirror@ == m@,
        (StartStep::Copy, StartEvent::Copied(Err(e))) => next matches StartStep::Failed(f) && f@
            == e@,
        (
            StartStep::Prepare { mirror: m },
            StartEvent::Prepared,
        ) => next matches StartStep::FindPort { mirror } && mirror@ == m@,
        (
            StartStep::FindPort { mirror: m },
            StartEvent::Port(Ok(p)),
        ) => next matches StartStep::Run { mirror, port } && mirror@ == m@ && port == p,
        (
            StartStep::FindPort { .. },
            StartEvent::Port(Err(e)),
        ) => next matches StartStep::Failed(f) && f@ == e@,
        (
            StartStep::Run { mirror: m, port },
            StartEvent::Ran(Ok(_)),
        ) => next matches StartStep::Done { url, mirror } && mirror@ == m@ && url@
            == folder_wiki_server::server_url(port),
        (StartStep::Run { .. }, StartEvent::Ran(Err(e))) => next matches StartStep::Failed(f) && f@
            == e@,
        _ => next == step,
    }
}

/// What is to be done next in starting a server for a stored wiki. The mirror is
/// noted once it is prepared, before a port is looked for; no server is run where
/// the copy or the search failed.
pub fn start_saf_wiki_server(
    paths: &mut StringMap,
    saf_uri: &str,
    step: StartStep,
    event: StartEvent,
) -> (r: StartStep)
    ensures
        start_follows(step, event, r),
        final(paths)@ == match (step, event) {
            (StartStep::Prepare { mirror }, StartEvent::Prepared) => table::put(
                old(paths)@,
                saf_uri@,
                mirror@,
            ),
            _ => old(paths)@,
        },
{
    match (step, event) {
        (StartStep::Copy, StartEvent::Copied(Ok(mirror))) => StartStep::Prepare { mirror },
        (StartStep::Copy, StartEvent::Copied(Err(e))) => StartStep::Failed(e),
        (StartStep::Prepare { mirror }, StartEvent::Prepared) => {
            paths.insert(saf_uri.to_owned(), mirror.clone());
            StartStep::FindPort { mirror }
        },
        (StartStep::FindPort { mirror }, StartEvent::Port(Ok(port))) => StartStep::Run {
            mirror,
            port,
        },
        (StartStep::FindPort { .. }, StartEvent::Port(Err(e))) => StartStep::Failed(e),
        (StartStep::Run { mirror, port }, StartEvent::Ran(Ok(_))) => StartStep::Done {
            url: folder_wiki_server::url(port),
            mirror,
        },
        (StartStep::Run { .. }, StartEvent::Ran(Err(e))) => StartStep::Failed(e),
        (step, _) => step,
    }
}

/// The time, in milliseconds, to wait before a new server is tried once more,
/// by how often it was tried and whether it answered; none where it answered or
/// was tried six times.
pub fn next_wait(tries: u32, answered: bool) -> (r: Option<u64>)
    ensures
        r == if !answered && tries < 6 {
            Some(500u64)
        } else {
            None
        },
{
    if !answered && tries < 6 {
        Some(500)
    } else {
        None
    }
}

/// Forgets the mirror of a wiki that was closed and stops its watcher; says what
/// that left, or that there was no mirror.
pub fn cleanup_wiki_local_copy(
    paths: &mut StringMap,
    watchers: &mut Table<SyncWatcher>,
    wiki_path: &str,
) -> (r: Option<Stopped>)
    ensures
        final(paths)@ == table::without(old(paths)@, wiki_path@),
        match table::lookup(old(paths)@, wiki_path@) {
            Some(local) => {
                &&& r is Some
                &&& final(watchers)@ == table::without(old(watchers)@, local)
                &&& r->0.remove_mirror == (local.len() > 0)
                &&& match r->0.watcher {
                    Some(w) => table::has_key(old(watchers)@, local) && w@ == (SyncWatcherView {
                        running: false,
                        ..table::lookup(old(watchers)@, local)->0
                    }),
                    None => !table::has_key(old(watchers)@, local),
                }
            },
            None => r is None && final(watchers)@ == old(watchers)@,
        },
{
    match paths.remove(wiki_path) {
        Some(local) => Some(stop_saf_sync_watcher(watchers, local.as_str())),
        None => None,
    }
}

/// The mirrors that no watcher watches.
pub open spec fn stale_mirrors(dirs: Seq<Seq<char>>, active: Seq<(Seq<char>, SyncWatcherView)>) -> Seq<
    Seq<char>,
>
    decreases dirs.len(),
{
    if dirs.len() == 0 {
        Seq::empty()
    } else {
        let before = stale_mirrors(dirs.drop_last(), active);
        if table::has_key(active, dirs.last()) {
            before
        } else {
            before.push(dirs.last())
        }
    }
}

/// The mirrors that are to be removed: those that no watcher watches.
pub fn cleanup_stale_wiki_mirrors(mirror_dirs: &Vec<String>, watchers: &Table<SyncWatcher>) -> (r:
    Vec<String>)
    ensures
        text::views(r@) == stale_mirrors(text::views(mirror_dirs@), watchers@),
{
    let ghost all = text::views(mirror_dirs@);
    let mut out: Vec<String> = Vec::new();
    let mut i: usize = 0;
    assert(text::views(out@) =~= stale_mirrors(all.take(0), watchers@));
    while i < mirror_dirs.len()
        invariant
            i <= mirror_dirs.len(),
            all == text::views(mirror_dirs@),
            text::views(out@) == stale_mirrors(all.take(i as int), watchers@),
        decreases mirror_dirs.len() - i,
    {
        let ghost before = out@;
        assert(all.take(i + 1).drop_last() =~= all.take(i as int));
        assert(all.take(i + 1).last() == mirror_dirs@[i as int]@);
        if !watchers.contains_key(mirror_dirs[i].as_str()) {
            let p: String = mirror_dirs[i].clone();
            out.push(p);
            assert(text::views(out@) =~= text::views(before).push(p@));
        }
        i = i + 1;
    }
    assert(all.take(i as int) =~= all);
    out
}

/// No mirror that a watcher watches is removed as stale.
pub proof fn law_watched_mirrors_stay(
    dirs: Seq<Seq<char>>,
    active: Seq<(Seq<char>, SyncWatcherView)>,
    dir: Seq<char>,
)
    requires
        table::has_key(active, dir),
    ensures
        !stale_mirrors(dirs, active).contains(dir),
    decreases dirs.len(),
{
    if dirs.len() > 0 {
        law_watched_mirrors_stay(dirs.drop_last(), active, dir);
        let before = stale_mirrors(dirs.drop_last(), active);
        let s = stale_mirrors(dirs, active);
        if s.contains(dir) {
            let k = choose|k: int| 0 <= k < s.len() && s[k] == dir;
            if k < before.len() {
                assert(before[k] == dir);
            }
        }
    }
}

/// Every mirror that no watcher watches is removed, and nothing but what was found;
/// what is removed of two lists is what is removed of each of them.
pub proof fn law_unwatched_mirrors_are_removed(
    a: Seq<Seq<char>>,
    b: Seq<Seq<char>>,
    active: Seq<(Seq<char>, SyncWatcherView)>,
    dir: Seq<char>,
)
    ensures
        stale_mirrors(a + b, active) == stale_mirrors(a, active) + stale_mirrors(b, active),
        !table::has_key(active, dir) ==> stale_mirrors(seq![dir], active) == seq![dir],
        table::has_key(active, dir) ==> stale_mirrors(seq![dir], active).len() == 0,
    decreases b.len(),
{
    reveal_with_fuel(stale_mirrors, 2);
    assert(seq![dir].drop_last() =~= Seq::empty());
    if !table::has_key(active, dir) {
        assert(stale_mirrors(seq![dir], active) =~= seq![dir]);
    }
    if b.len() == 0 {
        assert(a + b =~= a);
        assert(stale_mirrors(a, active) + stale_mirrors(b, active) =~= stale_mirrors(a, active));
    } else {
        law_unwatched_mirrors_are_removed(a, b.drop_last(), active, dir);
        assert((a + b).drop_last() =~= a + b.drop_last());
        assert(stale_mirrors(a + b, active) =~= stale_mirrors(a, active) + stale_mirrors(b, active));
    }
}

// ---------------------------------------------------------------------------
// Node.js and its commands
// ---------------------------------------------------------------------------

/// The directory of the application's data: the one that is kept, or else what
/// the application says, or else what the system says. What was found is kept.
pub fn get_app_data_dir(
    kept: &mut Option<String>,
    from_app: Option<String>,
    from_system: Result<String, String>,
) -> (r: Result<String, String>)
    ensures
        text::result_view(r) == match (text::opt_view(*old(kept)), text::opt_view(from_app)) {
            (Some(d), _) => Ok(d),
            (None, Some(d)) => Ok(d),
            (None, None) => text::result_view(from_system),
        },
        text::opt_view(*final(kept)) == match text::result_view(r) {
            Ok(d) => Some(d),
            Err(_) => None,
        },
{
    if let Some(d) = &*kept {
        return Ok(d.clone());
    }
    if let Some(d) = from_app {
        *kept = Some(d.clone());
        return Ok(d);
    }
    match from_system {
        Ok(d) => {
            *kept = Some(d.clone());
            Ok(d)
        },
        Err(e) => Err(e),
    }
}

/// The writable directory for temporary files.
pub fn android_temp_dir(data_dir: &Result<String, String>) -> (r: String)
    ensures
        r@ == match text::result_view(*data_dir) {
            Ok(d) => folder_wiki_server::path_from(d, "tmp"@),
            Err(_) => "/data/local/tmp"@,
        },
{
    match data_dir {
        Ok(d) => folder_wiki_server::join_path(d.as_str(), "tmp"),
        Err(_) => "/data/local/tmp".to_owned(),
    }
}

/// The path of the Node.js binary, or that it is not there.
pub fn get_node_path(native_lib_dir: &Result<String, String>, exists: bool) -> (r: Result<
    String,
    String,
>)
    ensures
        text::result_view(r) == match text::result_view(*native_lib_dir) {
            Err(e) => Err(e),
            Ok(d) => if exists {
                Ok(folder_wiki_server::path_from(d, "libnode.so"@))
            } else {
                Err("Node.js binary (libnode.so) not found in native library directory: "@ + d)
            },
        },
{
    match native_lib_dir {
        Err(e) => Err(e.clone()),
        Ok(d) => if exists {
            Ok(folder_wiki_server::join_path(d.as_str(), "libnode.so"))
        } else {
            Err(
                text::concat(
                    "Node.js binary (libnode.so) not found in native library directory: ",
                    d.as_str(),
                ),
            )
        },
    }
}

/// Whether the Node.js binary is fit for use: it is there, and larger than a
/// million bytes. `size` is its size, where it is there.
pub fn ensure_node_binary(native_lib_dir: &Result<String, String>, size: Option<u64>) -> (r: Result<
    (),
    String,
>)
    ensures
        match text::result_view(*native_lib_dir) {
            Err(e) => r is Err && r->Err_0@ == e,
            Ok(d) => match size {
                Some(n) => if n > 1_000_000 {
                    r is Ok
                } else {
                    r is Err && r->Err_0@ == "libnode.so exists but is too small ("@
                        + text::decimal(n as nat) + " bytes) - may be corrupted"@
                },
                None => r is Err && r->Err_0@
                    == "Node.js binary (libnode.so) not found in native library directory: "@ + d
                    + ". Ensure libnode.so is included in jniLibs."@,
            },
        },
{
    match native_lib_dir {
        Err(e) => Err(e.clone()),
        Ok(d) => match size {
            Some(n) => {
                if n > 1_000_000 {
                    Ok(())
                } else {
                    let digits: String = text::to_decimal(n);
                    Err(
                        text::concat3(
                            "libnode.so exists but is too small (",
                            digits.as_str(),
                            " bytes) - may be corrupted",
                        ),
                    )
                }
            },
            None => Err(
                text::concat3(
                    "Node.js binary (libnode.so) not found in native library directory: ",
                    d.as_str(),
                    ". Ensure libnode.so is included in jniLibs.",
                ),
            ),
        },
    }
}

/// The permissions that the binary is given, where nobody may execute it.
pub fn mended_mode(mode: u32) -> (r: Option<u32>)
    ensures
        r == if mode & 0o111 == 0 {
            Some(0o755u32)
        } else {
            None
        },
{
    if mode & 0o111 == 0 {
        Some(0o755)
    } else {
        None
    }
}

/// The directory of TiddlyWiki itself, or that it is not there.
pub fn get_tiddlywiki_dir(data_dir: &Result<String, String>, exists: bool) -> (r: Result<
    String,
    String,
>)
    ensures
        text::result_view(r) == match text::result_view(*data_dir) {
            Err(e) => Err(e),
            Ok(d) => if exists {
                Ok(folder_wiki_server::path_from(d, "tiddlywiki"@))
            } else {
                Err("TiddlyWiki resources not found. Please restart the app."@)
            },
        },
{
    match data_dir {
        Err(e) => Err(e.clone()),
        Ok(d) => if exists {
            Ok(folder_wiki_server::join_path(d.as_str(), "tiddlywiki"))
        } else {
            Err("TiddlyWiki resources not found. Please restart the app.".to_owned())
        },
    }
}

fn push_str(out: &mut Vec<String>, s: &str)
    ensures
        text::views(final(out)@) == text::views(old(out)@).push(s@),
{
    let ghost before = out@;
    let t: String = s.to_owned();
    out.push(t);
    assert(text::views(out@) =~= text::views(before).push(s@));
}

fn no_strings() -> (r: Vec<String>)
    ensures
        text::views(r@) == Seq::<Seq<char>>::empty(),
{
    let r: Vec<String> = Vec::new();
    assert(text::views(r@) =~= Seq::<Seq<char>>::empty());
    r
}

/// The names under which Node.js looks for its libraries.
pub open spec fn versioned_libraries() -> Seq<Seq<char>> {
    seq![
        "libz.so.1"@,
        "libcrypto.so.3"@,
        "libssl.so.3"@,
        "libicui18n.so.78"@,
        "libicuuc.so.78"@,
        "libicudata.so.78"@,
    ]
}

/// The names under which the libraries are shipped, in the same order.
pub open spec fn shipped_libraries() -> Seq<Seq<char>> {
    seq![
        "libz.so"@,
        "libcrypto.so"@,
        "libssl.so"@,
        "libicui18n.so"@,
        "libicuuc.so"@,
        "libicudata.so"@,
    ]
}

/// A link and what it points to.
pub struct Link {
    pub path: String,
    pub target: String,
}

/// The links by which Node.js finds its libraries.
pub fn prepare_library_symlinks(symlink_dir: &str, native_lib_dir: &str) -> (r: Vec<Link>)
    ensures
        r@.len() == 6,
        forall|i: int|
            0 <= i < 6 ==> {
                &&& (#[trigger] r@[i]).path@ == folder_wiki_server::path_from(
                    symlink_dir@,
                    versioned_libraries()[i],
                )
                &&& r@[i].target@ == folder_wiki_server::path_from(
                    native_lib_dir@,
                    shipped_libraries()[i],
                )
            },
{
    let mut out: Vec<Link> = Vec::new();
    push_link(&mut out, symlink_dir, "libz.so.1", native_lib_dir, "libz.so");
    push_link(&mut out, symlink_dir, "libcrypto.so.3", native_lib_dir, "libcrypto.so");
    push_link(&mut out, symlink_dir, "libssl.so.3", native_lib_dir, "libssl.so");
    push_link(&mut out, symlink_dir, "libicui18n.so.78", native_lib_dir, "libicui18n.so");
    push_link(&mut out, symlink_dir, "libicuuc.so.78", native_lib_dir, "libicuuc.so");
    push_link(&mut out, symlink_dir, "libicudata.so.78", native_lib_dir, "libicudata.so");
    out
}

fn push_link(out: &mut Vec<Link>, dir: &str, name: &str, target_dir: &str, target: &str)
    ensures
        final(out)@.len() == old(out)@.len() + 1,
        forall|i: int| 0 <= i < old(out)@.len() ==> final(out)@[i] == old(out)@[i],
        final(out)@.last().path@ == folder_wiki_server::path_from(dir@, name@),
        final(out)@.last().target@ == folder_wiki_server::path_from(target_dir@, target@),
{
    out.push(
        Link {
            path: folder_wiki_server::join_path(dir, name),
            target: folder_wiki_server::join_path(target_dir, target),
        },
    );
}

/// Where Node.js looks for libraries: the links first.
pub fn ld_library_path(symlink_dir: &str, native_lib_dir: &str) -> (r: String)
    ensures
        r@ == symlink_dir@ + ":"@ + native_lib_dir@,
{
    text::concat3(symlink_dir, ":", native_lib_dir)
}

/// The outcome of a command: what it wrote, where it succeeded; else that it
/// failed, with what it wrote.
pub fn run_tiddlywiki_command(success: bool, stdout: &[u8], stderr: &[u8]) -> (r: Result<
    String,
    String,
>)
    ensures
        text::result_view(r) == if success {
            Ok(outside::utf8_lossy_decoded(stdout@))
        } else {
            Err(
                "TiddlyWiki command failed: "@ + outside::utf8_lossy_decoded(stderr@) + "\n"@
                    + outside::utf8_lossy_decoded(stdout@),
            )
        },
{
    let written: String = outside::utf8_lossy(stdout);
    if success {
        Ok(written)
    } else {
        let errors: String = outside::utf8_lossy(stderr);
        let mut message: String = text::concat3(
            "TiddlyWiki command failed: ",
            errors.as_str(),
            "\n",
        );
        message.append(written.as_str());
        Err(message)
    }
}

/// The arguments that build a wiki of one file. The output directory comes
/// first, since they are worked off from left to right.
pub fn build_args(edition_path: &str, output_dir: &str) -> (r: Vec<String>)
    ensures
        text::views(r@) == seq![edition_path@, "--output"@, output_dir@, "--build"@, "index"@],
{
    let mut out: Vec<String> = no_strings();
    push_str(&mut out, edition_path);
    push_str(&mut out, "--output");
    push_str(&mut out, output_dir);
    push_str(&mut out, "--build");
    push_str(&mut out, "index");
    assert(text::views(out@) =~= seq![
        edition_path@,
        "--output"@,
        output_dir@,
        "--build"@,
        "index"@,
    ]);
    out
}

/// The arguments that set up a wiki folder.
pub fn init_wiki_folder(edition: &str, folder_path: &str) -> (r: Vec<String>)
    ensures
        text::views(r@) == seq![folder_path@, "--init"@, edition@],
{
    let mut out: Vec<String> = no_strings();
    push_str(&mut out, folder_path);
    push_str(&mut out, "--init");
    push_str(&mut out, edition);
    assert(text::views(out@) =~= seq![folder_path@, "--init"@, edition@]);
    out
}

/// The arguments that serve a wiki folder on a port of this machine.
pub fn start_wiki_server(folder_path: &str, port: u16) -> (r: Vec<String>)
    ensures
        text::views(r@) == seq![
            folder_path@,
            "--listen"@,
            "port="@ + text::decimal(port as nat),
            "host=127.0.0.1"@,
        ],
{
    let digits: String = text::to_decimal(port as u64);
    let port_arg: String = text::concat("port=", digits.as_str());
    let mut out: Vec<String> = no_strings();
    push_str(&mut out, folder_path);
    push_str(&mut out, "--listen");
    push_str(&mut out, port_arg.as_str());
    push_str(&mut out, "host=127.0.0.1");
    assert(text::views(out@) =~= seq![
        folder_path@,
        "--listen"@,
        "port="@ + text::decimal(port as nat),
        "host=127.0.0.1"@,
    ]);
    out
}

/// The arguments that write a whole wiki to a file.
pub open spec fn render_part(output_dir: Seq<char>) -> Seq<Seq<char>> {
    seq![
        "--output"@,
        output_dir,
        "--render"@,
        "$:/core/save/all"@,
        "wiki.html"@,
        "text/plain"@,
    ]
}

/// The arguments that take out what the application put into a wiki.
pub open spec fn cleaning_part() -> Seq<Seq<char>> {
    seq![
        "--deletetiddlers"@,
        "[prefix[$:/plugins/tiddlywiki/tiddlydesktop-rs]]"@,
        "--deletetiddlers"@,
        "[prefix[$:/plugins/tiddlydesktop-rs]]"@,
        "--deletetiddlers"@,
        "[prefix[$:/temp/tiddlydesktop]]"@,
    ]
}

fn push_rendering(out: &mut Vec<String>, output_dir: &str)
    ensures
        text::views(final(out)@) == text::views(old(out)@) + render_part(output_dir@),
{
    let ghost before = text::views(out@);
    push_str(out, "--output");
    push_str(out, output_dir);
    push_str(out, "--render");
    push_str(out, "$:/core/save/all");
    push_str(out, "wiki.html");
    push_str(out, "text/plain");
    assert(text::views(out@) =~= before + render_part(output_dir@));
}

fn push_cleaning(out: &mut Vec<String>)
    ensures
        text::views(final(out)@) == text::views(old(out)@) + cleaning_part(),
{
    let ghost before = text::views(out@);
    push_str(out, "--deletetiddlers");
    push_str(out, "[prefix[$:/plugins/tiddlywiki/tiddlydesktop-rs]]");
    push_str(out, "--deletetiddlers");
    push_str(out, "[prefix[$:/plugins/tiddlydesktop-rs]]");
    push_str(out, "--deletetiddlers");
    push_str(out, "[prefix[$:/temp/tiddlydesktop]]");
    assert(text::views(out@) =~= before + cleaning_part());
}

/// The arguments that render a wiki folder to one file.
pub fn render_folder_wiki_html(local_path: &str, output_dir: &str) -> (r: Vec<String>)
    ensures
        text::views(r@) == seq![local_path@] + render_part(output_dir@),
{
    let mut out: Vec<String> = no_strings();
    push_str(&mut out, local_path);
    push_rendering(&mut out, output_dir);
    assert(text::views(out@) =~= seq![local_path@] + render_part(output_dir@));
    out
}

/// The arguments that turn a wiki of one file into a folder.
pub fn convert_file_to_folder(wiki: &str, folder: &str) -> (r: Vec<String>)
    ensures
        text::views(r@) == seq!["--load"@, wiki@] + cleaning_part() + seq![
            "--savewikifolder"@,
            folder@,
        ],
{
    let mut out: Vec<String> = no_strings();
    push_str(&mut out, "--load");
    push_str(&mut out, wiki);
    push_cleaning(&mut out);
    push_str(&mut out, "--savewikifolder");
    push_str(&mut out, folder);
    assert(text::views(out@) =~= seq!["--load"@, wiki@] + cleaning_part() + seq![
        "--savewikifolder"@,
        folder@,
    ]);
    out
}

/// The arguments that turn a wiki folder into one file: the plugins that only a
/// server needs go, and what the application put in.
pub fn convert_folder_to_file(local_path: &str, output_dir: &str) -> (r: Vec<String>)
    ensures
        text::views(r@) == seq![
            local_path@,
            "--deletetiddlers"@,
            "$:/plugins/tiddlywiki/tiddlyweb"@,
            "--deletetiddlers"@,
            "$:/plugins/tiddlywiki/filesystem"@,
        ] + cleaning_part() + render_part(output_dir@),
{
    let mut out: Vec<String> = no_strings();
    push_str(&mut out, local_path);
    push_str(&mut out, "--deletetiddlers");
    push_str(&mut out, "$:/plugins/tiddlywiki/tiddlyweb");
    push_str(&mut out, "--deletetiddlers");
    push_str(&mut out, "$:/plugins/tiddlywiki/filesystem");
    push_cleaning(&mut out);
    push_rendering(&mut out, output_dir);
    assert(text::views(out@) =~= seq![
        local_path@,
        "--deletetiddlers"@,
        "$:/plugins/tiddlywiki/tiddlyweb"@,
        "--deletetiddlers"@,
        "$:/plugins/tiddlywiki/filesystem"@,
    ] + cleaning_part() + render_part(output_dir@));
    out
}

/// The name has the extension of a web page.
pub open spec fn is_html_name(name: Seq<char>) -> bool {
    ".html"@.is_suffix_of(name) && name.len() > 5
}

/// The first name, not before `from`, with the extension of a web page.
pub open spec fn first_html(names: Seq<Seq<char>>, from: int) -> Option<Seq<char>>
    decreases names.len() - from,
{
    if from < 0 || from >= names.len() {
        None
    } else if is_html_name(names[from]) {
        Some(names[from])
    } else {
        first_html(names, from + 1)
    }
}

/// The file that a command wrote: the one that was expected, or else the first
/// web page in the directory.
pub open spec fn output_file(expected: Seq<char>, exists: bool, names: Seq<Seq<char>>) -> Option<
    Seq<char>,
> {
    if exists {
        Some(expected)
    } else {
        first_html(names, 0)
    }
}

/// The file that a command wrote, by its name in the output directory, or the
/// given report that there is none. `names` are the files of that directory.
pub fn find_output(expected: &str, exists: bool, names: &Vec<String>, missing: &str) -> (r: Result<
    String,
    String,
>)
    ensures
        text::result_view(r) == match output_file(expected@, exists, text::views(names@)) {
            Some(n) => Ok(n),
            None => Err(missing@),
        },
{
    if exists {
        return Ok(expected.to_owned());
    }
    let ghost all = text::views(names@);
    let mut i: usize = 0;
    while i < names.len()
        invariant
            i <= names.len(),
            !exists,
            all == text::views(names@),
            first_html(all, 0) == first_html(all, i as int),
        decreases names.len() - i,
    {
        let name: &str = names[i].as_str();
        assert(all[i as int] == name@);
        if text::ends_with(name, ".html") && name.unicode_len() > 5 {
            return Ok(name.to_owned());
        }
        i = i + 1;
    }
    Err(missing.to_owned())
}

/// Where a wiki is built: the directories and files that it takes.
pub struct BuildPlan {
    pub temp_dir: String,
    pub output_dir: String,
    pub original_edition: String,
    pub temp_edition: String,
    pub info_path: String,
    pub args: Vec<String>,
}

/// Where a wiki of one file is built from an edition. The edition is copied, so
/// that its list of plugins can be changed.
pub fn build_wiki_file(tw_dir: &str, temp_base: &str, process: u32, edition: &str) -> (r: BuildPlan)
    ensures
        r.temp_dir@ == folder_wiki_server::path_from(
            temp_base@,
            "tw-build-"@ + text::decimal(process as nat),
        ),
        r.output_dir@ == folder_wiki_server::path_from(r.temp_dir@, "output"@),
        r.original_edition@ == folder_wiki_server::path_from(
            folder_wiki_server::path_from(tw_dir@, "editions"@),
            edition@,
        ),
        r.temp_edition@ == folder_wiki_server::path_from(r.temp_dir@, "edition"@),
        r.info_path@ == folder_wiki_server::path_from(r.temp_edition@, "tiddlywiki.info"@),
        text::views(r.args@) == seq![
            r.temp_edition@,
            "--output"@,
            r.output_dir@,
            "--build"@,
            "index"@,
        ],
{
    let digits: String = text::to_decimal(process as u64);
    let name: String = text::concat("tw-build-", digits.as_str());
    let temp_dir: String = folder_wiki_server::join_path(temp_base, name.as_str());
    let output_dir: String = folder_wiki_server::join_path(temp_dir.as_str(), "output");
    let editions: String = folder_wiki_server::join_path(tw_dir, "editions");
    let original_edition: String = folder_wiki_server::join_path(editions.as_str(), edition);
    let temp_edition: String = folder_wiki_server::join_path(temp_dir.as_str(), "edition");
    let info_path: String = folder_wiki_server::join_path(
        temp_edition.as_str(),
        "tiddlywiki.info",
    );
    let args: Vec<String> = build_args(temp_edition.as_str(), output_dir.as_str());
    BuildPlan { temp_dir, output_dir, original_edition, temp_edition, info_path, args }
}

// ---------------------------------------------------------------------------
// Ports
// ---------------------------------------------------------------------------

/// The first port for the servers of Node.js.
pub const FIRST_NODE_PORT: u16 = 38000;

/// The last port for the servers of Node.js.
pub const LAST_NODE_PORT: u16 = 38999;

/// The port is one for the servers of Node.js.
pub open spec fn is_node_port(port: int) -> bool {
    FIRST_NODE_PORT <= port <= LAST_NODE_PORT
}

/// The port itself, or the first one where it is none for the servers of
/// Node.js.
pub open spec fn node_port_or_first(port: u16) -> int {
    if is_node_port(port as int) {
        port as int
    } else {
        FIRST_NODE_PORT as int
    }
}

/// The port after the given one; the first comes after the last.
pub open spec fn node_port_after(port: int) -> int {
    if port == LAST_NODE_PORT {
        FIRST_NODE_PORT as int
    } else {
        port + 1
    }
}

fn port_or_first(port: u16) -> (r: u16)
    ensures
        r == node_port_or_first(port),
{
    if FIRST_NODE_PORT <= port && port <= LAST_NODE_PORT {
        port
    } else {
        FIRST_NODE_PORT
    }
}

fn port_after(port: u16) -> (r: u16)
    requires
        is_node_port(port as int),
    ensures
        r == node_port_after(port as int),
{
    if port == LAST_NODE_PORT {
        FIRST_NODE_PORT
    } else {
        port + 1
    }
}

/// Where the search for a port starts; the next search starts one further.
pub fn next_start(counter: &mut u16) -> (r: u16)
    ensures
        r == node_port_or_first(*old(counter)),
        *final(counter) == node_port_after(r as int),
{
    let start: u16 = port_or_first(*counter);
    *counter = port_after(start);
    start
}

/// The port to try after the given one, or the start itself; none once the
/// search has come round to the start.
pub open spec fn node_port(start: u16, tried: Option<u16>) -> Option<int> {
    match tried {
        None => Some(node_port_or_first(start)),
        Some(t) => if node_port_after(node_port_or_first(t)) == node_port_or_first(start) {
            None
        } else {
            Some(node_port_after(node_port_or_first(t)))
        },
    }
}

/// The port to try for a server of Node.js, or that all were tried.
pub fn find_available_port(start: u16, tried: Option<u16>) -> (r: Result<u16, String>)
    ensures
        match r {
            Ok(p) => node_port(start, tried) == Some(p as int),
            Err(e) => node_port(start, tried) is None && e@ == "No available ports found"@,
        },
{
    let first: u16 = port_or_first(start);
    match tried {
        None => Ok(first),
        Some(t) => {
            let next: u16 = port_after(port_or_first(t));
            if next == first {
                Err("No available ports found".to_owned())
            } else {
                Ok(next)
            }
        },
    }
}

/// A port for a server of Node.js lies in its range, and so is never one for the
/// application's own servers.
pub proof fn law_port_ranges_are_apart(start: u16, tried: Option<u16>, other: u16)
    requires
        folder_wiki_server::FIRST_PORT <= other < folder_wiki_server::END_PORT,
    ensures
        match node_port(start, tried) {
            Some(p) => is_node_port(p) && p != other,
            None => true,
        },
{
}

/// The port that a search from the start on tries after `n` others.
pub open spec fn nth_node_port(start: u16, n: int) -> int {
    FIRST_NODE_PORT + (node_port_or_first(start) - FIRST_NODE_PORT + n) % 1000
}

/// A search tries the ports in turn from its start on, all thousand of them, and
/// fails only then.
pub proof fn law_all_node_ports_are_tried(start: u16, n: int, port: int)
    requires
        0 <= n < 1000,
        is_node_port(port),
    ensures
        node_port(start, None) == Some(nth_node_port(start, 0)),
        node_port(start, Some(nth_node_port(start, n) as u16)) == if n < 999 {
            Some(nth_node_port(start, n + 1))
        } else {
            None
        },
        exists|k: int| 0 <= k < 1000 && #[trigger] nth_node_port(start, k) == port,
{
    let s = node_port_or_first(start) - FIRST_NODE_PORT;
    let d = port - FIRST_NODE_PORT;
    let k = if d >= s {
        d - s
    } else {
        d - s + 1000
    };
    assert(nth_node_port(start, k) == port);
}

// ---------------------------------------------------------------------------
// A wiki's list of plugins
// ---------------------------------------------------------------------------

/// An entry of the list of plugins: a name, or something else, which is kept as
/// it is.
pub enum PluginEntry {
    Name(String),
    Other(serde_json::Value),
}

impl View for PluginEntry {
    type V = outside::Json;

    open spec fn view(&self) -> outside::Json {
        match self {
            PluginEntry::Name(n) => outside::Json::Text(n@),
            PluginEntry::Other(v) => outside::json_of(*v),
        }
    }
}

/// What the entries hold.
pub open spec fn plugin_views(v: Seq<PluginEntry>) -> Seq<outside::Json> {
    v.map_values(|e: PluginEntry| e@)
}

/// The plugin is one of those that only a server needs.
pub open spec fn is_server_plugin(e: outside::Json) -> bool {
    e == outside::Json::Text("tiddlywiki/tiddlyweb"@) || e == outside::Json::Text("tiddlywiki/filesystem"@)
}

/// The list without the plugins that only a server needs.
pub open spec fn without_server_plugins(list: Seq<outside::Json>) -> Seq<outside::Json>
    decreases list.len(),
{
    if list.len() == 0 {
        list
    } else {
        let before = without_server_plugins(list.drop_last());
        if is_server_plugin(list.last()) {
            before
        } else {
            before.push(list.last())
        }
    }
}

/// The list with the plugin, at its end where it was not in it.
pub open spec fn with_plugin(list: Seq<outside::Json>, name: Seq<char>) -> Seq<outside::Json> {
    if list.contains(outside::Json::Text(name)) {
        list
    } else {
        list.push(outside::Json::Text(name))
    }
}

/// The list with the plugins that were chosen, each under its full name.
pub open spec fn with_selected(list: Seq<outside::Json>, selected: Seq<Seq<char>>) -> Seq<outside::Json>
    decreases selected.len(),
{
    if selected.len() == 0 {
        list
    } else {
        with_plugin(
            with_selected(list, selected.drop_last()),
            "tiddlywiki/"@ + selected.last(),
        )
    }
}

/// The list of just the plugins that were chosen, each under its full name.
pub open spec fn only_selected(selected: Seq<Seq<char>>) -> Seq<outside::Json> {
    selected.map_values(|s: Seq<char>| outside::Json::Text("tiddlywiki/"@ + s))
}

/// The list with the plugins that a server needs.
pub open spec fn with_server_plugins(list: Seq<outside::Json>) -> Seq<outside::Json> {
    with_plugin(with_plugin(list, "tiddlywiki/tiddlyweb"@), "tiddlywiki/filesystem"@)
}

fn has_plugin(list: &Vec<PluginEntry>, name: &str) -> (r: bool)
    ensures
        r == plugin_views(list@).contains(outside::Json::Text(name@)),
{
    let ghost all = plugin_views(list@);
    let mut i: usize = 0;
    while i < list.len()
        invariant
            i <= list.len(),
            all == plugin_views(list@),
            forall|j: int| 0 <= j < i ==> all[j] != outside::Json::Text(name@),
        decreases list.len() - i,
    {
        assert(all[i as int] == list@[i as int]@);
        let found: bool = match &list[i] {
            PluginEntry::Name(n) => text::same(n.as_str(), name),
            PluginEntry::Other(v) => match outside::json_as_str(v) {
                Some(n) => text::same(n, name),
                None => false,
            },
        };
        if found {
            return true;
        }
        i = i + 1;
    }
    false
}

fn push_plugin(list: &mut Vec<PluginEntry>, name: &str) -> (r: bool)
    ensures
        plugin_views(final(list)@) == with_plugin(plugin_views(old(list)@), name@),
        r == !plugin_views(old(list)@).contains(outside::Json::Text(name@)),
{
    if has_plugin(list, name) {
        false
    } else {
        let ghost before = list@;
        let e: PluginEntry = PluginEntry::Name(name.to_owned());
        list.push(e);
        assert(plugin_views(list@) =~= plugin_views(before).push(e@));
        true
    }
}

fn serves(e: &PluginEntry) -> (r: bool)
    ensures
        r == is_server_plugin(e@),
{
    let name: &str = match e {
        PluginEntry::Name(n) => n.as_str(),
        PluginEntry::Other(v) => match outside::json_as_str(v) {
            Some(n) => n,
            None => {
                return false;
            },
        },
    };
    text::same(name, "tiddlywiki/tiddlyweb") || text::same(name, "tiddlywiki/filesystem")
}

/// Takes the plugins that only a server needs out of the list.
pub fn strip_server_plugins(list: Vec<PluginEntry>) -> (r: Vec<PluginEntry>)
    ensures
        plugin_views(r@) == without_server_plugins(plugin_views(list@)),
{
    let ghost all = plugin_views(list@);
    let mut out: Vec<PluginEntry> = list;
    let mut i: usize = 0;
    let ghost mut k: int = 0;
    assert(plugin_views(out@) =~= without_server_plugins(all.take(0)) + all.skip(0));
    while i < out.len()
        invariant
            0 <= k <= all.len(),
            i <= out.len(),
            i == without_server_plugins(all.take(k)).len(),
            plugin_views(out@) == without_server_plugins(all.take(k)) + all.skip(k),
        decreases out.len() - i,
    {
        let ghost kept = without_server_plugins(all.take(k));
        let ghost now = plugin_views(out@);
        assert(out@.len() == now.len());
        assert(k < all.len());
        assert(now[i as int] == all[k]);
        assert(all.take(k + 1).drop_last() =~= all.take(k));
        assert(all.take(k + 1).last() == all[k]);
        if serves(&out[i]) {
            let _: PluginEntry = out.remove(i);
            assert(plugin_views(out@) =~= now.remove(i as int));
            assert(plugin_views(out@) =~= kept + all.skip(k + 1));
        } else {
            i = i + 1;
            assert(plugin_views(out@) =~= kept.push(all[k]) + all.skip(k + 1));
        }
        proof {
            k = k + 1;
        }
    }
    assert(plugin_views(out@).len() == i);
    assert(all.skip(k).len() == 0);
    assert(all.take(k) =~= all);
    assert(plugin_views(out@) =~= without_server_plugins(all));
    out
}

/// The list of plugins with those that were chosen: added to the list, or alone
/// where there is none.
pub fn add_plugins(list: Option<Vec<PluginEntry>>, selected: &Vec<String>) -> (r: Vec<PluginEntry>)
    ensures
        plugin_views(r@) == match list {
            Some(l) => with_selected(plugin_views(l@), text::views(selected@)),
            None => only_selected(text::views(selected@)),
        },
{
    let ghost names = text::views(selected@);
    let mut i: usize = 0;
    match list {
        Some(l) => {
            let ghost start = plugin_views(l@);
            let mut out: Vec<PluginEntry> = l;
            assert(names.take(0) =~= Seq::empty());
            while i < selected.len()
                invariant
                    i <= selected.len(),
                    names == text::views(selected@),
                    plugin_views(out@) == with_selected(start, names.take(i as int)),
                decreases selected.len() - i,
            {
                assert(names.take(i + 1).drop_last() =~= names.take(i as int));
                assert(names.take(i + 1).last() == selected@[i as int]@);
                let name: String = text::concat("tiddlywiki/", selected[i].as_str());
                let _: bool = push_plugin(&mut out, name.as_str());
                i = i + 1;
            }
            assert(names.take(i as int) =~= names);
            out
        },
        None => {
            let mut out: Vec<PluginEntry> = Vec::new();
            assert(plugin_views(out@) =~= only_selected(names.take(0)));
            while i < selected.len()
                invariant
                    i <= selected.len(),
                    names == text::views(selected@),
                    plugin_views(out@) == only_selected(names.take(i as int)),
                decreases selected.len() - i,
            {
                let ghost before = out@;
                let name: String = text::concat("tiddlywiki/", selected[i].as_str());
                let e: PluginEntry = PluginEntry::Name(name);
                out.push(e);
                assert(plugin_views(out@) =~= plugin_views(before).push(e@));
                assert(names[i as int] == selected@[i as int]@);
                assert(only_selected(names.take(i + 1)) =~= only_selected(
                    names.take(i as int),
                ).push(e@));
                i = i + 1;
            }
            assert(names.take(i as int) =~= names);
            out
        },
    }
}

/// What the list of plugins is before it is prepared.
pub enum PluginList {
    Missing,
    NotAList,
    List(Vec<PluginEntry>),
}

/// A list of plugins, and whether it was changed.
pub struct PreparedPlugins {
    pub list: Vec<PluginEntry>,
    pub modified: bool,
}

/// Sees to it that the plugins that a server needs are in the list; what is no
/// list is refused.
pub fn prepare_plugins(list: PluginList) -> (r: Result<PreparedPlugins, String>)
    ensures
        match list {
            PluginList::NotAList => r is Err && r->Err_0@ == "plugins is not an array"@,
            PluginList::Missing => r is Ok && r->Ok_0.modified && plugin_views(r->Ok_0.list@)
                == with_server_plugins(Seq::empty()),
            PluginList::List(l) => {
                &&& r is Ok
                &&& plugin_views(r->Ok_0.list@) == with_server_plugins(plugin_views(l@))
                &&& r->Ok_0.modified == (with_server_plugins(plugin_views(l@)) != plugin_views(l@))
            },
        },
{
    let mut out: Vec<PluginEntry> = match list {
        PluginList::NotAList => {
            return Err("plugins is not an array".to_owned());
        },
        PluginList::Missing => Vec::new(),
        PluginList::List(l) => l,
    };
    let ghost start = plugin_views(out@);
    assert(list is Missing ==> start =~= Seq::empty());
    let a: bool = push_plugin(&mut out, "tiddlywiki/tiddlyweb");
    let ghost mid = plugin_views(out@);
    let b: bool = push_plugin(&mut out, "tiddlywiki/filesystem");
    assert(plugin_views(out@) == with_server_plugins(start));
    assert(a ==> mid.len() == start.len() + 1);
    assert(b ==> with_server_plugins(start).len() == mid.len() + 1);
    Ok(PreparedPlugins { list: out, modified: a || b })
}

proof fn lemma_stripped_member(list: Seq<outside::Json>, e: outside::Json)
    ensures
        without_server_plugins(list).contains(e) <==> (list.contains(e) && !is_server_plugin(e)),
    decreases list.len(),
{
    if list.len() > 0 {
        let short = list.drop_last();
        let last = list.last();
        let n = list.len() - 1;
        lemma_stripped_member(short, e);
        let before = without_server_plugins(short);
        let s = without_server_plugins(list);
        assert(list[n] == last);
        assert forall|i: int| 0 <= i < n implies list[i] == #[trigger] short[i] by {}
        if list.contains(e) {
            let i = choose|i: int| 0 <= i < list.len() && list[i] == e;
            if i < n {
                assert(short[i] == e);
            }
        }
        if short.contains(e) {
            let i = choose|i: int| 0 <= i < short.len() && short[i] == e;
            assert(list[i] == e);
        }
        if !is_server_plugin(last) {
            assert(s == before.push(last));
            assert(s[before.len() as int] == last);
            if before.contains(e) {
                let k = choose|k: int| 0 <= k < before.len() && before[k] == e;
                assert(s[k] == e);
            }
            if s.contains(e) {
                let k = choose|k: int| 0 <= k < s.len() && s[k] == e;
                if k < before.len() {
                    assert(before[k] == e);
                }
            }
        }
    }
}

/// A list that was stripped holds no plugin that only a server needs, and all
/// else that it held.
pub proof fn law_stripped_list_serves_nobody(list: Seq<outside::Json>, e: outside::Json)
    ensures
        without_server_plugins(list).contains(e) <==> (list.contains(e) && !is_server_plugin(e)),
{
    lemma_stripped_member(list, e);
}

/// A list that was prepared holds the plugins that a server needs, begins with
/// what it held, and is not changed by preparing it once more.
pub proof fn law_prepared_list_serves(list: Seq<outside::Json>)
    ensures
        with_server_plugins(list).contains(outside::Json::Text("tiddlywiki/tiddlyweb"@)),
        with_server_plugins(list).contains(outside::Json::Text("tiddlywiki/filesystem"@)),
        list.is_prefix_of(with_server_plugins(list)),
        with_server_plugins(with_server_plugins(list)) == with_server_plugins(list),
{
    let a = outside::Json::Text("tiddlywiki/tiddlyweb"@);
    let b = outside::Json::Text("tiddlywiki/filesystem"@);
    let one = with_plugin(list, "tiddlywiki/tiddlyweb"@);
    let two = with_server_plugins(list);
    if !list.contains(a) {
        assert(one[list.len() as int] == a);
    }
    assert(one.contains(a));
    let i = choose|i: int| 0 <= i < one.len() && one[i] == a;
    assert(two[i] == a);
    if !one.contains(b) {
        assert(two[one.len() as int] == b);
    }
    assert(two.contains(a) && two.contains(b));
    assert(list =~= two.subrange(0, list.len() as int));
}

// ---------------------------------------------------------------------------
// A wiki's description
// ---------------------------------------------------------------------------

/// The description with another list of plugins.
pub open spec fn with_list(info: outside::Json, list: Seq<outside::Json>) -> outside::Json {
    outside::Json::Object(outside::json_members(info).insert("plugins"@, outside::Json::List(list)))
}

/// The description without the plugins that only a server needs.
pub open spec fn stripped_info(info: outside::Json) -> outside::Json {
    match outside::json_member(info, "plugins"@) {
        Some(outside::Json::List(l)) => with_list(info, without_server_plugins(l)),
        _ => info,
    }
}

/// The description with the plugins that were chosen.
pub open spec fn info_with_selected(info: outside::Json, selected: Seq<Seq<char>>) -> outside::Json {
    match outside::json_member(info, "plugins"@) {
        Some(outside::Json::List(l)) => with_list(info, with_selected(l, selected)),
        _ => with_list(info, only_selected(selected)),
    }
}

fn entries_of(values: Vec<serde_json::Value>) -> (r: Vec<PluginEntry>)
    ensures
        plugin_views(r@) == outside::jsons_of(values@),
{
    let ghost all = outside::jsons_of(values@);
    let mut rest: Vec<serde_json::Value> = values;
    let mut out: Vec<PluginEntry> = Vec::new();
    assert(all.skip(rest@.len() as int) =~= plugin_views(out@));
    while rest.len() > 0
        invariant
            rest@.len() <= all.len(),
            outside::jsons_of(rest@) == all.take(rest@.len() as int),
            plugin_views(out@) == all.skip(rest@.len() as int),
        decreases rest.len(),
    {
        let ghost n = rest@.len();
        let ghost held = rest@;
        let ghost before = out@;
        assert(outside::json_of(held[n - 1]) == outside::jsons_of(held)[n - 1]);
        if let Some(v) = rest.pop() {
            let name: Option<String> = match outside::json_as_str(&v) {
                Some(s) => Some(s.to_owned()),
                None => None,
            };
            let e: PluginEntry = match name {
                Some(s) => PluginEntry::Name(s),
                None => PluginEntry::Other(v),
            };
            assert(e@ == all[n - 1]);
            out.insert(0, e);
            assert(plugin_views(out@) =~= seq![e@] + plugin_views(before));
            assert(outside::jsons_of(rest@) =~= all.take(n - 1));
            assert(plugin_views(out@) =~= all.skip(n - 1));
        }
    }
    assert(all.skip(0) =~= all);
    out
}

fn values_of(entries: Vec<PluginEntry>) -> (r: Vec<serde_json::Value>)
    ensures
        outside::jsons_of(r@) == plugin_views(entries@),
{
    let ghost all = plugin_views(entries@);
    let mut rest: Vec<PluginEntry> = entries;
    let mut out: Vec<serde_json::Value> = Vec::new();
    assert(all.skip(rest@.len() as int) =~= outside::jsons_of(out@));
    while rest.len() > 0
        invariant
            rest@.len() <= all.len(),
            plugin_views(rest@) == all.take(rest@.len() as int),
            outside::jsons_of(out@) == all.skip(rest@.len() as int),
        decreases rest.len(),
    {
        let ghost n = rest@.len();
        let ghost held = rest@;
        let ghost before = out@;
        assert(held[n - 1]@ == plugin_views(held)[n - 1]);
        if let Some(e) = rest.pop() {
            let v: serde_json::Value = match e {
                PluginEntry::Name(s) => outside::json_string_value(s),
                PluginEntry::Other(v) => v,
            };
            assert(outside::json_of(v) == all[n - 1]);
            out.insert(0, v);
            assert(outside::jsons_of(out@) =~= seq![outside::json_of(v)] + outside::jsons_of(
                before,
            ));
            assert(plugin_views(rest@) =~= all.take(n - 1));
            assert(outside::jsons_of(out@) =~= all.skip(n - 1));
        }
    }
    assert(all.skip(0) =~= all);
    out
}

fn list_of(info: &serde_json::Value) -> (r: PluginList)
    ensures
        match outside::json_member(outside::json_of(*info), "plugins"@) {
            None => r is Missing,
            Some(outside::Json::List(l)) => r is List && plugin_views(r->List_0@) == l,
            Some(_) => r is NotAList,
        },
{
    match outside::json_get(info, "plugins") {
        None => PluginList::Missing,
        Some(m) => match outside::json_as_array(m) {
            Some(l) => PluginList::List(entries_of(l)),
            None => PluginList::NotAList,
        },
    }
}

fn set_list(info: &mut serde_json::Value, list: Vec<PluginEntry>)
    requires
        outside::json_takes_members(outside::json_of(*old(info))),
    ensures
        outside::json_of(*final(info)) == with_list(
            outside::json_of(*old(info)),
            plugin_views(list@),
        ),
{
    outside::json_set(info, "plugins", outside::json_array_value(values_of(list)));
}

fn is_record(v: &serde_json::Value) -> (r: bool)
    ensures
        r == outside::json_takes_members(outside::json_of(*v)),
{
    outside::json_is_object(v) || outside::json_is_null(v)
}

/// Takes the plugins that only a server needs out of a wiki's description. Gives
/// the new text of the description, or why the old one cannot be read.
pub fn strip_server_plugins_from_info(content: &str) -> (r: Result<String, String>)
    ensures
        text::result_view(r) == match outside::json_parsed(content@) {
            Ok(info) => Ok(outside::json_pretty_of(stripped_info(info))),
            Err(e) => Err("Failed to parse tiddlywiki.info: "@ + e),
        },
{
    match outside::json_parse(content) {
        Ok(v) => {
            let mut info: serde_json::Value = v;
            if let PluginList::List(l) = list_of(&info) {
                set_list(&mut info, strip_server_plugins(l));
            }
            Ok(outside::json_pretty(&info))
        },
        Err(e) => Err(text::concat("Failed to parse tiddlywiki.info: ", e.as_str())),
    }
}

/// Adds the plugins that were chosen to a wiki's description. Gives the new text
/// of the description; nothing where none was chosen, or the old text is no
/// description.
pub fn add_plugins_to_info(content: &str, selected: &Vec<String>) -> (r: Option<String>)
    ensures
        text::opt_view(r) == match outside::json_parsed(content@) {
            Ok(info) => if selected@.len() > 0 && outside::json_takes_members(info) {
                Some(
                    outside::json_pretty_of(info_with_selected(info, text::views(selected@))),
                )
            } else {
                None
            },
            Err(_) => None,
        },
{
    match outside::json_parse(content) {
        Ok(v) => {
            let mut info: serde_json::Value = v;
            if selected.len() == 0 || !is_record(&info) {
                return None;
            }
            let list: Option<Vec<PluginEntry>> = match list_of(&info) {
                PluginList::List(l) => Some(l),
                _ => None,
            };
            set_list(&mut info, add_plugins(list, selected));
            Some(outside::json_pretty(&info))
        },
        Err(_) => None,
    }
}

/// The path of a wiki that a wiki takes in: the entry is a path, or an object
/// with a path, or neither.
pub open spec fn included_path(e: outside::Json) -> Option<Seq<char>> {
    match outside::json_text(e) {
        Some(p) => Some(p),
        None => outside::json_member_text(e, "path"@),
    }
}

/// The paths that there are, in order.
pub open spec fn paths_there(list: Seq<Option<Seq<char>>>) -> Seq<Seq<char>>
    decreases list.len(),
{
    if list.len() == 0 {
        Seq::empty()
    } else {
        let before = paths_there(list.drop_last());
        match list.last() {
            Some(p) => before.push(p),
            None => before,
        }
    }
}

/// The path leaves the directory upwards.
pub open spec fn goes_up(path: Seq<char>) -> bool {
    "../"@.is_prefix_of(path) || "..\\"@.is_prefix_of(path)
}

/// The paths that have to resolve for a wiki: of the wikis that it takes in, and
/// of the place for new tiddlers, where that is outside.
pub open spec fn outer_paths(
    list: Seq<Option<Seq<char>>>,
    location: Option<Seq<char>>,
) -> Seq<Seq<char>> {
    let wikis = paths_there(list);
    match location {
        Some(l) => if goes_up(l) {
            wikis.push(l)
        } else {
            wikis
        },
        None => wikis,
    }
}

/// What optional strings hold.
pub open spec fn opt_views(v: Seq<Option<String>>) -> Seq<Option<Seq<char>>> {
    v.map_values(|o: Option<String>| text::opt_view(o))
}

/// The paths that have to resolve for a wiki. `wikis` are the paths that the
/// entries for the wikis that it takes in have, `location` the place for new
/// tiddlers.
pub fn paths_to_resolve(wikis: &Vec<Option<String>>, location: Option<&str>) -> (r: Vec<String>)
    ensures
        text::views(r@) == outer_paths(
            opt_views(wikis@),
            match location {
                Some(l) => Some(l@),
                None => None,
            },
        ),
{
    let ghost all = opt_views(wikis@);
    let mut out: Vec<String> = no_strings();
    let mut i: usize = 0;
    assert(all.take(0) =~= Seq::empty());
    while i < wikis.len()
        invariant
            i <= wikis.len(),
            all == opt_views(wikis@),
            text::views(out@) == paths_there(all.take(i as int)),
        decreases wikis.len() - i,
    {
        assert(all.take(i + 1).drop_last() =~= all.take(i as int));
        assert(all.take(i + 1).last() == text::opt_view(wikis@[i as int]));
        if let Some(p) = &wikis[i] {
            push_str(&mut out, p.as_str());
        }
        i = i + 1;
    }
    assert(all.take(i as int) =~= all);
    if let Some(l) = location {
        if text::starts_with(l, "../") || text::starts_with(l, "..\\") {
            push_str(&mut out, l);
        }
    }
    out
}

/// The paths that a wiki's description has for the wikis that the wiki takes in.
pub open spec fn included_in(info: outside::Json) -> Seq<Option<Seq<char>>> {
    match outside::json_member(info, "includeWikis"@) {
        Some(outside::Json::List(l)) => l.map_values(|e: outside::Json| included_path(e)),
        _ => Seq::empty(),
    }
}

/// The place that a wiki's description has for new tiddlers.
pub open spec fn location_in(info: outside::Json) -> Option<Seq<char>> {
    match outside::json_member(info, "config"@) {
        Some(c) => outside::json_member_text(c, "default-tiddler-location"@),
        None => None,
    }
}

/// The list of plugins that a description has; empty where it has none.
pub open spec fn listed_plugins(info: outside::Json) -> Option<Seq<outside::Json>> {
    match outside::json_member(info, "plugins"@) {
        Some(outside::Json::List(l)) => Some(l),
        Some(_) => None,
        None => Some(Seq::empty()),
    }
}

/// The new text of a description that was prepared, where it changed.
pub open spec fn prepared_text(info: outside::Json) -> Option<Seq<char>> {
    let list = listed_plugins(info)->0;
    if with_server_plugins(list) != list {
        Some(outside::json_pretty_of(with_list(info, with_server_plugins(list))))
    } else {
        None
    }
}

/// What preparing a wiki comes to.
pub struct PreparedInfo {
    /// The new text of the wiki's description, where it changed.
    pub updated: Option<String>,
    /// The paths that have to resolve.
    pub paths: Vec<String>,
}

fn path_of_entry(v: &serde_json::Value) -> (r: Option<String>)
    ensures
        text::opt_view(r) == included_path(outside::json_of(*v)),
{
    match outside::json_as_str(v) {
        Some(s) => Some(s.to_owned()),
        None => outside::json_get_text(v, "path"),
    }
}

fn included_by(info: &serde_json::Value) -> (r: Vec<Option<String>>)
    ensures
        opt_views(r@) == included_in(outside::json_of(*info)),
{
    let mut out: Vec<Option<String>> = Vec::new();
    if let Some(m) = outside::json_get(info, "includeWikis") {
        if let Some(l) = outside::json_as_array(m) {
            let ghost all = outside::jsons_of(l@);
            let mut i: usize = 0;
            while i < l.len()
                invariant
                    i <= l.len(),
                    all == outside::jsons_of(l@),
                    opt_views(out@) == all.take(i as int).map_values(|e: outside::Json| included_path(e)),
                decreases l.len() - i,
            {
                let ghost before = out@;
                let p: Option<String> = path_of_entry(&l[i]);
                assert(all[i as int] == outside::json_of(l@[i as int]));
                out.push(p);
                assert(opt_views(out@) =~= opt_views(before).push(text::opt_view(p)));
                assert(all.take(i + 1).map_values(|e: outside::Json| included_path(e)) =~= all.take(
                    i as int,
                ).map_values(|e: outside::Json| included_path(e)).push(included_path(all[i as int])));
                i = i + 1;
            }
            assert(all.take(i as int) =~= all);
            return out;
        }
    }
    assert(opt_views(out@) =~= Seq::empty());
    out
}

/// Prepares a wiki to be served: the plugins that a server needs are put into
/// its description, and the paths that lead out of it are found. Fails where the
/// description cannot be read or its plugins are no list; gives nothing where it
/// is neither an object nor null.
pub fn prepare_info_for_android(content: &str) -> (r: Result<Option<PreparedInfo>, String>)
    ensures
        match outside::json_parsed(content@) {
            Err(e) => r is Err && r->Err_0@ == "Failed to parse tiddlywiki.info: "@ + e,
            Ok(info) => if !outside::json_takes_members(info) {
                r is Ok && r->Ok_0 is None
            } else if listed_plugins(info) is None {
                r is Err && r->Err_0@ == "plugins is not an array"@
            } else {
                &&& r is Ok && r->Ok_0 is Some
                &&& text::opt_view((r->Ok_0->0).updated) == prepared_text(info)
                &&& text::views((r->Ok_0->0).paths@) == outer_paths(
                    included_in(info),
                    location_in(info),
                )
            },
        },
{
    let mut info: serde_json::Value = match outside::json_parse(content) {
        Ok(v) => v,
        Err(e) => {
            return Err(text::concat("Failed to parse tiddlywiki.info: ", e.as_str()));
        },
    };
    if !is_record(&info) {
        return Ok(None);
    }
    let wikis: Vec<Option<String>> = included_by(&info);
    let location: Option<String> = match outside::json_get(&info, "config") {
        Some(c) => outside::json_get_text(c, "default-tiddler-location"),
        None => None,
    };
    let paths: Vec<String> = match &location {
        Some(l) => paths_to_resolve(&wikis, Some(l.as_str())),
        None => paths_to_resolve(&wikis, None),
    };
    let prepared: PreparedPlugins = match prepare_plugins(list_of(&info)) {
        Ok(p) => p,
        Err(e) => {
            return Err(e);
        },
    };
    let mut updated: Option<String> = None;
    proof {
        let empty: Seq<outside::Json> = Seq::empty();
        law_prepared_list_serves(empty);
        assert(with_server_plugins(empty) != empty);
    }
    if prepared.modified {
        set_list(&mut info, prepared.list);
        updated = Some(outside::json_pretty(&info));
    }
    Ok(Some(PreparedInfo { updated, paths }))
}

// ---------------------------------------------------------------------------
// Wikis that a wiki takes in
// ---------------------------------------------------------------------------

/// The string without the pattern at its start, however often it stands there.
pub open spec fn stripped_of(s: Seq<char>, pat: Seq<char>) -> Seq<char>
    decreases s.len(),
{
    if pat.len() > 0 && pat.is_prefix_of(s) {
        stripped_of(s.skip(pat.len() as int), pat)
    } else {
        s
    }
}

/// The string up to the character, or all of it.
pub open spec fn before_char(s: Seq<char>, c: char) -> Seq<char> {
    match text::index_of(s, c, 0) {
        Some(i) => s.take(i),
        None => s,
    }
}

/// The directory that a path above a wiki begins with.
pub open spec fn top_directory(rel_path: Seq<char>) -> Seq<char> {
    before_char(
        before_char(stripped_of(stripped_of(rel_path, "../"@), "..\\"@), '/'),
        '\\',
    )
}

fn strip_all<'a>(s: &'a str, pat: &str) -> (r: &'a str)
    requires
        pat@.len() > 0,
    ensures
        r@ == stripped_of(s@, pat@),
    decreases s@.len(),
{
    match text::strip_prefix(s, pat) {
        Some(t) => strip_all(t, pat),
        None => s,
    }
}

fn up_to(s: &str, c: char) -> (r: &str)
    ensures
        r@ == before_char(s@, c),
{
    match text::find_char(s, c) {
        Some(i) => text::take(s, i),
        None => s,
    }
}

/// The directory that a path above a wiki begins with.
pub fn top_dir(rel_path: &str) -> (r: &str)
    ensures
        r@ == top_directory(rel_path@),
{
    proof {
        reveal_strlit("../");
        reveal_strlit("..\\");
    }
    up_to(up_to(strip_all(strip_all(rel_path, "../"), "..\\"), '/'), '\\')
}

/// What is known about a path above a wiki.
pub struct OuterFacts {
    /// The path resolves as it is.
    pub resolves: bool,
    /// An edition of the path's top directory is bundled.
    pub edition_exists: bool,
    /// The directory that the wiki's own is in.
    pub parent: Option<String>,
    /// Something stands where the link would.
    pub link_there: bool,
    /// It is a link to the edition.
    pub link_is_right: bool,
}

/// What is done about a path above a wiki.
pub enum OuterLink {
    Nothing,
    /// A link is put in place, after what stands there is removed.
    Replace(Link),
    /// A link is put in place.
    Create(Link),
}

/// Makes a path above a wiki resolve to a bundled edition, where it does not
/// resolve and there is such an edition: by a link beside the wiki.
pub fn create_edition_symlink(rel_path: &str, editions_dir: &str, f: &OuterFacts) -> (r: OuterLink)
    ensures
        ({
            let name = top_directory(rel_path@);
            let target = folder_wiki_server::path_from(editions_dir@, name);
            if f.resolves || !f.edition_exists || f.parent is None || (f.link_there
                && f.link_is_right) {
                r is Nothing
            } else {
                let path = folder_wiki_server::path_from(f.parent->0@, name);
                match r {
                    OuterLink::Nothing => false,
                    OuterLink::Replace(l) => f.link_there && l.path@ == path && l.target@ == target,
                    OuterLink::Create(l) => !f.link_there && l.path@ == path && l.target@ == target,
                }
            }
        }),
{
    if f.resolves || !f.edition_exists {
        return OuterLink::Nothing;
    }
    let name: &str = top_dir(rel_path);
    match &f.parent {
        None => OuterLink::Nothing,
        Some(parent) => {
            if f.link_there && f.link_is_right {
                return OuterLink::Nothing;
            }
            let link: Link = Link {
                path: folder_wiki_server::join_path(parent.as_str(), name),
                target: folder_wiki_server::join_path(editions_dir, name),
            };
            if f.link_there {
                OuterLink::Replace(link)
            } else {
                OuterLink::Create(link)
            }
        },
    }
}

// ---------------------------------------------------------------------------
// What goes back, and where
// ---------------------------------------------------------------------------

/// A scan notes what it finds piece by piece: what is found later is noted over
/// what was found before, and the directories keep their order.
pub proof fn law_scans_go_on(
    times: Seq<(Seq<char>, i128)>,
    rel: Seq<char>,
    a: Seq<Found>,
    b: Seq<Found>,
)
    ensures
        noted_files(times, rel, a + b) == noted_files(noted_files(times, rel, a), rel, b),
        inner_directories(rel, a + b) == inner_directories(rel, a) + inner_directories(rel, b),
    decreases b.len(),
{
    if b.len() == 0 {
        assert(a + b =~= a);
        assert(inner_directories(rel, a + b) =~= inner_directories(rel, a) + inner_directories(rel, b));
    } else {
        law_scans_go_on(times, rel, a, b.drop_last());
        assert((a + b).drop_last() =~= a + b.drop_last());
        assert((a + b).last() == b.last());
        assert(inner_directories(rel, a + b) =~= inner_directories(rel, a) + inner_directories(rel, b));
    }
}

/// Every file that is found is noted with its time under its path, every directory
/// is given to be scanned, and nothing else changes.
pub proof fn law_every_file_is_noted(
    times: Seq<(Seq<char>, i128)>,
    rel: Seq<char>,
    found: Seq<Found>,
    name: String,
    time: i128,
    other: Seq<char>,
)
    ensures
        ({
            let after = noted_files(times, rel, found.push(Found::File(name, Some(time))));
            let path = if rel.len() == 0 {
                name@
            } else {
                rel + "/"@ + name@
            };
            &&& table::lookup(after, path) == Some(time)
            &&& other != path ==> table::lookup(after, other) == table::lookup(
                noted_files(times, rel, found),
                other,
            )
            &&& inner_directories(rel, found.push(Found::Directory(name))) == inner_directories(
                rel,
                found,
            ).push(path)
            &&& noted_files(times, rel, found.push(Found::Directory(name))) == noted_files(
                times,
                rel,
                found,
            )
        }),
{
    let f = found.push(Found::File(name, Some(time)));
    let d = found.push(Found::Directory(name));
    assert(f.drop_last() =~= found);
    assert(d.drop_last() =~= found);
    assert(f.last() == Found::File(name, Some(time)));
    assert(d.last() == Found::Directory(name));
    table::law_put_then_lookup(noted_files(times, rel, found), child_path(rel, name@), time, other);
}

/// The way to a file is its path: the directories that are entered, in their
/// order, and then the file's name, make up the path again.
pub proof fn law_walk_follows_the_path(rel_path: Seq<char>, uri: Seq<char>, i: int)
    ensures
        ({
            let w = walk_to(rel_path, uri);
            &&& w.wf()
            &&& w.uri == uri
            &&& text::joined(w.dirs.push(w.name), seq!['/']) == rel_path
            &&& 0 <= i < w.dirs.len() ==> next_step(
                (WalkView { entered: i, ..w }),
                true,
            ) == StepView::EnsureDirectory(uri, w.dirs[i])
            &&& next_step((WalkView { entered: w.dirs.len() as int, ..w }), true)
                == StepView::FindFile(uri, w.name)
        }),
{
    text::law_split_parts_join_again(rel_path, '/');
    let parts = text::split_of(rel_path, '/');
    let w = walk_to(rel_path, uri);
    assert(w.dirs.push(w.name) =~= parts);
}

proof fn lemma_ends_in(stem: Seq<char>, ending: Seq<char>)
    ensures
        ending.is_suffix_of(stem + ending),
{
    let s = stem + ending;
    assert(s.subrange(s.len() - ending.len(), s.len() as int) =~= ending);
}

/// Tiddlers and what is told of files are created as text, JSON as JSON, pages as
/// pages, in a mirror and in a converted wiki; there also scripts and styles under
/// their own types.
pub proof fn law_mirrored_files_have_their_types(stem: Seq<char>)
    ensures
        mirror_mime(stem + ".tid"@) == "text/plain"@,
        mirror_mime(stem + ".json"@) == "application/json"@,
        mirror_mime(stem + ".html"@) == "text/html"@,
        mirror_mime(stem + ".htm"@) == "text/html"@,
        mirror_mime(stem + ".meta"@) == "text/plain"@,
        converted_mime(stem + ".js"@) == "application/javascript"@,
        converted_mime(stem + ".css"@) == "text/css"@,
        converted_mime(stem + ".tid"@) == mirror_mime(stem + ".tid"@),
        synced_mime(stem + ".tid"@) == mirror_mime(stem + ".tid"@),
        synced_mime(stem + ".html"@) == mirror_mime(stem + ".html"@),
        synced_mime(stem + ".meta"@) == "application/octet-stream"@,
{
    reveal_strlit(".tid");
    reveal_strlit(".json");
    reveal_strlit(".html");
    reveal_strlit(".htm");
    reveal_strlit(".meta");
    reveal_strlit(".js");
    reveal_strlit(".css");
    lemma_ends_in(stem, ".tid"@);
    lemma_ends_in(stem, ".json"@);
    lemma_ends_in(stem, ".html"@);
    lemma_ends_in(stem, ".htm"@);
    lemma_ends_in(stem, ".meta"@);
    lemma_ends_in(stem, ".js"@);
    lemma_ends_in(stem, ".css"@);
    lemma_other_end(stem + ".json"@, ".tid"@, 'n');
    lemma_other_end(stem + ".html"@, ".tid"@, 'l');
    lemma_other_end(stem + ".html"@, ".json"@, 'l');
    lemma_other_end(stem + ".htm"@, ".tid"@, 'm');
    lemma_other_end(stem + ".htm"@, ".json"@, 'm');
    lemma_other_end(stem + ".meta"@, ".tid"@, 'a');
    lemma_other_end(stem + ".meta"@, ".json"@, 'a');
    lemma_other_end(stem + ".meta"@, ".html"@, 'a');
    lemma_other_end(stem + ".meta"@, ".htm"@, 'a');
    lemma_other_end(stem + ".css"@, ".js"@, 's');
    lemma_other_end(stem + ".tid"@, ".js"@, 'd');
    lemma_other_end(stem + ".tid"@, ".css"@, 'd');
    lemma_other_end(stem + ".tid"@, ".meta"@, 'd');
    lemma_other_end(stem + ".html"@, ".meta"@, 'l');
    let c = stem + ".css"@;
    if ".js"@.is_suffix_of(c) {
        assert(c.subrange(c.len() - 3, c.len() as int)[1] == ".js"@[1]);
        assert(c[c.len() - 2] == 's');
    }
}

proof fn lemma_other_end(s: Seq<char>, ending: Seq<char>, last: char)
    requires
        s.len() > 0,
        s.last() == last,
        ending.len() > 0,
    ensures
        ending.last() != last ==> !ending.is_suffix_of(s),
{
    if ending.is_suffix_of(s) {
        assert(s.subrange(s.len() - ending.len(), s.len() as int).last() == ending.last());
    }
}

/// A server that was started for a stored wiki serves the copy that was made of
/// it, at the address of the port that was found.
pub proof fn law_server_serves_the_copy(
    steps: Seq<StartStep>,
    copy: String,
    port: u16,
)
    requires
        steps.len() == 5,
        steps[0] is Copy,
        start_follows(steps[0], StartEvent::Copied(Ok(copy)), steps[1]),
        start_follows(steps[1], StartEvent::Prepared, steps[2]),
        start_follows(steps[2], StartEvent::Port(Ok(port)), steps[3]),
        start_follows(steps[3], StartEvent::Ran(Ok(())), steps[4]),
    ensures
        steps[3] matches StartStep::Run { mirror, port: p } && mirror@ == copy@ && p == port,
        steps[4] matches StartStep::Done { url, mirror } && mirror@ == copy@ && url@
            == "http://127.0.0.1:"@ + text::decimal(port as nat),
{
}

/// A copy that is noted and there is used; else a mirror that holds a wiki; else
/// one is made where the mirror belongs.
pub proof fn law_copies_are_used_again(noted: Seq<char>, mirror: Seq<char>, is_wiki: bool)
    ensures
        local_copy(Some(noted), true, Ok(mirror), is_wiki) == LocalCopyView::At(noted),
        local_copy(Some(noted), false, Ok(mirror), true) == LocalCopyView::At(mirror),
        local_copy(None, true, Ok(mirror), true) == LocalCopyView::At(mirror),
        local_copy(None, false, Ok(mirror), false) == LocalCopyView::ToMake(mirror),
        local_copy(None, false, Err(noted), is_wiki) == LocalCopyView::Failed(noted),
{
}

/// Every plugin that was chosen is listed, under its full name, and what was
/// listed before stays in its place; a plugin that was listed already is not
/// listed twice.
pub proof fn law_chosen_plugins_are_listed(
    list: Seq<outside::Json>,
    selected: Seq<Seq<char>>,
    i: int,
)
    ensures
        list.is_prefix_of(with_selected(list, selected)),
        0 <= i < selected.len() ==> with_selected(list, selected).contains(
            outside::Json::Text("tiddlywiki/"@ + selected[i]),
        ),
        0 <= i < selected.len() ==> only_selected(selected)[i] == outside::Json::Text(
            "tiddlywiki/"@ + selected[i],
        ),
        only_selected(selected).len() == selected.len(),
        (forall|k: int|
            0 <= k < selected.len() ==> list.contains(
                outside::Json::Text("tiddlywiki/"@ + #[trigger] selected[k]),
            )) ==> with_selected(list, selected) == list,
    decreases selected.len(),
{
    if selected.len() == 0 {
        assert(list.subrange(0, list.len() as int) =~= list);
    } else {
        let front = selected.drop_last();
        law_chosen_plugins_are_listed(list, front, i);
        let before = with_selected(list, front);
        let name = "tiddlywiki/"@ + selected.last();
        let t = outside::Json::Text(name);
        let after = with_plugin(before, name);
        assert(after.subrange(0, list.len() as int) =~= list) by {
            assert(before.subrange(0, list.len() as int) =~= list);
            assert forall|k: int| 0 <= k < list.len() implies after[k] == list[k] by {
                assert(before.subrange(0, list.len() as int)[k] == before[k]);
            }
        }
        if 0 <= i < front.len() {
            assert(front[i] == selected[i]);
            let k = choose|k: int|
                0 <= k < before.len() && before[k] == outside::Json::Text(
                    "tiddlywiki/"@ + front[i],
                );
            assert(after[k] == before[k]);
        } else if i == front.len() {
            assert(selected[i] == selected.last());
            if !before.contains(t) {
                assert(after[before.len() as int] == t);
            }
        }
        if forall|k: int|
            0 <= k < selected.len() ==> list.contains(
                outside::Json::Text("tiddlywiki/"@ + #[trigger] selected[k]),
            ) {
            assert forall|k: int| 0 <= k < front.len() implies list.contains(
                outside::Json::Text("tiddlywiki/"@ + #[trigger] front[k]),
            ) by {
                assert(front[k] == selected[k]);
            }
            assert(selected[selected.len() - 1] == selected.last());
        }
    }
}

/// A description that gets another list of plugins keeps everything else that it
/// says.
pub proof fn law_descriptions_keep_the_rest(
    info: outside::Json,
    selected: Seq<Seq<char>>,
    list: Seq<outside::Json>,
    key: Seq<char>,
)
    requires
        info is Object,
    ensures
        key != "plugins"@ ==> outside::json_member(stripped_info(info), key) == outside::json_member(
            info,
            key,
        ),
        key != "plugins"@ ==> outside::json_member(info_with_selected(info, selected), key)
            == outside::json_member(info, key),
        outside::json_member(with_list(info, list), "plugins"@) == Some(outside::Json::List(list)),
        outside::json_member(info, "plugins"@) == Some(outside::Json::List(list))
            ==> outside::json_member(info_with_selected(info, selected), "plugins"@) == Some(
            outside::Json::List(with_selected(list, selected)),
        ) && outside::json_member(stripped_info(info), "plugins"@) == Some(
            outside::Json::List(without_server_plugins(list)),
        ),
{
}

/// Every path of a wiki that is taken in has to resolve, in their order, and the
/// place for new tiddlers behind them where it lies above the wiki.
pub proof fn law_every_outer_path_counts(
    before: Seq<Option<Seq<char>>>,
    path: Seq<char>,
    behind: Seq<Option<Seq<char>>>,
    rest: Seq<char>,
)
    ensures
        paths_there(before + seq![Some(path)] + behind) == paths_there(before) + seq![path]
            + paths_there(behind),
        paths_there(before + seq![None] + behind) == paths_there(before) + paths_there(behind),
        outer_paths(before, Some("../"@ + rest)) == paths_there(before).push("../"@ + rest),
        outer_paths(before, None) == paths_there(before),
{
    lemma_paths_of_two(before + seq![Some(path)], behind);
    lemma_paths_of_two(before, seq![Some(path)]);
    lemma_paths_of_two(before + seq![None::<Seq<char>>], behind);
    lemma_paths_of_two(before, seq![None::<Seq<char>>]);
    reveal_with_fuel(paths_there, 2);
    assert(seq![Some(path)].drop_last() =~= Seq::empty());
    assert(seq![None::<Seq<char>>].drop_last() =~= Seq::empty());
    assert(paths_there(seq![Some(path)]) =~= seq![path]);
    assert(paths_there(seq![None::<Seq<char>>]) =~= Seq::empty());
    let up = "../"@ + rest;
    assert(up.subrange(0, "../"@.len() as int) =~= "../"@);
}

proof fn lemma_paths_of_two(a: Seq<Option<Seq<char>>>, b: Seq<Option<Seq<char>>>)
    ensures
        paths_there(a + b) == paths_there(a) + paths_there(b),
    decreases b.len(),
{
    if b.len() == 0 {
        assert(a + b =~= a);
        assert(paths_there(a + b) =~= paths_there(a) + paths_there(b));
    } else {
        lemma_paths_of_two(a, b.drop_last());
        assert((a + b).drop_last() =~= a + b.drop_last());
        assert((a + b).last() == b.last());
        assert(paths_there(a + b) =~= paths_there(a) + paths_there(b));
    }
}

/// The directory that a path above a wiki begins with is its first part that does
/// not go up.
pub proof fn law_first_part_is_the_directory(name: Seq<char>, rest: Seq<char>, path: Seq<char>)
    requires
        name.len() > 0,
        name[0] != '.',
        !name.contains('/'),
        !name.contains('\\'),
    ensures
        top_directory(name) == name,
        top_directory(name.push('/') + rest) == name,
        top_directory("../"@ + (name.push('/') + rest)) == name,
        top_directory("../"@ + path) == top_directory(path),
{
    reveal_strlit("../");
    reveal_strlit("..\\");
    let up = "../"@;
    let p = name.push('/') + rest;
    lemma_no_dots(name);
    lemma_no_dots(p);
    lemma_up_to(name, '/');
    lemma_up_to(name, '\\');
    assert(p.len() > name.len());
    assert forall|k: int| 0 <= k < name.len() implies p[k] != '/' by {
        assert(p[k] == name[k]);
    }
    assert(p[name.len() as int] == '/');
    lemma_first_slash(p, 0, name.len() as int);
    assert(p.take(name.len() as int) =~= name);
    assert((up + p).skip(3) =~= p);
    assert((up + path).skip(3) =~= path);
    assert((up + p).subrange(0, 3) =~= up);
    assert((up + path).subrange(0, 3) =~= up);
}

proof fn lemma_no_dots(s: Seq<char>)
    requires
        s.len() > 0,
        s[0] != '.',
    ensures
        stripped_of(s, "../"@) == s,
        stripped_of(s, "..\\"@) == s,
{
    reveal_strlit("../");
    reveal_strlit("..\\");
    if "../"@.is_prefix_of(s) {
        assert(s.subrange(0, 3)[0] == '.');
    }
    if "..\\"@.is_prefix_of(s) {
        assert(s.subrange(0, 3)[0] == '.');
    }
}

proof fn lemma_up_to(s: Seq<char>, c: char)
    requires
        !s.contains(c),
    ensures
        before_char(s, c) == s,
{
    text::lemma_index_of(s, c, 0);
}

proof fn lemma_first_slash(s: Seq<char>, from: int, i: int)
    requires
        0 <= from <= i < s.len(),
        s[i] == '/',
        forall|j: int| from <= j < i ==> s[j] != '/',
    ensures
        text::index_of(s, '/', from) == Some(i),
    decreases i - from,
{
    if from < i {
        lemma_first_slash(s, from + 1, i);
    }
}

/// What a command wrote is the file that was expected, where it is there, and else
/// the first page in the directory; without either there is nothing.
pub proof fn law_first_page_is_taken(names: Seq<Seq<char>>, expected: Seq<char>, i: int)
    requires
        0 <= i < names.len(),
        is_html_name(names[i]),
        forall|j: int| 0 <= j < i ==> !is_html_name(#[trigger] names[j]),
    ensures
        output_file(expected, true, names) == Some(expected),
        output_file(expected, false, names) == Some(names[i]),
        output_file(expected, false, names.take(i)) is None,
{
    lemma_first_html(names, 0, i);
    lemma_no_html(names.take(i), 0);
}

proof fn lemma_first_html(names: Seq<Seq<char>>, from: int, i: int)
    requires
        0 <= from <= i < names.len(),
        is_html_name(names[i]),
        forall|j: int| from <= j < i ==> !is_html_name(#[trigger] names[j]),
    ensures
        first_html(names, from) == Some(names[i]),
    decreases i - from,
{
    if from < i {
        assert(!is_html_name(names[from]));
        lemma_first_html(names, from + 1, i);
    }
}

proof fn lemma_no_html(names: Seq<Seq<char>>, from: int)
    requires
        0 <= from <= names.len(),
        forall|j: int| from <= j < names.len() ==> !is_html_name(#[trigger] names[j]),
    ensures
        first_html(names, from) is None,
    decreases names.len() - from,
{
    if from < names.len() {
        assert(!is_html_name(names[from]));
        lemma_no_html(names, from + 1);
    }
}

/// A page has the extension `.html` behind a name that is not empty.
pub proof fn law_pages_are_named_html(stem: Seq<char>, name: Seq<char>)
    ensures
        stem.len() > 0 ==> is_html_name(stem + ".html"@),
        is_html_name(name) ==> name == name.take(name.len() - 5) + ".html"@ && name.len() > 5,
{
    reveal_strlit(".html");
    lemma_ends_in(stem, ".html"@);
    if is_html_name(name) {
        assert(name.subrange(name.len() - 5, name.len() as int) =~= ".html"@);
        assert(name =~= name.take(name.len() - 5) + ".html"@);
    }
}

} // verus!
