//! Publishing files into the session workspace, each under a directory of its own.
use vstd::prelude::*;
use vstd::utf8::*;

use super::host;
use super::host::HostPath;
use crate::rpc::message;
use crate::table;
use crate::table::Table;
use crate::text;

verus! {

/// A file that has been published into the session workspace.
#[derive(Debug)]
pub struct PublishedFile {
    /// The name of the file's own directory.
    pub uuid: String,
    /// Original filename (last path component).
    pub basename: String,
    /// Path inside the container: `/workspace/<uuid>/<basename>`.
    pub container_path: String,
    /// Host directory of this publication: `<session_dir>/<uuid>`.
    pub host_dir: HostPath,
    /// Canonical host path of the source file.
    pub host_path: HostPath,
}

/// What tells one version of a file from another: its canonical path and the time
/// of its last change, in nanoseconds since the epoch.
pub type PublicationKey = (HostPath, u64);

/// Every file published in the session.
#[derive(Debug)]
pub struct PublicationCache {
    /// The publications, the newest last.
    entries: Vec<(PublicationKey, PublishedFile)>,
    /// Container path to canonical host path.
    reverse: Table<HostPath>,
}

/// The newest publication under a key.
pub open spec fn newest(
    entries: Seq<(PublicationKey, PublishedFile)>,
    path: Seq<u8>,
    mtime: u64,
) -> Option<PublishedFile>
    decreases entries.len(),
{
    if entries.len() == 0 {
        None
    } else if entries.last().0.0@ == path && entries.last().0.1 == mtime {
        Some(entries.last().1)
    } else {
        newest(entries.drop_last(), path, mtime)
    }
}

/// The host path that a container path stands for.
pub open spec fn host_of(reverse: Seq<(Seq<char>, HostPath)>, container: Seq<char>) -> Option<
    Seq<u8>,
> {
    match table::position(reverse, container) {
        Some(i) => Some(reverse[i].1@),
        None => None,
    }
}

/// `after` is `before` with the container path of a file standing for its host path: in
/// the place that it had, else at the end.
pub open spec fn is_recorded(
    before: Seq<(Seq<char>, HostPath)>,
    file: PublishedFile,
    after: Seq<(Seq<char>, HostPath)>,
) -> bool {
    match table::position(before, file.container_path@) {
        Some(i) => {
            &&& after[i].0 == file.container_path@
            &&& after[i].1@ == file.host_path@
            &&& after == before.update(i, after[i])
        },
        None => {
            &&& after.len() == before.len() + 1
            &&& after.drop_last() == before
            &&& after.last().0 == file.container_path@
            &&& after.last().1@ == file.host_path@
        },
    }
}

/// Every publication stands under its own path, and its container path stands for that
/// path.
pub open spec fn all_paired(
    files: Map<(Seq<u8>, u64), PublishedFile>,
    reverse: Seq<(Seq<char>, HostPath)>,
) -> bool {
    forall|k: (Seq<u8>, u64)| #[trigger]
        files.contains_key(k) ==> files[k].host_path@ == k.0 && host_of(
            reverse,
            files[k].container_path@,
        ) == Some(k.0)
}

impl PublicationCache {
    /// The publications by canonical path and time of change.
    pub closed spec fn files(&self) -> Map<(Seq<u8>, u64), PublishedFile> {
        Map::new(
            |k: (Seq<u8>, u64)| newest(self.entries@, k.0, k.1) is Some,
            |k: (Seq<u8>, u64)| newest(self.entries@, k.0, k.1)->0,
        )
    }

    /// Container paths and the host paths they stand for, in order of publication.
    pub closed spec fn reverse(&self) -> Seq<(Seq<char>, HostPath)> {
        self.reverse.order()
    }

    /// No publications.
    #[must_use]
    pub fn new() -> (c: PublicationCache)
        ensures
            c.files() == Map::<(Seq<u8>, u64), PublishedFile>::empty(),
            c.reverse().len() == 0,
    {
        let c = PublicationCache { entries: Vec::new(), reverse: Table::new() };
        assert(c.files() =~= Map::<(Seq<u8>, u64), PublishedFile>::empty());
        c
    }

    /// The publication of this version of the file, if there is one.
    #[must_use]
    pub fn get(&self, canonical_path: &HostPath, mtime_nanos: u64) -> (r: Option<&PublishedFile>)
        ensures
            match r {
                Some(f) => self.files().contains_key((canonical_path@, mtime_nanos))
                    && self.files()[(canonical_path@, mtime_nanos)] == *f,
                None => !self.files().contains_key((canonical_path@, mtime_nanos)),
            },
    {
        let mut k: usize = self.entries.len();
        assert(self.entries@.take(k as int) =~= self.entries@);
        while k > 0
            invariant
                k <= self.entries@.len(),
                newest(self.entries@.take(k as int), canonical_path@, mtime_nanos) == newest(
                    self.entries@,
                    canonical_path@,
                    mtime_nanos,
                ),
            decreases k,
        {
            assert(self.entries@.take(k as int).drop_last() =~= self.entries@.take(k - 1));
            if self.entries[k - 1].0.0.same(canonical_path) && self.entries[k - 1].0.1
                == mtime_nanos {
                return Some(&self.entries[k - 1].1);
            }
            k = k - 1;
        }
        None
    }

    /// Records a publication.
    pub fn insert(&mut self, key: PublicationKey, file: PublishedFile)
        ensures
            final(self).files() == old(self).files().insert((key.0@, key.1), file),
            is_recorded(old(self).reverse(), file, final(self).reverse()),
    {
        let ghost before = self.entries@;
        let ghost old_files = self.files();
        let ghost old_reverse = self.reverse();
        let ghost (path, mtime) = (key.0@, key.1);
        let ghost f = file;
        let name = file.container_path.clone();
        let target = file.host_path.clone();
        self.reverse.insert(name, target);
        self.entries.push((key, file));
        proof {
            let after = self.entries@;
            assert(after.drop_last() =~= before);
            assert(self.files() =~= old_files.insert((path, mtime), f));
            match table::position(old_reverse, f.container_path@) {
                Some(i) => {
                    table::position_bound(old_reverse, f.container_path@);
                    assert(self.reverse() =~= old_reverse.update(i, self.reverse()[i]));
                },
                None => {
                    assert(self.reverse().drop_last() =~= old_reverse);
                },
            }
        }
    }

    /// The container paths and the host paths they stand for, as text, for
    /// rewriting responses.
    #[must_use]
    pub fn reverse_snapshot(&self) -> (r: Vec<(String, String)>)
        ensures
            message::pair_views(r@) == snapshot_of(self.reverse()),
            table::distinct(self.reverse()),
    {
        let n = self.reverse.len();
        let mut r: Vec<(String, String)> = Vec::new();
        let mut i: usize = 0;
        while i < n
            invariant
                n == self.reverse.order().len(),
                i <= n,
                r@.len() == i,
                forall|j: int|
                    0 <= j < i ==> (#[trigger] r@[j]).0@ == self.reverse()[j].0 && r@[j].1@
                        == text::lossy_text(self.reverse()[j].1@),
            decreases n - i,
        {
            let (container, path) = self.reverse.entry(i);
            r.push((container.clone(), path.lossy()));
            i = i + 1;
        }
        assert(message::pair_views(r@) =~= snapshot_of(self.reverse()));
        r
    }
}

impl Default for PublicationCache {
    fn default() -> (c: Self)
        ensures
            c.files() == Map::<(Seq<u8>, u64), PublishedFile>::empty(),
            c.reverse().len() == 0,
    {
        PublicationCache::new()
    }
}

/// The replacements that turn container paths back into host paths.
pub open spec fn snapshot_of(reverse: Seq<(Seq<char>, HostPath)>) -> Seq<(Seq<char>, Seq<char>)> {
    reverse.map_values(|e: (Seq<char>, HostPath)| (e.0, text::lossy_text(e.1@)))
}

// ---------------------------------------------------------------------------
// Publishing
// ---------------------------------------------------------------------------

/// The part of a modification time that tells versions apart: nanoseconds since
/// the epoch, 0 for a time before it, and at most what 64 bits hold.
pub fn mtime_key(nanos_since_epoch: Option<u128>) -> (r: u64)
    ensures
        r == match nanos_since_epoch {
            Some(n) => if n <= u64::MAX {
                n as u64
            } else {
                u64::MAX
            },
            None => 0,
        },
{
    match nanos_since_epoch {
        Some(n) => if n <= u64::MAX as u128 {
            n as u64
        } else {
            u64::MAX
        },
        None => 0,
    }
}

/// A lowercase hexadecimal digit.
pub open spec fn is_hex(c: char) -> bool {
    text::is_ascii_digit(c) || ('a' <= c && c <= 'f')
}

/// The hyphenated form of a UUID: 36 characters, hexadecimal but for the dashes
/// after the 8th, 12th, 16th and 20th digit.
pub open spec fn is_uuid(s: Seq<char>) -> bool {
    &&& s.len() == 36
    &&& forall|i: int|
        0 <= i < 36 ==> if i == 8 || i == 13 || i == 18 || i == 23 {
            #[trigger] s[i] == '-'
        } else {
            is_hex(s[i])
        }
}

/// `uuid::Uuid::new_v4` in its hyphenated lowercase form. Which UUID comes back is
/// random; that no two of them are equal is left unsaid.
#[verifier::external_body]
pub(crate) fn fresh_uuid() -> (r: String)
    ensures
        is_uuid(r@),
{
    uuid::Uuid::new_v4().to_string()
}

/// The name under which a file is published: its own, or `file` for a path
/// without one.
pub open spec fn published_name(path: Seq<u8>) -> Seq<char> {
    match host::file_name_of(path) {
        Some(name) => text::lossy_text(name),
        None => "file"@,
    }
}

/// The container path of a publication.
pub open spec fn workspace_path(uuid: Seq<char>, basename: Seq<char>) -> Seq<char> {
    "/workspace/"@ + uuid + "/"@ + basename
}

/// `f` is the publication of `path` under the directory `uuid`.
pub open spec fn is_publication(
    f: PublishedFile,
    path: Seq<u8>,
    session_dir: Seq<u8>,
    uuid: Seq<char>,
) -> bool {
    &&& f.uuid@ == uuid
    &&& f.basename@ == published_name(path)
    &&& f.container_path@ == workspace_path(uuid, published_name(path))
    &&& f.host_dir@ == host::joined(session_dir, encode_utf8(uuid))
    &&& f.host_path@ == path
}

/// The publication of `canonical_path` under the directory `uuid`.
pub fn publication_under(
    canonical_path: &HostPath,
    session_dir: &HostPath,
    uuid: &str,
) -> (f: PublishedFile)
    ensures
        is_publication(f, canonical_path@, session_dir@, uuid@),
{
    let basename = match canonical_path.file_name() {
        Some(name) => name.lossy(),
        None => "file".to_owned(),
    };
    let s = text::cat("/workspace/", uuid);
    let s = text::cat(s.as_str(), "/");
    let container_path = text::cat(s.as_str(), basename.as_str());
    PublishedFile {
        uuid: uuid.to_owned(),
        basename,
        container_path,
        host_dir: session_dir.join_text(uuid),
        host_path: canonical_path.clone(),
    }
}

impl PublishedFile {
    /// Where the file itself goes: `<session_dir>/<uuid>/<basename>`.
    pub fn destination(&self) -> (r: HostPath)
        ensures
            r@ == host::joined(self.host_dir@, encode_utf8(self.basename@)),
    {
        self.host_dir.join_text(self.basename.as_str())
    }
}

/// How to publish a file.
#[derive(Debug)]
pub enum PublishStep {
    /// It is published already, under this container path.
    Ready(String),
    /// Link or copy it to the destination of this publication, then settle it with
    /// [`settle_publication`].
    Create(PublishedFile),
}

/// Whether `r` is how this version of a file is to be published, given what is
/// published.
pub open spec fn is_publish_step(
    r: PublishStep,
    path: Seq<u8>,
    mtime: u64,
    files: Map<(Seq<u8>, u64), PublishedFile>,
) -> bool {
    match r {
        PublishStep::Ready(p) => files.contains_key((path, mtime)) && p@ == files[(
            path,
            mtime,
        )].container_path@,
        PublishStep::Create(_) => !files.contains_key((path, mtime)),
    }
}

/// How to publish this version of a file: not at all where it is published
/// already, else under a fresh directory.
pub fn publish_file(
    canonical_path: &HostPath,
    mtime_nanos: u64,
    session_dir: &HostPath,
    cache: &PublicationCache,
) -> (r: PublishStep)
    ensures
        is_publish_step(r, canonical_path@, mtime_nanos, cache.files()),
        r matches PublishStep::Create(f) ==> is_uuid(f.uuid@) && is_publication(
            f,
            canonical_path@,
            session_dir@,
            f.uuid@,
        ),
        r matches PublishStep::Ready(p) ==> (all_paired(cache.files(), cache.reverse())
            ==> host_of(cache.reverse(), p@) == Some(canonical_path@)),
{
    match cache.get(canonical_path, mtime_nanos) {
        Some(f) => PublishStep::Ready(f.container_path.clone()),
        None => {
            let uuid = fresh_uuid();
            PublishStep::Create(publication_under(canonical_path, session_dir, uuid.as_str()))
        },
    }
}

/// The error number of a link across filesystems.
pub const EXDEV: i32 = 18;

/// Whether a failed hard link is to be followed by a copy: only where source and
/// destination lie on different filesystems.
pub fn copies_instead(link_error: Option<i32>) -> (r: bool)
    ensures
        r == (link_error == Some(EXDEV)),
{
    match link_error {
        Some(n) => n == EXDEV,
        None => false,
    }
}

/// Whether settling a publication in the cache `before` gives `r` and leaves `after`: one
/// of the same version that is there already wins and nothing changes; else the
/// publication is recorded.
pub open spec fn settles(
    r: (String, bool),
    before: PublicationCache,
    mtime: u64,
    file: PublishedFile,
    after: PublicationCache,
) -> bool {
    let key = (file.host_path@, mtime);
    if before.files().contains_key(key) {
        &&& r.1
        &&& r.0@ == before.files()[key].container_path@
        &&& after == before
    } else {
        &&& !r.1
        &&& r.0@ == file.container_path@
        &&& after.files() == before.files().insert(key, file)
        &&& is_recorded(before.reverse(), file, after.reverse())
        &&& host_of(after.reverse(), r.0@) == Some(file.host_path@)
    }
}

/// Records a publication whose file is in place, unless another one of the same
/// version was recorded meanwhile. Returns the container path to use, and whether
/// the publication's directory is to be removed because the other one won.
pub fn settle_publication(cache: &mut PublicationCache, mtime_nanos: u64, file: PublishedFile) -> (r:
    (String, bool))
    ensures
        settles(r, *old(cache), mtime_nanos, file, *final(cache)),
        final(cache).files().contains_key((file.host_path@, mtime_nanos)),
        final(cache).files()[(file.host_path@, mtime_nanos)].container_path@ == r.0@,
{
    let winner = match cache.get(&file.host_path, mtime_nanos) {
        Some(f) => Some(f.container_path.clone()),
        None => None,
    };
    match winner {
        Some(p) => (p, true),
        None => {
            let path = file.container_path.clone();
            let key = (file.host_path.clone(), mtime_nanos);
            let ghost before = cache.reverse();
            let ghost f = file;
            cache.insert(key, file);
            proof {
                recorded_stands_for(before, f, cache.reverse(), f.container_path@);
            }
            (path, false)
        },
    }
}

// ---------------------------------------------------------------------------
// Laws
// ---------------------------------------------------------------------------

/// A version that is published stays published under the same container path,
/// whatever else is published after it: publishing it again touches nothing.
pub proof fn publications_are_reused(
    files: Map<(Seq<u8>, u64), PublishedFile>,
    path: Seq<u8>,
    mtime: u64,
    other: (Seq<u8>, u64),
    file: PublishedFile,
    again: PublishStep,
)
    requires
        files.contains_key((path, mtime)),
        !files.contains_key(other),
        is_publish_step(again, path, mtime, files.insert(other, file)),
    ensures
        again matches PublishStep::Ready(p) && p@ == files[(path, mtime)].container_path@,
{
}

proof fn recorded_stands_for(
    before: Seq<(Seq<char>, HostPath)>,
    file: PublishedFile,
    after: Seq<(Seq<char>, HostPath)>,
    container: Seq<char>,
)
    requires
        is_recorded(before, file, after),
    ensures
        host_of(after, container) == if container == file.container_path@ {
            Some(file.host_path@)
        } else {
            host_of(before, container)
        },
{
    if let Some(i) = table::position(before, file.container_path@) {
        table::position_bound(before, file.container_path@);
        table::position_bound(before, container);
        same_names(before, after, container);
        if let Some(j) = table::position(before, container) {
            assert(after[j] == before.update(i, after[i])[j]);
        }
    } else {
        assert(table::position(after, container) == if container == file.container_path@ {
            Some(after.len() - 1)
        } else {
            table::position(before, container)
        });
        table::position_bound(before, container);
        if let Some(j) = table::position(before, container) {
            assert(after.drop_last()[j] == after[j]);
        }
    }
}

proof fn same_names(
    before: Seq<(Seq<char>, HostPath)>,
    after: Seq<(Seq<char>, HostPath)>,
    container: Seq<char>,
)
    requires
        before.len() == after.len(),
        forall|i: int| 0 <= i < before.len() ==> (#[trigger] before[i]).0 == after[i].0,
    ensures
        table::position(after, container) == table::position(before, container),
    decreases before.len(),
{
    if before.len() > 0 {
        same_names(before.drop_last(), after.drop_last(), container);
    }
}

/// A publication under a container path that is not in use yet keeps every publication
/// paired with its host path: the paths of a response can be turned back.
pub proof fn publications_stay_paired(
    files: Map<(Seq<u8>, u64), PublishedFile>,
    before: Seq<(Seq<char>, HostPath)>,
    mtime: u64,
    file: PublishedFile,
    after: Seq<(Seq<char>, HostPath)>,
)
    requires
        all_paired(files, before),
        host_of(before, file.container_path@) is None,
        is_recorded(before, file, after),
    ensures
        all_paired(files.insert((file.host_path@, mtime), file), after),
{
    let all = files.insert((file.host_path@, mtime), file);
    assert forall|k: (Seq<u8>, u64)| #[trigger] all.contains_key(k) implies all[k].host_path@ == k.0
        && host_of(after, all[k].container_path@) == Some(k.0) by {
        recorded_stands_for(before, file, after, all[k].container_path@);
        if k != (file.host_path@, mtime) {
            assert(files.contains_key(k));
        }
    }
}

/// Files with different paths have different container paths.
pub proof fn container_paths_tell_files_apart(
    files: Map<(Seq<u8>, u64), PublishedFile>,
    reverse: Seq<(Seq<char>, HostPath)>,
    j: (Seq<u8>, u64),
    k: (Seq<u8>, u64),
)
    requires
        all_paired(files, reverse),
        files.contains_key(j),
        files.contains_key(k),
        j.0 != k.0,
    ensures
        files[j].container_path@ != files[k].container_path@,
{
}

/// The snapshot pairs a published file's container path with its host path.
pub proof fn snapshots_pair_publications(
    files: Map<(Seq<u8>, u64), PublishedFile>,
    reverse: Seq<(Seq<char>, HostPath)>,
    k: (Seq<u8>, u64),
)
    requires
        all_paired(files, reverse),
        files.contains_key(k),
    ensures
        snapshot_of(reverse).contains((files[k].container_path@, text::lossy_text(k.0))),
{
    let container = files[k].container_path@;
    table::position_bound(reverse, container);
    let i = table::position(reverse, container)->0;
    assert(snapshot_of(reverse)[i] == (container, text::lossy_text(k.0)));
}

/// A file that changed since it was published is published anew.
pub proof fn changed_files_are_published_anew(
    files: Map<(Seq<u8>, u64), PublishedFile>,
    path: Seq<u8>,
    mtime: u64,
    step: PublishStep,
)
    requires
        !files.contains_key((path, mtime)),
        is_publish_step(step, path, mtime, files),
    ensures
        step is Create,
{
}

/// A container path in a response is turned back into the host path that it was
/// published for, provided that no other container path occurs in either.
pub proof fn responses_name_host_paths(pairs: Seq<(Seq<char>, Seq<char>)>, k: int)
    requires
        0 <= k < pairs.len(),
        pairs[k].0.len() > 0,
        forall|j: int| 0 <= j < k ==> !text::contains_text(pairs[k].0, (#[trigger] pairs[j]).0),
        forall|j: int|
            k < j < pairs.len() ==> !text::contains_text(pairs[k].1, (#[trigger] pairs[j]).0),
    ensures
        message::replaced_upto(pairs[k].0, pairs, pairs.len()) == pairs[k].1,
{
    before_own_pair(pairs, k, k as nat);
    let c = pairs[k].0;
    let h = pairs[k].1;
    assert(c.subrange(0, c.len() as int) =~= c);
    assert(c.is_prefix_of(c));
    assert(c.skip(c.len() as int) =~= Seq::<char>::empty());
    assert(text::replaced(c.skip(c.len() as int), c, h) == Seq::<char>::empty());
    assert(h + Seq::<char>::empty() =~= h);
    assert(text::replaced(c, c, h) == h);
    assert(message::replaced_upto(c, pairs, (k + 1) as nat) == h);
    after_own_pair(pairs, k, pairs.len());
}

proof fn before_own_pair(pairs: Seq<(Seq<char>, Seq<char>)>, k: int, n: nat)
    requires
        0 <= k < pairs.len(),
        n <= k,
        forall|j: int| 0 <= j < k ==> !text::contains_text(pairs[k].0, (#[trigger] pairs[j]).0),
    ensures
        message::replaced_upto(pairs[k].0, pairs, n) == pairs[k].0,
    decreases n,
{
    if n > 0 {
        before_own_pair(pairs, k, (n - 1) as nat);
        assert(!text::contains_text(pairs[k].0, pairs[n - 1].0));
        text::replace_absent(pairs[k].0, pairs[n - 1].0, pairs[n - 1].1);
    }
}

proof fn after_own_pair(pairs: Seq<(Seq<char>, Seq<char>)>, k: int, n: nat)
    requires
        0 <= k < n <= pairs.len(),
        message::replaced_upto(pairs[k].0, pairs, (k + 1) as nat) == pairs[k].1,
        forall|j: int|
            k < j < pairs.len() ==> !text::contains_text(pairs[k].1, (#[trigger] pairs[j]).0),
    ensures
        message::replaced_upto(pairs[k].0, pairs, n) == pairs[k].1,
    decreases n,
{
    if n > k + 1 {
        after_own_pair(pairs, k, (n - 1) as nat);
        assert(!text::contains_text(pairs[k].1, pairs[n - 1].0));
        text::replace_absent(pairs[k].1, pairs[n - 1].0, pairs[n - 1].1);
    }
}

/// The session directory is the container's `/workspace`: where a file is put on the
/// host, seen from the session directory, is where the container finds it below
/// `/workspace`.
pub proof fn container_paths_mirror_the_session_directory(
    f: PublishedFile,
    path: Seq<u8>,
    session_dir: Seq<u8>,
    uuid: Seq<char>,
)
    requires
        is_publication(f, path, session_dir, uuid),
        is_uuid(uuid),
        session_dir.len() > 0,
        session_dir.last() != 47u8,
        f.basename@.len() > 0,
        f.basename@[0] != '/',
    ensures
        f.container_path@ == "/workspace/"@ + (uuid + seq!['/'] + f.basename@),
        host::joined(f.host_dir@, encode_utf8(f.basename@)) == session_dir + seq![47u8]
            + encode_utf8(uuid + seq!['/'] + f.basename@),
        f.host_path@ == path,
{
    reveal_strlit("/");
    let rel = uuid + seq!['/'] + f.basename@;
    assert("/"@ =~= seq!['/']);
    assert(f.container_path@ =~= "/workspace/"@ + rel);
    host::encoding_begins_with(uuid);
    host::encoding_begins_with(f.basename@);
    assert(uuid[0] != '/') by {
        assert(is_hex(uuid[0]));
    }
    let dir = session_dir.push(47u8) + encode_utf8(uuid);
    assert(f.host_dir@ == dir);
    assert(dir.last() != 47u8) by {
        assert(!uuid.contains('/')) by {
            assert forall|i: int| 0 <= i < uuid.len() implies uuid[i] != '/' by {
                if !(i == 8 || i == 13 || i == 18 || i == 23) {
                    assert(is_hex(uuid[i]));
                } else {
                    assert(uuid[i] == '-');
                }
            }
        }
        host::encoding_adds_no_separator(uuid);
        let e = encode_utf8(uuid);
        assert(e.len() > 0);
        assert(e[e.len() - 1] != 47u8);
        assert(dir.last() == e.last());
    }
    host::encoding_appends(uuid + seq!['/'], f.basename@);
    host::encoding_appends(uuid, seq!['/']);
    is_ascii_chars_encode_utf8(seq!['/']);
    assert(encode_utf8(seq!['/']) =~= seq![47u8]);
    assert(dir.push(47u8) + encode_utf8(f.basename@) =~= session_dir + seq![47u8] + encode_utf8(
        rel,
    ));
}

/// A file is published under its own name.
pub proof fn files_are_published_under_their_names(
    f: PublishedFile,
    dir: Seq<u8>,
    name: Seq<u8>,
    session_dir: Seq<u8>,
    uuid: Seq<char>,
)
    requires
        dir.len() > 0,
        dir.last() != 47u8,
        name.len() > 0,
        name.last() != 46u8,
        !name.contains(47u8),
        is_publication(f, dir + seq![47u8] + name, session_dir, uuid),
    ensures
        f.basename@ == text::lossy_text(name),
{
    assert(dir.push(47u8) =~= dir + seq![47u8]);
    assert(name[0] != 47u8);
    host::files_have_their_names(dir, name);
}

/// Of two publications of one version the first that is settled wins: the second is told
/// the container path of the first, and that its own directory is to be removed; and
/// what was published before stays as it was.
pub proof fn the_first_publication_wins(
    first: (String, bool),
    second: (String, bool),
    start: PublicationCache,
    mtime: u64,
    one: PublishedFile,
    two: PublishedFile,
    middle: PublicationCache,
    end: PublicationCache,
    other: (Seq<u8>, u64),
)
    requires
        settles(first, start, mtime, one, middle),
        settles(second, middle, mtime, two, end),
        one.host_path@ == two.host_path@,
    ensures
        second.1,
        second.0@ == first.0@,
        end == middle,
        first.1 <==> start.files().contains_key((one.host_path@, mtime)),
        !first.1 ==> first.0@ == one.container_path@,
        start.files().contains_key(other) ==> middle.files().contains_key(other)
            && middle.files()[other] == start.files()[other],
{
}

/// A settled publication can be found again: the next request for the same version is
/// ready under the same container path, which stands for the file.
pub proof fn settled_publications_are_ready(
    r: (String, bool),
    before: PublicationCache,
    mtime: u64,
    file: PublishedFile,
    after: PublicationCache,
    step: PublishStep,
)
    requires
        settles(r, before, mtime, file, after),
        is_publish_step(step, file.host_path@, mtime, after.files()),
    ensures
        step matches PublishStep::Ready(p) && p@ == r.0@,
        !r.1 ==> host_of(after.reverse(), r.0@) == Some(file.host_path@),
{
}

} // verus!
