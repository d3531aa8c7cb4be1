//! The file cache: small files are kept in memory, large ones are served
//! from their mapping, and the least recently used entries make room.

use vstd::prelude::*;
use dashmap::DashMap;
use crate::files::FileLoadResult;
use crate::pool::elapsed;
use crate::text::{as_text, copy_range, utf8};

verus! {

/// A cached file, as a mathematical value.
pub struct CachedView {
    pub data: Seq<u8>,
    pub last_accessed: u64,
    pub file_path: Seq<char>,
    pub original_size: usize,
}

/// A file in the memory cache: a copy of its bytes, its path, and when it
/// was last used, in milliseconds of the caller's clock.
#[derive(Debug)]
pub struct CachedFileData {
    data: Vec<u8>,
    last_accessed: u64,
    file_path: String,
    original_size: usize,
}

impl View for CachedFileData {
    type V = CachedView;

    closed spec fn view(&self) -> CachedView {
        CachedView {
            data: self.data@,
            last_accessed: self.last_accessed,
            file_path: self.file_path@,
            original_size: self.original_size,
        }
    }
}

impl CachedFileData {
    #[verifier::type_invariant]
    spec fn inv(self) -> bool {
        self.original_size == self.data@.len()
    }

    /// A cached file that holds `data`, first used at `now`.
    pub fn new(data: Vec<u8>, file_path: String, now: u64) -> (r: CachedFileData)
        ensures
            r@ == (CachedView {
                data: data@,
                last_accessed: now,
                file_path: file_path@,
                original_size: data@.len() as usize,
            }),
    {
        let original_size: usize = data.len();
        CachedFileData { data, last_accessed: now, file_path, original_size }
    }

    /// The path and the size of the file.
    pub fn get_info(&self) -> (r: (String, usize))
        ensures
            r.0@ == self@.file_path,
            r.1 == self@.original_size,
            r.1 == self@.data.len(),
    {
        proof {
            use_type_invariant(self);
        }
        (self.file_path.clone(), self.original_size)
    }

    /// The bytes of the file.
    pub fn as_bytes(&self) -> (r: &[u8])
        ensures
            r@ == self@.data,
    {
        self.data.as_slice()
    }

    /// The file as text, or `None` where it is not well-formed UTF-8.
    pub fn as_str(&self) -> (r: Option<&str>)
        ensures
            r.is_some() <==> vstd::utf8::valid_utf8(self@.data),
            r matches Some(s) ==> utf8(s@) == self@.data,
    {
        as_text(self.data.as_slice())
    }

    /// The size of the file.
    pub fn len(&self) -> (r: usize)
        ensures
            r == self@.data.len(),
            r == self@.original_size,
    {
        proof {
            use_type_invariant(self);
        }
        self.data.len()
    }

    /// Notes a use at `now`.
    pub fn update_access_time(&mut self, now: u64)
        ensures
            final(self)@ == (CachedView { last_accessed: now, ..old(self)@ }),
    {
        proof {
            use_type_invariant(&*self);
        }
        self.last_accessed = now;
    }

    /// When the file was last used.
    pub fn last_accessed(&self) -> (r: u64)
        ensures
            r == self@.last_accessed,
    {
        self.last_accessed
    }
}

/// The limits of the memory cache. The duration is in seconds.
#[derive(Clone, Copy, Debug, PartialEq, Eq, Structural)]
pub struct CacheConfig {
    pub max_cache_files: usize,
    pub max_cache_file_size: usize,
    pub cache_duration: u64,
    pub total_cache_size_limit: usize,
}

impl CacheConfig {
    /// Fifty files of a mebibyte at most, fifty mebibytes in all, five
    /// minutes each.
    pub open spec fn standard() -> CacheConfig {
        CacheConfig {
            max_cache_files: 50,
            max_cache_file_size: 1048576,
            cache_duration: 300,
            total_cache_size_limit: 52428800,
        }
    }
}

impl Default for CacheConfig {
    fn default() -> (r: CacheConfig)
        ensures
            r == CacheConfig::standard(),
    {
        CacheConfig {
            max_cache_files: 50,
            max_cache_file_size: 1048576,
            cache_duration: 300,
            total_cache_size_limit: 52428800,
        }
    }
}

/// Counts of the memory cache, as read at one moment.
#[derive(Clone, Copy, Debug, PartialEq, Eq, Structural)]
pub struct CacheStats {
    pub file_count: usize,
    pub total_size: usize,
    pub max_cache_size: usize,
    pub max_file_size: usize,
    pub total_cache_size_limit: usize,
}

/// The files that a map holds, by path.
pub uninterp spec fn cached_files(map: DashMap<String, CachedFileData>) -> Map<Seq<char>, CachedView>;

/// No files at all.
pub open spec fn no_files() -> Map<Seq<char>, CachedView> {
    Map::empty()
}

/// One line of an index of the cache: path, time of last use, size.
pub struct IndexLine {
    pub path: String,
    pub last_accessed: u64,
    pub size: usize,
}

/// The paths of an index.
pub open spec fn paths_of(index: Seq<IndexLine>) -> Seq<Seq<char>> {
    Seq::new(index.len(), |i: int| index[i].path@)
}

/// `paths` names every file of `files` once.
pub open spec fn lists(paths: Seq<Seq<char>>, files: Map<Seq<char>, CachedView>) -> bool {
    paths.no_duplicates() && paths.to_set() == files.dom()
}

/// The index names every file of `files` once, with its time of last use
/// and its size.
pub open spec fn indexes(index: Seq<IndexLine>, files: Map<Seq<char>, CachedView>) -> bool {
    &&& lists(paths_of(index), files)
    &&& forall|i: int|
        0 <= i < index.len() ==> {
            &&& files[(#[trigger] index[i]).path@].last_accessed == index[i].last_accessed
            &&& files[index[i].path@].original_size == index[i].size
        }
}

/// `DashMap::new`: a map that holds nothing.
#[verifier::external_body]
fn files_new() -> (r: DashMap<String, CachedFileData>)
    ensures
        cached_files(r) == no_files(),
{
    DashMap::new()
}

/// `DashMap::remove`: takes the file at `path` out of the map, if it holds
/// one; the other files stay as they are.
#[verifier::external_body]
fn files_take(map: &mut DashMap<String, CachedFileData>, path: &str) -> (file: Option<
    CachedFileData,
>)
    ensures
        match file {
            Some(f) => cached_files(*old(map)).contains_key(path@) && f@ == cached_files(
                *old(map),
            )[path@],
            None => !cached_files(*old(map)).contains_key(path@),
        },
        cached_files(*final(map)) == cached_files(*old(map)).remove(path@),
    no_unwind
{
    map.remove(path).map(|entry| entry.1)
}

/// `DashMap::insert`: puts `file` into the map at `path`, in place of the
/// one that it held there; the other files stay as they are.
#[verifier::external_body]
fn files_put(map: &mut DashMap<String, CachedFileData>, path: String, file: CachedFileData)
    ensures
        cached_files(*final(map)) == cached_files(*old(map)).insert(path@, file@),
    no_unwind
{
    map.insert(path, file);
}

/// `DashMap::iter`: one line for every file of the map, in the order in
/// which the map yields them.
#[verifier::external_body]
fn files_index(map: &DashMap<String, CachedFileData>) -> (index: Vec<IndexLine>)
    ensures
        indexes(index@, cached_files(*map)),
{
    map.iter().map(
        |entry|
            IndexLine {
                path: entry.key().clone(),
                last_accessed: entry.value().last_accessed(),
                size: entry.value().len(),
            },
    ).collect()
}

/// The sizes of the lines of an index, added up.
pub open spec fn sizes(index: Seq<IndexLine>) -> nat
    decreases index.len(),
{
    if index.len() == 0 {
        0
    } else {
        sizes(index.drop_last()) + index.last().size as nat
    }
}

/// The sizes of the files at `paths`, added up.
pub open spec fn sizes_of(files: Map<Seq<char>, CachedView>, paths: Seq<Seq<char>>) -> nat
    decreases paths.len(),
{
    if paths.len() == 0 {
        0
    } else {
        sizes_of(files, paths.drop_last()) + files[paths.last()].original_size as nat
    }
}

/// An index adds up to what the files that it names add up to.
pub proof fn lemma_sizes(index: Seq<IndexLine>, files: Map<Seq<char>, CachedView>)
    requires
        forall|i: int|
            0 <= i < index.len() ==> files[(#[trigger] index[i]).path@].original_size
                == index[i].size,
    ensures
        sizes(index) == sizes_of(files, paths_of(index)),
    decreases index.len(),
{
    if index.len() > 0 {
        assert(paths_of(index).drop_last() =~= paths_of(index.drop_last()));
        assert(paths_of(index).last() == index.last().path@);
        lemma_sizes(index.drop_last(), files);
    }
}

/// Without one line, an index adds up to that line's size less.
pub proof fn lemma_sizes_remove(index: Seq<IndexLine>, pos: int)
    requires
        0 <= pos < index.len(),
    ensures
        sizes(index.remove(pos)) + index[pos].size == sizes(index),
    decreases index.len(),
{
    if pos == index.len() - 1 {
        assert(index.remove(pos) =~= index.drop_last());
    } else {
        assert(index.remove(pos).drop_last() =~= index.drop_last().remove(pos));
        assert(index.remove(pos).last() == index.last());
        lemma_sizes_remove(index.drop_last(), pos);
    }
}

/// Without one line, an index names the files without that line's file.
pub proof fn lemma_indexes_remove(index: Seq<IndexLine>, files: Map<Seq<char>, CachedView>, pos: int)
    requires
        indexes(index, files),
        0 <= pos < index.len(),
    ensures
        indexes(index.remove(pos), files.remove(index[pos].path@)),
{
    let rest = index.remove(pos);
    let gone = index[pos].path@;
    let paths = paths_of(index);
    let left = paths_of(rest);
    assert(left =~= paths.remove(pos));
    assert forall|i: int, j: int| 0 <= i < left.len() && 0 <= j < left.len() && i != j implies left[i]
        != left[j] by {
        let a = if i < pos {
            i
        } else {
            i + 1
        };
        let b = if j < pos {
            j
        } else {
            j + 1
        };
        assert(left[i] == paths[a] && left[j] == paths[b]);
    }
    assert forall|k: Seq<char>| left.to_set().contains(k) <==> files.remove(gone).dom().contains(
        k,
    ) by {
        if left.contains(k) {
            let i = choose|i: int| 0 <= i < left.len() && left[i] == k;
            let a = if i < pos {
                i
            } else {
                i + 1
            };
            assert(paths[a] == k);
            assert(paths.to_set().contains(k));
            assert(paths[pos] == gone);
        }
        if files.remove(gone).dom().contains(k) {
            assert(paths.to_set().contains(k));
            let a = choose|a: int| 0 <= a < paths.len() && paths[a] == k;
            let i = if a < pos {
                a
            } else {
                a - 1
            };
            assert(left[i] == k);
        }
    }
    assert(left.to_set() =~= files.remove(gone).dom());
    assert forall|i: int| 0 <= i < rest.len() implies {
        &&& files.remove(gone)[(#[trigger] rest[i]).path@].last_accessed == rest[i].last_accessed
        &&& files.remove(gone)[rest[i].path@].original_size == rest[i].size
    } by {
        let a = if i < pos {
            i
        } else {
            i + 1
        };
        assert(rest[i] == index[a]);
        assert(paths[a] == index[a].path@);
        assert(paths[pos] == gone);
    }
}

/// The position in a non-empty index of a line that no other line
/// precedes in time of last use.
fn oldest_line(index: &Vec<IndexLine>) -> (pos: usize)
    requires
        index@.len() > 0,
    ensures
        pos < index@.len(),
        forall|i: int| 0 <= i < index@.len() ==> index@[pos as int].last_accessed <= (
        #[trigger] index@[i]).last_accessed,
{
    let mut pos: usize = 0;
    let mut i: usize = 1;
    while i < index.len()
        invariant
            1 <= i <= index@.len(),
            pos < i,
            forall|j: int| 0 <= j < i ==> index@[pos as int].last_accessed <= (
            #[trigger] index@[j]).last_accessed,
        decreases index@.len() - i,
    {
        if index[i].last_accessed < index[pos].last_accessed {
            pos = i;
        }
        i += 1;
    }
    pos
}

/// `DashMap::clear`: the map holds nothing afterwards.
#[verifier::external_body]
fn files_clear(map: &mut DashMap<String, CachedFileData>)
    ensures
        cached_files(*final(map)) == no_files(),
    no_unwind
{
    map.clear();
}

/// Files that are as large at `paths` add up to the same there.
pub proof fn lemma_sizes_agree(
    a: Map<Seq<char>, CachedView>,
    b: Map<Seq<char>, CachedView>,
    paths: Seq<Seq<char>>,
)
    requires
        forall|i: int|
            0 <= i < paths.len() ==> a[#[trigger] paths[i]].original_size
                == b[paths[i]].original_size,
    ensures
        sizes_of(a, paths) == sizes_of(b, paths),
    decreases paths.len(),
{
    if paths.len() > 0 {
        assert(paths.last() == paths[paths.len() - 1]);
        assert forall|i: int| 0 <= i < paths.drop_last().len() implies a[#[trigger] paths.drop_last()[i]].original_size
            == b[paths.drop_last()[i]].original_size by {
            assert(paths.drop_last()[i] == paths[i]);
        }
        lemma_sizes_agree(a, b, paths.drop_last());
    }
}

/// Without one path, paths add up to that path's file less.
pub proof fn lemma_sizes_of_remove(
    files: Map<Seq<char>, CachedView>,
    paths: Seq<Seq<char>>,
    pos: int,
)
    requires
        0 <= pos < paths.len(),
    ensures
        sizes_of(files, paths.remove(pos)) + files[paths[pos]].original_size == sizes_of(
            files,
            paths,
        ),
    decreases paths.len(),
{
    if pos == paths.len() - 1 {
        assert(paths.remove(pos) =~= paths.drop_last());
    } else {
        assert(paths.remove(pos).drop_last() =~= paths.drop_last().remove(pos));
        assert(paths.remove(pos).last() == paths.last());
        lemma_sizes_of_remove(files, paths.drop_last(), pos);
    }
}

/// Without one path, a listing lists the files without that path's file,
/// and adds up to that file less.
pub proof fn lemma_lists_remove(paths: Seq<Seq<char>>, files: Map<Seq<char>, CachedView>, pos: int)
    requires
        lists(paths, files),
        0 <= pos < paths.len(),
    ensures
        lists(paths.remove(pos), files.remove(paths[pos])),
        sizes_of(files.remove(paths[pos]), paths.remove(pos)) + files[paths[pos]].original_size
            == sizes_of(files, paths),
{
    let gone = paths[pos];
    let left = paths.remove(pos);
    let rest = files.remove(gone);
    assert forall|i: int, j: int| 0 <= i < left.len() && 0 <= j < left.len() && i != j implies left[i]
        != left[j] by {
        let a = if i < pos {
            i
        } else {
            i + 1
        };
        let b = if j < pos {
            j
        } else {
            j + 1
        };
        assert(left[i] == paths[a] && left[j] == paths[b]);
    }
    assert forall|k: Seq<char>| left.to_set().contains(k) <==> rest.dom().contains(k) by {
        if left.contains(k) {
            let i = choose|i: int| 0 <= i < left.len() && left[i] == k;
            let a = if i < pos {
                i
            } else {
                i + 1
            };
            assert(paths[a] == k);
            assert(paths.to_set().contains(k));
        }
        if rest.dom().contains(k) {
            assert(paths.to_set().contains(k));
            let a = choose|a: int| 0 <= a < paths.len() && paths[a] == k;
            let i = if a < pos {
                a
            } else {
                a - 1
            };
            assert(left[i] == k);
        }
    }
    assert(left.to_set() =~= rest.dom());
    assert forall|i: int| 0 <= i < left.len() implies rest[#[trigger] left[i]].original_size
        == files[left[i]].original_size by {
        let a = if i < pos {
            i
        } else {
            i + 1
        };
        assert(left[i] == paths[a]);
    }
    lemma_sizes_agree(rest, files, left);
    lemma_sizes_of_remove(files, paths, pos);
}

/// With one more path, a listing lists the files with one more file, and
/// adds up to that file more.
pub proof fn lemma_lists_push(
    paths: Seq<Seq<char>>,
    files: Map<Seq<char>, CachedView>,
    path: Seq<char>,
    file: CachedView,
)
    requires
        lists(paths, files),
        !files.contains_key(path),
    ensures
        lists(paths.push(path), files.insert(path, file)),
        sizes_of(files.insert(path, file), paths.push(path)) == sizes_of(files, paths)
            + file.original_size,
{
    let all = paths.push(path);
    let more = files.insert(path, file);
    assert(!paths.contains(path)) by {
        if paths.contains(path) {
            assert(paths.to_set().contains(path));
        }
    }
    assert(all.no_duplicates());
    assert forall|k: Seq<char>| all.to_set().contains(k) <==> more.dom().contains(k) by {
        if all.contains(k) {
            let i = choose|i: int| 0 <= i < all.len() && all[i] == k;
            if i < paths.len() {
                assert(paths[i] == k);
                assert(paths.to_set().contains(k));
            }
        }
        if more.dom().contains(k) {
            if k == path {
                assert(all[paths.len() as int] == k);
            } else {
                assert(paths.to_set().contains(k));
                let i = choose|i: int| 0 <= i < paths.len() && paths[i] == k;
                assert(all[i] == k);
            }
        }
    }
    assert(all.to_set() =~= more.dom());
    assert(all.drop_last() =~= paths);
    assert(all.last() == path);
    assert forall|i: int| 0 <= i < paths.len() implies more[#[trigger] paths[i]].original_size
        == files[paths[i]].original_size by {
        assert(paths.to_set().contains(paths[i]));
    }
    lemma_sizes_agree(more, files, paths);
}

/// An index adds up to no more than its length times the largest size.
pub proof fn lemma_sizes_bound(index: Seq<IndexLine>)
    ensures
        sizes(index) <= index.len() * usize::MAX,
    decreases index.len(),
{
    if index.len() > 0 {
        lemma_sizes_bound(index.drop_last());
        assert((index.len() - 1) * usize::MAX + usize::MAX == index.len() * usize::MAX)
            by (nonlinear_arith);
    }
}

/// The memory cache, as a mathematical value.
pub struct CacheView {
    pub files: Map<Seq<char>, CachedView>,
    pub config: CacheConfig,
}

/// A file that was last used at `last_accessed` is expired at `now`: it
/// was not used for more than `cache_duration` seconds.
pub open spec fn file_expired(last_accessed: u64, now: u64, cache_duration: u64) -> bool {
    elapsed(now, last_accessed) > cache_duration * 1000
}

impl CacheView {
    /// Every file stands at its own path, is as large as its bytes, and is
    /// no larger than a cached file may be.
    pub open spec fn files_ok(self) -> bool {
        forall|k: Seq<char>| #[trigger]
            self.files.contains_key(k) ==> {
                &&& self.files[k].file_path == k
                &&& self.files[k].original_size == self.files[k].data.len()
                &&& self.files[k].original_size <= self.config.max_cache_file_size
            }
    }

    /// The cache is within its limits: its files are no more than it may
    /// hold and add up to no more than it may hold.
    pub open spec fn within_limits(self) -> bool {
        exists|all: Seq<Seq<char>>|
            #![trigger lists(all, self.files)]
            lists(all, self.files) && all.len() <= self.config.max_cache_files && sizes_of(
                self.files,
                all,
            ) <= self.config.total_cache_size_limit
    }

    /// What holds of every cache: its files are in order, and it is within
    /// its limits.
    pub open spec fn wf(self) -> bool {
        self.files_ok() && self.within_limits()
    }

    /// The entry that a file of `data` makes at `path` at `now`.
    pub open spec fn entry(path: Seq<char>, data: Seq<u8>, now: u64) -> CachedView {
        CachedView { data, last_accessed: now, file_path: path, original_size: data.len() as usize }
    }

    /// Whether the cache can hold a file of `size` bytes at all: the file
    /// is no larger than a cached file may be, the cache may hold a file, and
    /// the file alone is within the limit on all bytes.
    pub open spec fn takes(self, size: nat) -> bool {
        &&& size <= self.config.max_cache_file_size
        &&& self.config.max_cache_files >= 1
        &&& size <= self.config.total_cache_size_limit
    }

    /// The files after a sweep at `now`: those that are not expired.
    pub open spec fn swept(self, now: u64) -> Map<Seq<char>, CachedView> {
        Map::new(
            |k: Seq<char>|
                self.files.contains_key(k) && !file_expired(
                    self.files[k].last_accessed,
                    now,
                    self.config.cache_duration,
                ),
            |k: Seq<char>| self.files[k],
        )
    }

    /// `after` is what storing `data` at `path` at `now` makes of the
    /// cache. What the cache held at `path` is gone. The new entry is there
    /// exactly where the cache can hold a file of that size at all. Of the
    /// other files, every one that is still there is as it was, and whatever
    /// left was used no later than whatever stayed. Nothing leaves for a file
    /// that is larger than a cached file may be, or where there was room
    /// already. Otherwise the files that stayed leave room for the new one,
    /// in number and in bytes, unless none stayed; and where files left,
    /// there was no room yet with the most recently used of them still in
    /// place.
    pub open spec fn stored(self, after: CacheView, path: Seq<char>, data: Seq<u8>, now: u64) -> bool {
        let base = self.files.remove(path);
        let rest = after.files.remove(path);
        &&& after.config == self.config
        &&& after.files.contains_key(path) <==> self.takes(data.len())
        &&& after.files.contains_key(path) ==> after.files[path] == CacheView::entry(
            path,
            data,
            now,
        )
        &&& data.len() > self.config.max_cache_file_size ==> rest == base
        &&& forall|k: Seq<char>| #[trigger]
            rest.contains_key(k) ==> base.contains_key(k) && rest[k] == base[k]
        &&& forall|e: Seq<char>, k: Seq<char>|
            #![trigger base.contains_key(e), rest.contains_key(k)]
            base.contains_key(e) && !rest.contains_key(e) && rest.contains_key(k)
                ==> base[e].last_accessed <= base[k].last_accessed
        &&& data.len() <= self.config.max_cache_file_size ==> exists|kept: Seq<Seq<char>>|
            #![trigger lists(kept, rest)]
            lists(kept, rest) && (kept.len() == 0 || (kept.len() < self.config.max_cache_files
                && sizes_of(rest, kept) + data.len() <= self.config.total_cache_size_limit))
        &&& exists|all: Seq<Seq<char>>|
            #![trigger lists(all, base)]
            lists(all, base) && (all.len() < self.config.max_cache_files && sizes_of(base, all)
                + data.len() <= self.config.total_cache_size_limit ==> rest == base)
        &&& rest == base || exists|last: Seq<char>, kept: Seq<Seq<char>>|
            #![trigger base.contains_key(last), lists(kept, rest)]
            {
                &&& base.contains_key(last)
                &&& !rest.contains_key(last)
                &&& forall|e: Seq<char>| #[trigger]
                    base.contains_key(e) && !rest.contains_key(e) ==> base[e].last_accessed
                        <= base[last].last_accessed
                &&& lists(kept, rest)
                &&& (kept.len() + 1 >= self.config.max_cache_files || sizes_of(rest, kept)
                    + base[last].original_size + data.len()
                    > self.config.total_cache_size_limit)
            }
    }
}

/// The files with those in `done` swept at `now`.
pub open spec fn swept_in(cache: CacheView, done: Set<Seq<char>>, now: u64) -> Map<
    Seq<char>,
    CachedView,
> {
    Map::new(
        |k: Seq<char>|
            cache.files.contains_key(k) && !(done.contains(k) && file_expired(
                cache.files[k].last_accessed,
                now,
                cache.config.cache_duration,
            )),
        |k: Seq<char>| cache.files[k],
    )
}

/// An empty cache is well-formed.
pub proof fn lemma_wf_empty(config: CacheConfig)
    ensures
        (CacheView { files: no_files(), config }).wf(),
{
    let v = CacheView { files: no_files(), config };
    let none = Seq::<Seq<char>>::empty();
    assert(none.to_set() =~= v.files.dom());
    assert(lists(none, v.files));
}

/// A well-formed cache without one of its files is well-formed.
pub proof fn lemma_wf_remove(v: CacheView, key: Seq<char>)
    requires
        v.wf(),
    ensures
        (CacheView { files: v.files.remove(key), ..v }).wf(),
{
    let left = CacheView { files: v.files.remove(key), ..v };
    assert forall|k: Seq<char>| #[trigger] left.files.contains_key(k) implies {
        &&& left.files[k].file_path == k
        &&& left.files[k].original_size == left.files[k].data.len()
        &&& left.files[k].original_size <= left.config.max_cache_file_size
    } by {
        assert(v.files.contains_key(k));
    }
    let all = choose|all: Seq<Seq<char>>|
        #![trigger lists(all, v.files)]
        lists(all, v.files) && all.len() <= v.config.max_cache_files && sizes_of(v.files, all)
            <= v.config.total_cache_size_limit;
    if v.files.contains_key(key) {
        assert(all.to_set().contains(key));
        let pos = choose|pos: int| 0 <= pos < all.len() && all[pos] == key;
        lemma_lists_remove(all, v.files, pos);
        assert(lists(all.remove(pos), left.files));
    } else {
        assert(left.files =~= v.files);
        assert(lists(all, left.files));
    }
}

/// A well-formed cache in which a file gives way to one of the same size
/// at the same path is well-formed.
pub proof fn lemma_wf_replace(v: CacheView, path: Seq<char>, file: CachedView)
    requires
        v.wf(),
        v.files.contains_key(path),
        file.file_path == path,
        file.original_size == file.data.len(),
        file.original_size == v.files[path].original_size,
    ensures
        (CacheView { files: v.files.remove(path).insert(path, file), ..v }).wf(),
{
    let put = CacheView { files: v.files.remove(path).insert(path, file), ..v };
    assert forall|k: Seq<char>| #[trigger] put.files.contains_key(k) implies {
        &&& put.files[k].file_path == k
        &&& put.files[k].original_size == put.files[k].data.len()
        &&& put.files[k].original_size <= put.config.max_cache_file_size
    } by {
        assert(v.files.contains_key(k));
    }
    let all = choose|all: Seq<Seq<char>>|
        #![trigger lists(all, v.files)]
        lists(all, v.files) && all.len() <= v.config.max_cache_files && sizes_of(v.files, all)
            <= v.config.total_cache_size_limit;
    assert(put.files.dom() =~= v.files.dom());
    assert forall|i: int| 0 <= i < all.len() implies put.files[#[trigger] all[i]].original_size
        == v.files[all[i]].original_size by {}
    lemma_sizes_agree(put.files, v.files, all);
    assert(lists(all, put.files));
}

/// A well-formed cache with one more file, for which it has room, is
/// well-formed.
pub proof fn lemma_wf_insert(v: CacheView, kept: Seq<Seq<char>>, path: Seq<char>, file: CachedView)
    requires
        v.files_ok(),
        lists(kept, v.files),
        !v.files.contains_key(path),
        file.file_path == path,
        file.original_size == file.data.len(),
        file.original_size <= v.config.max_cache_file_size,
        kept.len() < v.config.max_cache_files,
        sizes_of(v.files, kept) + file.original_size <= v.config.total_cache_size_limit,
    ensures
        (CacheView { files: v.files.insert(path, file), ..v }).wf(),
{
    let put = CacheView { files: v.files.insert(path, file), ..v };
    assert forall|k: Seq<char>| #[trigger] put.files.contains_key(k) implies {
        &&& put.files[k].file_path == k
        &&& put.files[k].original_size == put.files[k].data.len()
        &&& put.files[k].original_size <= put.config.max_cache_file_size
    } by {
        if k != path {
            assert(v.files.contains_key(k));
        }
    }
    lemma_lists_push(kept, v.files, path, file);
    assert(lists(kept.push(path), put.files));
}

/// The cache never exceeds its limits: whatever is stored into a
/// well-formed cache, the files afterwards are no more than the cache may
/// hold and add up to no more than it may hold.
pub proof fn lemma_store_fits(
    before: CacheView,
    after: CacheView,
    path: Seq<char>,
    data: Seq<u8>,
    now: u64,
)
    requires
        before.wf(),
        before.stored(after, path, data, now),
    ensures
        after.within_limits(),
{
    let base = before.files.remove(path);
    let rest = after.files.remove(path);
    if data.len() > before.config.max_cache_file_size {
        lemma_wf_remove(before, path);
        assert(after.files =~= base);
    } else {
        let kept = choose|kept: Seq<Seq<char>>|
            #![trigger lists(kept, rest)]
            lists(kept, rest) && (kept.len() == 0 || (kept.len() < before.config.max_cache_files
                && sizes_of(rest, kept) + data.len() <= before.config.total_cache_size_limit));
        if kept.len() == 0 {
            assert(sizes_of(rest, kept) == 0);
        }
        if after.files.contains_key(path) {
            lemma_lists_push(kept, rest, path, after.files[path]);
            assert(rest.insert(path, after.files[path]) =~= after.files);
            assert(lists(kept.push(path), after.files));
        } else {
            assert(rest =~= after.files);
            assert(lists(kept, after.files));
        }
    }
}

/// No more files leave than room is needed for: where files left and the
/// number of files was no obstacle, the files that stayed, the most recently
/// used file that left and the new file add up to more than the cache may
/// hold. With that file still in place there was no room yet.
pub proof fn lemma_least_evictions(
    before: CacheView,
    after: CacheView,
    path: Seq<char>,
    data: Seq<u8>,
    now: u64,
    all: Seq<Seq<char>>,
)
    requires
        before.stored(after, path, data, now),
        lists(all, before.files.remove(path)),
        all.len() < before.config.max_cache_files,
        after.files.remove(path) != before.files.remove(path),
    ensures
        exists|last: Seq<char>, kept: Seq<Seq<char>>|
            #![trigger before.files.remove(path).contains_key(last), lists(kept, after.files.remove(path))]
            {
                &&& before.files.remove(path).contains_key(last)
                &&& !after.files.remove(path).contains_key(last)
                &&& forall|e: Seq<char>| #[trigger]
                    before.files.remove(path).contains_key(e) && !after.files.remove(
                        path,
                    ).contains_key(e) ==> before.files.remove(path)[e].last_accessed
                        <= before.files.remove(path)[last].last_accessed
                &&& lists(kept, after.files.remove(path))
                &&& sizes_of(after.files.remove(path), kept) + before.files.remove(
                    path,
                )[last].original_size + data.len() > before.config.total_cache_size_limit
            },
{
    let base = before.files.remove(path);
    let rest = after.files.remove(path);
    let (last, kept) = choose|last: Seq<char>, kept: Seq<Seq<char>>|
        #![trigger base.contains_key(last), lists(kept, rest)]
        {
            &&& base.contains_key(last)
            &&& !rest.contains_key(last)
            &&& forall|e: Seq<char>| #[trigger]
                base.contains_key(e) && !rest.contains_key(e) ==> base[e].last_accessed
                    <= base[last].last_accessed
            &&& lists(kept, rest)
            &&& (kept.len() + 1 >= before.config.max_cache_files || sizes_of(rest, kept)
                + base[last].original_size + data.len() > before.config.total_cache_size_limit)
        };
    kept.unique_seq_to_set();
    all.unique_seq_to_set();
    vstd::seq_lib::seq_to_set_is_finite(all);
    vstd::seq_lib::seq_to_set_is_finite(kept);
    let more = rest.dom().insert(last);
    assert(more.subset_of(base.dom())) by {
        assert forall|k: Seq<char>| more.contains(k) implies base.dom().contains(k) by {
            if k != last {
                assert(rest.contains_key(k));
            }
        }
    }
    vstd::set_lib::lemma_len_subset(more, base.dom());
    assert(more.len() == rest.dom().len() + 1);
    assert(kept.len() + 1 <= all.len());
    assert(base.contains_key(last) && lists(kept, rest));
}

/// What the cache says of a file that is asked for.
#[derive(Debug)]
pub enum LoadStep {
    /// The file is cached: a copy of its bytes.
    Cached(Vec<u8>),
    /// The file is small enough to cache and is not cached yet: it is to
    /// be read and stored.
    Read,
    /// The file is too large to cache: it is to be mapped.
    MapDirectly,
}

/// The file cache.
pub struct ZeroCopyCache {
    memory_cache: DashMap<String, CachedFileData>,
    max_cache_files: usize,
    max_cache_file_size: usize,
    cache_duration: u64,
    total_cache_size_limit: usize,
}

impl View for ZeroCopyCache {
    type V = CacheView;

    closed spec fn view(&self) -> CacheView {
        CacheView {
            files: cached_files(self.memory_cache),
            config: CacheConfig {
                max_cache_files: self.max_cache_files,
                max_cache_file_size: self.max_cache_file_size,
                cache_duration: self.cache_duration,
                total_cache_size_limit: self.total_cache_size_limit,
            },
        }
    }
}

impl ZeroCopyCache {
    #[verifier::type_invariant]
    spec fn inv(self) -> bool {
        self@.wf()
    }

    /// An empty cache with the given limits; `cache_duration` is in
    /// seconds.
    pub fn new(
        max_cache_files: usize,
        max_cache_file_size: usize,
        total_cache_size_limit: usize,
        cache_duration: u64,
    ) -> (r: ZeroCopyCache)
        ensures
            r@ == (CacheView {
                files: no_files(),
                config: CacheConfig {
                    max_cache_files,
                    max_cache_file_size,
                    cache_duration,
                    total_cache_size_limit,
                },
            }),
            r@.wf(),
    {
        proof {
            lemma_wf_empty(
                CacheConfig {
                    max_cache_files,
                    max_cache_file_size,
                    cache_duration,
                    total_cache_size_limit,
                },
            );
        }
        ZeroCopyCache {
            memory_cache: files_new(),
            max_cache_files,
            max_cache_file_size,
            cache_duration,
            total_cache_size_limit,
        }
    }

    /// An empty cache with the limits of `config`.
    pub fn from_config(config: CacheConfig) -> (r: ZeroCopyCache)
        ensures
            r@ == (CacheView { files: no_files(), config }),
            r@.wf(),
    {
        ZeroCopyCache::new(
            config.max_cache_files,
            config.max_cache_file_size,
            config.total_cache_size_limit,
            config.cache_duration,
        )
    }

    /// An empty cache with the standard limits.
    pub fn default() -> (r: ZeroCopyCache)
        ensures
            r@ == (CacheView { files: no_files(), config: CacheConfig::standard() }),
            r@.wf(),
    {
        ZeroCopyCache::from_config(CacheConfig::default())
    }

    /// The limits of the cache.
    pub fn config(&self) -> (r: CacheConfig)
        ensures
            r == self@.config,
            self@.wf(),
    {
        proof {
            use_type_invariant(self);
        }
        CacheConfig {
            max_cache_files: self.max_cache_files,
            max_cache_file_size: self.max_cache_file_size,
            cache_duration: self.cache_duration,
            total_cache_size_limit: self.total_cache_size_limit,
        }
    }

    /// Decides how the file at `path`, of `file_size` bytes, is served at
    /// `now`, by its size alone: a file no larger than the threshold is
    /// served from the memory cache, where a use is noted on a hit and the
    /// file is to be read and stored on a miss; a larger file is mapped, and
    /// the cache stays as it is.
    pub fn load_file(&mut self, path: &str, file_size: usize, now: u64) -> (r: LoadStep)
        ensures
            final(self)@.wf(),
            (r is MapDirectly) <==> file_size > old(self)@.config.max_cache_file_size,
            match r {
                LoadStep::MapDirectly => file_size > old(self)@.config.max_cache_file_size && final(self)@
                    == old(self)@,
                LoadStep::Read => file_size <= old(self)@.config.max_cache_file_size
                    && !old(self)@.files.contains_key(path@) && final(self)@ == old(self)@,
                LoadStep::Cached(data) => {
                    &&& file_size <= old(self)@.config.max_cache_file_size
                    &&& old(self)@.files.contains_key(path@)
                    &&& data@ == old(self)@.files[path@].data
                    &&& final(self)@ == (CacheView {
                        files: old(self)@.files.insert(
                            path@,
                            CachedView { last_accessed: now, ..old(self)@.files[path@] },
                        ),
                        ..old(self)@
                    })
                },
            },
    {
        proof {
            use_type_invariant(&*self);
        }
        let ghost before = self@;
        assert(before.wf());
        if file_size > self.max_cache_file_size {
            return LoadStep::MapDirectly;
        }
        proof {
            lemma_wf_remove(before, path@);
        }
        match files_take(&mut self.memory_cache, path) {
            Some(file) => {
                let mut file = file;
                let ghost taken = self@;
                file.update_access_time(now);
                let bytes = file.as_bytes();
                let data = copy_range(bytes, 0, bytes.len());
                proof {
                    assert(bytes@.subrange(0, bytes@.len() as int) =~= bytes@);
                    assert(before.files.contains_key(path@));
                    lemma_wf_replace(before, path@, file@);
                    assert(taken.files =~= before.files.remove(path@));
                }
                files_put(&mut self.memory_cache, path.to_owned(), file);
                proof {
                    assert(self@.files =~= before.files.insert(
                        path@,
                        CachedView { last_accessed: now, ..before.files[path@] },
                    ));
                }
                LoadStep::Cached(data)
            },
            None => {
                proof {
                    assert(self@.files =~= before.files);
                }
                LoadStep::Read
            },
        }
    }

    /// Stores `data` as the file at `path`, used at `now`, and hands it
    /// back as the result of the load. What the cache held at `path` leaves.
    /// A file that is larger than a cached file may be is not stored, and
    /// nothing else leaves for it. For any other file, the least recently used
    /// files leave, one by one, until there is room for it, in number and in
    /// bytes, or none is left; the file is stored where there is room then,
    /// which is exactly where the cache can hold a file of its size at all.
    /// So the cache never exceeds its limits.
    pub fn store(&mut self, path: &str, data: Vec<u8>, now: u64) -> (r: FileLoadResult<'static>)
        ensures
            r == FileLoadResult::MemoryCache(data),
            final(self)@.wf(),
            old(self)@.stored(final(self)@, path@, data@, now),
            final(self)@.files.contains_key(path@) <==> old(self)@.takes(data@.len()),
    {
        proof {
            use_type_invariant(&*self);
        }
        let ghost before = self@;
        assert(before.wf());
        let size: usize = data.len();
        proof {
            lemma_wf_remove(before, path@);
        }
        let replaced = files_take(&mut self.memory_cache, path);
        let ghost base = self@.files;
        proof {
            assert(base =~= before.files.remove(path@));
            assert(self@.files.remove(path@) =~= base);
        }
        let mut index = files_index(&self.memory_cache);
        let ghost first = index@;
        proof {
            lemma_sizes(first, base);
            assert(lists(paths_of(first), base));
        }
        if size > self.max_cache_file_size {
            return FileLoadResult::MemoryCache(data);
        }
        let ghost evictions: nat = 0;
        let ghost last: Seq<char> = path@;
        // The number of files: room for one more.
        while index.len() > 0 && index.len() >= self.max_cache_files
            invariant
                self@.config == before.config,
                indexes(index@, self@.files),
                indexes(first, base),
                !base.contains_key(path@),
                forall|k: Seq<char>| #[trigger]
                    self@.files.contains_key(k) ==> base.contains_key(k) && self@.files[k]
                        == base[k],
                forall|e: Seq<char>, k: Seq<char>|
                    #![trigger base.contains_key(e), self@.files.contains_key(k)]
                    base.contains_key(e) && !self@.files.contains_key(e)
                        && self@.files.contains_key(k) ==> base[e].last_accessed
                        <= base[k].last_accessed,
                evictions == 0 ==> index@ == first && self@.files == base,
                evictions > 0 ==> first.len() >= before.config.max_cache_files,
                evictions > 0 ==> base.contains_key(last) && !self@.files.contains_key(last)
                    && index@.len() + 1 >= before.config.max_cache_files,
                evictions > 0 ==> forall|e: Seq<char>| #[trigger]
                    base.contains_key(e) && !self@.files.contains_key(e) ==> base[e].last_accessed
                        <= base[last].last_accessed,
            decreases index@.len(),
        {
            let pos = oldest_line(&index);
            let ghost cur = self@;
            let ghost gone = index@[pos as int].path@;
            proof {
                use_type_invariant(&*self);
                assert(paths_of(index@)[pos as int] == gone);
                assert(paths_of(index@).to_set().contains(gone));
                assert(cur.files.contains_key(gone));
                lemma_indexes_remove(index@, cur.files, pos as int);
                lemma_wf_remove(cur, gone);
                let left = cur.files.remove(gone);
                assert forall|e: Seq<char>, k: Seq<char>|
                    #![trigger base.contains_key(e), left.contains_key(k)]
                    base.contains_key(e) && !left.contains_key(e) && left.contains_key(
                        k,
                    ) implies base[e].last_accessed <= base[k].last_accessed by {
                    assert(cur.files.contains_key(k));
                    assert(paths_of(index@).to_set().contains(k));
                    let i = choose|i: int| 0 <= i < index@.len() && paths_of(index@)[i] == k;
                    assert(index@[i].path@ == k);
                    if e != gone {
                        assert(!cur.files.contains_key(e));
                    }
                }
                assert forall|e: Seq<char>| #[trigger]
                    base.contains_key(e) && !left.contains_key(e) implies base[e].last_accessed
                    <= base[gone].last_accessed by {
                    if e != gone {
                        assert(!cur.files.contains_key(e));
                    }
                }
            }
            let line = index.remove(pos);
            let taken = files_take(&mut self.memory_cache, line.path.as_str());
            proof {
                evictions = evictions + 1;
                last = gone;
            }
        }
        let mut total: u128 = index_total(&index);
        proof {
            lemma_sizes_bound(index@);
            assert(index@.len() * usize::MAX <= 0xFFFF_FFFF_FFFF_FFFF * 0xFFFF_FFFF_FFFF_FFFF)
                by (nonlinear_arith)
                requires
                    0 <= index@.len() <= 0xFFFF_FFFF_FFFF_FFFF,
                    0 <= usize::MAX <= 0xFFFF_FFFF_FFFF_FFFF,
            ;
        }
        // The bytes: room for the new file.
        while index.len() > 0 && total + size as u128 > self.total_cache_size_limit as u128
            invariant
                self@.config == before.config,
                indexes(index@, self@.files),
                indexes(first, base),
                !base.contains_key(path@),
                total == sizes(index@),
                total <= 0xFFFF_FFFF_FFFF_FFFF * 0xFFFF_FFFF_FFFF_FFFF,
                size == data@.len(),
                forall|k: Seq<char>| #[trigger]
                    self@.files.contains_key(k) ==> base.contains_key(k) && self@.files[k]
                        == base[k],
                forall|e: Seq<char>, k: Seq<char>|
                    #![trigger base.contains_key(e), self@.files.contains_key(k)]
                    base.contains_key(e) && !self@.files.contains_key(e)
                        && self@.files.contains_key(k) ==> base[e].last_accessed
                        <= base[k].last_accessed,
                index@.len() == 0 || index@.len() < before.config.max_cache_files,
                evictions == 0 ==> index@ == first && self@.files == base,
                evictions > 0 ==> !(first.len() < before.config.max_cache_files && sizes(first)
                    + size <= before.config.total_cache_size_limit),
                evictions > 0 ==> base.contains_key(last) && !self@.files.contains_key(last) && (
                index@.len() + 1 >= before.config.max_cache_files || sizes(index@)
                    + base[last].original_size + size > before.config.total_cache_size_limit),
                evictions > 0 ==> forall|e: Seq<char>| #[trigger]
                    base.contains_key(e) && !self@.files.contains_key(e) ==> base[e].last_accessed
                        <= base[last].last_accessed,
            decreases index@.len(),
        {
            let pos = oldest_line(&index);
            let ghost cur = self@;
            let ghost gone = index@[pos as int].path@;
            proof {
                use_type_invariant(&*self);
                assert(paths_of(index@)[pos as int] == gone);
                assert(paths_of(index@).to_set().contains(gone));
                assert(cur.files.contains_key(gone));
                lemma_indexes_remove(index@, cur.files, pos as int);
                lemma_sizes_remove(index@, pos as int);
                lemma_wf_remove(cur, gone);
                let left = cur.files.remove(gone);
                assert forall|e: Seq<char>, k: Seq<char>|
                    #![trigger base.contains_key(e), left.contains_key(k)]
                    base.contains_key(e) && !left.contains_key(e) && left.contains_key(
                        k,
                    ) implies base[e].last_accessed <= base[k].last_accessed by {
                    assert(cur.files.contains_key(k));
                    assert(paths_of(index@).to_set().contains(k));
                    let i = choose|i: int| 0 <= i < index@.len() && paths_of(index@)[i] == k;
                    assert(index@[i].path@ == k);
                    if e != gone {
                        assert(!cur.files.contains_key(e));
                    }
                }
                assert forall|e: Seq<char>| #[trigger]
                    base.contains_key(e) && !left.contains_key(e) implies base[e].last_accessed
                    <= base[gone].last_accessed by {
                    if e != gone {
                        assert(!cur.files.contains_key(e));
                    }
                }
            }
            let line = index.remove(pos);
            let taken = files_take(&mut self.memory_cache, line.path.as_str());
            total = total - line.size as u128;
            proof {
                evictions = evictions + 1;
                last = gone;
                assert(base[last].original_size == line.size);
            }
        }
        let ghost kept_files = self@.files;
        let ghost kept = paths_of(index@);
        proof {
            assert(!kept_files.contains_key(path@));
            assert(lists(kept, kept_files));
            lemma_sizes(index@, kept_files);
            if index@.len() == 0 {
                assert(sizes(index@) == 0);
            }
        }
        if self.max_cache_files >= 1 && size <= self.total_cache_size_limit {
            let file = CachedFileData::new(
                copy_range(data.as_slice(), 0, size),
                path.to_owned(),
                now,
            );
            proof {
                assert(data@.subrange(0, size as int) =~= data@);
                assert(file@ == CacheView::entry(path@, data@, now));
                use_type_invariant(&*self);
                lemma_wf_insert(self@, kept, path@, file@);
            }
            files_put(&mut self.memory_cache, path.to_owned(), file);
        }
        proof {
            let after = self@;
            assert(after.files.remove(path@) =~= kept_files);
            if evictions == 0 {
                assert(after.files.remove(path@) =~= base);
            } else {
                assert(last != path@);
                assert(lists(kept, after.files.remove(path@)));
            }
            use_type_invariant(&*self);
        }
        FileLoadResult::MemoryCache(data)
    }

    /// Sweeps the cache at `now`: every file that was not used for longer
    /// than the cache duration leaves.
    pub fn cleanup_expired(&mut self, now: u64)
        ensures
            final(self)@ == (CacheView { files: old(self)@.swept(now), ..old(self)@ }),
            final(self)@.wf(),
    {
        proof {
            use_type_invariant(&*self);
        }
        let ghost before = self@;
        assert(before.wf());
        let index = files_index(&self.memory_cache);
        let duration: u128 = self.cache_duration as u128 * 1000;
        let ghost done: Set<Seq<char>> = Set::empty();
        let mut i: usize = 0;
        proof {
            assert(self@.files =~= swept_in(before, done, now));
        }
        while i < index.len()
            invariant
                i <= index@.len(),
                before.wf(),
                self@.config == before.config,
                duration == before.config.cache_duration * 1000,
                indexes(index@, before.files),
                forall|j: int|
                    0 <= j < index@.len() ==> (done.contains(#[trigger] paths_of(index@)[j]) <==> j
                        < i),
                self@.files == swept_in(before, done, now),
            decreases index@.len() - i,
        {
            let ghost path = index@[i as int].path@;
            let ghost cur = self@;
            proof {
                use_type_invariant(&*self);
                assert(paths_of(index@)[i as int] == path);
                assert(paths_of(index@).to_set().contains(path));
                assert(before.files.contains_key(path));
                assert(!done.contains(path));
                lemma_wf_remove(cur, path);
            }
            let last: u64 = index[i].last_accessed;
            let age: u128 = if now >= last {
                (now - last) as u128
            } else {
                0
            };
            if age > duration {
                let gone = files_take(&mut self.memory_cache, index[i].path.as_str());
            }
            proof {
                let next = done.insert(path);
                assert forall|j: int| 0 <= j < index@.len() implies (next.contains(
                    #[trigger] paths_of(index@)[j],
                ) <==> j < i + 1) by {
                    if j != i && paths_of(index@)[j] == path {
                        assert(paths_of(index@)[j] == paths_of(index@)[i as int]);
                    }
                }
                assert(self@.files =~= swept_in(before, next, now));
                done = next;
            }
            i += 1;
        }
        proof {
            assert forall|k: Seq<char>| before.files.contains_key(k) implies done.contains(k) by {
                assert(paths_of(index@).to_set().contains(k));
                let j = choose|j: int| 0 <= j < index@.len() && paths_of(index@)[j] == k;
                assert(done.contains(paths_of(index@)[j]));
            }
            assert(self@.files =~= before.swept(now));
            use_type_invariant(&*self);
        }
    }

    /// Forgets every cached file.
    pub fn clear_cache(&mut self)
        ensures
            final(self)@ == (CacheView { files: no_files(), ..old(self)@ }),
            final(self)@.wf(),
    {
        proof {
            use_type_invariant(&*self);
            lemma_wf_empty(self@.config);
        }
        files_clear(&mut self.memory_cache);
    }

    /// The counts of the cache: the files are counted and their sizes
    /// added up, file by file.
    pub fn stats(&self) -> (r: CacheStats)
        ensures
            r.max_cache_size == self@.config.max_cache_files,
            r.max_file_size == self@.config.max_cache_file_size,
            r.total_cache_size_limit == self@.config.total_cache_size_limit,
            exists|paths: Seq<Seq<char>>|
                #![trigger lists(paths, self@.files)]
                lists(paths, self@.files) && r.file_count == paths.len() && r.total_size == (if sizes_of(
                    self@.files,
                    paths,
                ) <= usize::MAX {
                    sizes_of(self@.files, paths) as usize
                } else {
                    usize::MAX
                }),
    {
        let index = files_index(&self.memory_cache);
        let total = index_total(&index);
        proof {
            lemma_sizes(index@, self@.files);
            assert(lists(paths_of(index@), self@.files));
        }
        CacheStats {
            file_count: index.len(),
            total_size: if total <= usize::MAX as u128 {
                total as usize
            } else {
                usize::MAX
            },
            max_cache_size: self.max_cache_files,
            max_file_size: self.max_cache_file_size,
            total_cache_size_limit: self.total_cache_size_limit,
        }
    }
}

/// The sizes of the lines of an index, added up.
fn index_total(index: &Vec<IndexLine>) -> (total: u128)
    ensures
        total == sizes(index@),
{
    let mut total: u128 = 0;
    let mut i: usize = 0;
    assert(index@.subrange(0, 0) =~= Seq::empty());
    while i < index.len()
        invariant
            i <= index@.len(),
            total == sizes(index@.subrange(0, i as int)),
        decreases index@.len() - i,
    {
        proof {
            assert(index@.subrange(0, i + 1).drop_last() =~= index@.subrange(0, i as int));
            assert(index@.subrange(0, i + 1).last() == index@[i as int]);
            lemma_sizes_bound(index@.subrange(0, i + 1));
            assert((i + 1) * usize::MAX <= 0xFFFF_FFFF_FFFF_FFFF * 0xFFFF_FFFF_FFFF_FFFF)
                by (nonlinear_arith)
                requires
                    0 <= i + 1 <= 0xFFFF_FFFF_FFFF_FFFF,
                    0 <= usize::MAX <= 0xFFFF_FFFF_FFFF_FFFF,
            ;
        }
        total = total + index[i].size as u128;
        i += 1;
    }
    assert(index@.subrange(0, index@.len() as int) =~= index@);
    total
}

} // verus!
