//! Bookkeeping of the wallpaper worker: what a prepared wallpaper may cost
//! and the least-recently-used cache of native-sized pixels. Decoding,
//! scaling and the worker thread belong to the platform layer.
use crate::cache::share;
use std::sync::Arc;
use vstd::prelude::*;

verus! {

/// Bytes of pixels the cache may hold.
pub const CACHE_BYTES: usize = 128 * 1024 * 1024;

/// Bytes of pixels one prepared wallpaper may take.
pub const MAX_PREPARED_BYTES: usize = 256 * 1024 * 1024;

/// Largest screen side, in pixels.
pub const MAX_SCREEN_SIDE: u32 = 16384;

/// A wallpaper request: the image file, as its encoded path bytes, its size
/// and modification time, and the sizes of the screens to fill.
#[derive(Clone, Debug, PartialEq, Eq)]
pub struct Key {
    pub path: Vec<u8>,
    pub size: u64,
    pub modified: u128,
    pub screens: Vec<(u32, u32)>,
}

#[derive(Debug)]
pub struct Frame {
    pub width: u32,
    pub height: u32,
    pub pixels: Vec<u8>,
}

/// One frame per screen (identical screen sizes share a frame) and the
/// bytes of the distinct frames.
#[derive(Debug)]
pub struct Prepared {
    pub frames: Vec<Arc<Frame>>,
    pub bytes: usize,
}

pub open spec fn same_key(a: Key, b: Key) -> bool {
    a.path@ == b.path@ && a.size == b.size && a.modified == b.modified && a.screens@ == b.screens@
}

fn same_bytes(a: &Vec<u8>, b: &Vec<u8>) -> (r: bool)
    ensures
        r == (a@ == b@),
{
    if a.len() != b.len() {
        return false;
    }
    let mut i: usize = 0;
    while i < a.len()
        invariant
            a@.len() == b@.len(),
            i <= a@.len(),
            forall|j: int| 0 <= j < i ==> a@[j] == b@[j],
        decreases a@.len() - i,
    {
        if a[i] != b[i] {
            return false;
        }
        i += 1;
    }
    assert(a@ =~= b@);
    true
}

fn same_screens(a: &Vec<(u32, u32)>, b: &Vec<(u32, u32)>) -> (r: bool)
    ensures
        r == (a@ == b@),
{
    if a.len() != b.len() {
        return false;
    }
    let mut i: usize = 0;
    while i < a.len()
        invariant
            a@.len() == b@.len(),
            i <= a@.len(),
            forall|j: int| 0 <= j < i ==> a@[j] == b@[j],
        decreases a@.len() - i,
    {
        if a[i].0 != b[i].0 || a[i].1 != b[i].1 {
            return false;
        }
        i += 1;
    }
    assert(a@ =~= b@);
    true
}

impl Key {
    /// Whether both keys name the same file version for the same screens.
    pub fn same(&self, other: &Key) -> (r: bool)
        ensures
            r == same_key(*self, *other),
    {
        same_bytes(&self.path, &other.path) && self.size == other.size && self.modified == other.modified
            && same_screens(&self.screens, &other.screens)
    }
}

/// Whether screen `i` repeats the size of an earlier screen.
pub open spec fn repeated(screens: Seq<(u32, u32)>, i: int) -> bool {
    exists|j: int| 0 <= j < i && screens[j] == screens[i]
}

/// Why the first `n` screens cannot be prepared (`true`: a side over the
/// limit; `false`: an empty side or too many bytes), or the bytes of the
/// distinct sizes among them.
pub open spec fn budget_after(screens: Seq<(u32, u32)>, n: int) -> Result<int, bool>
    decreases n,
{
    if n <= 0 {
        Ok(0)
    } else {
        match budget_after(screens, n - 1) {
            Err(side) => Err(side),
            Ok(bytes) => {
                let (w, h) = screens[n - 1];
                if w > MAX_SCREEN_SIDE || h > MAX_SCREEN_SIDE {
                    Err(true)
                } else if repeated(screens, n - 1) {
                    Ok(bytes)
                } else if w == 0 || h == 0 || bytes + w * h * 4 > MAX_PREPARED_BYTES {
                    Err(false)
                } else {
                    Ok(bytes + w * h * 4)
                }
            },
        }
    }
}

/// Bytes of the frames for `screens`: one per distinct size, four bytes a
/// pixel. Refused without screens, for a side over 16384 pixels, an empty
/// side, or more than 256 MiB in all.
pub fn budget(screens: &[(u32, u32)]) -> (r: Result<usize, String>)
    ensures
        screens@.len() == 0 ==> (r matches Err(e) && e@ == "wallpaper request superseded or has no screens"@),
        screens@.len() > 0 ==> match (r, budget_after(screens@, screens@.len() as int)) {
            (Ok(b), Ok(c)) => b == c,
            (Err(e), Err(side)) => e@ == (if side { "wallpaper screen dimension exceeds 16384"@ } else { "wallpaper display buffers exceed 256 MiB"@ }),
            _ => false,
        },
{
    if screens.len() == 0 {
        return Err("wallpaper request superseded or has no screens".to_owned());
    }
    let mut bytes: u64 = 0;
    let mut i: usize = 0;
    while i < screens.len()
        invariant
            i <= screens@.len(),
            budget_after(screens@, i as int) == Ok::<int, bool>(bytes as int),
            bytes <= MAX_PREPARED_BYTES,
        decreases screens@.len() - i,
    {
        let (width, height) = screens[i];
        if width > MAX_SCREEN_SIDE || height > MAX_SCREEN_SIDE {
            proof {
                lemma_budget_error_sticks(screens@, i as int + 1, screens@.len() as int);
            }
            return Err("wallpaper screen dimension exceeds 16384".to_owned());
        }
        let mut j: usize = 0;
        while j < i && !(screens[j].0 == width && screens[j].1 == height)
            invariant
                j <= i,
                i < screens@.len(),
                screens@[i as int] == (width, height),
                forall|k: int| 0 <= k < j ==> screens@[k] != screens@[i as int],
            decreases i - j,
        {
            j += 1;
        }
        if j == i {
            assert(!repeated(screens@, i as int));
            assert(width as u64 * height as u64 <= 16384 * 16384) by (nonlinear_arith)
                requires
                    width <= 16384,
                    height <= 16384,
            ;
            let size: u64 = width as u64 * height as u64 * 4;
            if width == 0 || height == 0 || size > MAX_PREPARED_BYTES as u64 || bytes + size > MAX_PREPARED_BYTES as u64 {
                proof {
                    lemma_budget_error_sticks(screens@, i as int + 1, screens@.len() as int);
                }
                return Err("wallpaper display buffers exceed 256 MiB".to_owned());
            }
            bytes = bytes + size;
        } else {
            assert(screens@[j as int] == screens@[i as int]);
            assert(repeated(screens@, i as int));
        }
        i += 1;
    }
    Ok(bytes as usize)
}

proof fn lemma_budget_error_sticks(screens: Seq<(u32, u32)>, from: int, to: int)
    requires
        0 <= from <= to,
        budget_after(screens, from) is Err,
    ensures
        budget_after(screens, to) == budget_after(screens, from),
    decreases to - from,
{
    if from < to {
        lemma_budget_error_sticks(screens, from, to - 1);
    }
}

/// Total bytes of cached entries.
pub open spec fn total(entries: Seq<(Key, Arc<Prepared>)>) -> int
    decreases entries.len(),
{
    if entries.len() == 0 { 0 } else { total(entries.drop_last()) + entries.last().1.bytes }
}

/// Entries of other files than `path`, in order.
pub open spec fn other_files(entries: Seq<(Key, Arc<Prepared>)>, path: Seq<u8>) -> Seq<(Key, Arc<Prepared>)>
    decreases entries.len(),
{
    if entries.len() == 0 {
        Seq::empty()
    } else {
        let before = other_files(entries.drop_last(), path);
        if entries.last().0.path@ == path { before } else { before.push(entries.last()) }
    }
}

/// Entries left after evicting from the oldest end until `bytes` more fit.
pub open spec fn evict(entries: Seq<(Key, Arc<Prepared>)>, bytes: int, limit: int) -> Seq<(Key, Arc<Prepared>)>
    decreases entries.len(),
{
    if entries.len() > 0 && total(entries) + bytes > limit { evict(entries.drop_first(), bytes, limit) } else { entries }
}

/// Index of the first entry for `key`, the entry count when there is none.
pub open spec fn find_entry(entries: Seq<(Key, Arc<Prepared>)>, key: Key) -> int
    decreases entries.len(),
{
    if entries.len() == 0 {
        0
    } else if same_key(entries[0].0, key) {
        0
    } else {
        1 + find_entry(entries.drop_first(), key)
    }
}

proof fn lemma_total_nonneg(entries: Seq<(Key, Arc<Prepared>)>)
    ensures
        total(entries) >= 0,
    decreases entries.len(),
{
    if entries.len() > 0 {
        lemma_total_nonneg(entries.drop_last());
    }
}

proof fn lemma_total_drop_first(entries: Seq<(Key, Arc<Prepared>)>)
    requires
        entries.len() > 0,
    ensures
        total(entries) == entries[0].1.bytes + total(entries.drop_first()),
    decreases entries.len(),
{
    if entries.len() > 1 {
        lemma_total_drop_first(entries.drop_last());
        assert(entries.drop_last().drop_first() =~= entries.drop_first().drop_last());
        assert(entries.drop_first().last() == entries.last());
        assert(entries.drop_last()[0] == entries[0]);
    } else {
        assert(entries.drop_first().len() == 0);
        assert(entries.drop_last().len() == 0);
        assert(total(entries.drop_last()) == 0);
    }
}

proof fn lemma_total_remove(entries: Seq<(Key, Arc<Prepared>)>, i: int)
    requires
        0 <= i < entries.len(),
    ensures
        total(entries) == entries[i].1.bytes + total(entries.remove(i)),
    decreases entries.len(),
{
    if i == entries.len() - 1 {
        assert(entries.remove(i) =~= entries.drop_last());
    } else {
        lemma_total_remove(entries.drop_last(), i);
        assert(entries.remove(i).drop_last() =~= entries.drop_last().remove(i));
        assert(entries.remove(i).last() == entries.last());
    }
}

proof fn lemma_find_entry(entries: Seq<(Key, Arc<Prepared>)>, key: Key, i: int)
    requires
        0 <= i <= entries.len(),
        forall|j: int| 0 <= j < i ==> !same_key(entries[j].0, key),
        i == entries.len() || same_key(entries[i].0, key),
    ensures
        find_entry(entries, key) == i,
    decreases i,
{
    if i > 0 {
        assert forall|j: int| 0 <= j < i - 1 implies !same_key(entries.drop_first()[j].0, key) by {
            assert(entries.drop_first()[j] == entries[j + 1]);
        }
        lemma_find_entry(entries.drop_first(), key, i - 1);
    }
}

/// Prepared wallpapers, least recently used first.
pub struct Cache {
    entries: Vec<(Key, Arc<Prepared>)>,
    bytes: usize,
    limit: usize,
}

impl Cache {
    /// The recorded size is the total of the entries and within the limit.
    pub closed spec fn well_formed(&self) -> bool {
        &&& self.bytes == total(self.entries@)
        &&& self.bytes <= self.limit
    }

    pub closed spec fn entries(&self) -> Seq<(Key, Arc<Prepared>)> {
        self.entries@
    }

    pub closed spec fn limit(&self) -> int {
        self.limit as int
    }

    /// An empty cache holding at most `limit` bytes.
    pub fn new(limit: usize) -> (c: Self)
        ensures
            c.well_formed(),
            c.entries() == Seq::<(Key, Arc<Prepared>)>::empty(),
            c.limit() == limit,
    {
        Cache { entries: Vec::new(), bytes: 0, limit }
    }

    /// Bytes held; never more than the limit.
    pub fn bytes(&self) -> (b: usize)
        requires
            self.well_formed(),
        ensures
            b == total(self.entries()),
            b <= self.limit(),
    {
        self.bytes
    }

    /// The pixels cached for `key`, which become the most recently used.
    pub fn get(&mut self, key: &Key) -> (r: Option<Arc<Prepared>>)
        requires
            old(self).well_formed(),
        ensures
            final(self).well_formed(),
            final(self).limit() == old(self).limit(),
            ({
                let i = find_entry(old(self).entries(), *key);
                if i < old(self).entries().len() {
                    &&& r == Some(old(self).entries()[i].1)
                    &&& final(self).entries() == old(self).entries().remove(i).push(old(self).entries()[i])
                } else {
                    &&& r is None
                    &&& final(self).entries() == old(self).entries()
                }
            }),
    {
        let mut i: usize = 0;
        while i < self.entries.len() && !self.entries[i].0.same(key)
            invariant
                i <= self.entries@.len(),
                forall|j: int| 0 <= j < i ==> !same_key(self.entries@[j].0, *key),
            decreases self.entries@.len() - i,
        {
            i += 1;
        }
        proof {
            lemma_find_entry(self.entries@, *key, i as int);
        }
        if i == self.entries.len() {
            return None;
        }
        let ghost before = self.entries@;
        let mut entries: Vec<(Key, Arc<Prepared>)> = Vec::new();
        std::mem::swap(&mut entries, &mut self.entries);
        let entry = entries.remove(i);
        let pixels = share(&entry.1);
        entries.push(entry);
        proof {
            lemma_total_remove(before, i as int);
            assert(entries@.drop_last() =~= before.remove(i as int));
        }
        self.entries = entries;
        Some(pixels)
    }

    /// Caches `pixels` for `key` as the most recently used: other versions
    /// and sizes of the same file are dropped first, then the oldest entries
    /// until it fits. Pixels larger than the whole cache are not kept.
    pub fn insert(&mut self, key: Key, pixels: Arc<Prepared>)
        requires
            old(self).well_formed(),
        ensures
            final(self).well_formed(),
            final(self).limit() == old(self).limit(),
            pixels.bytes > old(self).limit() ==> final(self).entries() == old(self).entries(),
            pixels.bytes <= old(self).limit() ==> final(self).entries() == evict(
                other_files(old(self).entries(), key.path@), pixels.bytes as int, old(self).limit()).push((key, pixels)),
    {
        let size = pixels.bytes;
        if size > self.limit {
            return;
        }
        let mut entries: Vec<(Key, Arc<Prepared>)> = Vec::new();
        std::mem::swap(&mut entries, &mut self.entries);
        let ghost start = entries@;
        // Other versions and sizes of the same file go first.
        let mut all = entries;
        let mut kept: Vec<(Key, Arc<Prepared>)> = Vec::new();
        let mut held: usize = 0;
        proof {
            assert(start.skip(0) =~= start);
            assert(start.take(0) =~= Seq::<(Key, Arc<Prepared>)>::empty());
            lemma_total_nonneg(start);
        }
        while all.len() > 0
            invariant
                total(start) <= self.limit,
                all@.len() <= start.len(),
                all@ == start.skip(start.len() - all@.len()),
                kept@ == other_files(start.take(start.len() - all@.len()), key.path@),
                held == total(kept@),
                total(kept@) + total(all@) <= total(start),
            decreases all@.len(),
        {
            let ghost k = start.len() - all@.len();
            let ghost before = all@;
            let entry = all.remove(0);
            proof {
                lemma_total_drop_first(before);
                lemma_total_nonneg(all@);
                assert(all@ =~= before.drop_first());
                assert(all@ =~= start.skip(k + 1));
                assert(start.take(k + 1).drop_last() =~= start.take(k));
                assert(start.take(k + 1).last() == entry);
            }
            if !same_bytes(&entry.0.path, &key.path) {
                let ghost previous = kept@;
                held = held + entry.1.bytes;
                kept.push(entry);
                assert(kept@.drop_last() =~= previous);
            }
        }
        assert(start.take(start.len() as int) =~= start);
        // Then the oldest entries until the new pixels fit.
        let ghost filtered = kept@;
        while kept.len() > 0 && held > self.limit - size
            invariant
                held == total(kept@),
                held <= self.limit,
                size <= self.limit,
                evict(filtered, size as int, self.limit as int) == evict(kept@, size as int, self.limit as int),
            decreases kept@.len(),
        {
            let ghost before = kept@;
            let entry = kept.remove(0);
            proof {
                lemma_total_drop_first(before);
                lemma_total_nonneg(kept@);
                assert(kept@ =~= before.drop_first());
            }
            held = held - entry.1.bytes;
        }
        proof {
            lemma_total_nonneg(kept@);
        }
        kept.push((key, pixels));
        proof {
            assert(kept@.drop_last() =~= evict(filtered, size as int, self.limit as int));
        }
        held = held + size;
        self.entries = kept;
        self.bytes = held;
    }
}

proof fn lemma_other_files(entries: Seq<(Key, Arc<Prepared>)>, path: Seq<u8>)
    ensures
        forall|i: int| 0 <= i < other_files(entries, path).len() ==> (#[trigger] other_files(entries, path)[i]).0.path@ != path,
    decreases entries.len(),
{
    if entries.len() > 0 {
        lemma_other_files(entries.drop_last(), path);
        let before = other_files(entries.drop_last(), path);
        assert forall|i: int| 0 <= i < other_files(entries, path).len() implies (#[trigger] other_files(entries, path)[i]).0.path@ != path by {
            if i < before.len() {
                assert(other_files(entries, path)[i] == before[i]);
            }
        }
    }
}

proof fn lemma_evict_keeps_paths(entries: Seq<(Key, Arc<Prepared>)>, bytes: int, limit: int, path: Seq<u8>)
    requires
        forall|i: int| 0 <= i < entries.len() ==> (#[trigger] entries[i]).0.path@ != path,
    ensures
        forall|i: int| 0 <= i < evict(entries, bytes, limit).len() ==> (#[trigger] evict(entries, bytes, limit)[i]).0.path@ != path,
    decreases entries.len(),
{
    if entries.len() > 0 && total(entries) + bytes > limit {
        assert forall|i: int| 0 <= i < entries.drop_first().len() implies (#[trigger] entries.drop_first()[i]).0.path@ != path by {
            assert(entries.drop_first()[i] == entries[i + 1]);
        }
        lemma_evict_keeps_paths(entries.drop_first(), bytes, limit, path);
        assert(evict(entries, bytes, limit) == evict(entries.drop_first(), bytes, limit));
    } else {
        assert(evict(entries, bytes, limit) == entries);
    }
}

/// What a read gives back of a write: right after `insert` of pixels that
/// fit, `get` with the same key finds exactly those pixels.
pub proof fn inserted_pixels_are_found(entries: Seq<(Key, Arc<Prepared>)>, key: Key, pixels: Arc<Prepared>, limit: int)
    ensures
        ({
            let after = evict(other_files(entries, key.path@), pixels.bytes as int, limit).push((key, pixels));
            &&& find_entry(after, key) == after.len() - 1
            &&& after[find_entry(after, key)].1 == pixels
        }),
{
    let kept = evict(other_files(entries, key.path@), pixels.bytes as int, limit);
    let after = kept.push((key, pixels));
    lemma_other_files(entries, key.path@);
    lemma_evict_keeps_paths(other_files(entries, key.path@), pixels.bytes as int, limit, key.path@);
    assert forall|j: int| 0 <= j < kept.len() implies !same_key(after[j].0, key) by {
        assert(after[j] == kept[j]);
    }
    lemma_find_entry(after, key, kept.len() as int);
}

impl Key {
    /// A copy of the key.
    pub fn duplicate(&self) -> (r: Key)
        ensures
            same_key(r, *self),
    {
        let path = self.path.clone();
        assert(path@ =~= self.path@);
        let mut screens: Vec<(u32, u32)> = Vec::new();
        let mut i: usize = 0;
        while i < self.screens.len()
            invariant
                i <= self.screens@.len(),
                screens@ == self.screens@.take(i as int),
            decreases self.screens@.len() - i,
        {
            screens.push(self.screens[i]);
            assert(screens@ =~= self.screens@.take(i + 1));
            i += 1;
        }
        assert(screens@ =~= self.screens@);
        Key { path, size: self.size, modified: self.modified, screens }
    }
}

/// A request for the worker: the wallpaper, the generation it was asked in,
/// and whether the interface waits for it (a prefetch does not).
pub struct Job {
    pub key: Key,
    pub generation: u64,
    pub foreground: bool,
}

/// What the worker does next.
pub enum Next {
    /// Nothing is pending: wait for a request.
    Wait,
    /// The loader is gone.
    Stop,
    /// Prepare `job`, unless the cache already holds its pixels.
    Run(Job, Option<Arc<Prepared>>),
}

/// The generation after a new request or a cancellation.
pub open spec fn next_generation(g: u64) -> u64 {
    if g == u64::MAX { 0 } else { (g + 1) as u64 }
}

/// The latest-request slot shared by the interface and the worker: at most
/// one pending job, the completion of the current foreground request, and
/// the cache of prepared pixels. The lock, the wake-ups and the worker
/// thread belong to the platform layer.
pub struct Slot {
    generation: u64,
    pending: Option<Job>,
    result: Option<(Key, Result<Arc<Prepared>, String>)>,
    closed: bool,
    cache: Cache,
}

impl Slot {
    pub closed spec fn well_formed(&self) -> bool {
        self.cache.well_formed()
    }

    pub closed spec fn generation(&self) -> u64 {
        self.generation
    }

    pub closed spec fn pending(&self) -> Option<Job> {
        self.pending
    }

    pub closed spec fn result(&self) -> Option<(Key, Result<Arc<Prepared>, String>)> {
        self.result
    }

    pub closed spec fn is_closed(&self) -> bool {
        self.closed
    }

    pub closed spec fn cached(&self) -> Seq<(Key, Arc<Prepared>)> {
        self.cache.entries()
    }

    pub closed spec fn limit(&self) -> int {
        self.cache.limit()
    }

    /// Nothing requested yet, and an empty cache of at most `limit` bytes.
    pub fn new(limit: usize) -> (s: Self)
        ensures
            s.well_formed(),
            s.generation() == 0,
            s.pending() is None,
            s.result() is None,
            !s.is_closed(),
            s.cached() == Seq::<(Key, Arc<Prepared>)>::empty(),
            s.limit() == limit,
    {
        Slot { generation: 0, pending: None, result: None, closed: false, cache: Cache::new(limit) }
    }

    /// A new foreground request replaces whatever was queued and forgets an
    /// unread completion. A cache hit comes back at once and queues nothing;
    /// otherwise the request is queued for the worker.
    pub fn request(&mut self, key: Key) -> (r: Option<Arc<Prepared>>)
        requires
            old(self).well_formed(),
        ensures
            final(self).well_formed(),
            final(self).generation() == next_generation(old(self).generation()),
            final(self).result() is None,
            final(self).is_closed() == old(self).is_closed(),
            final(self).limit() == old(self).limit(),
            ({
                let i = find_entry(old(self).cached(), key);
                if i < old(self).cached().len() {
                    &&& r == Some(old(self).cached()[i].1)
                    &&& final(self).cached() == old(self).cached().remove(i).push(old(self).cached()[i])
                    &&& final(self).pending() is None
                } else {
                    &&& r is None
                    &&& final(self).cached() == old(self).cached()
                    &&& final(self).pending() == Some(Job { key, generation: next_generation(old(self).generation()), foreground: true })
                }
            }),
    {
        self.generation = self.generation.wrapping_add(1);
        self.result = None;
        self.pending = None;
        let pixels = self.cache.get(&key);
        if pixels.is_none() {
            self.pending = Some(Job { key, generation: self.generation, foreground: true });
        }
        pixels
    }

    /// Drops the queued request and an unread completion; work in flight
    /// can no longer publish.
    pub fn cancel(&mut self)
        ensures
            final(self).generation() == next_generation(old(self).generation()),
            final(self).pending() is None,
            final(self).result() is None,
            final(self).is_closed() == old(self).is_closed(),
            final(self).cached() == old(self).cached(),
            final(self).limit() == old(self).limit(),
            final(self).well_formed() == old(self).well_formed(),
    {
        self.generation = self.generation.wrapping_add(1);
        self.pending = None;
        self.result = None;
    }

    /// Queues `key` in the background when nothing else is queued and the
    /// cache lacks it; it never supersedes foreground work nor publishes.
    pub fn prefetch(&mut self, key: Key) -> (queued: bool)
        requires
            old(self).well_formed(),
        ensures
            final(self).well_formed(),
            final(self).generation() == old(self).generation(),
            final(self).result() == old(self).result(),
            final(self).is_closed() == old(self).is_closed(),
            final(self).limit() == old(self).limit(),
            old(self).pending() is Some ==> !queued && final(self).pending() == old(self).pending() && final(self).cached() == old(self).cached(),
            old(self).pending() is None ==> ({
                let i = find_entry(old(self).cached(), key);
                if i < old(self).cached().len() {
                    &&& !queued
                    &&& final(self).pending() is None
                    &&& final(self).cached() == old(self).cached().remove(i).push(old(self).cached()[i])
                } else {
                    &&& queued
                    &&& final(self).pending() == Some(Job { key, generation: old(self).generation(), foreground: false })
                    &&& final(self).cached() == old(self).cached()
                }
            }),
    {
        if self.pending.is_some() {
            return false;
        }
        if self.cache.get(&key).is_some() {
            return false;
        }
        self.pending = Some(Job { key, generation: self.generation, foreground: false });
        true
    }

    /// The completion of the current foreground request, once.
    pub fn take_result(&mut self) -> (r: Option<(Key, Result<Arc<Prepared>, String>)>)
        ensures
            r == old(self).result(),
            final(self).result() is None,
            final(self).generation() == old(self).generation(),
            final(self).pending() == old(self).pending(),
            final(self).is_closed() == old(self).is_closed(),
            final(self).cached() == old(self).cached(),
            final(self).limit() == old(self).limit(),
            final(self).well_formed() == old(self).well_formed(),
    {
        self.result.take()
    }

    /// The worker's next step: stop once closed, wait while nothing is
    /// pending, else take the pending job with the cached pixels, if any.
    pub fn next_job(&mut self) -> (n: Next)
        requires
            old(self).well_formed(),
        ensures
            final(self).well_formed(),
            final(self).generation() == old(self).generation(),
            final(self).result() == old(self).result(),
            final(self).is_closed() == old(self).is_closed(),
            final(self).limit() == old(self).limit(),
            old(self).is_closed() ==> n is Stop && final(self).pending() == old(self).pending() && final(self).cached() == old(self).cached(),
            !old(self).is_closed() && old(self).pending() is None ==> n is Wait && final(self).pending() is None && final(self).cached() == old(self).cached(),
            !old(self).is_closed() && old(self).pending() is Some ==> ({
                let job = old(self).pending()->0;
                let i = find_entry(old(self).cached(), job.key);
                &&& final(self).pending() is None
                &&& n is Run
                &&& n->0 == job
                &&& (i < old(self).cached().len() ==> {
                    &&& n->1 == Some(old(self).cached()[i].1)
                    &&& final(self).cached() == old(self).cached().remove(i).push(old(self).cached()[i])
                })
                &&& (i == old(self).cached().len() ==> n->1 is None && final(self).cached() == old(self).cached())
            }),
    {
        if self.closed {
            return Next::Stop;
        }
        match self.pending.take() {
            None => Next::Wait,
            Some(job) => {
                let cached = self.cache.get(&job.key);
                Next::Run(job, cached)
            },
        }
    }

    /// Whether `job` is no longer worth finishing: the loader is closed, or a
    /// newer request came that is not for the same wallpaper.
    pub fn cancelled(&self, job: &Job) -> (r: bool)
        ensures
            r == (self.is_closed() || (self.generation() != job.generation
                && !(self.pending() matches Some(p) && same_key(p.key, job.key)))),
    {
        if self.closed {
            return true;
        }
        if self.generation == job.generation {
            return false;
        }
        match &self.pending {
            Some(p) => !p.key.same(&job.key),
            None => true,
        }
    }

    /// Records the outcome of `job`: prepared pixels go to the cache, and the
    /// completion is published only for the current foreground request.
    /// `false` once the loader is closed, when the worker stops.
    pub fn finish(&mut self, job: Job, result: Result<Arc<Prepared>, String>) -> (go_on: bool)
        requires
            old(self).well_formed(),
        ensures
            final(self).well_formed(),
            go_on == !old(self).is_closed(),
            final(self).generation() == old(self).generation(),
            final(self).pending() == old(self).pending(),
            final(self).is_closed() == old(self).is_closed(),
            final(self).limit() == old(self).limit(),
            old(self).is_closed() ==> final(self).cached() == old(self).cached() && final(self).result() == old(self).result(),
            !old(self).is_closed() ==> ({
                &&& (result matches Ok(pixels) ==> (exists|k: Key| same_key(k, job.key) && {
                    let c = old(self).cached();
                    &&& (pixels.bytes > old(self).limit() ==> final(self).cached() == c)
                    &&& (pixels.bytes <= old(self).limit() ==> final(self).cached()
                        == evict(other_files(c, k.path@), pixels.bytes as int, old(self).limit()).push((k, pixels)))
                }))
                &&& (result is Err ==> final(self).cached() == old(self).cached())
                &&& (job.foreground && job.generation == old(self).generation() ==> final(self).result() == Some((job.key, result)))
                &&& (!(job.foreground && job.generation == old(self).generation()) ==> final(self).result() == old(self).result())
            }),
    {
        if self.closed {
            return false;
        }
        if let Ok(pixels) = &result {
            let k = job.key.duplicate();
            let ghost kg = k;
            self.cache.insert(k, share(pixels));
            assert(same_key(kg, job.key));
        }
        if job.foreground && job.generation == self.generation {
            self.result = Some((job.key, result));
        }
        true
    }

    /// The loader is dropped: the worker stops, and nothing stays queued.
    pub fn close(&mut self)
        ensures
            final(self).is_closed(),
            final(self).pending() is None,
            final(self).generation() == old(self).generation(),
            final(self).result() == old(self).result(),
            final(self).cached() == old(self).cached(),
            final(self).limit() == old(self).limit(),
            final(self).well_formed() == old(self).well_formed(),
    {
        self.closed = true;
        self.pending = None;
    }
}

/// Superseded work never publishes: after a new request or a cancellation,
/// a job of the earlier generation is not current any more.
pub proof fn superseded_jobs_never_publish(generation: u64)
    ensures
        next_generation(generation) != generation,
{
}

} // verus!

