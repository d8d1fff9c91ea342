//! Least-recently-used cache of preview textures, bounded by a count that is
//! derived from a video-memory budget. Textures painted in the current or the
//! previous frame are pinned and never evicted.
use vstd::prelude::*;

verus! {

/// Video-memory budget for cached previews (64 MiB).
pub const TEXTURE_VRAM_BUDGET: usize = 67108864;

/// Preview size used before the first insert.
pub const DEFAULT_PREVIEW_SIZE: u32 = 128;

/// Edge of a preview texture: twice the preview size, at least 256.
pub open spec fn spec_preview_max_dimension(preview_size: int) -> int {
    if 2 * preview_size >= 256 {
        2 * preview_size
    } else {
        256
    }
}

/// Bytes of an RGBA8 texture whose edge is `max_dim`.
pub open spec fn spec_texture_bytes(max_dim: int) -> int {
    max_dim * max_dim * 4
}

/// How many previews of the given size fit in the budget, at least 16.
pub open spec fn spec_max_textures_for_preview(preview_size: int) -> int {
    let bytes = spec_texture_bytes(spec_preview_max_dimension(preview_size));
    let count = TEXTURE_VRAM_BUDGET as int / (if bytes >= 1 { bytes } else { 1 });
    if count >= 16 {
        count
    } else {
        16
    }
}

/// Preview texture max edge: 2x size, floored at 256.
pub fn preview_max_dimension(preview_size: u32) -> (r: u32)
    requires
        2 * preview_size <= u32::MAX,
    ensures
        r == spec_preview_max_dimension(preview_size as int),
{
    let doubled = preview_size * 2;
    if doubled >= 256 {
        doubled
    } else {
        256
    }
}

/// RGBA8 bytes for a texture of the given edge.
pub fn texture_bytes(max_dim: u32) -> (r: usize)
    requires
        spec_texture_bytes(max_dim as int) <= usize::MAX,
    ensures
        r == spec_texture_bytes(max_dim as int),
{
    let d = max_dim as usize;
    assert(d * d <= d * d * 4) by (nonlinear_arith);
    assert(0 <= d * d) by (nonlinear_arith);
    d * d * 4
}

/// Max cached previews for a preview size, floored at 16.
pub fn max_textures_for_preview(preview_size: u32) -> (r: usize)
    requires
        2 * preview_size <= u32::MAX,
        spec_texture_bytes(spec_preview_max_dimension(preview_size as int)) <= usize::MAX,
    ensures
        r == spec_max_textures_for_preview(preview_size as int),
{
    let bytes = texture_bytes(preview_max_dimension(preview_size));
    let divisor = if bytes >= 1 {
        bytes
    } else {
        1
    };
    let count = TEXTURE_VRAM_BUDGET / divisor;
    if count >= 16 {
        count
    } else {
        16
    }
}

/// What a cache holds, as mathematical values: its entries from least to
/// most recently used, its count limit, and the ids painted in the current
/// and in the previous frame.
pub struct CacheView<T> {
    pub entries: Seq<(Seq<char>, T)>,
    pub max_count: nat,
    pub pinned: Set<Seq<char>>,
    pub pinned_prev: Set<Seq<char>>,
}

/// The ids of a sequence of entries, in order.
pub open spec fn entry_ids<T>(entries: Seq<(Seq<char>, T)>) -> Seq<Seq<char>> {
    entries.map_values(|e: (Seq<char>, T)| e.0)
}

/// No id occurs twice.
pub open spec fn ids_distinct<T>(entries: Seq<(Seq<char>, T)>) -> bool {
    forall|i: int, j: int|
        0 <= i < entries.len() && 0 <= j < entries.len() && i != j ==> #[trigger] entries[i].0
            != #[trigger] entries[j].0
}

/// Index of the entry with the given id, if any.
pub open spec fn index_of_id<T>(entries: Seq<(Seq<char>, T)>, id: Seq<char>) -> Option<int> {
    if exists|i: int| 0 <= i < entries.len() && entries[i].0 == id {
        Some(choose|i: int| 0 <= i < entries.len() && entries[i].0 == id)
    } else {
        None
    }
}

/// The entries without the one whose id is `id`.
pub open spec fn without_id<T>(entries: Seq<(Seq<char>, T)>, id: Seq<char>) -> Seq<(Seq<char>, T)> {
    match index_of_id(entries, id) {
        Some(i) => entries.remove(i),
        None => entries,
    }
}

/// Index of the least recently used entry, from `start` on, whose id is not in `pins`.
pub open spec fn first_unpinned_from<T>(
    entries: Seq<(Seq<char>, T)>,
    pins: Set<Seq<char>>,
    start: int,
) -> Option<int>
    decreases entries.len() - start,
{
    if start < 0 || start >= entries.len() {
        None
    } else if !pins.contains(entries[start].0) {
        Some(start)
    } else {
        first_unpinned_from(entries, pins, start + 1)
    }
}

/// Drops least recently used unpinned entries while there are more than `max`.
pub open spec fn evict<T>(entries: Seq<(Seq<char>, T)>, pins: Set<Seq<char>>, max: nat) -> Seq<
    (Seq<char>, T),
>
    decreases entries.len(),
{
    if entries.len() <= max {
        entries
    } else {
        match first_unpinned_from(entries, pins, 0) {
            Some(k) => if 0 <= k < entries.len() {
                evict(entries.remove(k), pins, max)
            } else {
                entries
            },
            None => entries,
        }
    }
}

/// The index `first_unpinned_from` gives is in range, unpinned, and every
/// entry between `start` and it is pinned.
pub proof fn lemma_first_unpinned_from<T>(entries: Seq<(Seq<char>, T)>, pins: Set<Seq<char>>, start: int)
    requires
        0 <= start,
    ensures
        match first_unpinned_from(entries, pins, start) {
            Some(k) => start <= k < entries.len() && !pins.contains(entries[k].0) && forall|j: int|
                start <= j < k ==> pins.contains(#[trigger] entries[j].0),
            None => forall|j: int| start <= j < entries.len() ==> pins.contains(#[trigger] entries[j].0),
        },
    decreases entries.len() - start,
{
    if start < entries.len() && pins.contains(entries[start].0) {
        lemma_first_unpinned_from(entries, pins, start + 1);
    }
}

/// Pushing a string adds its view to the set.
proof fn lemma_string_set_push(v: Seq<String>, s: String)
    ensures
        string_set(v.push(s)) == string_set(v).insert(s@),
{
    let w = v.push(s);
    assert forall|x: Seq<char>| string_set(v).insert(s@).contains(x) implies string_set(w).contains(x) by {
        if x == s@ {
            assert(w[v.len() as int]@ == x);
        } else {
            let i = choose|i: int| 0 <= i < v.len() && v[i]@ == x;
            assert(w[i]@ == x);
        }
    }
    assert forall|x: Seq<char>| string_set(w).contains(x) implies string_set(v).insert(s@).contains(x) by {
        let i = choose|i: int| 0 <= i < w.len() && w[i]@ == x;
        if i < v.len() {
            assert(w[i] == v[i]);
        }
    }
    assert(string_set(w) =~= string_set(v).insert(s@));
}

/// Removing an entry keeps the ids distinct.
proof fn lemma_remove_distinct<T>(entries: Seq<(Seq<char>, T)>, k: int)
    requires
        ids_distinct(entries),
        0 <= k < entries.len(),
    ensures
        ids_distinct(entries.remove(k)),
        forall|j: int| 0 <= j < entries.remove(k).len() ==> #[trigger] entries.remove(k)[j].0 != entries[k].0,
{
    let r = entries.remove(k);
    assert forall|i: int, j: int| 0 <= i < r.len() && 0 <= j < r.len() && i != j implies #[trigger] r[i].0 != #[trigger] r[j].0 by {
        let ii = if i < k { i } else { i + 1 };
        let jj = if j < k { j } else { j + 1 };
        assert(r[i] == entries[ii]);
        assert(r[j] == entries[jj]);
    }
    assert forall|j: int| 0 <= j < r.len() implies #[trigger] r[j].0 != entries[k].0 by {
        let jj = if j < k { j } else { j + 1 };
        assert(r[j] == entries[jj]);
    }
}

/// Eviction keeps the ids distinct.
proof fn lemma_evict_distinct<T>(entries: Seq<(Seq<char>, T)>, pins: Set<Seq<char>>, max: nat)
    requires
        ids_distinct(entries),
    ensures
        ids_distinct(evict(entries, pins, max)),
    decreases entries.len(),
{
    if entries.len() > max {
        if let Some(k) = first_unpinned_from(entries, pins, 0) {
            if 0 <= k < entries.len() {
                lemma_remove_distinct(entries, k);
                lemma_evict_distinct(entries.remove(k), pins, max);
            }
        }
    }
}

/// Without the entry for `id`, the ids stay distinct and `id` is absent.
proof fn lemma_without_id<T>(entries: Seq<(Seq<char>, T)>, id: Seq<char>)
    requires
        ids_distinct(entries),
    ensures
        ids_distinct(without_id(entries, id)),
        forall|j: int| 0 <= j < without_id(entries, id).len() ==> #[trigger] without_id(entries, id)[j].0 != id,
{
    match index_of_id(entries, id) {
        Some(i) => {
            lemma_remove_distinct(entries, i);
        },
        None => {},
    }
}

impl<T> CacheView<T> {
    /// Painted this frame or the last one.
    pub open spec fn is_pinned(self, id: Seq<char>) -> bool {
        self.pinned.contains(id) || self.pinned_prev.contains(id)
    }

    pub open spec fn pins(self) -> Set<Seq<char>> {
        self.pinned.union(self.pinned_prev)
    }

    /// The cache after `id` is marked as painted this frame.
    pub open spec fn after_mark(self, id: Seq<char>) -> CacheView<T> {
        CacheView { pinned: self.pinned.insert(id), ..self }
    }

    /// The cache at the start of a new frame.
    pub open spec fn after_begin_frame(self) -> CacheView<T> {
        CacheView { pinned: Set::empty(), pinned_prev: self.pinned, ..self }
    }

    /// The cache with every texture and every pin dropped.
    pub open spec fn after_clear(self) -> CacheView<T> {
        CacheView { entries: Seq::empty(), pinned: Set::empty(), pinned_prev: Set::empty(), ..self }
    }

    /// The cache after the entry at `i` becomes the most recently used.
    pub open spec fn after_touch(self, i: int) -> CacheView<T> {
        CacheView { entries: self.entries.remove(i).push(self.entries[i]), ..self }
    }

    /// The cache after inserting `texture` under `id` with the limit `max_count`.
    pub open spec fn after_insert(self, id: Seq<char>, texture: T, max_count: nat) -> CacheView<T> {
        let pinned = self.pinned.insert(id);
        let entries = without_id(self.entries, id).push((id, texture));
        CacheView {
            entries: evict(entries, pinned.union(self.pinned_prev), max_count),
            max_count,
            pinned,
            pinned_prev: self.pinned_prev,
        }
    }
}

/// Cache of preview textures, keyed by asset id.
pub struct ImageCache<T> {
    entries: Vec<(String, T)>,
    max_count: usize,
    pinned: Vec<String>,
    pinned_prev: Vec<String>,
}

pub open spec fn string_set(v: Seq<String>) -> Set<Seq<char>> {
    Set::new(|id: Seq<char>| exists|i: int| 0 <= i < v.len() && v[i]@ == id)
}

impl<T> View for ImageCache<T> {
    type V = CacheView<T>;

    closed spec fn view(&self) -> CacheView<T> {
        CacheView {
            entries: self.entries@.map_values(|e: (String, T)| (e.0@, e.1)),
            max_count: self.max_count as nat,
            pinned: string_set(self.pinned@),
            pinned_prev: string_set(self.pinned_prev@),
        }
    }
}

fn contains_string(v: &Vec<String>, s: &String) -> (r: bool)
    ensures
        r == string_set(v@).contains(s@),
{
    let mut i: usize = 0;
    while i < v.len()
        invariant
            i <= v@.len(),
            forall|j: int| 0 <= j < i ==> v@[j]@ != s@,
        decreases v@.len() - i,
    {
        if v[i] == *s {
            assert(string_set(v@).contains(s@)) by {
                assert(v@[i as int]@ == s@);
            }
            return true;
        }
        i = i + 1;
    }
    false
}

impl<T> ImageCache<T> {
    /// Ids are distinct.
    pub open spec fn wf(&self) -> bool {
        ids_distinct(self@.entries)
    }

    /// An empty cache whose limit fits previews of the default size.
    pub fn new() -> (r: Self)
        ensures
            r.wf(),
            r@.entries.len() == 0,
            r@.max_count == spec_max_textures_for_preview(DEFAULT_PREVIEW_SIZE as int),
            r@.pinned.is_empty(),
            r@.pinned_prev.is_empty(),
    {
        assert(spec_texture_bytes(256) == 262144);
        let r = ImageCache {
            entries: Vec::new(),
            max_count: max_textures_for_preview(DEFAULT_PREVIEW_SIZE),
            pinned: Vec::new(),
            pinned_prev: Vec::new(),
        };
        assert(r@.pinned =~= Set::empty());
        assert(r@.pinned_prev =~= Set::empty());
        r
    }

    /// Position of the entry whose id is `id`.
    fn position(&self, id: &String) -> (r: Option<usize>)
        requires
            self.wf(),
        ensures
            r == match index_of_id(self@.entries, id@) {
                Some(i) => Some(i as usize),
                None => None::<usize>,
            },
            r matches Some(i) ==> i < self@.entries.len() && self@.entries[i as int].0 == id@,
    {
        let mut i: usize = 0;
        while i < self.entries.len()
            invariant
                i <= self.entries@.len(),
                self.wf(),
                forall|j: int| 0 <= j < i ==> self@.entries[j].0 != id@,
            decreases self.entries@.len() - i,
        {
            if self.entries[i].0 == *id {
                assert(self@.entries[i as int].0 == id@);
                let ghost k = choose|k: int| 0 <= k < self@.entries.len() && self@.entries[k].0 == id@;
                assert(k == i);
                return Some(i);
            }
            i = i + 1;
        }
        None
    }

    /// Index of the least recently used entry that is not pinned.
    fn first_unpinned(&self) -> (r: Option<usize>)
        ensures
            r == match first_unpinned_from(self@.entries, self@.pins(), 0) {
                Some(i) => Some(i as usize),
                None => None::<usize>,
            },
    {
        let mut i: usize = 0;
        while i < self.entries.len()
            invariant
                i <= self.entries@.len(),
                first_unpinned_from(self@.entries, self@.pins(), 0) == first_unpinned_from(
                    self@.entries,
                    self@.pins(),
                    i as int,
                ),
            decreases self.entries@.len() - i,
        {
            if !self.is_pinned(&self.entries[i].0) {
                return Some(i);
            }
            i = i + 1;
        }
        None
    }

    /// Look up a texture and make it the most recently used entry.
    pub fn get(&mut self, id: &str) -> (r: Option<T>)
        where
            T: Clone,
        requires
            old(self).wf(),
        ensures
            final(self).wf(),
            match index_of_id(old(self)@.entries, id@) {
                Some(i) => {
                    &&& r matches Some(t) && cloned(old(self)@.entries[i].1, t)
                    &&& final(self)@ == old(self)@.after_touch(i)
                },
                None => r is None && final(self)@ == old(self)@,
            },
    {
        let key = id.to_owned();
        match self.position(&key) {
            Some(p) => {
                let ghost before = self@.entries;
                proof {
                    lemma_remove_distinct(before, p as int);
                }
                let entry = self.entries.remove(p);
                let texture = entry.1.clone();
                self.entries.push(entry);
                assert(self@.entries =~= before.remove(p as int).push(before[p as int]));
                assert(self.wf()) by {
                    let e = self@.entries;
                    assert forall|i: int, j: int| 0 <= i < e.len() && 0 <= j < e.len() && i != j implies #[trigger] e[i].0 != #[trigger] e[j].0 by {
                        if i == e.len() - 1 || j == e.len() - 1 {
                        } else {
                            assert(e[i] == before.remove(p as int)[i]);
                            assert(e[j] == before.remove(p as int)[j]);
                        }
                    }
                }
                Some(texture)
            },
            None => None,
        }
    }

    /// Insert a texture, evicting the least recently used entries that are not
    /// displayed while there are more than `max_count`. Never drops painted
    /// textures; stops evicting when only displayed ones remain.
    pub fn insert(&mut self, id: String, texture: T, max_count: usize)
        requires
            old(self).wf(),
        ensures
            final(self).wf(),
            final(self)@ == old(self)@.after_insert(id@, texture, max_count as nat),
    {
        let ghost old_view = self@;
        self.max_count = max_count;
        match self.position(&id) {
            Some(p) => {
                self.entries.remove(p);
            },
            None => {},
        }
        proof {
            lemma_without_id(old_view.entries, id@);
        }
        assert(self@.entries =~= without_id(old_view.entries, id@));
        let ghost pinned_before = self.pinned@;
        if !contains_string(&self.pinned, &id) {
            self.pinned.push(id.clone());
            proof {
                lemma_string_set_push(pinned_before, id);
            }
        } else {
            assert(old_view.pinned.insert(id@) =~= old_view.pinned);
        }
        let ghost id_view = id@;
        self.entries.push((id, texture));
        assert(self@.entries =~= without_id(old_view.entries, id_view).push((id_view, texture)));
        let ghost pins = self@.pins();
        let ghost target = evict(self@.entries, pins, max_count as nat);
        proof {
            let e = self@.entries;
            let w = without_id(old_view.entries, id_view);
            assert forall|i: int, j: int| 0 <= i < e.len() && 0 <= j < e.len() && i != j implies #[trigger] e[i].0 != #[trigger] e[j].0 by {
                if i < w.len() && j < w.len() {
                    assert(e[i] == w[i]);
                    assert(e[j] == w[j]);
                } else if i < w.len() {
                    assert(e[i] == w[i]);
                } else if j < w.len() {
                    assert(e[j] == w[j]);
                }
            }
        }
        while self.entries.len() > self.max_count
            invariant
                self.wf(),
                self.max_count == max_count,
                self@.pins() == pins,
                self@.pinned == old_view.pinned.insert(id_view),
                self@.pinned_prev == old_view.pinned_prev,
                evict(self@.entries, pins, max_count as nat) == target,
            ensures
                evict(self@.entries, pins, max_count as nat) == self@.entries,
                self.wf(),
                self.max_count == max_count,
                self@.pinned == old_view.pinned.insert(id_view),
                self@.pinned_prev == old_view.pinned_prev,
                evict(self@.entries, pins, max_count as nat) == target,
            decreases self.entries@.len(),
        {
            match self.first_unpinned() {
                Some(p) => {
                    proof {
                        lemma_first_unpinned_from(self@.entries, pins, 0);
                        lemma_remove_distinct(self@.entries, p as int);
                    }
                    let ghost before = self@.entries;
                    self.entries.remove(p);
                    assert(self@.entries =~= before.remove(p as int));
                },
                None => {
                    break;
                },
            }
        }
    }

    /// Mark `id` as displayed this frame so it won't be evicted.
    pub fn mark_used(&mut self, id: &str)
        ensures
            final(self)@ == old(self)@.after_mark(id@),
            old(self).wf() ==> final(self).wf(),
    {
        let key = id.to_owned();
        let ghost before = self.pinned@;
        if !contains_string(&self.pinned, &key) {
            self.pinned.push(key);
            proof {
                lemma_string_set_push(before, key);
            }
        } else {
            assert(old(self)@.pinned.insert(id@) =~= old(self)@.pinned);
        }
    }

    /// Start a frame: current pins become previous pins.
    pub fn begin_frame(&mut self)
        ensures
            final(self)@ == old(self)@.after_begin_frame(),
            old(self).wf() ==> final(self).wf(),
    {
        let mut taken: Vec<String> = Vec::new();
        std::mem::swap(&mut taken, &mut self.pinned);
        self.pinned_prev = taken;
        assert(self@.pinned =~= Set::empty());
    }

    /// Drop every texture and every pin.
    pub fn clear(&mut self)
        ensures
            final(self).wf(),
            final(self)@ == old(self)@.after_clear(),
    {
        self.entries.clear();
        self.pinned.clear();
        self.pinned_prev.clear();
        assert(self@.entries =~= Seq::empty());
        assert(self@.pinned =~= Set::empty());
        assert(self@.pinned_prev =~= Set::empty());
    }

    /// True if `id` was painted this frame or last.
    pub fn is_pinned(&self, id: &String) -> (r: bool)
        ensures
            r == self@.is_pinned(id@),
    {
        contains_string(&self.pinned, id) || contains_string(&self.pinned_prev, id)
    }
}

/// Returns a cached texture and marks it as the most recently used one.
pub fn get_cached_texture<T: Clone>(cache: &mut ImageCache<T>, id: &str) -> (r: Option<T>)
    requires
        old(cache).wf(),
    ensures
        final(cache).wf(),
        match index_of_id(old(cache)@.entries, id@) {
            Some(i) => {
                &&& r matches Some(t) && cloned(old(cache)@.entries[i].1, t)
                &&& final(cache)@ == old(cache)@.after_touch(i)
            },
            None => r is None && final(cache)@ == old(cache)@,
        },
{
    cache.get(id)
}

/// Evict all cached textures.
pub fn clear_image_cache<T>(cache: &mut ImageCache<T>)
    ensures
        final(cache).wf(),
        final(cache)@ == old(cache)@.after_clear(),
{
    cache.clear();
}

/// Mark `id` as displayed this frame so it won't be evicted.
pub fn mark_texture_used<T>(cache: &mut ImageCache<T>, id: &str)
    ensures
        final(cache)@ == old(cache)@.after_mark(id@),
        old(cache).wf() ==> final(cache).wf(),
{
    cache.mark_used(id);
}

/// Rotate the pin sets for a new frame. Call once per frame before rendering.
pub fn begin_frame_textures<T>(cache: &mut ImageCache<T>)
    ensures
        final(cache)@ == old(cache)@.after_begin_frame(),
        old(cache).wf() ==> final(cache).wf(),
{
    cache.begin_frame();
}

/// Eviction only drops entries.
proof fn lemma_evict_subset<T>(entries: Seq<(Seq<char>, T)>, pins: Set<Seq<char>>, max: nat, x: (Seq<char>, T))
    requires
        evict(entries, pins, max).contains(x),
    ensures
        entries.contains(x),
    decreases entries.len(),
{
    if entries.len() > max {
        if let Some(k) = first_unpinned_from(entries, pins, 0) {
            if 0 <= k < entries.len() {
                let r = entries.remove(k);
                lemma_evict_subset(r, pins, max, x);
                let j = choose|j: int| 0 <= j < r.len() && r[j] == x;
                let jj = if j < k { j } else { j + 1 };
                assert(entries[jj] == x);
            }
        }
    }
}

/// Eviction goes from the least recently used unpinned entry on: when an
/// unpinned entry stays, every newer unpinned entry stays too.
proof fn lemma_evict_oldest_first<T>(entries: Seq<(Seq<char>, T)>, pins: Set<Seq<char>>, max: nat, a: int, b: int)
    requires
        ids_distinct(entries),
        0 <= a < b < entries.len(),
        !pins.contains(entries[a].0),
        !pins.contains(entries[b].0),
        evict(entries, pins, max).contains(entries[a]),
    ensures
        evict(entries, pins, max).contains(entries[b]),
    decreases entries.len(),
{
    if entries.len() > max {
        lemma_first_unpinned_from(entries, pins, 0);
        let k = first_unpinned_from(entries, pins, 0).unwrap();
        let r = entries.remove(k);
        lemma_remove_distinct(entries, k);
        if k == a {
            lemma_evict_subset(r, pins, max, entries[a]);
            let j = choose|j: int| 0 <= j < r.len() && r[j] == entries[a];
            assert(r[j].0 != entries[k].0);
        } else {
            assert(k < a);
            assert(r[a - 1] == entries[a]);
            assert(r[b - 1] == entries[b]);
            lemma_evict_oldest_first(r, pins, max, a - 1, b - 1);
        }
    }
}

/// Eviction keeps the newest entry when its id is pinned.
proof fn lemma_evict_keeps_last<T>(entries: Seq<(Seq<char>, T)>, pins: Set<Seq<char>>, max: nat)
    requires
        entries.len() > 0,
        pins.contains(entries.last().0),
    ensures
        evict(entries, pins, max).len() > 0,
        evict(entries, pins, max).last() == entries.last(),
    decreases entries.len(),
{
    if entries.len() > max {
        lemma_first_unpinned_from(entries, pins, 0);
        if let Some(k) = first_unpinned_from(entries, pins, 0) {
            let r = entries.remove(k);
            assert(k != entries.len() - 1);
            assert(r.last() == entries.last());
            lemma_evict_keeps_last(r, pins, max);
        }
    }
}

/// Eviction keeps every entry whose id is pinned.
proof fn lemma_evict_keeps_pinned<T>(entries: Seq<(Seq<char>, T)>, pins: Set<Seq<char>>, max: nat, j: int)
    requires
        0 <= j < entries.len(),
        pins.contains(entries[j].0),
    ensures
        evict(entries, pins, max).contains(entries[j]),
    decreases entries.len(),
{
    if entries.len() > max {
        lemma_first_unpinned_from(entries, pins, 0);
        if let Some(k) = first_unpinned_from(entries, pins, 0) {
            let r = entries.remove(k);
            let jj = if j < k { j } else { j - 1 };
            assert(r[jj] == entries[j]);
            lemma_evict_keeps_pinned(r, pins, max, jj);
        } else {
            assert(evict(entries, pins, max) == entries);
            assert(entries[j] == entries[j]);
        }
    } else {
        assert(entries[j] == entries[j]);
    }
}

/// Eviction stops at the limit or when only pinned entries remain.
proof fn lemma_evict_bound<T>(entries: Seq<(Seq<char>, T)>, pins: Set<Seq<char>>, max: nat)
    ensures
        evict(entries, pins, max).len() <= max || forall|i: int|
            0 <= i < evict(entries, pins, max).len() ==> pins.contains(
                #[trigger] evict(entries, pins, max)[i].0,
            ),
    decreases entries.len(),
{
    if entries.len() > max {
        lemma_first_unpinned_from(entries, pins, 0);
        if let Some(k) = first_unpinned_from(entries, pins, 0) {
            lemma_evict_bound(entries.remove(k), pins, max);
        }
    }
}

/// Inserting a texture makes it the most recently used entry of the cache.
pub proof fn law_insert_then_newest<T>(c: CacheView<T>, id: Seq<char>, texture: T, max_count: nat)
    ensures
        c.after_insert(id, texture, max_count).entries.len() > 0,
        c.after_insert(id, texture, max_count).entries.last() == (id, texture),
{
    let pins = c.pinned.insert(id).union(c.pinned_prev);
    let e = without_id(c.entries, id).push((id, texture));
    lemma_evict_keeps_last(e, pins, max_count);
}

/// A texture painted in this frame or the last one stays cached when another
/// texture is inserted.
pub proof fn law_insert_keeps_painted<T>(
    c: CacheView<T>,
    id: Seq<char>,
    texture: T,
    max_count: nat,
    j: int,
)
    requires
        ids_distinct(c.entries),
        0 <= j < c.entries.len(),
        c.is_pinned(c.entries[j].0),
        c.entries[j].0 != id,
    ensures
        c.after_insert(id, texture, max_count).entries.contains(c.entries[j]),
{
    let pins = c.pinned.insert(id).union(c.pinned_prev);
    let w = without_id(c.entries, id);
    let jj: int = match index_of_id(c.entries, id) {
        Some(i) => if j < i { j } else { j - 1 },
        None => j,
    };
    if let Some(i) = index_of_id(c.entries, id) {
        assert(c.entries[i].0 == id);
        assert(i != j);
    }
    assert(w[jj] == c.entries[j]);
    let e = w.push((id, texture));
    assert(e[jj] == c.entries[j]);
    lemma_evict_keeps_pinned(e, pins, max_count, jj);
}

/// An insert evicts the least recently used textures that are not painted:
/// when an unpainted texture stays cached, every unpainted texture used more
/// recently than it stays too.
pub proof fn law_insert_evicts_oldest<T>(c: CacheView<T>, id: Seq<char>, texture: T, max_count: nat, a: int, b: int)
    requires
        ids_distinct(c.entries),
        0 <= a < b < c.entries.len(),
        !c.is_pinned(c.entries[a].0),
        !c.is_pinned(c.entries[b].0),
        c.entries[a].0 != id,
        c.entries[b].0 != id,
        c.after_insert(id, texture, max_count).entries.contains(c.entries[a]),
    ensures
        c.after_insert(id, texture, max_count).entries.contains(c.entries[b]),
{
    let pins = c.pinned.insert(id).union(c.pinned_prev);
    let w = without_id(c.entries, id);
    lemma_without_id(c.entries, id);
    let shift = |j: int| match index_of_id(c.entries, id) {
        Some(i) => if j < i { j } else { j - 1 },
        None => j,
    };
    if let Some(i) = index_of_id(c.entries, id) {
        assert(c.entries[i].0 == id);
        assert(i != a && i != b);
    }
    assert(w[shift(a)] == c.entries[a]);
    assert(w[shift(b)] == c.entries[b]);
    let e = w.push((id, texture));
    assert(ids_distinct(e)) by {
        assert forall|i: int, j: int| 0 <= i < e.len() && 0 <= j < e.len() && i != j implies #[trigger] e[i].0
            != #[trigger] e[j].0 by {
            if i < w.len() && j < w.len() {
                assert(e[i] == w[i] && e[j] == w[j]);
            } else if i < w.len() {
                assert(e[i] == w[i]);
            } else if j < w.len() {
                assert(e[j] == w[j]);
            }
        }
    }
    assert(e[shift(a)] == c.entries[a]);
    assert(e[shift(b)] == c.entries[b]);
    lemma_evict_oldest_first(e, pins, max_count, shift(a), shift(b));
}

/// The preview count is defined for every preview size whose texture fits in
/// memory's address range: on any target every size up to 16383, and on a
/// 64-bit target every size below 2^30.
pub proof fn law_max_textures_defined(preview_size: u32)
    requires
        preview_size <= 16383 || (usize::MAX == u64::MAX && preview_size < 0x4000_0000),
    ensures
        2 * preview_size <= u32::MAX,
        spec_texture_bytes(spec_preview_max_dimension(preview_size as int)) <= usize::MAX,
{
    let d = spec_preview_max_dimension(preview_size as int);
    if preview_size <= 16383 {
        assert(256 <= d <= 32766);
        assert(d * d * 4 <= 4294443024) by (nonlinear_arith)
            requires
                0 <= d <= 32766,
        ;
    } else {
        assert(256 <= d < 0x8000_0000);
        assert(d * d * 4 < 0x1_0000_0000_0000_0000) by (nonlinear_arith)
            requires
                0 <= d < 0x8000_0000,
        ;
    }
}

/// A larger preview size never allows more cached textures, and the count
/// lies between 16 and 256 for every size.
pub proof fn law_max_textures_monotonic(p: int, q: int)
    requires
        0 <= p <= q,
    ensures
        spec_max_textures_for_preview(q) <= spec_max_textures_for_preview(p),
        16 <= spec_max_textures_for_preview(p) <= 256,
{
    let dp = spec_preview_max_dimension(p);
    let dq = spec_preview_max_dimension(q);
    assert(256 <= dp <= dq);
    let bp = spec_texture_bytes(dp);
    let bq = spec_texture_bytes(dq);
    assert(262144 <= bp <= bq) by (nonlinear_arith)
        requires
            256 <= dp <= dq,
            bp == dp * dp * 4,
            bq == dq * dq * 4,
    ;
    let budget = TEXTURE_VRAM_BUDGET as int;
    assert(budget / bq <= budget / bp) by {
        vstd::arithmetic::div_mod::lemma_div_is_ordered_by_denominator(budget, bp, bq);
    }
    assert(budget / bp <= budget / 262144) by {
        vstd::arithmetic::div_mod::lemma_div_is_ordered_by_denominator(budget, 262144, bp);
    }
    assert(budget / 262144 == 256);
}

/// After an insert the inserted id occurs once in the cache, as its newest
/// entry, and the ids stay distinct.
pub proof fn law_insert_id_once<T>(c: CacheView<T>, id: Seq<char>, texture: T, max_count: nat)
    requires
        ids_distinct(c.entries),
    ensures
        ({
            let e = c.after_insert(id, texture, max_count).entries;
            &&& ids_distinct(e)
            &&& e.len() > 0 && e.last() == (id, texture)
            &&& forall|i: int| 0 <= i < e.len() - 1 ==> e[i].0 != id
        }),
{
    let pins = c.pinned.insert(id).union(c.pinned_prev);
    let w = without_id(c.entries, id);
    lemma_without_id(c.entries, id);
    let e = w.push((id, texture));
    assert(ids_distinct(e)) by {
        assert forall|i: int, j: int| 0 <= i < e.len() && 0 <= j < e.len() && i != j implies #[trigger] e[i].0
            != #[trigger] e[j].0 by {
            if i < w.len() && j < w.len() {
                assert(e[i] == w[i] && e[j] == w[j]);
            } else if i < w.len() {
                assert(e[i] == w[i]);
            } else if j < w.len() {
                assert(e[j] == w[j]);
            }
        }
    }
    lemma_evict_distinct(e, pins, max_count);
    law_insert_then_newest(c, id, texture, max_count);
    let n = c.after_insert(id, texture, max_count).entries;
    assert forall|i: int| 0 <= i < n.len() - 1 implies n[i].0 != id by {
        assert(n[n.len() - 1].0 == id);
    }
}

/// After an insert the cache holds at most its limit, unless every entry
/// left is painted.
pub proof fn law_insert_bounded<T>(c: CacheView<T>, id: Seq<char>, texture: T, max_count: nat)
    ensures
        ({
            let n = c.after_insert(id, texture, max_count);
            n.entries.len() <= max_count || forall|i: int|
                0 <= i < n.entries.len() ==> n.is_pinned(#[trigger] n.entries[i].0)
        }),
{
    let pins = c.pinned.insert(id).union(c.pinned_prev);
    let e = without_id(c.entries, id).push((id, texture));
    lemma_evict_bound(e, pins, max_count);
}

/// Looking up a cached texture makes it the most recently used entry.
pub proof fn law_touch_then_newest<T>(c: CacheView<T>, i: int)
    requires
        0 <= i < c.entries.len(),
    ensures
        c.after_touch(i).entries.last() == c.entries[i],
        c.after_touch(i).entries.len() == c.entries.len(),
{
}

/// A texture marked as painted stays pinned across one frame boundary and is
/// released after the second one unless painted again.
pub proof fn law_pin_lasts_one_frame<T>(c: CacheView<T>, id: Seq<char>)
    ensures
        c.after_mark(id).after_begin_frame().is_pinned(id),
        !c.after_mark(id).after_begin_frame().after_begin_frame().is_pinned(id),
{
}

} // verus!
