use vstd::prelude::*;
use std::collections::HashMap;
use crate::chunk::ChunkKey;
use crate::window::{ChunkWindow, chunk_position, draw_position};

verus! {

broadcast use vstd::std_specs::hash::group_hash_axioms;

/// State of one chunk in the cache: asked of the workers, or uploaded and
/// ready to draw with its texture handle.
pub enum TextureEntry<T> {
    Requested,
    Valid(T),
}

/// `a` comes before `b` in the window's column-major walk (by `x`, then `y`).
pub open spec fn key_before(a: ChunkKey, b: ChunkKey) -> bool {
    a.x < b.x || (a.x == b.x && a.y < b.y)
}

/// Keys sorted strictly in walk order; so also free of duplicates.
pub open spec fn walk_sorted(s: Seq<ChunkKey>) -> bool {
    forall|i: int, j: int| 0 <= i < j < s.len() ==> key_before(#[trigger] s[i], #[trigger] s[j])
}

/// The keys of the window that the cache does not hold yet.
pub open spec fn missing_keys<T>(m: Map<ChunkKey, TextureEntry<T>>, w: ChunkWindow) -> Set<
    ChunkKey,
> {
    Set::new(|k: ChunkKey| w.contains(k) && !m.contains_key(k))
}

/// The cache after reconciling with a window: every missing key of the
/// window is added as `Requested`; every entry already present is kept.
pub open spec fn reconciled<T>(m: Map<ChunkKey, TextureEntry<T>>, w: ChunkWindow) -> Map<
    ChunkKey,
    TextureEntry<T>,
> {
    Map::new(
        |k: ChunkKey| m.contains_key(k) || w.contains(k),
        |k: ChunkKey|
            if m.contains_key(k) {
                m[k]
            } else {
                TextureEntry::Requested
            },
    )
}

/// Whether the cache holds a ready texture for the key.
pub open spec fn is_ready<T>(m: Map<ChunkKey, TextureEntry<T>>, k: ChunkKey) -> bool {
    m.contains_key(k) && m[k] is Valid
}

/// Whether a draw call shows the ready chunk of `m` at `key`, at its screen
/// position.
pub open spec fn draws_chunk<T>(
    d: DrawCall<'_, T>,
    m: Map<ChunkKey, TextureEntry<T>>,
    camera_offset: (i64, i64),
    size: u32,
) -> bool {
    &&& m.contains_key(d.key)
    &&& m[d.key] == TextureEntry::Valid(*d.texture)
    &&& (d.position.0 as int, d.position.1 as int) == draw_position(camera_offset, d.key, size)
}

/// Whether some draw call of the sequence is for the key.
pub open spec fn has_draw<T>(draws: Seq<DrawCall<'_, T>>, k: ChunkKey) -> bool {
    exists|i: int| 0 <= i < draws.len() && draws[i].key == k
}

/// The draws of a frame: for each key of the window that is ready in `m`,
/// one draw call, at its screen position with its texture, in walk order.
pub open spec fn is_draw_list<T>(
    draws: Seq<DrawCall<'_, T>>,
    m: Map<ChunkKey, TextureEntry<T>>,
    w: ChunkWindow,
    camera_offset: (i64, i64),
    size: u32,
) -> bool {
    &&& forall|i: int, j: int|
        0 <= i < j < draws.len() ==> key_before(#[trigger] draws[i].key, #[trigger] draws[j].key)
    &&& forall|i: int|
        0 <= i < draws.len() ==> w.contains(#[trigger] draws[i].key) && draws_chunk(
            draws[i],
            m,
            camera_offset,
            size,
        )
    &&& forall|k: ChunkKey| w.contains(k) && is_ready(m, k) ==> #[trigger] has_draw(draws, k)
}

/// One draw to issue this frame: a ready chunk of the window, where to put
/// it and the texture to put there.
pub struct DrawCall<'a, T> {
    pub key: ChunkKey,
    pub position: (i128, i128),
    pub texture: &'a T,
}

/// `k` is a key of the window walked before position `(x, y)` of the walk.
spec fn visited(w: ChunkWindow, x: int, y: int, k: ChunkKey) -> bool {
    w.contains(k) && (k.x < x || (k.x == x && k.y < y))
}

/// Injective code of a key, used as the key of the underlying hash map.
spec fn key_code(k: ChunkKey) -> int {
    k.x * 0x1_0000_0000_0000_0000 + (k.y + 0x8000_0000_0000_0000)
}

proof fn lemma_key_code_range(k: ChunkKey)
    ensures
        i128::MIN <= key_code(k) <= i128::MAX,
{
    let x = k.x as int;
    let y = k.y as int;
    assert(-0x8000_0000_0000_0000_0000_0000_0000_0000 <= x * 0x1_0000_0000_0000_0000 + (y
        + 0x8000_0000_0000_0000) <= 0x7fff_ffff_ffff_ffff_ffff_ffff_ffff_ffff) by (nonlinear_arith)
        requires
            -0x8000_0000_0000_0000 <= x <= 0x7fff_ffff_ffff_ffff,
            -0x8000_0000_0000_0000 <= y <= 0x7fff_ffff_ffff_ffff,
    ;
}

proof fn lemma_key_code_injective(a: ChunkKey, b: ChunkKey)
    ensures
        key_code(a) == key_code(b) ==> a == b,
{
    let (ax, ay, bx, by) = (a.x as int, a.y as int, b.x as int, b.y as int);
    if key_code(a) == key_code(b) {
        assert(ax == bx) by (nonlinear_arith)
            requires
                ax * 0x1_0000_0000_0000_0000 + ay == bx * 0x1_0000_0000_0000_0000 + by,
                -0x8000_0000_0000_0000 <= ay <= 0x7fff_ffff_ffff_ffff,
                -0x8000_0000_0000_0000 <= by <= 0x7fff_ffff_ffff_ffff,
        ;
    }
}

fn code_of(k: ChunkKey) -> (r: i128)
    ensures
        r == key_code(k),
{
    proof {
        lemma_key_code_range(k);
    }
    (k.x as i128) * 0x1_0000_0000_0000_0000i128 + (k.y as i128 + 0x8000_0000_0000_0000i128)
}

/// Reads a map keyed by key codes as a map keyed by chunk keys.
spec fn decode_entries<T>(e: Map<i128, TextureEntry<T>>) -> Map<
    ChunkKey,
    TextureEntry<T>,
> {
    Map::new(
        |k: ChunkKey| e.contains_key(key_code(k) as i128),
        |k: ChunkKey| e[key_code(k) as i128],
    )
}

proof fn lemma_decode_insert<T>(e: Map<i128, TextureEntry<T>>, k: ChunkKey, v: TextureEntry<T>)
    ensures
        decode_entries(e.insert(key_code(k) as i128, v)) =~= decode_entries(e).insert(k, v),
{
    assert forall|j: ChunkKey| #![trigger key_code(j)]
        (key_code(j) as i128 == key_code(k) as i128) == (j == k) by {
        lemma_key_code_range(j);
        lemma_key_code_range(k);
        lemma_key_code_injective(j, k);
    }
}

/// The chunk cache, owned by the control thread alone. A key has at most
/// one entry; entries are never removed and never go back to `Requested`.
pub struct ChunkCache<T> {
    entries: HashMap<i128, TextureEntry<T>>,
}

impl<T> View for ChunkCache<T> {
    type V = Map<ChunkKey, TextureEntry<T>>;

    closed spec fn view(&self) -> Map<ChunkKey, TextureEntry<T>> {
        decode_entries(self.entries@)
    }
}

impl<T> ChunkCache<T> {
    /// An empty cache.
    pub fn new() -> (c: ChunkCache<T>)
        ensures
            c@ == Map::<ChunkKey, TextureEntry<T>>::empty(),
    {
        let c = ChunkCache { entries: HashMap::new() };
        assert(c@ =~= Map::<ChunkKey, TextureEntry<T>>::empty());
        c
    }

    /// Whether the cache holds an entry, requested or ready, for the key.
    pub fn contains(&self, key: ChunkKey) -> (r: bool)
        ensures
            r == self@.contains_key(key),
    {
        let c = code_of(key);
        self.entries.contains_key(&c)
    }

    /// The entry of a key, if any.
    pub fn get(&self, key: ChunkKey) -> (r: Option<&TextureEntry<T>>)
        ensures
            match r {
                Some(e) => self@.contains_key(key) && *e == self@[key],
                None => !self@.contains_key(key),
            },
    {
        let c = code_of(key);
        self.entries.get(&c)
    }

    /// Stores the texture of a chunk whose result arrived: the entry of the
    /// key becomes `Valid` with that texture, whatever it was before.
    pub fn complete(&mut self, key: ChunkKey, texture: T)
        ensures
            final(self)@ == old(self)@.insert(key, TextureEntry::Valid(texture)),
    {
        self.insert_entry(key, TextureEntry::Valid(texture));
    }

    fn insert_entry(&mut self, key: ChunkKey, entry: TextureEntry<T>)
        ensures
            final(self)@ == old(self)@.insert(key, entry),
    {
        let c = code_of(key);
        proof {
            lemma_decode_insert(self.entries@, key, entry);
        }
        self.entries.insert(c, entry);
    }

    /// Walks the window column by column and, for every key that the cache
    /// does not hold, adds a `Requested` entry. Returns those keys, in walk
    /// order: exactly the keys that must now be sent to the workers. Entries
    /// already present, requested or ready, are left as they are.
    pub fn reconcile(&mut self, window: &ChunkWindow) -> (requested: Vec<ChunkKey>)
        requires
            window.wf(),
        ensures
            final(self)@ == reconciled(old(self)@, *window),
            walk_sorted(requested@),
            requested@.to_set() == missing_keys(old(self)@, *window),
    {
        let ghost m0 = self@;
        let ghost w = *window;
        let mut requested: Vec<ChunkKey> = Vec::new();
        let mut x: i128 = window.min_x as i128;
        while x <= window.max_x as i128
            invariant
                w == *window,
                w.wf(),
                w.min_x <= x <= w.max_x + 1,
                forall|k: ChunkKey| #[trigger]
                    self@.contains_key(k) <==> m0.contains_key(k) || visited(w, x as int, w.min_y as int, k),
                forall|k: ChunkKey| m0.contains_key(k) ==> #[trigger] self@[k] == m0[k],
                forall|k: ChunkKey|
                    !m0.contains_key(k) && self@.contains_key(k) ==> #[trigger] self@[k]
                        == TextureEntry::<T>::Requested,
                walk_sorted(requested@),
                forall|i: int|
                    0 <= i < requested@.len() ==> visited(w, x as int, w.min_y as int, #[trigger] requested@[i])
                        && !m0.contains_key(requested@[i]),
                forall|k: ChunkKey|
                    visited(w, x as int, w.min_y as int, k) && !m0.contains_key(k) ==> #[trigger] requested@.contains(k),
            decreases w.max_x + 1 - x,
        {
            let mut y: i128 = window.min_y as i128;
            while y <= window.max_y as i128
                invariant
                    w == *window,
                    w.wf(),
                    w.min_x <= x <= w.max_x,
                    w.min_y <= y <= w.max_y + 1,
                    forall|k: ChunkKey| #[trigger]
                        self@.contains_key(k) <==> m0.contains_key(k) || visited(w, x as int, y as int, k),
                    forall|k: ChunkKey| m0.contains_key(k) ==> #[trigger] self@[k] == m0[k],
                    forall|k: ChunkKey|
                        !m0.contains_key(k) && self@.contains_key(k) ==> #[trigger] self@[k]
                            == TextureEntry::<T>::Requested,
                    walk_sorted(requested@),
                    forall|i: int|
                        0 <= i < requested@.len() ==> visited(w, x as int, y as int, #[trigger] requested@[i])
                            && !m0.contains_key(requested@[i]),
                    forall|k: ChunkKey|
                        visited(w, x as int, y as int, k) && !m0.contains_key(k) ==> #[trigger] requested@.contains(k),
                decreases w.max_y + 1 - y,
            {
                let key = ChunkKey { x: x as i64, y: y as i64 };
                if !self.contains(key) {
                    let ghost before = requested@;
                    self.insert_entry(key, TextureEntry::Requested);
                    requested.push(key);
                    proof {
                        assert forall|k: ChunkKey|
                            visited(w, x as int, y + 1, k) && !m0.contains_key(
                                k,
                            ) implies requested@.contains(k) by {
                            if k == key {
                                assert(requested@[before.len() as int] == key);
                            } else {
                                assert(before.contains(k));
                                let i = choose|i: int| 0 <= i < before.len() && before[i] == k;
                                assert(requested@[i] == k);
                            }
                        }
                    }
                }
                y = y + 1;
            }
            x = x + 1;
        }
        assert(self@ =~= reconciled(m0, w));
        assert(requested@.to_set() =~= missing_keys(m0, w));
        requested
    }

    /// The draws of one frame: one for each key of the window whose entry is
    /// ready, in walk order, at `camera_offset + key * chunk_pixel_size`.
    /// Requested and absent keys are skipped.
    pub fn draw_list<'a>(
        &'a self,
        window: &ChunkWindow,
        camera_offset: (i64, i64),
        chunk_pixel_size: u32,
    ) -> (draws: Vec<DrawCall<'a, T>>)
        requires
            window.wf(),
        ensures
            is_draw_list(draws@, self@, *window, camera_offset, chunk_pixel_size),
    {
        let ghost w = *window;
        let mut draws: Vec<DrawCall<'a, T>> = Vec::new();
        let mut x: i128 = window.min_x as i128;
        while x <= window.max_x as i128
            invariant
                w == *window,
                w.wf(),
                w.min_x <= x <= w.max_x + 1,
                forall|i: int, j: int|
                    0 <= i < j < draws@.len() ==> key_before(#[trigger] draws@[i].key, #[trigger] draws@[j].key),
                forall|i: int|
                    0 <= i < draws@.len() ==> visited(w, x as int, w.min_y as int, #[trigger] draws@[i].key)
                        && draws_chunk(draws@[i], self@, camera_offset, chunk_pixel_size),
                forall|k: ChunkKey|
                    visited(w, x as int, w.min_y as int, k) && is_ready(self@, k) ==> #[trigger] has_draw(draws@, k),
            decreases w.max_x + 1 - x,
        {
            let mut y: i128 = window.min_y as i128;
            while y <= window.max_y as i128
                invariant
                    w == *window,
                    w.wf(),
                    w.min_x <= x <= w.max_x,
                    w.min_y <= y <= w.max_y + 1,
                    forall|i: int, j: int|
                        0 <= i < j < draws@.len() ==> key_before(#[trigger] draws@[i].key, #[trigger] draws@[j].key),
                    forall|i: int|
                        0 <= i < draws@.len() ==> visited(w, x as int, y as int, #[trigger] draws@[i].key)
                            && draws_chunk(draws@[i], self@, camera_offset, chunk_pixel_size),
                    forall|k: ChunkKey|
                        visited(w, x as int, y as int, k) && is_ready(self@, k) ==> #[trigger] has_draw(draws@, k),
                decreases w.max_y + 1 - y,
            {
                let key = ChunkKey { x: x as i64, y: y as i64 };
                match self.get(key) {
                    Some(TextureEntry::Valid(texture)) => {
                        let ghost before = draws@;
                        let position = chunk_position(camera_offset, key, chunk_pixel_size);
                        draws.push(DrawCall { key, position, texture });
                        proof {
                            assert forall|k: ChunkKey|
                                visited(w, x as int, y + 1, k) && is_ready(
                                    self@,
                                    k,
                                ) implies #[trigger] has_draw(draws@, k) by {
                                if k == key {
                                    assert(draws@[before.len() as int].key == key);
                                } else {
                                    assert(has_draw(before, k));
                                    let i = choose|i: int| 0 <= i < before.len() && before[i].key == k;
                                    assert(draws@[i].key == k);
                                }
                            }
                        }
                    },
                    _ => {},
                }
                y = y + 1;
            }
            x = x + 1;
        }
        draws
    }
}

/// Reconciling twice with the same window changes nothing the second time
/// and finds no key left to request.
pub proof fn lemma_reconcile_idempotent<T>(m: Map<ChunkKey, TextureEntry<T>>, w: ChunkWindow)
    ensures
        reconciled(reconciled(m, w), w) == reconciled(m, w),
        missing_keys(reconciled(m, w), w) == Set::<ChunkKey>::empty(),
{
    assert(reconciled(reconciled(m, w), w) =~= reconciled(m, w));
    assert(missing_keys(reconciled(m, w), w) =~= Set::<ChunkKey>::empty());
}

/// Reconciling never removes or changes an entry: a key once requested is
/// never requested again, and a ready key stays ready with its texture,
/// also after it has left the window.
pub proof fn lemma_reconcile_keeps_entries<T>(m: Map<ChunkKey, TextureEntry<T>>, w: ChunkWindow, k: ChunkKey)
    requires
        m.contains_key(k),
    ensures
        reconciled(m, w).contains_key(k),
        reconciled(m, w)[k] == m[k],
        !missing_keys(m, w).contains(k),
{
}

/// The life of one key: reconciling with a window that holds it marks it
/// `Requested` and asks for it; once its result is stored it is `Valid`,
/// and no later reconciliation, with any window, asks for it again or
/// changes its entry.
pub proof fn lemma_requested_then_ready<T>(
    m: Map<ChunkKey, TextureEntry<T>>,
    w: ChunkWindow,
    k: ChunkKey,
    texture: T,
    later: ChunkWindow,
)
    requires
        w.contains(k),
        !m.contains_key(k),
    ensures
        missing_keys(m, w).contains(k),
        reconciled(m, w)[k] == TextureEntry::<T>::Requested,
        ({
            let ready = reconciled(m, w).insert(k, TextureEntry::Valid(texture));
            &&& !missing_keys(ready, later).contains(k)
            &&& reconciled(ready, later)[k] == TextureEntry::Valid(texture)
        }),
{
}

/// Results stored in either order give the same cache, so the same draws.
pub proof fn lemma_completion_order_irrelevant<T>(
    m: Map<ChunkKey, TextureEntry<T>>,
    k1: ChunkKey,
    t1: T,
    k2: ChunkKey,
    t2: T,
)
    requires
        k1 != k2,
    ensures
        m.insert(k1, TextureEntry::Valid(t1)).insert(k2, TextureEntry::Valid(t2)) == m.insert(
            k2,
            TextureEntry::Valid(t2),
        ).insert(k1, TextureEntry::Valid(t1)),
{
    assert(m.insert(k1, TextureEntry::Valid(t1)).insert(k2, TextureEntry::Valid(t2)) =~= m.insert(
        k2,
        TextureEntry::Valid(t2),
    ).insert(k1, TextureEntry::Valid(t1)));
}

proof fn lemma_sorted_keys_unique(a: Seq<ChunkKey>, b: Seq<ChunkKey>)
    requires
        walk_sorted(a),
        walk_sorted(b),
        forall|k: ChunkKey| a.contains(k) <==> b.contains(k),
    ensures
        a == b,
    decreases a.len(),
{
    if a.len() == 0 {
        if b.len() > 0 {
            assert(b.contains(b[0]));
        }
        assert(a =~= b);
    } else {
        assert(a.contains(a[0]));
        let j = choose|j: int| 0 <= j < b.len() && b[j] == a[0];
        assert(b.contains(b[0]));
        let i = choose|i: int| 0 <= i < a.len() && a[i] == b[0];
        if j > 0 {
            assert(key_before(b[0], b[j]));
            if i > 0 {
                assert(key_before(a[0], a[i]));
            }
        }
        assert(a[0] == b[0]);
        let (ta, tb) = (a.drop_first(), b.drop_first());
        assert forall|k: ChunkKey| ta.contains(k) <==> tb.contains(k) by {
            if ta.contains(k) {
                let p = choose|p: int| 0 <= p < ta.len() && ta[p] == k;
                assert(key_before(a[0], a[p + 1]));
                assert(b.contains(k));
                let q = choose|q: int| 0 <= q < b.len() && b[q] == k;
                assert(q != 0);
                assert(tb[q - 1] == k);
            }
            if tb.contains(k) {
                let p = choose|p: int| 0 <= p < tb.len() && tb[p] == k;
                assert(key_before(b[0], b[p + 1]));
                assert(a.contains(k));
                let q = choose|q: int| 0 <= q < a.len() && a[q] == k;
                assert(q != 0);
                assert(ta[q - 1] == k);
            }
        }
        lemma_sorted_keys_unique(ta, tb);
        assert(a.len() == ta.len() + 1 && b.len() == tb.len() + 1);
        assert forall|k: int| 0 <= k < a.len() implies a[k] == b[k] by {
            if k > 0 {
                assert(a[k] == ta[k - 1]);
                assert(b[k] == tb[k - 1]);
            }
        }
        assert(a =~= b);
    }
}

/// The draws of a frame depend only on what the cache holds, the window and
/// the camera: two draw lists for the same cache contents are the same
/// calls, in the same order. With `lemma_completion_order_irrelevant`, the
/// order in which results arrived does not change what is drawn.
pub proof fn lemma_draws_determined<'a, T>(
    da: Seq<DrawCall<'a, T>>,
    db: Seq<DrawCall<'a, T>>,
    m: Map<ChunkKey, TextureEntry<T>>,
    w: ChunkWindow,
    camera_offset: (i64, i64),
    size: u32,
)
    requires
        is_draw_list(da, m, w, camera_offset, size),
        is_draw_list(db, m, w, camera_offset, size),
    ensures
        da.len() == db.len(),
        forall|i: int|
            0 <= i < da.len() ==> (#[trigger] da[i]).key == db[i].key && da[i].position
                == db[i].position && *da[i].texture == *db[i].texture,
{
    let ka = da.map_values(|d: DrawCall<'a, T>| d.key);
    let kb = db.map_values(|d: DrawCall<'a, T>| d.key);
    assert forall|k: ChunkKey| ka.contains(k) <==> kb.contains(k) by {
        if ka.contains(k) {
            let p = choose|p: int| 0 <= p < ka.len() && ka[p] == k;
            assert(w.contains(da[p].key) && draws_chunk(da[p], m, camera_offset, size));
            assert(has_draw(db, k));
            let q = choose|q: int| 0 <= q < db.len() && db[q].key == k;
            assert(kb[q] == k);
        }
        if kb.contains(k) {
            let p = choose|p: int| 0 <= p < kb.len() && kb[p] == k;
            assert(w.contains(db[p].key) && draws_chunk(db[p], m, camera_offset, size));
            assert(has_draw(da, k));
            let q = choose|q: int| 0 <= q < da.len() && da[q].key == k;
            assert(ka[q] == k);
        }
    }
    assert forall|i: int, j: int| 0 <= i < j < ka.len() implies key_before(
        #[trigger] ka[i],
        #[trigger] ka[j],
    ) by {
        assert(key_before(da[i].key, da[j].key));
    }
    assert forall|i: int, j: int| 0 <= i < j < kb.len() implies key_before(
        #[trigger] kb[i],
        #[trigger] kb[j],
    ) by {
        assert(key_before(db[i].key, db[j].key));
    }
    lemma_sorted_keys_unique(ka, kb);
    assert forall|i: int| 0 <= i < da.len() implies (#[trigger] da[i]).key == db[i].key
        && da[i].position == db[i].position && *da[i].texture == *db[i].texture by {
        assert(ka[i] == kb[i]);
        assert(draws_chunk(da[i], m, camera_offset, size));
        assert(draws_chunk(db[i], m, camera_offset, size));
    }
}

/// The cache after storing each result of `done`, in order.
pub open spec fn complete_all<T>(m: Map<ChunkKey, TextureEntry<T>>, done: Seq<(ChunkKey, T)>) -> Map<
    ChunkKey,
    TextureEntry<T>,
>
    decreases done.len(),
{
    if done.len() == 0 {
        m
    } else {
        complete_all(m.insert(done[0].0, TextureEntry::Valid(done[0].1)), done.drop_first())
    }
}

/// How many of the stores of `done` turn the entry of `k` from `Requested`
/// into `Valid`.
pub open spec fn ready_steps<T>(m: Map<ChunkKey, TextureEntry<T>>, done: Seq<(ChunkKey, T)>, k: ChunkKey) -> nat
    decreases done.len(),
{
    if done.len() == 0 {
        0
    } else {
        let step: nat = if done[0].0 == k && m.contains_key(k) && m[k] is Requested {
            1
        } else {
            0
        };
        step + ready_steps(m.insert(done[0].0, TextureEntry::Valid(done[0].1)), done.drop_first(), k)
    }
}

/// Whether the results of `done` are for distinct keys: one chunk per
/// request, each key having been requested once.
pub open spec fn distinct_results<T>(done: Seq<(ChunkKey, T)>) -> bool {
    forall|i: int, j: int| 0 <= i < j < done.len() ==> (#[trigger] done[i]).0 != (#[trigger] done[j]).0
}

/// With one result per requested key, a requested key becomes ready
/// exactly once if its result is among those stored (and keeps that
/// texture), and stays requested otherwise.
pub proof fn lemma_ready_exactly_once<T>(
    m: Map<ChunkKey, TextureEntry<T>>,
    done: Seq<(ChunkKey, T)>,
    k: ChunkKey,
)
    requires
        m.contains_key(k),
        m[k] is Requested,
        distinct_results(done),
    ensures
        (exists|i: int| 0 <= i < done.len() && done[i].0 == k) ==> ready_steps(m, done, k) == 1
            && complete_all(m, done).contains_key(k) && complete_all(m, done)[k] is Valid,
        (forall|i: int| 0 <= i < done.len() ==> done[i].0 != k) ==> ready_steps(m, done, k) == 0
            && complete_all(m, done).contains_key(k) && complete_all(m, done)[k] is Requested,
    decreases done.len(),
{
    if done.len() > 0 {
        let next = m.insert(done[0].0, TextureEntry::Valid(done[0].1));
        let rest = done.drop_first();
        assert(distinct_results(rest)) by {
            assert forall|i: int, j: int| 0 <= i < j < rest.len() implies (#[trigger] rest[i]).0
                != (#[trigger] rest[j]).0 by {
                assert(done[i + 1].0 != done[j + 1].0);
            }
        }
        if done[0].0 == k {
            assert forall|i: int| 0 <= i < rest.len() implies rest[i].0 != k by {
                assert(done[0].0 != done[i + 1].0);
            }
            lemma_stays_valid(next, rest, k);
        } else {
            lemma_ready_exactly_once(next, rest, k);
            if exists|i: int| 0 <= i < done.len() && done[i].0 == k {
                let i = choose|i: int| 0 <= i < done.len() && done[i].0 == k;
                assert(rest[i - 1].0 == k);
            } else {
                assert forall|i: int| 0 <= i < rest.len() implies rest[i].0 != k by {
                    assert(done[i + 1].0 != k);
                }
            }
        }
    }
}

proof fn lemma_stays_valid<T>(m: Map<ChunkKey, TextureEntry<T>>, done: Seq<(ChunkKey, T)>, k: ChunkKey)
    requires
        m.contains_key(k),
        m[k] is Valid,
        forall|i: int| 0 <= i < done.len() ==> done[i].0 != k,
    ensures
        ready_steps(m, done, k) == 0,
        complete_all(m, done).contains_key(k),
        complete_all(m, done)[k] == m[k],
    decreases done.len(),
{
    if done.len() > 0 {
        let rest = done.drop_first();
        assert forall|i: int| 0 <= i < rest.len() implies rest[i].0 != k by {
            assert(done[i + 1].0 != k);
        }
        lemma_stays_valid(m.insert(done[0].0, TextureEntry::Valid(done[0].1)), rest, k);
    }
}

} // verus!
