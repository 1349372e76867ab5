use vstd::prelude::*;
use crossbeam_channel::{Receiver, Sender};
use crate::cache::{ChunkCache, TextureEntry, key_before, missing_keys, reconciled, walk_sorted};
use crate::chunk::{Chunk, ChunkKey, is_dense};
use crate::window::ChunkWindow;

verus! {

#[verifier::external_type_specification]
#[verifier::external_body]
#[verifier::reject_recursive_types(T)]
pub struct ExSender<T>(Sender<T>);

#[verifier::external_type_specification]
#[verifier::external_body]
#[verifier::reject_recursive_types(T)]
pub struct ExReceiver<T>(Receiver<T>);

/// Relies on `crossbeam_channel::unbounded`: the two connected ends of a
/// new channel without a bound, so that sending never blocks.
#[verifier::external_body]
fn unbounded_channel<T>() -> (Sender<T>, Receiver<T>) {
    crossbeam_channel::unbounded()
}

/// Relies on crossbeam's `Sender::send`: on an unbounded channel it does
/// not block; it fails only when every receiver is gone, and then hands the
/// message back in its `SendError`. `sent` logs each key that the channel
/// took.
#[verifier::external_body]
fn send_key(world: &mut World, key: ChunkKey) -> (r: Result<(), ChunkKey>)
    ensures
        r is Ok ==> final(world).sent@ == old(world).sent@.push(key),
        r is Err ==> r->Err_0 == key && final(world).sent@ == old(world).sent@,
{
    world.requests.send(key).map_err(|e| e.0)
}

/// Relies on crossbeam's `Receiver::try_recv`: it never blocks, and yields
/// one waiting message if there is one (an empty or disconnected channel
/// gives `None` here).
#[verifier::external_body]
fn poll_chunk(results: &Receiver<Chunk>) -> Option<Chunk> {
    results.try_recv().ok()
}

/// The ends of the two channels that the worker threads hold: keys to
/// generate come in, finished chunks go out.
pub struct WorkerEnds {
    pub requests: Receiver<ChunkKey>,
    pub results: Sender<Chunk>,
}

/// The control thread's side of the worker pool: it sends the keys to
/// generate and polls for finished chunks. The two channels are the only
/// link with the workers.
pub struct World {
    requests: Sender<ChunkKey>,
    results: Receiver<Chunk>,
    sent: Ghost<Seq<ChunkKey>>,
}

impl World {
    /// The keys handed to the workers so far, in order.
    pub closed spec fn sent(&self) -> Seq<ChunkKey> {
        self.sent@
    }

    /// A world with fresh request and result channels, and the ends of them
    /// that the workers are to be given.
    pub fn new() -> (r: (World, WorkerEnds))
        ensures
            r.0.sent() == Seq::<ChunkKey>::empty(),
    {
        let (request_tx, request_rx) = unbounded_channel();
        let (result_tx, result_rx) = unbounded_channel();
        (
            World { requests: request_tx, results: result_rx, sent: Ghost(Seq::empty()) },
            WorkerEnds { requests: request_rx, results: result_tx },
        )
    }

    /// Queues a key for generation without blocking. An error, which hands
    /// the key back, means that every worker is gone.
    pub fn request_chunk(&mut self, key: ChunkKey) -> (r: Result<(), ChunkKey>)
        ensures
            r is Ok ==> final(self).sent() == old(self).sent().push(key),
            r is Err ==> r->Err_0 == key && final(self).sent() == old(self).sent(),
    {
        send_key(self, key)
    }

    /// At most one finished chunk, without blocking; call until `None` to
    /// take all that have arrived. Chunks come in any order.
    pub fn get_chunk_result(&self) -> (r: Option<Chunk>)
        ensures
            r is Some ==> is_dense(r->Some_0@.1),
    {
        match poll_chunk(&self.results) {
            Some(chunk) => {
                proof {
                    use_type_invariant(&chunk);
                }
                Some(chunk)
            },
            None => None,
        }
    }

    /// The request half of a tick: reconciles the cache with the window and
    /// sends each key that it newly marked `Requested`, in walk order. On
    /// success the keys sent are exactly the window's keys that the cache
    /// lacked; an error names a key that could not be sent, and the keys
    /// sent before it are a prefix of those.
    pub fn request_missing<T>(&mut self, cache: &mut ChunkCache<T>, window: &ChunkWindow) -> (r:
        Result<Vec<ChunkKey>, ChunkKey>)
        requires
            window.wf(),
        ensures
            final(cache)@ == reconciled(old(cache)@, *window),
            r is Ok ==> walk_sorted(r->Ok_0@) && r->Ok_0@.to_set() == missing_keys(
                old(cache)@,
                *window,
            ),
            r is Ok ==> final(self).sent() == old(self).sent() + r->Ok_0@,
            r is Err ==> missing_keys(old(cache)@, *window).contains(r->Err_0),
            exists|fresh: Seq<ChunkKey>|
                walk_sorted(fresh) && final(self).sent() == old(self).sent() + fresh && (forall|
                    i: int,
                | 0 <= i < fresh.len() ==> missing_keys(old(cache)@, *window).contains(
                    #[trigger] fresh[i],
                )),
    {
        let ghost sent0 = self.sent();
        let keys = cache.reconcile(window);
        let mut i: usize = 0;
        let mut failed: Option<ChunkKey> = None;
        while i < keys.len() && failed.is_none()
            invariant
                i <= keys@.len(),
                failed is Some ==> keys@.to_set().contains(failed->Some_0),
                failed is None ==> self.sent() == sent0 + keys@.take(i as int),
                failed is Some ==> i >= 1 && self.sent() == sent0 + keys@.take(i - 1),
            decreases keys@.len() - i,
        {
            if let Err(key) = self.request_chunk(keys[i]) {
                assert(keys@.to_set().contains(keys@[i as int]));
                failed = Some(key);
            } else {
                assert(keys@.take(i + 1) =~= keys@.take(i as int).push(keys@[i as int]));
            }
            i = i + 1;
        }
        proof {
            let n: int = if failed is Some { i - 1 } else { i as int };
            let fresh = keys@.take(n);
            assert forall|a: int| 0 <= a < fresh.len() implies missing_keys(
                old(cache)@,
                *window,
            ).contains(#[trigger] fresh[a]) by {
                assert(keys@.to_set().contains(keys@[a]));
            }
            assert(walk_sorted(fresh));
            if failed is None {
                assert(keys@.take(i as int) =~= keys@);
            }
        }
        match failed {
            Some(key) => Err(key),
            None => Ok(keys),
        }
    }
}

/// Each key is requested at most once over the cache's lifetime. Suppose
/// every key sent so far has a cache entry and none was sent twice. A
/// request step sends keys of the window that the cache lacked, in walk
/// order, and reconciles the cache; storing a result only sets an entry.
/// After either, the same holds.
pub proof fn lemma_requests_unique<T>(
    sent: Seq<ChunkKey>,
    fresh: Seq<ChunkKey>,
    m: Map<ChunkKey, TextureEntry<T>>,
    w: ChunkWindow,
    key: ChunkKey,
    texture: T,
)
    requires
        sent.no_duplicates(),
        forall|i: int| 0 <= i < sent.len() ==> m.contains_key(#[trigger] sent[i]),
        walk_sorted(fresh),
        forall|i: int| 0 <= i < fresh.len() ==> missing_keys(m, w).contains(#[trigger] fresh[i]),
    ensures
        (sent + fresh).no_duplicates(),
        forall|i: int|
            0 <= i < (sent + fresh).len() ==> reconciled(m, w).contains_key(#[trigger] (sent + fresh)[i]),
        forall|i: int|
            0 <= i < sent.len() ==> m.insert(key, TextureEntry::Valid(texture)).contains_key(
                #[trigger] sent[i],
            ),
{
    let all = sent + fresh;
    assert forall|i: int, j: int| 0 <= i < all.len() && 0 <= j < all.len() && i != j implies all[i]
        != all[j] by {
        if i < sent.len() && j < sent.len() {
        } else if i >= sent.len() && j >= sent.len() {
            let (a, b) = (i - sent.len(), j - sent.len());
            if a < b {
                assert(key_before(fresh[a], fresh[b]));
            } else {
                assert(key_before(fresh[b], fresh[a]));
            }
        } else if i < sent.len() {
            assert(m.contains_key(sent[i]));
            assert(missing_keys(m, w).contains(fresh[j - sent.len()]));
        } else {
            assert(m.contains_key(sent[j]));
            assert(missing_keys(m, w).contains(fresh[i - sent.len()]));
        }
    }
    assert forall|i: int| 0 <= i < all.len() implies reconciled(m, w).contains_key(
        #[trigger] all[i],
    ) by {
        if i < sent.len() {
            assert(m.contains_key(sent[i]));
        } else {
            assert(missing_keys(m, w).contains(fresh[i - sent.len()]));
        }
    }
}

} // verus!
