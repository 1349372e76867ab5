use vstd::prelude::*;
use crate::colour::Colour;

verus! {

/// Integer grid coordinate of one chunk in the unbounded world.
#[derive(Debug, Clone, Copy, PartialEq, Eq, Structural, Hash, PartialOrd, Ord)]
pub struct ChunkKey {
    pub x: i64,
    pub y: i64,
}

impl ChunkKey {
    pub fn new(x: i64, y: i64) -> (k: ChunkKey)
        ensures
            k == (ChunkKey { x, y }),
    {
        ChunkKey { x, y }
    }
}

/// Tiles along each side of a chunk.
pub const CHUNK_SIZE: usize = 512;

/// The colours of one row, as the bytes of an RGBA texture row.
pub open spec fn row_bytes(row: Seq<Colour>) -> Seq<u8> {
    row.map_values(|c: Colour| c.bytes()).flatten()
}

/// The colours of a grid, row after row, as the bytes of an RGBA texture.
pub open spec fn texture_bytes(rows: Seq<Seq<Colour>>) -> Seq<u8> {
    rows.map_values(|r: Seq<Colour>| row_bytes(r)).flatten()
}

/// Whether a grid is complete: `CHUNK_SIZE` rows of `CHUNK_SIZE` colours.
pub open spec fn is_dense(rows: Seq<Seq<Colour>>) -> bool {
    &&& rows.len() == CHUNK_SIZE
    &&& forall|i: int| 0 <= i < rows.len() ==> (#[trigger] rows[i]).len() == CHUNK_SIZE
}

/// One generated chunk: its key and its complete grid of colours.
pub struct Chunk {
    key: ChunkKey,
    samples: Vec<Vec<Colour>>,
}

impl View for Chunk {
    type V = (ChunkKey, Seq<Seq<Colour>>);

    closed spec fn view(&self) -> (ChunkKey, Seq<Seq<Colour>>) {
        (self.key, self.samples@.map_values(|r: Vec<Colour>| r@))
    }
}

impl Chunk {
    #[verifier::type_invariant]
    pub open spec fn dense(self) -> bool {
        is_dense(self@.1)
    }

    /// A chunk from a generated grid; `None` unless the grid is complete.
    pub fn new(key: ChunkKey, samples: Vec<Vec<Colour>>) -> (r: Option<Chunk>)
        ensures
            r is Some <==> is_dense(samples@.map_values(|row: Vec<Colour>| row@)),
            r is Some ==> r->Some_0@ == (key, samples@.map_values(|row: Vec<Colour>| row@)),
    {
        let ghost rows = samples@.map_values(|row: Vec<Colour>| row@);
        if samples.len() != CHUNK_SIZE {
            return None;
        }
        let mut i: usize = 0;
        while i < samples.len()
            invariant
                samples@.len() == CHUNK_SIZE,
                rows == samples@.map_values(|row: Vec<Colour>| row@),
                i <= samples@.len(),
                forall|j: int| 0 <= j < i ==> (#[trigger] rows[j]).len() == CHUNK_SIZE,
            decreases samples@.len() - i,
        {
            if samples[i].len() != CHUNK_SIZE {
                assert(rows[i as int].len() != CHUNK_SIZE);
                return None;
            }
            i = i + 1;
        }
        Some(Chunk { key, samples })
    }

    pub fn key(&self) -> (k: ChunkKey)
        ensures
            k == self@.0,
    {
        self.key
    }

    /// The grid as RGBA texture bytes, row after row, four per colour.
    pub fn texture(&self) -> (r: SizedIteratorWrapper<u8>)
        ensures
            r@ == texture_bytes(self@.1),
            r@.len() == 4 * CHUNK_SIZE * CHUNK_SIZE,
            r.size() == 4 * CHUNK_SIZE * CHUNK_SIZE,
    {
        proof {
            use_type_invariant(self);
        }
        let ghost rows = self@.1;
        let mut out: Vec<u8> = Vec::new();
        let mut i: usize = 0;
        while i < self.samples.len()
            invariant
                rows == self@.1,
                is_dense(rows),
                i <= CHUNK_SIZE,
                out@ == texture_bytes(rows.take(i as int)),
                out@.len() == 4 * CHUNK_SIZE * i,
            decreases CHUNK_SIZE - i,
        {
            let row = &self.samples[i];
            let ghost done = out@;
            assert(row@ == rows[i as int]);
            let mut j: usize = 0;
            while j < row.len()
                invariant
                    rows == self@.1,
                    is_dense(rows),
                    i < CHUNK_SIZE,
                    row@ == rows[i as int],
                    j <= CHUNK_SIZE,
                    done == texture_bytes(rows.take(i as int)),
                    done.len() == 4 * CHUNK_SIZE * i,
                    out@ == done + row_bytes(row@.take(j as int)),
                    out@.len() == done.len() + 4 * j,
                decreases CHUNK_SIZE - j,
            {
                let c = row[j];
                let ghost before = out@;
                let a = c.as_array();
                out.push(a[0]);
                out.push(a[1]);
                out.push(a[2]);
                out.push(a[3]);
                proof {
                    let f = |c: Colour| c.bytes();
                    assert(row@.take(j + 1) =~= row@.take(j as int).push(c));
                    assert(row@.take(j + 1).map_values(f) =~= row@.take(j as int).map_values(f).push(
                        c.bytes(),
                    ));
                    row@.take(j as int).map_values(f).lemma_flatten_push(c.bytes());
                    assert(out@ =~= before + c.bytes());
                }
                j = j + 1;
            }
            proof {
                let g = |r: Seq<Colour>| row_bytes(r);
                assert(j == CHUNK_SIZE);
                let (n, ii) = (out@.len() as int, i as int);
                assert(n == 2048 * (ii + 1)) by (nonlinear_arith)
                    requires
                        n == 2048 * ii + 2048,
                ;
                assert(row@.take(j as int) =~= row@);
                assert(rows.take(i + 1) =~= rows.take(i as int).push(rows[i as int]));
                assert(rows.take(i + 1).map_values(g) =~= rows.take(i as int).map_values(g).push(
                    row_bytes(rows[i as int]),
                ));
                rows.take(i as int).map_values(g).lemma_flatten_push(row_bytes(rows[i as int]));
            }
            i = i + 1;
        }
        assert(rows.take(i as int) =~= rows);
        SizedIteratorWrapper::new(out, 4 * CHUNK_SIZE * CHUNK_SIZE)
    }
}

/// Items handed out one at a time, front first, with a declared total
/// count from which the number still to come is known in advance.
pub struct SizedIteratorWrapper<T> {
    rest: Vec<T>,
    size: usize,
    taken: usize,
}

impl<T> View for SizedIteratorWrapper<T> {
    type V = Seq<T>;

    /// The items still to come, in order.
    closed spec fn view(&self) -> Seq<T> {
        self.rest@.reverse()
    }
}

impl<T> SizedIteratorWrapper<T> {
    /// The declared number of items still to come.
    pub closed spec fn size(&self) -> nat {
        if self.taken <= self.size { (self.size - self.taken) as nat } else { 0 }
    }

    /// Hands out the items of `inner` in order, reporting `size` items.
    pub fn new(inner: Vec<T>, size: usize) -> (r: SizedIteratorWrapper<T>)
        ensures
            r@ == inner@,
            r.size() == size,
    {
        let mut inner = inner;
        let ghost all = inner@;
        let mut rest: Vec<T> = Vec::new();
        while inner.len() > 0
            invariant
                all == inner@ + rest@.reverse(),
            decreases inner@.len(),
        {
            let ghost before = rest@;
            let item = inner.pop().unwrap();
            rest.push(item);
            assert(rest@.reverse() =~= seq![item] + before.reverse());
        }
        assert(all =~= rest@.reverse());
        SizedIteratorWrapper { rest, size, taken: 0 }
    }

    /// The next item, if any is left.
    pub fn next(&mut self) -> (r: Option<T>)
        ensures
            old(self)@.len() == 0 ==> r is None && final(self)@ == old(self)@,
            old(self)@.len() > 0 ==> r == Some(old(self)@[0]) && final(self)@ == old(self)@.drop_first(),
            old(self)@.len() > 0 ==> final(self).size() == if old(self).size() > 0 {
                old(self).size() - 1
            } else {
                0
            },
    {
        match self.rest.pop() {
            Some(item) => {
                assert(old(self)@ =~= seq![item] + self@);
                if self.taken < usize::MAX {
                    self.taken = self.taken + 1;
                }
                Some(item)
            },
            None => None,
        }
    }

    /// Lower and upper bound of the items still to come, both the declared
    /// count.
    pub fn size_hint(&self) -> (r: (usize, Option<usize>))
        ensures
            r.0 == self.size(),
            r.1 == Some(self.size() as usize),
    {
        let left = if self.taken <= self.size { self.size - self.taken } else { 0 };
        (left, Some(left))
    }
}

} // verus!
