use crate::pool::SolvablePuzzle;
use crate::puzzle::{checksum, checksum_of};
use vstd::prelude::*;

verus! {

/// Most items that one document-store batch write may carry.
pub const BATCH_SIZE: usize = 25;

/// The eight bytes of `n`, most significant first.
pub open spec fn be_bytes_spec(n: u64) -> Seq<u8> {
    seq![
        (n >> 56u64) as u8,
        (n >> 48u64) as u8,
        (n >> 40u64) as u8,
        (n >> 32u64) as u8,
        (n >> 24u64) as u8,
        (n >> 16u64) as u8,
        (n >> 8u64) as u8,
        n as u8,
    ]
}

/// Encodes `n` big-endian.
pub fn be_bytes(n: u64) -> (r: Vec<u8>)
    ensures
        r@ == be_bytes_spec(n),
{
    let r: Vec<u8> = vec![
        (n >> 56u64) as u8,
        (n >> 48u64) as u8,
        (n >> 40u64) as u8,
        (n >> 32u64) as u8,
        (n >> 24u64) as u8,
        (n >> 16u64) as u8,
        (n >> 8u64) as u8,
        n as u8,
    ];
    proof {
        assert(r@ == be_bytes_spec(n));
    }
    r
}

/// One row of the relational table: size, checksum bytes, and the three
/// structured columns.
pub struct RelationalRow {
    pub height: i32,
    pub width: i32,
    pub hash: Vec<u8>,
    pub row_segments: Vec<Vec<usize>>,
    pub column_segments: Vec<Vec<usize>>,
    pub completed_grid: Vec<Vec<u8>>,
}

/// The relational row of a puzzle; its hash is the big-endian encoding of
/// the puzzle's checksum.
pub fn relational_row(p: SolvablePuzzle) -> (r: RelationalRow)
    ensures
        r.height == p.spec_puzzle().height as i32,
        r.width == p.spec_puzzle().width as i32,
        r.hash@ == be_bytes_spec(checksum_of(p.spec_puzzle().cells())),
        r.row_segments.deep_view() == p.spec_puzzle().rows(),
        r.column_segments.deep_view() == p.spec_puzzle().columns(),
        r.completed_grid.deep_view() == p.spec_puzzle().grid(),
{
    let q = p.into_puzzle();
    let sum = checksum(&q);
    RelationalRow {
        height: q.height as i32,
        width: q.width as i32,
        hash: be_bytes(sum),
        row_segments: q.row_segments,
        column_segments: q.column_segments,
        completed_grid: q.completed_grid,
    }
}

/// One document-store item: the checksum (stored as text), the size and the
/// three nested numeric lists.
pub struct DocumentItem {
    pub checksum: u64,
    pub height: usize,
    pub width: usize,
    pub row_segments: Vec<Vec<usize>>,
    pub column_segments: Vec<Vec<usize>>,
    pub completed_grid: Vec<Vec<u8>>,
}

/// The document-store item of a puzzle.
pub fn document_item(p: SolvablePuzzle) -> (r: DocumentItem)
    ensures
        r.checksum == checksum_of(p.spec_puzzle().cells()),
        r.height == p.spec_puzzle().height,
        r.width == p.spec_puzzle().width,
        r.row_segments.deep_view() == p.spec_puzzle().rows(),
        r.column_segments.deep_view() == p.spec_puzzle().columns(),
        r.completed_grid.deep_view() == p.spec_puzzle().grid(),
{
    let q = p.into_puzzle();
    let sum = checksum(&q);
    DocumentItem {
        checksum: sum,
        height: q.height,
        width: q.width,
        row_segments: q.row_segments,
        column_segments: q.column_segments,
        completed_grid: q.completed_grid,
    }
}

/// `chunks` cut `items` in order into pieces of `size`, the last one of
/// between 1 and `size` items.
pub open spec fn chunked<T>(items: Seq<T>, chunks: Seq<Seq<T>>, size: nat) -> bool {
    &&& chunks.flatten() == items
    &&& forall|i: int| 0 <= i < chunks.len() - 1 ==> (#[trigger] chunks[i]).len() == size
    &&& chunks.len() > 0 ==> 0 < chunks.last().len() <= size
}

pub open spec fn views_of<T>(chunks: Seq<Vec<T>>) -> Seq<Seq<T>> {
    chunks.map_values(|c: Vec<T>| c@)
}

/// Cuts `items` in order into batches of `size`, the last one possibly
/// shorter.
pub fn chunk_batches<T>(items: Vec<T>, size: usize) -> (r: Vec<Vec<T>>)
    requires
        size > 0,
    ensures
        chunked(items@, views_of(r@), size as nat),
        r@.len() == (items@.len() + size - 1) / size as int,
{
    let mut rest = items;
    let mut out: Vec<Vec<T>> = Vec::new();
    while rest.len() > 0
        invariant
            size > 0,
            views_of(out@).flatten() + rest@ == items@,
            forall|i: int| 0 <= i < out@.len() ==> 0 < (#[trigger] out@[i])@.len() <= size,
            forall|i: int|
                0 <= i < out@.len() && (rest@.len() > 0 || i < out@.len() - 1) ==> (
                #[trigger] out@[i])@.len() == size,
            out@.len() == 0 ==> rest@ == items@,
            rest@.len() > 0 ==> out@.len() * size + rest@.len() == items@.len(),
            rest@.len() == 0 && out@.len() > 0 ==> (out@.len() - 1) * size + out@[out@.len()
                - 1]@.len() == items@.len(),
        decreases rest@.len(),
    {
        let ghost before = out@;
        let chunk: Vec<T>;
        if rest.len() > size {
            let tail = rest.split_off(size);
            chunk = rest;
            rest = tail;
        } else {
            chunk = rest;
            rest = Vec::new();
        }
        out.push(chunk);
        proof {
            lemma_flatten_push(views_of(before), chunk@);
            assert(views_of(out@) == views_of(before).push(chunk@));
            assert(out@.len() * size == before.len() * size + size) by (nonlinear_arith)
                requires
                    out@.len() == before.len() + 1,
            ;
            assert(out@[out@.len() - 1] == chunk);
            if before.len() == 0 {
                assert(views_of(before).flatten() == Seq::<T>::empty());
            }
        }
    }
    proof {
        assert(views_of(out@).flatten() == items@);
        let n = out@.len();
        if n > 0 {
            assert(views_of(out@).last() == out@[n - 1]@);
        }
        lemma_chunk_count(n as int, size as int, items@.len() as int, out@[n - 1]@.len() as int);
    }
    out
}

proof fn lemma_flatten_push<T>(s: Seq<Seq<T>>, x: Seq<T>)
    ensures
        s.push(x).flatten() == s.flatten() + x,
{
    s.push(x).lemma_flatten_and_flatten_alt_are_equivalent();
    s.lemma_flatten_and_flatten_alt_are_equivalent();
    assert(s.push(x).drop_last() == s);
}

proof fn lemma_chunk_count(n: int, size: int, len: int, last: int)
    requires
        size > 0,
        n >= 0,
        n == 0 ==> len == 0,
        n > 0 ==> 0 < last <= size && len == (n - 1) * size + last,
    ensures
        n == (len + size - 1) / size,
{
    if n > 0 {
        assert((n - 1) * size + last + size - 1 == (n - 1) * size + (last + size - 1))
            by (nonlinear_arith);
        assert(((n - 1) * size + (last + size - 1)) / size == (n - 1) + (last + size - 1) / size)
            by (nonlinear_arith)
            requires
                size > 0,
                n >= 1,
                last + size - 1 >= 0,
        ;
        assert((last + size - 1) / size == 1) by (nonlinear_arith)
            requires
                size > 0,
                0 < last <= size,
        ;
    } else {
        assert((size - 1) / size == 0) by (nonlinear_arith)
            requires
                size > 0,
        ;
    }
}

/// The position of the first failed batch write, if any failed.
pub fn first_failed_batch(succeeded: &Vec<bool>) -> (r: Option<usize>)
    ensures
        r is None <==> forall|i: int| 0 <= i < succeeded@.len() ==> succeeded@[i],
        r matches Some(k) ==> k < succeeded@.len() && !succeeded@[k as int] && forall|i: int|
            0 <= i < k ==> succeeded@[i],
{
    let mut k: usize = 0;
    while k < succeeded.len()
        invariant
            k <= succeeded@.len(),
            forall|i: int| 0 <= i < k ==> succeeded@[i],
        decreases succeeded@.len() - k,
    {
        if !succeeded[k] {
            return Some(k);
        }
        k = k + 1;
    }
    None
}

} // verus!
