//! The chunk source: splits an in-memory payload into fixed-size,
//! contiguous, non-overlapping byte ranges whose concatenation in index
//! order is exactly the payload.

use vstd::prelude::*;
use vstd::arithmetic::div_mod::{lemma_basic_div, lemma_fundamental_div_mod_converse};
use vstd::slice::{slice_subrange, slice_to_vec};

verus! {

/// One chunk of a payload: a 0-based index and the bytes of its range.
pub struct Chunk {
    pub index: u16,
    pub bytes: Vec<u8>,
}

/// How many chunks a payload of `len` bytes yields at `size` bytes per
/// chunk: the last chunk may be shorter.
pub open spec fn chunk_count(len: nat, size: nat) -> nat {
    if size == 0 {
        0
    } else {
        ((len + size - 1) / size as int) as nat
    }
}

/// The byte range of chunk `i`.
pub open spec fn chunk_range(payload: Seq<u8>, size: nat, i: int) -> Seq<u8> {
    payload.subrange(
        i * size,
        if (i + 1) * size <= payload.len() {
            (i + 1) * size
        } else {
            payload.len() as int
        },
    )
}

/// The concatenation of a sequence of chunks, in order.
pub open spec fn concat_chunks(cs: Seq<Chunk>) -> Seq<u8>
    decreases cs.len(),
{
    if cs.len() == 0 {
        Seq::<u8>::empty()
    } else {
        concat_chunks(cs.drop_last()) + cs.last().bytes@
    }
}

/// Computes the number of chunks.
pub fn chunk_count_exec(len: usize, size: usize) -> (r: usize)
    requires
        size >= 1,
        chunk_count(len as nat, size as nat) <= usize::MAX,
    ensures
        r == chunk_count(len as nat, size as nat),
{
    let q = len / size;
    let rem = len % size;
    proof {
        vstd::arithmetic::div_mod::lemma_fundamental_div_mod(len as int, size as int);
        assert(q * size == size * q) by (nonlinear_arith);
        assert(len == q * size + rem);
        assert((q + 1) * size == q * size + size) by (nonlinear_arith);
        if rem == 0 {
            lemma_fundamental_div_mod_converse(
                len + size - 1,
                size as int,
                q as int,
                size - 1,
            );
        } else {
            lemma_fundamental_div_mod_converse(
                len + size - 1,
                size as int,
                q + 1,
                rem - 1,
            );
        }
    }
    if rem == 0 {
        q
    } else {
        q + 1
    }
}

/// Splits a payload into chunks of `chunk_size` bytes, indexed from zero;
/// the last chunk holds whatever remains. Concatenating the chunks in
/// index order reconstructs the payload exactly.
pub fn chunk_payload(payload: &Vec<u8>, chunk_size: usize) -> (r: Vec<Chunk>)
    requires
        chunk_size >= 1,
        payload.len() <= chunk_size * 0xFFFF,
    ensures
        r@.len() == chunk_count(payload@.len(), chunk_size as nat),
        forall|i: int|
            0 <= i < r@.len() ==> (#[trigger] r@[i]).index == i && r@[i].bytes@ == chunk_range(
                payload@,
                chunk_size as nat,
                i,
            ),
        concat_chunks(r@) == payload@,
{
    let n = payload.len();
    let ghost size = chunk_size as int;
    let mut r: Vec<Chunk> = Vec::new();
    let mut off: usize = 0;
    proof {
        assert(0int * size == 0) by (nonlinear_arith);
        if n == 0 {
            lemma_basic_div(size - 1, size);
        }
    }
    while off < n
        invariant
            chunk_size >= 1,
            n == payload@.len(),
            n <= chunk_size * 0xFFFF,
            size == chunk_size as int,
            off <= n,
            off < n ==> off == r@.len() * size,
            off == n ==> r@.len() == chunk_count(n as nat, chunk_size as nat),
            r@.len() <= 0xFFFF,
            forall|i: int|
                0 <= i < r@.len() ==> (#[trigger] r@[i]).index == i && r@[i].bytes@
                    == chunk_range(payload@, chunk_size as nat, i),
            concat_chunks(r@) == payload@.subrange(0, off as int),
        decreases n - off,
    {
        let ghost len0 = r@.len() as int;
        proof {
            assert(len0 < 0xFFFF) by (nonlinear_arith)
                requires
                    len0 * size < n,
                    n <= size * 0xFFFF,
                    size >= 1,
                    len0 >= 0,
            ;
        }
        let end: usize = if n - off < chunk_size {
            n
        } else {
            off + chunk_size
        };
        let idx: u16 = r.len() as u16;
        let piece = slice_to_vec(slice_subrange(payload.as_slice(), off, end));
        let ghost r_old = r@;
        r.push(Chunk { index: idx, bytes: piece });
        proof {
            assert(r@.drop_last() =~= r_old);
            assert((len0 + 1) * size == len0 * size + size) by (nonlinear_arith);
            assert(r@.last().bytes@ == chunk_range(payload@, chunk_size as nat, len0));
            assert(concat_chunks(r@) == concat_chunks(r_old) + r@.last().bytes@);
            assert(concat_chunks(r@) =~= payload@.subrange(0, end as int));
            if end == n {
                // the chunk just pushed is the last one: the total count is
                // one more than the number of full chunks before it.
                let m = n - len0 * size;
                assert(1 <= m <= size);
                lemma_fundamental_div_mod_converse(
                    n + size - 1,
                    size,
                    len0 + 1,
                    m - 1,
                ) ;
                assert((len0 + 1) * size + (m - 1) == n + size - 1) by (nonlinear_arith)
                    requires
                        m == n - len0 * size,
                ;
            }
        }
        off = end;
    }
    proof {
        assert(payload@.subrange(0, n as int) =~= payload@);
    }
    r
}

} // verus!
