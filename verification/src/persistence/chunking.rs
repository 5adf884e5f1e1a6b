//! Chunked export: splitting a snapshot image into bounded-size pieces
//! for a host that moves data in chunks, and reassembling them. No
//! piece exceeds the caller's chunk size, and reassembly is
//! byte-identical.

use vstd::prelude::*;

verus! {

/// The bytes of a chunk list, concatenated in order.
pub open spec fn spec_chunks_concat(chunks: Seq<Seq<u8>>) -> Seq<u8>
    decreases chunks.len(),
{
    if chunks.len() == 0 {
        Seq::empty()
    } else {
        chunks[0] + spec_chunks_concat(chunks.subrange(1, chunks.len() as int))
    }
}

/// The byte views of a list of chunks.
pub open spec fn spec_chunk_views(chunks: Seq<Vec<u8>>) -> Seq<Seq<u8>> {
    chunks.map_values(|c: Vec<u8>| c@)
}

/// Appending a chunk extends the concatenation by its bytes.
proof fn lemma_chunks_concat_push(chunks: Seq<Seq<u8>>, c: Seq<u8>)
    ensures
        spec_chunks_concat(chunks.push(c)) == spec_chunks_concat(chunks) + c,
    decreases chunks.len(),
{
    let all = chunks.push(c);
    if chunks.len() == 0 {
        assert(all.subrange(1, all.len() as int) =~= Seq::<Seq<u8>>::empty());
        assert(all[0] == c);
        assert(chunks =~= Seq::<Seq<u8>>::empty());
        assert(c + Seq::<u8>::empty() =~= c);
        assert(Seq::<u8>::empty() + c =~= c);
    } else {
        let tail = chunks.subrange(1, chunks.len() as int);
        assert(all.subrange(1, all.len() as int) =~= tail.push(c));
        lemma_chunks_concat_push(tail, c);
        assert(all[0] == chunks[0]);
        assert(spec_chunks_concat(all) == chunks[0] + (spec_chunks_concat(tail) + c));
        assert(chunks[0] + (spec_chunks_concat(tail) + c) =~= (chunks[0] + spec_chunks_concat(
            tail,
        )) + c);
        assert(spec_chunks_concat(chunks) == chunks[0] + spec_chunks_concat(tail));
    }
}

/// Splits bytes into chunks of at most `chunk_size` bytes: every chunk
/// but the last is exactly `chunk_size` long, no chunk is empty, and
/// the chunks concatenate back to the input. No transient allocation
/// exceeds one chunk beyond the output itself.
pub fn chunk_bytes(data: &[u8], chunk_size: usize) -> (r: Vec<Vec<u8>>)
    requires
        chunk_size > 0,
    ensures
        spec_chunks_concat(spec_chunk_views(r@)) == data@,
        forall|k: int| 0 <= k < r@.len() ==> 0 < (#[trigger] r@[k])@.len() <= chunk_size,
        forall|k: int| 0 <= k < r@.len() - 1 ==> (#[trigger] r@[k])@.len() == chunk_size,
{
    let total = data.len();
    let mut out: Vec<Vec<u8>> = Vec::new();
    let mut pos: usize = 0;
    proof {
        assert(spec_chunks_concat(spec_chunk_views(out@)) =~= data@.subrange(0, 0)) by {
            assert(spec_chunk_views(out@) =~= Seq::<Seq<u8>>::empty());
        }
    }
    while pos < total
        invariant
            chunk_size > 0,
            total == data@.len(),
            0 <= pos <= total,
            spec_chunks_concat(spec_chunk_views(out@)) == data@.subrange(0, pos as int),
            forall|k: int| 0 <= k < out@.len() ==> 0 < (#[trigger] out@[k])@.len() <= chunk_size,
            forall|k: int| 0 <= k < out@.len() ==> (#[trigger] out@[k])@.len() == chunk_size,
            pos == out@.len() * chunk_size,
        decreases total - pos,
    {
        let end = if total - pos < chunk_size {
            total
        } else {
            pos + chunk_size
        };
        let piece = vstd::slice::slice_to_vec(vstd::slice::slice_subrange(data, pos, end));
        proof {
            lemma_chunks_concat_push(spec_chunk_views(out@), piece@);
            assert(spec_chunk_views(out@.push(piece)) =~= spec_chunk_views(out@).push(piece@));
            assert(data@.subrange(0, pos as int) + data@.subrange(pos as int, end as int)
                =~= data@.subrange(0, end as int));
            assert((out@.len() + 1) * chunk_size == out@.len() * chunk_size + chunk_size)
                by (nonlinear_arith);
        }
        let is_full = end - pos == chunk_size;
        out.push(piece);
        pos = end;
        if !is_full {
            proof {
                assert(pos == total);
                assert(data@.subrange(0, total as int) =~= data@);
            }
            return out;
        }
    }
    proof {
        assert(data@.subrange(0, total as int) =~= data@);
    }
    out
}

/// Reassembles chunks into one byte string, in order.
pub fn assemble_chunks(chunks: &Vec<Vec<u8>>) -> (r: Vec<u8>)
    ensures
        r@ == spec_chunks_concat(spec_chunk_views(chunks@)),
{
    let mut out: Vec<u8> = Vec::new();
    let mut i: usize = 0;
    proof {
        assert(spec_chunk_views(chunks@).subrange(0, 0) =~= Seq::<Seq<u8>>::empty());
        assert(spec_chunks_concat(spec_chunk_views(chunks@).subrange(0, 0)) =~= Seq::<u8>::empty());
    }
    while i < chunks.len()
        invariant
            0 <= i <= chunks@.len(),
            out@ == spec_chunks_concat(spec_chunk_views(chunks@).subrange(0, i as int)),
        decreases chunks@.len() - i,
    {
        let chunk = vstd::slice::slice_to_vec(chunks[i].as_slice());
        let ghost views = spec_chunk_views(chunks@);
        proof {
            lemma_chunks_concat_push(views.subrange(0, i as int), views[i as int]);
            assert(views.subrange(0, i + 1) =~= views.subrange(0, i as int).push(
                views[i as int],
            ));
        }
        let mut piece = chunk;
        out.append(&mut piece);
        i = i + 1;
    }
    proof {
        assert(spec_chunk_views(chunks@).subrange(0, chunks@.len() as int) =~= spec_chunk_views(
            chunks@,
        ));
    }
    out
}

} // verus!
