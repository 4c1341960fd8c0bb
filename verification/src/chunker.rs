//! Splitting a document into overlapping fixed-width chunks of code points.
//!
//! A window of `size` code points slides over the text, advancing by
//! `step = size - overlap` at each move; the final window may be narrower.
//! Text no longer than one window yields exactly one chunk.

use vstd::prelude::*;

verus! {

/// The sequence of views of a sequence of strings.
pub open spec fn views_of(v: Seq<String>) -> Seq<Seq<char>> {
    v.map_values(|s: String| s@)
}

/// The chunks of `text` under window width `size` and advance `step`.
pub open spec fn chunks_of(text: Seq<char>, size: nat, step: nat) -> Seq<Seq<char>>
    decreases text.len()
        when 0 < step && step <= size
{
    if text.len() <= size {
        seq![text]
    } else {
        seq![text.take(size as int)] + chunks_of(text.skip(step as int), size, step)
    }
}

/// What remains of a chunk sequence after the leading chunk, once the
/// `overlap` code points each chunk shares with its predecessor are dropped.
pub open spec fn tail_join(cs: Seq<Seq<char>>, overlap: nat) -> Seq<char>
    decreases cs.len(),
{
    if cs.len() == 0 {
        Seq::empty()
    } else {
        cs[0].skip(overlap as int) + tail_join(cs.drop_first(), overlap)
    }
}

/// Rejoins a chunk sequence: the first chunk whole, every later chunk with
/// its leading `overlap` code points removed.
pub open spec fn rejoin(cs: Seq<Seq<char>>, overlap: nat) -> Seq<char> {
    if cs.len() == 0 {
        Seq::empty()
    } else {
        cs[0] + tail_join(cs.drop_first(), overlap)
    }
}

proof fn lemma_tail_join_chunks(text: Seq<char>, size: nat, step: nat)
    requires
        0 < step <= size,
        size - step < text.len(),
    ensures
        tail_join(chunks_of(text, size, step), (size - step) as nat) == text.skip(
            size as int - step as int,
        ),
    decreases text.len(),
{
    let ov = size as int - step as int;
    let ovn = (size - step) as nat;
    let cs = chunks_of(text, size, step);
    if text.len() <= size {
        assert(cs == seq![text]);
        assert(cs.drop_first() =~= Seq::<Seq<char>>::empty());
        assert(tail_join(cs.drop_first(), ovn) == Seq::<char>::empty());
        assert(tail_join(cs, ovn) == text.skip(ov) + Seq::<char>::empty());
        assert(text.skip(ov) + Seq::<char>::empty() =~= text.skip(ov));
    } else {
        let tail = text.skip(step as int);
        lemma_tail_join_chunks(tail, size, step);
        assert(cs == seq![text.take(size as int)] + chunks_of(tail, size, step));
        assert(cs.drop_first() =~= chunks_of(tail, size, step));
        assert(tail_join(cs, ovn) == text.take(size as int).skip(ov) + tail.skip(ov));
        assert(tail.skip(ov) =~= text.skip(size as int));
        assert(text.take(size as int).skip(ov) + text.skip(size as int) =~= text.skip(ov));
    }
}

/// Rejoining the chunks with overlap removal reconstructs the text exactly:
/// the chunks cover the text end-to-end, each sharing `size - step` code
/// points with its predecessor.
pub proof fn lemma_chunks_rejoin(text: Seq<char>, size: nat, step: nat)
    requires
        0 < step <= size,
    ensures
        rejoin(chunks_of(text, size, step), (size - step) as nat) == text,
    decreases text.len(),
{
    let ov = size as int - step as int;
    let cs = chunks_of(text, size, step);
    if text.len() <= size {
        assert(cs.drop_first() =~= Seq::<Seq<char>>::empty());
        assert(text + Seq::<char>::empty() =~= text);
    } else {
        let tail = text.skip(step as int);
        lemma_tail_join_chunks(tail, size, step);
        assert(cs.drop_first() =~= chunks_of(tail, size, step));
        assert(tail.skip(ov) =~= text.skip(size as int));
        assert(text.take(size as int) + text.skip(size as int) =~= text);
    }
}

/// Every chunk is at most `size` code points; every chunk but the last is
/// exactly `size`; when the text is wider than one window, every chunk,
/// the last included, is strictly longer than the overlap, so no chunk is
/// empty.
pub proof fn lemma_chunk_lengths(text: Seq<char>, size: nat, step: nat)
    requires
        0 < step <= size,
    ensures
        chunks_of(text, size, step).len() >= 1,
        forall|i: int|
            0 <= i < chunks_of(text, size, step).len() ==> #[trigger] chunks_of(
                text,
                size,
                step,
            )[i].len() <= size,
        forall|i: int|
            0 <= i < chunks_of(text, size, step).len() - 1 ==> #[trigger] chunks_of(
                text,
                size,
                step,
            )[i].len() == size,
        text.len() > size ==> forall|i: int|
            0 <= i < chunks_of(text, size, step).len() ==> #[trigger] chunks_of(
                text,
                size,
                step,
            )[i].len() > size - step,
    decreases text.len(),
{
    if text.len() <= size {
    } else {
        let tail = text.skip(step as int);
        lemma_chunk_lengths(tail, size, step);
        let cs = chunks_of(text, size, step);
        let rest = chunks_of(tail, size, step);
        assert forall|i: int| 0 <= i < cs.len() implies #[trigger] cs[i].len() <= size by {
            if i > 0 {
                assert(cs[i] == rest[i - 1]);
            }
        }
        assert forall|i: int| 0 <= i < cs.len() - 1 implies #[trigger] cs[i].len() == size by {
            if i > 0 {
                assert(cs[i] == rest[i - 1]);
            }
        }
        assert forall|i: int| 0 <= i < cs.len() implies #[trigger] cs[i].len() > size - step by {
            if i > 0 {
                assert(cs[i] == rest[i - 1]);
                if tail.len() <= size {
                    assert(rest[i - 1] == tail);
                }
            }
        }
    }
}

/// Text exactly one window wide (or narrower) yields exactly one chunk,
/// the whole text.
pub proof fn lemma_single_chunk(text: Seq<char>, size: nat, step: nat)
    requires
        0 < step <= size,
        text.len() <= size,
    ensures
        chunks_of(text, size, step) == seq![text],
{
}

/// Consecutive chunks overlap by exactly `size - step` code points: each
/// chunk's leading overlap repeats the tail of its predecessor.
pub proof fn lemma_chunk_overlap(text: Seq<char>, size: nat, step: nat)
    requires
        0 < step <= size,
    ensures
        forall|i: int|
            0 <= i < chunks_of(text, size, step).len() - 1 ==> #[trigger] chunks_of(
                text,
                size,
                step,
            )[i + 1].take(size as int - step as int) == chunks_of(text, size, step)[i].skip(
                step as int,
            ),
    decreases text.len(),
{
    let ov = size as int - step as int;
    let cs = chunks_of(text, size, step);
    if text.len() <= size {
    } else {
        let tail = text.skip(step as int);
        lemma_chunk_overlap(tail, size, step);
        let rest = chunks_of(tail, size, step);
        assert forall|i: int| 0 <= i < cs.len() - 1 implies #[trigger] cs[i + 1].take(ov)
            == cs[i].skip(step as int) by {
            if i == 0 {
                assert(cs[1] == rest[0]);
                if tail.len() <= size {
                    assert(rest[0] == tail);
                } else {
                    assert(rest[0] == tail.take(size as int));
                }
                assert(cs[1].take(ov) =~= text.take(size as int).skip(step as int));
            } else {
                assert(cs[i + 1] == rest[i]);
                assert(cs[i] == rest[i - 1]);
                assert(rest[(i - 1) + 1].take(ov) == rest[i - 1].skip(step as int));
            }
        }
    }
}

/// Splits `text` into overlapping chunks of at most `chunk_size` code points,
/// consecutive chunks sharing `chunk_overlap` code points.
///
/// The overlap must be strictly smaller than the window, else the window
/// could never advance.
pub fn chunk_text(text: &str, chunk_size: usize, chunk_overlap: usize) -> (chunks: Vec<String>)
    requires
        chunk_overlap < chunk_size,
    ensures
        views_of(chunks@) == chunks_of(text@, chunk_size as nat, (chunk_size - chunk_overlap) as nat),
{
    let step: usize = chunk_size - chunk_overlap;
    let n: usize = text.unicode_len();
    let ghost gsize = chunk_size as nat;
    let ghost gstep = step as nat;
    let mut chunks: Vec<String> = Vec::new();
    if n <= chunk_size {
        chunks.push(text.to_owned());
        proof {
            assert(views_of(chunks@) =~= chunks_of(text@, gsize, gstep));
        }
        return chunks;
    }
    let mut start: usize = 0;
    proof {
        assert(text@.skip(0) =~= text@);
    }
    loop
        invariant
            0 < step <= chunk_size,
            step == chunk_size - chunk_overlap,
            gstep == step as nat,
            gsize == chunk_size as nat,
            n == text@.len(),
            start < n,
            chunks_of(text@, gsize, gstep) =~= views_of(chunks@) + chunks_of(
                text@.skip(start as int),
                gsize,
                gstep,
            ),
        decreases n - start,
    {
        let remaining: usize = n - start;
        if remaining <= chunk_size {
            let piece = text.substring_char(start, n);
            chunks.push(piece.to_owned());
            proof {
                assert(text@.subrange(start as int, n as int) =~= text@.skip(start as int));
                assert(views_of(chunks@) =~= chunks_of(text@, gsize, gstep));
            }
            return chunks;
        } else {
            let end: usize = start + chunk_size;
            let piece = text.substring_char(start, end);
            chunks.push(piece.to_owned());
            proof {
                let tail = text@.skip(start as int);
                assert(text@.subrange(start as int, end as int) =~= tail.take(chunk_size as int));
                assert(tail.skip(step as int) =~= text@.skip(start as int + step as int));
                assert(chunks_of(text@, gsize, gstep) =~= views_of(chunks@) + chunks_of(
                    text@.skip((start + step) as int),
                    gsize,
                    gstep,
                ));
            }
            start = start + step;
        }
    }
}

} // verus!
