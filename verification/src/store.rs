//! The in-memory vector store: all-or-nothing indexing, clearing, and
//! similarity-ranked retrieval.
//!
//! Indexing hands in one prepared chunk text per embedding outcome; the
//! store commits either every chunk of the call or none. Retrieval scores
//! every stored chunk against the query embedding, takes the best-scored
//! chunks in rank order and joins their contents with a fixed delimiter.

use vstd::prelude::*;
use crate::embedding::EmbedError;
use crate::embedding::embedding_within_limits;
use crate::ranking::all_free;
use crate::ranking::best_scan;
use crate::ranking::free_count;
use crate::ranking::lemma_best_scan;
use crate::ranking::lemma_free_count_all_free;
use crate::ranking::lemma_top_ranked;
use crate::ranking::outranks;
use crate::ranking::top_ranked;
use crate::similarity::Score;
use crate::similarity::bounded;
use crate::similarity::cosine_similarity;
use crate::similarity::lemma_cosine_wf;
use crate::similarity::score_is_lt;
use crate::similarity::score_wf;
use crate::similarity::spec_cosine;

verus! {

/// How many top-ranked chunks one retrieval returns at most.
pub const TOP_K: usize = 3;

/// One stored chunk: its text and its fixed-point embedding.
pub struct Chunk {
    pub content: String,
    pub embedding: Vec<i64>,
}

/// A chunk the store accepts: a non-empty embedding within the scorer's
/// fixed-point range.
pub open spec fn chunk_wf(c: Chunk) -> bool {
    c.embedding@.len() >= 1 && bounded(c.embedding@)
}

/// The in-memory vector store, an ordered collection of chunks.
pub struct VectorStore {
    chunks: Vec<Chunk>,
}

impl View for VectorStore {
    type V = Seq<Chunk>;

    closed spec fn view(&self) -> Seq<Chunk> {
        self.chunks@
    }
}

/// The scores of every chunk against one query embedding, in store order.
pub open spec fn scores_of(chunks: Seq<Chunk>, q: Seq<i64>) -> Seq<Score> {
    chunks.map_values(|c: Chunk| spec_cosine(q, c.embedding@))
}

/// The contents of the chunks at the given indices, in that order.
pub open spec fn contents_at(chunks: Seq<Chunk>, idxs: Seq<int>) -> Seq<Seq<char>> {
    idxs.map_values(|i: int| chunks[i].content@)
}

/// The delimiter between two ranked chunk contents in a retrieval result.
pub open spec fn context_delimiter() -> Seq<char> {
    "\n\n---\n\n"@
}

/// The parts joined with the delimiter between consecutive parts.
pub open spec fn joined(parts: Seq<Seq<char>>, delim: Seq<char>) -> Seq<char>
    decreases parts.len(),
{
    if parts.len() == 0 {
        Seq::empty()
    } else if parts.len() == 1 {
        parts[0]
    } else {
        parts[0] + delim + joined(parts.drop_first(), delim)
    }
}

/// What one retrieval returns: the contents of the `k` best-scored chunks,
/// rank order, joined with the delimiter.
pub open spec fn retrieval_spec(chunks: Seq<Chunk>, q: Seq<i64>, k: nat) -> Seq<char> {
    joined(
        contents_at(
            chunks,
            top_ranked(scores_of(chunks, q), all_free(chunks.len()), k),
        ),
        context_delimiter(),
    )
}

/// Whether one embedding outcome blocks a commit.
pub open spec fn has_problem(o: Result<Vec<i64>, EmbedError>) -> bool {
    match o {
        Result::Err(_) => true,
        Result::Ok(v) => v@.len() == 0 || !bounded(v@),
    }
}

/// The error an outcome surfaces when it blocks a commit.
pub open spec fn the_problem(o: Result<Vec<i64>, EmbedError>) -> EmbedError {
    match o {
        Result::Err(e) => e,
        Result::Ok(v) => if v@.len() == 0 {
            EmbedError::EmptyVector
        } else {
            EmbedError::OutOfRange
        },
    }
}

/// The first blocking outcome at or after position `j`, `-1` if none.
pub open spec fn first_bad_from(outs: Seq<Result<Vec<i64>, EmbedError>>, j: int) -> int
    decreases outs.len() - j
        when 0 <= j <= outs.len()
{
    if j >= outs.len() {
        -1
    } else if has_problem(outs[j]) {
        j
    } else {
        first_bad_from(outs, j + 1)
    }
}

/// The first blocking outcome, `-1` if none.
pub open spec fn first_bad(outs: Seq<Result<Vec<i64>, EmbedError>>) -> int {
    first_bad_from(outs, 0)
}

/// The chunks one successful indexing call commits: each prepared text
/// paired with its embedding, in call order.
pub open spec fn committed_chunks(
    contents: Seq<String>,
    outcomes: Seq<Result<Vec<i64>, EmbedError>>,
) -> Seq<Chunk> {
    Seq::new(contents.len(), |i: int| Chunk { content: contents[i], embedding: outcomes[i]->Ok_0 })
}

proof fn lemma_joined_push(parts: Seq<Seq<char>>, delim: Seq<char>, x: Seq<char>)
    ensures
        joined(parts.push(x), delim) == if parts.len() == 0 {
            x
        } else {
            joined(parts, delim) + delim + x
        },
    decreases parts.len(),
{
    reveal_with_fuel(joined, 3);
    if parts.len() == 0 {
        assert(parts.push(x)[0] == x);
        assert(parts.push(x).len() == 1);
        assert(joined(parts.push(x), delim) == parts.push(x)[0]);
    } else if parts.len() == 1 {
        assert(parts.push(x).drop_first() =~= seq![x]);
        assert(joined(parts.push(x), delim) =~= joined(parts, delim) + delim + x);
    } else {
        lemma_joined_push(parts.drop_first(), delim, x);
        assert(parts.push(x).drop_first() =~= parts.drop_first().push(x));
        assert(parts[0] + delim + (joined(parts.drop_first(), delim) + delim + x) =~= (parts[0]
            + delim + joined(parts.drop_first(), delim)) + delim + x);
        assert(joined(parts.push(x), delim) =~= joined(parts, delim) + delim + x);
    }
}

/// Retrieval from an empty store is the empty context, never an error; in
/// particular any retrieval after a clear returns the empty context.
pub proof fn lemma_retrieve_empty(q: Seq<i64>, k: nat)
    ensures
        retrieval_spec(Seq::<Chunk>::empty(), q, k) == Seq::<char>::empty(),
{
    let s = scores_of(Seq::<Chunk>::empty(), q);
    assert(s.len() == 0);
    let r = top_ranked(s, all_free(0), k);
    assert(r == Seq::<int>::empty());
    assert(contents_at(Seq::<Chunk>::empty(), r) =~= Seq::<Seq<char>>::empty());
}

/// The retrieval ranking law: against any query, retrieval selects exactly
/// `min(k, n)` distinct stored chunks; each selected chunk outranks every
/// chunk selected after it and every chunk left unselected, where
/// outranking is a strictly greater cosine score, or an equal score at an
/// earlier store position.
pub proof fn lemma_retrieval_ranking(chunks: Seq<Chunk>, q: Seq<i64>, k: nat)
    requires
        forall|i: int| 0 <= i < chunks.len() ==> chunk_wf(#[trigger] chunks[i]),
        bounded(q),
    ensures
        ({
            let s = scores_of(chunks, q);
            let r = top_ranked(s, all_free(chunks.len()), k);
            &&& r.len() == if k <= chunks.len() {
                k as int
            } else {
                chunks.len() as int
            }
            &&& forall|a: int| 0 <= a < r.len() ==> 0 <= #[trigger] r[a] < chunks.len()
            &&& forall|a: int, b: int| 0 <= a < b < r.len() ==> outranks(s, r[a], r[b])
            &&& forall|a: int, j: int|
                0 <= a < r.len() && 0 <= j < chunks.len() && !r.contains(j) ==> outranks(
                    s,
                    r[a],
                    j,
                )
        }),
{
    let s = scores_of(chunks, q);
    assert forall|i: int| 0 <= i < s.len() implies score_wf(#[trigger] s[i]) by {
        lemma_cosine_wf(q, chunks[i].embedding@);
    }
    lemma_free_count_all_free(chunks.len());
    lemma_top_ranked(s, all_free(chunks.len()), k);
}

impl VectorStore {
    /// Every stored chunk is well-formed. Construction and every method
    /// preserve this.
    pub open spec fn wf(&self) -> bool {
        forall|i: int| 0 <= i < self@.len() ==> chunk_wf(#[trigger] self@[i])
    }

    /// A new, empty store.
    pub fn new() -> (s: Self)
        ensures
            s@ == Seq::<Chunk>::empty(),
            s.wf(),
    {
        VectorStore { chunks: Vec::new() }
    }

    /// How many chunks are stored.
    pub fn len(&self) -> (n: usize)
        ensures
            n == self@.len(),
    {
        self.chunks.len()
    }

    /// Whether the store holds no chunks.
    pub fn is_empty(&self) -> (b: bool)
        ensures
            b == (self@.len() == 0),
    {
        self.chunks.len() == 0
    }

    /// Empties the store unconditionally; cannot fail.
    pub fn clear(&mut self)
        ensures
            final(self)@ == Seq::<Chunk>::empty(),
            final(self).wf(),
    {
        self.chunks.clear();
    }

    /// Commits one indexing call: all chunks or none.
    ///
    /// `contents` are the prepared chunk texts of one document, `outcomes`
    /// the embedding outcome obtained for each. If any outcome is an error,
    /// or carries an empty or out-of-range vector, the first such problem
    /// is returned and the store is left exactly as it was; if fewer
    /// outcomes than texts are handed in, nothing is committed either.
    /// Only when every text has a usable embedding is the store extended,
    /// atomically, with all the new chunks in call order.
    pub fn index_document(
        &mut self,
        contents: Vec<String>,
        outcomes: Vec<Result<Vec<i64>, EmbedError>>,
    ) -> (r: Result<(), EmbedError>)
        requires
            old(self).wf(),
        ensures
            final(self).wf(),
            r is Ok <==> first_bad(outcomes@) == -1 && contents@.len() == outcomes@.len(),
            r is Ok ==> final(self)@ == old(self)@ + committed_chunks(contents@, outcomes@),
            r is Err ==> final(self)@ == old(self)@,
            r matches Err(e) ==> e == (if first_bad(outcomes@) >= 0 {
                the_problem(outcomes@[first_bad(outcomes@)])
            } else {
                EmbedError::Incomplete
            }),
    {
        let mut conts = contents;
        let mut outs = outcomes;
        let n = outs.len();
        let fb = first_problem_index(&outs);
        if fb < n {
            let o = outs.remove(fb);
            match o {
                Result::Err(e) => {
                    return Result::Err(e);
                },
                Result::Ok(v) => {
                    if v.len() == 0 {
                        return Result::Err(EmbedError::EmptyVector);
                    }
                    return Result::Err(EmbedError::OutOfRange);
                },
            }
        }
        if conts.len() != n {
            return Result::Err(EmbedError::Incomplete);
        }
        let ghost committed = committed_chunks(contents@, outcomes@);
        let mut buffer: Vec<Chunk> = Vec::new();
        let mut t: usize = 0;
        while t < n
            invariant
                0 <= t <= n,
                n == outcomes@.len(),
                n == contents@.len(),
                conts@ == contents@.skip(t as int),
                outs@ == outcomes@.skip(t as int),
                committed == committed_chunks(contents@, outcomes@),
                buffer@ == committed.take(t as int),
                forall|j: int| 0 <= j < n ==> !has_problem(#[trigger] outcomes@[j]),
            decreases n - t,
        {
            let o = outs.remove(0);
            let c = conts.remove(0);
            proof {
                assert(o == outcomes@[t as int]);
                assert(c == contents@[t as int]);
                assert(outcomes@.skip(t as int).remove(0) =~= outcomes@.skip(t as int + 1));
                assert(contents@.skip(t as int).remove(0) =~= contents@.skip(t as int + 1));
            }
            match o {
                Result::Ok(v) => {
                    buffer.push(Chunk { content: c, embedding: v });
                    proof {
                        assert(buffer@ =~= committed.take(t as int + 1));
                    }
                },
                Result::Err(_) => {
                    proof {
                        assert(false);
                    }
                    return Result::Err(EmbedError::Incomplete);
                },
            }
            t = t + 1;
        }
        proof {
            assert(buffer@ =~= committed);
        }
        self.chunks.append(&mut buffer);
        proof {
            assert(self@ =~= old(self)@ + committed);
        }
        Result::Ok(())
    }

    /// The contents of the `k` best-scored chunks against the query
    /// embedding, rank order, joined with the delimiter. An empty store
    /// yields the empty string; nothing fails.
    pub fn retrieve_top(&self, query: &Vec<i64>, k: usize) -> (r: String)
        requires
            self.wf(),
            bounded(query@),
        ensures
            r@ == retrieval_spec(self@, query@, k as nat),
    {
        let n = self.chunks.len();
        let mut scores: Vec<Score> = Vec::new();
        let mut i: usize = 0;
        while i < n
            invariant
                0 <= i <= n,
                n == self@.len(),
                self.wf(),
                bounded(query@),
                scores@.len() == i,
                forall|j: int|
                    0 <= j < i ==> #[trigger] scores@[j] == spec_cosine(
                        query@,
                        self@[j].embedding@,
                    ) && score_wf(scores@[j]),
            decreases n - i,
        {
            let sc = cosine_similarity(query, &self.chunks[i].embedding);
            scores.push(sc);
            i = i + 1;
        }
        proof {
            assert(scores@ =~= scores_of(self@, query@));
        }
        let ghost s = scores_of(self@, query@);
        let mut used: Vec<bool> = Vec::new();
        let mut u: usize = 0;
        while u < n
            invariant
                0 <= u <= n,
                used@ =~= all_free(u as nat),
            decreases n - u,
        {
            used.push(false);
            proof {
                assert(used@ =~= all_free((u + 1) as nat));
            }
            u = u + 1;
        }
        let ghost full = top_ranked(s, all_free(n as nat), k as nat);
        let ghost mut done: Seq<int> = Seq::empty();
        let mut out = String::new();
        let mut t: usize = 0;
        let mut more = true;
        proof {
            assert(done + top_ranked(s, used@, (k - t) as nat) =~= full);
        }
        while more && t < k
            invariant
                n == self@.len(),
                s == scores_of(self@, query@),
                scores@ == s,
                s.len() == n,
                forall|j: int| 0 <= j < n ==> score_wf(#[trigger] s[j]),
                used@.len() == n,
                0 <= t <= k,
                done.len() == t as int,
                full == top_ranked(s, all_free(n as nat), k as nat),
                full == done + top_ranked(s, used@, (k - t) as nat),
                out@ == joined(contents_at(self@, done), context_delimiter()),
                !more ==> top_ranked(s, used@, (k - t) as nat) == Seq::<int>::empty(),
            decreases k - t, (if more { 1int } else { 0int }),
        {
            let mut have = false;
            let mut best: usize = 0;
            let mut bscore = Score { neg: false, num_sq: 0, den_sq: 1 };
            let mut j: usize = 0;
            while j < n
                invariant
                    0 <= j <= n,
                    n == s.len(),
                    scores@ == s,
                    used@.len() == n,
                    !have ==> best_scan(s, used@, j as int) == -1,
                    have ==> best < n && best as int == best_scan(s, used@, j as int) && bscore
                        == s[best as int],
                decreases n - j,
            {
                if !used[j] {
                    if !have {
                        have = true;
                        best = j;
                        bscore = scores[j];
                    } else if score_is_lt(&bscore, &scores[j]) {
                        best = j;
                        bscore = scores[j];
                    }
                }
                j = j + 1;
            }
            if !have {
                more = false;
            } else {
                proof {
                    lemma_best_scan(s, used@, n as int);
                    lemma_joined_push(
                        contents_at(self@, done),
                        context_delimiter(),
                        self@[best as int].content@,
                    );
                    assert(contents_at(self@, done.push(best as int)) =~= contents_at(
                        self@,
                        done,
                    ).push(self@[best as int].content@));
                }
                if t > 0 {
                    out.append("\n\n---\n\n");
                }
                out.append(self.chunks[best].content.as_str());
                used.set(best, true);
                proof {
                    assert(done.push(best as int) =~= done + seq![best as int]);
                    assert((done + seq![best as int]) + top_ranked(
                        s,
                        used@,
                        (k - t - 1) as nat,
                    ) =~= done + (seq![best as int] + top_ranked(s, used@, (k - t - 1) as nat)));
                    done = done.push(best as int);
                }
                t = t + 1;
            }
        }
        proof {
            assert(top_ranked(s, used@, (k - t) as nat) == Seq::<int>::empty());
            assert(full =~= done);
            assert(out@ == retrieval_spec(self@, query@, k as nat));
        }
        out
    }

    /// Retrieves the standard top-three context for a query embedding.
    pub fn retrieve_context(&self, query: &Vec<i64>) -> (r: String)
        requires
            self.wf(),
            bounded(query@),
        ensures
            r@ == retrieval_spec(self@, query@, TOP_K as nat),
    {
        self.retrieve_top(query, TOP_K)
    }
}

/// The position of the first blocking outcome, or the length if none.
fn first_problem_index(outs: &Vec<Result<Vec<i64>, EmbedError>>) -> (r: usize)
    ensures
        r <= outs@.len(),
        r < outs@.len() ==> has_problem(outs@[r as int]) && first_bad(outs@) == r as int,
        r == outs@.len() ==> first_bad(outs@) == -1 && forall|t: int|
            0 <= t < outs@.len() ==> !has_problem(#[trigger] outs@[t]),
{
    let mut j: usize = 0;
    while j < outs.len()
        invariant
            0 <= j <= outs@.len(),
            forall|t: int| 0 <= t < j ==> !has_problem(#[trigger] outs@[t]),
            first_bad(outs@) == first_bad_from(outs@, j as int),
        decreases outs@.len() - j,
    {
        let bad: bool = match &outs[j] {
            Result::Err(_) => true,
            Result::Ok(v) => v.len() == 0 || !embedding_within_limits(v),
        };
        if bad {
            return j;
        }
        j = j + 1;
    }
    j
}

} // verus!
