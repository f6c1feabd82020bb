//! Sequences of byte chunks: their total length and their concatenation.

use vstd::prelude::*;

verus! {

/// The chunks of `v` as byte sequences.
pub open spec fn views(v: Seq<Vec<u8>>) -> Seq<Seq<u8>> {
    v.map_values(|c: Vec<u8>| c@)
}

/// The bytes of all chunks, one after another.
pub open spec fn concat(s: Seq<Seq<u8>>) -> Seq<u8>
    decreases s.len(),
{
    if s.len() == 0 {
        Seq::empty()
    } else {
        concat(s.drop_last()) + s.last()
    }
}

/// The sum of the chunks' lengths.
pub open spec fn total_len(s: Seq<Seq<u8>>) -> int
    decreases s.len(),
{
    if s.len() == 0 {
        0
    } else {
        total_len(s.drop_last()) + s.last().len()
    }
}

/// Every chunk is shorter than `bound`.
pub open spec fn chunks_below(s: Seq<Seq<u8>>, bound: int) -> bool {
    forall|i: int| 0 <= i < s.len() ==> #[trigger] s[i].len() < bound
}

/// Appending a chunk appends its bytes and adds its length.
pub proof fn lemma_push(s: Seq<Seq<u8>>, c: Seq<u8>)
    ensures
        concat(s.push(c)) == concat(s) + c,
        total_len(s.push(c)) == total_len(s) + c.len(),
{
    assert(s.push(c).drop_last() =~= s);
}

/// The concatenation is as long as the chunks together.
pub proof fn lemma_concat_len(s: Seq<Seq<u8>>)
    ensures
        concat(s).len() == total_len(s),
    decreases s.len(),
{
    if s.len() > 0 {
        lemma_concat_len(s.drop_last());
    }
}

/// Chunks each shorter than `bound` total at most `bound - 1` bytes apiece.
pub proof fn lemma_total_len_bound(s: Seq<Seq<u8>>, bound: int)
    requires
        chunks_below(s, bound),
        bound >= 1,
    ensures
        0 <= total_len(s) <= (bound - 1) * s.len(),
    decreases s.len(),
{
    if s.len() > 0 {
        let t = s.drop_last();
        assert(chunks_below(t, bound)) by {
            assert forall|i: int| 0 <= i < t.len() implies #[trigger] t[i].len() < bound by {
                assert(t[i] == s[i]);
            }
        }
        lemma_total_len_bound(t, bound);
        assert(s.last().len() < bound);
        assert((bound - 1) * t.len() + (bound - 1) == (bound - 1) * s.len()) by (nonlinear_arith)
            requires
                t.len() + 1 == s.len(),
        ;
    }
}

/// The bytes of all chunks in `v`, one after another.
pub fn concat_chunks(v: &Vec<Vec<u8>>) -> (r: Vec<u8>)
    ensures
        r@ == concat(views(v@)),
{
    let mut out: Vec<u8> = Vec::new();
    let mut i: usize = 0;
    while i < v.len()
        invariant
            i <= v@.len(),
            out@ == concat(views(v@.subrange(0, i as int))),
        decreases v@.len() - i,
    {
        let ghost before = out@;
        let c = &v[i];
        let mut j: usize = 0;
        while j < c.len()
            invariant
                j <= c@.len(),
                out@ == before + c@.subrange(0, j as int),
            decreases c@.len() - j,
        {
            out.push(c[j]);
            j = j + 1;
            assert(out@ =~= before + c@.subrange(0, j as int));
        }
        proof {
            assert(c@.subrange(0, c@.len() as int) =~= c@);
            assert(views(v@.subrange(0, i + 1)) =~= views(v@.subrange(0, i as int)).push(c@));
            lemma_push(views(v@.subrange(0, i as int)), c@);
        }
        i = i + 1;
    }
    assert(v@.subrange(0, v@.len() as int) =~= v@);
    out
}

} // verus!
