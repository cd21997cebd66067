use vstd::prelude::*;
use crate::plan::WorkerRange;
use crate::plan::is_plan_for;
use crate::plan::lemma_plan_shape;

verus! {

/// Concatenation of byte buffers, in order.
pub open spec fn concat_of(parts: Seq<Seq<u8>>) -> Seq<u8>
    decreases parts.len(),
{
    if parts.len() == 0 {
        Seq::empty()
    } else {
        concat_of(parts.drop_last()) + parts.last()
    }
}

/// The byte contents of a sequence of buffers.
pub open spec fn views_of(parts: Seq<Vec<u8>>) -> Seq<Seq<u8>> {
    parts.map_values(|p: Vec<u8>| p@)
}

/// Extending a prefix concatenation by one buffer appends exactly its bytes.
proof fn lemma_concat_take_succ(parts: Seq<Seq<u8>>, i: int)
    requires
        0 <= i < parts.len(),
    ensures
        concat_of(parts.take(i + 1)) == concat_of(parts.take(i)) + parts[i],
{
    assert(parts.take(i + 1).drop_last() =~= parts.take(i));
    assert(parts.take(i + 1).last() == parts[i]);
}

/// Concatenate the per-worker buffers, in worker-index order, into the final
/// output: byte `k` of the output, for `k` inside part `i`'s stretch, is byte
/// `k - offset(i)` of part `i`.
pub fn assemble(parts: &Vec<Vec<u8>>) -> (out: Vec<u8>)
    ensures
        out@ == concat_of(views_of(parts@)),
{
    let mut out: Vec<u8> = Vec::new();
    let mut i: usize = 0;
    while i < parts.len()
        invariant
            i <= parts@.len(),
            out@ == concat_of(views_of(parts@).take(i as int)),
        decreases parts@.len() - i,
    {
        let part = &parts[i];
        let mut j: usize = 0;
        while j < part.len()
            invariant
                i < parts@.len(),
                part == &parts[i as int],
                j <= part@.len(),
                out@ == concat_of(views_of(parts@).take(i as int)) + part@.take(j as int),
            decreases part@.len() - j,
        {
            out.push(part[j]);
            proof {
                assert(part@.take(j + 1) =~= part@.take(j as int).push(part@[j as int]));
                assert(out@ =~= concat_of(views_of(parts@).take(i as int)) + part@.take(j + 1));
            }
            j = j + 1;
        }
        proof {
            lemma_concat_take_succ(views_of(parts@), i as int);
            assert(part@.take(part@.len() as int) =~= part@);
            assert(views_of(parts@)[i as int] == part@);
        }
        i = i + 1;
    }
    proof {
        assert(views_of(parts@).take(parts@.len() as int) =~= views_of(parts@));
    }
    out
}

/// The first `k` parts of a contiguous split assemble to exactly the
/// resource's bytes up to the end of stretch `k - 1`.
proof fn lemma_concat_contiguous(
    content: Seq<u8>,
    parts: Seq<Seq<u8>>,
    ranges: Seq<WorkerRange>,
    k: int,
)
    requires
        parts.len() == ranges.len(),
        ranges.len() >= 1,
        ranges[0].start == 0,
        forall|i: int|
            0 < i < ranges.len() ==> (#[trigger] ranges[i]).start == ranges[i - 1].end + 1,
        forall|i: int| 0 <= i < ranges.len() ==> (#[trigger] ranges[i]).start <= ranges[i].end,
        forall|i: int| 0 <= i < ranges.len() ==> (#[trigger] ranges[i]).end < content.len(),
        forall|i: int|
            0 <= i < ranges.len() ==> parts[i] == content.subrange(
                (#[trigger] ranges[i]).start as int,
                ranges[i].end + 1,
            ),
        1 <= k <= parts.len(),
    ensures
        concat_of(parts.take(k)) == content.take(ranges[k - 1].end + 1),
    decreases k,
{
    assert(parts.take(k).len() == k);
    assert(concat_of(parts.take(k)) == concat_of(parts.take(k).drop_last())
        + parts.take(k).last());
    assert(parts.take(k).last() == parts[k - 1]);
    if k == 1 {
        assert(parts.take(1).drop_last() =~= Seq::<Seq<u8>>::empty());
        assert(concat_of(Seq::<Seq<u8>>::empty()) == Seq::<u8>::empty());
        assert(ranges[0].start == 0);
        assert(Seq::<u8>::empty() + parts[0] =~= content.take(ranges[0].end + 1));
    } else {
        lemma_concat_contiguous(content, parts, ranges, k - 1);
        assert(parts.take(k).drop_last() =~= parts.take(k - 1));
        assert(ranges[k - 1].start == ranges[k - 2].end + 1);
        assert(content.take(ranges[k - 2].end + 1) + parts[k - 1] =~= content.take(
            ranges[k - 1].end + 1,
        ));
    }
}

/// Reassembly fidelity: if each worker's buffer holds exactly the bytes of
/// its assigned range of the resource, concatenating the buffers in worker
/// order reproduces the resource byte for byte — for any worker count.
pub proof fn lemma_reassembly(
    content: Seq<u8>,
    parts: Seq<Seq<u8>>,
    ranges: Seq<WorkerRange>,
    total_size: u64,
    worker_count: u64,
)
    requires
        worker_count >= 1,
        content.len() == total_size,
        is_plan_for(ranges, total_size, worker_count),
        parts.len() == ranges.len(),
        forall|i: int|
            0 <= i < ranges.len() ==> parts[i] == content.subrange(
                (#[trigger] ranges[i]).start as int,
                ranges[i].end + 1,
            ),
    ensures
        concat_of(parts) == content,
{
    if total_size == 0 {
        assert(parts.len() == 0);
        assert(concat_of(parts) =~= content);
    } else {
        lemma_plan_shape(ranges, total_size, worker_count);
        lemma_concat_contiguous(content, parts, ranges, parts.len() as int);
        assert(parts.take(parts.len() as int) =~= parts);
        assert(content.take(ranges[ranges.len() - 1].end + 1) =~= content);
    }
}

} // verus!
