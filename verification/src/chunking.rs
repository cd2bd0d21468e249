//! The rotation model.
//!
//! `rotate_step` is the budget rule applied to one incoming buffer, and
//! `rotate_fold` runs it over a whole sequence of records. The writer's
//! executable `write` is specified against `rotate_step`, so the laws proved
//! here about the folded model carry over to any series of writes.

use vstd::prelude::*;

use crate::lines::{is_record, split_lines, NEWLINE};

verus! {

/// One write against the rotation state. `closed` holds the finished parts,
/// `cur` the bytes of the open part. The buffer goes into the open part when
/// it still fits strictly under the budget, or when the open part is empty
/// (which guarantees progress even for a buffer larger than the budget);
/// otherwise the open part is closed and the buffer starts the next one.
pub open spec fn rotate_step(
    closed: Seq<Seq<u8>>,
    cur: Seq<u8>,
    buf: Seq<u8>,
    budget: Option<usize>,
) -> (Seq<Seq<u8>>, Seq<u8>) {
    match budget {
        Option::None => (closed, cur + buf),
        Option::Some(b) => {
            if cur.len() + buf.len() < b || cur.len() == 0 {
                (closed, cur + buf)
            } else {
                (closed.push(cur), buf)
            }
        },
    }
}

/// The rotation state after writing `records` in order, starting from one
/// empty open part.
pub open spec fn rotate_fold(records: Seq<Seq<u8>>, budget: Option<usize>) -> (
    Seq<Seq<u8>>,
    Seq<u8>,
)
    decreases records.len(),
{
    if records.len() == 0 {
        (Seq::<Seq<u8>>::empty(), Seq::<u8>::empty())
    } else {
        let prev = rotate_fold(records.drop_last(), budget);
        rotate_step(prev.0, prev.1, records.last(), budget)
    }
}

/// All parts produced by writing `records` in order: the closed parts
/// followed by the still-open one.
pub open spec fn writer_parts(records: Seq<Seq<u8>>, budget: Option<usize>) -> Seq<Seq<u8>> {
    rotate_fold(records, budget).0.push(rotate_fold(records, budget).1)
}

/// Invariant of the fold: the lines of the closed parts followed by the lines
/// of the open part are exactly the records written so far, and the open part
/// is empty or newline-terminated.
proof fn lemma_fold_lines(records: Seq<Seq<u8>>, budget: Option<usize>)
    requires
        forall|i: int| 0 <= i < records.len() ==> is_record(#[trigger] records[i]),
    ensures
        rotate_fold(records, budget).0.flat_map(|p: Seq<u8>| split_lines(p)) + split_lines(
            rotate_fold(records, budget).1,
        ) == records,
        rotate_fold(records, budget).1.len() == 0 || rotate_fold(records, budget).1.last()
            == NEWLINE,
    decreases records.len(),
{
    let f = |p: Seq<u8>| split_lines(p);
    if records.len() == 0 {
        assert(rotate_fold(records, budget).0.flat_map(f) =~= Seq::<Seq<u8>>::empty());
        assert(split_lines(Seq::<u8>::empty()) =~= Seq::<Seq<u8>>::empty());
        assert(rotate_fold(records, budget).0.flat_map(f) + split_lines(
            rotate_fold(records, budget).1,
        ) =~= records);
    } else {
        let front = records.drop_last();
        let r = records.last();
        assert(r == records[records.len() - 1] && is_record(r));
        assert(forall|i: int| 0 <= i < front.len() ==> front[i] == records[i] && is_record(
            #[trigger] front[i],
        ));
        lemma_fold_lines(front, budget);
        let prev = rotate_fold(front, budget);
        let now = rotate_fold(records, budget);
        assert(front.push(r) =~= records);
        if now.0 == prev.0 && now.1 == prev.1 + r {
            // the buffer joined the open part
            crate::lines::lemma_split_lines_push(prev.1, r);
            assert(split_lines(now.1) == split_lines(prev.1).push(r));
            assert(now.0.flat_map(f) + split_lines(prev.1).push(r) =~= (prev.0.flat_map(f)
                + split_lines(prev.1)).push(r));
            assert(now.0.flat_map(f) + split_lines(now.1) =~= records);
            assert(now.1.last() == r.last());
        } else {
            // the open part was closed and the buffer starts the next one
            assert(now.0 == prev.0.push(prev.1) && now.1 == r);
            prev.0.lemma_flat_map_push(f, prev.1);
            crate::lines::lemma_split_lines_record(r);
            assert(now.0.flat_map(f) == prev.0.flat_map(f) + split_lines(prev.1));
            assert(now.0.flat_map(f) + split_lines(now.1) =~= (prev.0.flat_map(f) + split_lines(
                prev.1,
            )).push(r));
            assert(now.0.flat_map(f) + split_lines(now.1) =~= records);
        }
    }
}

/// Round-trip identity: for any records and any budget (bounded or not),
/// splitting the produced parts back into lines and concatenating them
/// recovers exactly the records that were written, in order.
pub proof fn lemma_round_trip(records: Seq<Seq<u8>>, budget: Option<usize>)
    requires
        forall|i: int| 0 <= i < records.len() ==> is_record(#[trigger] records[i]),
    ensures
        writer_parts(records, budget).flat_map(|p: Seq<u8>| split_lines(p)) == records,
{
    let f = |p: Seq<u8>| split_lines(p);
    lemma_fold_lines(records, budget);
    rotate_fold(records, budget).0.lemma_flat_map_push(f, rotate_fold(records, budget).1);
    assert(writer_parts(records, budget).flat_map(f) =~= records);
}

/// While no rotation has been triggered, everything sits in the open part.
proof fn lemma_fold_one_part(records: Seq<Seq<u8>>, b: usize, k: int, j: int)
    requires
        forall|i: int| 0 <= i < records.len() ==> (#[trigger] records[i]).len() >= 1,
        0 < k <= records.len(),
        forall|jj: int|
            1 <= jj < k ==> records.take(jj).flatten().len() + (#[trigger] records[jj]).len() < b,
        0 <= j <= k,
    ensures
        rotate_fold(records.take(j), Some(b)).0 == Seq::<Seq<u8>>::empty(),
        rotate_fold(records.take(j), Some(b)).1 == records.take(j).flatten(),
    decreases j,
{
    if j == 0 {
        assert(records.take(0) =~= Seq::<Seq<u8>>::empty());
        assert(records.take(0).flatten() =~= Seq::<u8>::empty());
    } else {
        lemma_fold_one_part(records, b, k, j - 1);
        assert(records.take(j).drop_last() =~= records.take(j - 1));
        assert(records.take(j).last() == records[j - 1]);
        let cur = records.take(j - 1).flatten();
        if j - 1 == 0 {
            assert(cur.len() == 0);
        } else {
            assert(cur.len() + records[j - 1].len() < b);
        }
        records.take(j - 1).lemma_flatten_push(records[j - 1]);
        assert(records.take(j - 1).push(records[j - 1]) =~= records.take(j));
        assert(rotate_fold(records.take(j), Some(b)).1 == records.take(j).flatten());
    }
}

/// After the single rotation at record `k`, part one is closed and the rest
/// accumulates in part two.
proof fn lemma_fold_two_parts(records: Seq<Seq<u8>>, b: usize, k: int, j: int)
    requires
        forall|i: int| 0 <= i < records.len() ==> (#[trigger] records[i]).len() >= 1,
        0 < k < records.len(),
        forall|jj: int|
            1 <= jj < k ==> records.take(jj).flatten().len() + (#[trigger] records[jj]).len() < b,
        records.take(k).flatten().len() + records[k].len() >= b,
        forall|jj: int|
            k < jj < records.len() ==> records.subrange(k, jj).flatten().len() + (
            #[trigger] records[jj]).len() < b,
        k < j <= records.len(),
    ensures
        rotate_fold(records.take(j), Some(b)).0 == seq![records.take(k).flatten()],
        rotate_fold(records.take(j), Some(b)).1 == records.subrange(k, j).flatten(),
    decreases j,
{
    if j == k + 1 {
        lemma_fold_one_part(records, b, k, k);
        assert(records.take(j).drop_last() =~= records.take(k));
        assert(records.take(j).last() == records[k]);
        let cur = records.take(k).flatten();
        assert(cur.len() >= 1) by {
            records.take(k).lemma_flatten_push(records[k]);
            assert(records.take(k - 1 + 1) =~= records.take(k));
            if k >= 1 {
                assert(records.take(k - 1).push(records[k - 1]) =~= records.take(k));
                records.take(k - 1).lemma_flatten_push(records[k - 1]);
                assert(records.take(k).flatten() == records.take(k - 1).flatten() + records[k
                    - 1]);
            }
        }
        assert(!(cur.len() + records[k].len() < b));
        assert(rotate_fold(records.take(j), Some(b)).0 =~= seq![records.take(k).flatten()]);
        assert(records.subrange(k, j) =~= seq![records[k]]);
        assert(records.subrange(k, j).flatten() =~= records[k]) by {
            records.subrange(k, j).lemma_flatten_singleton();
        }
    } else {
        lemma_fold_two_parts(records, b, k, j - 1);
        assert(records.take(j).drop_last() =~= records.take(j - 1));
        assert(records.take(j).last() == records[j - 1]);
        let cur = records.subrange(k, j - 1).flatten();
        assert(cur.len() + records[j - 1].len() < b);
        records.subrange(k, j - 1).lemma_flatten_push(records[j - 1]);
        assert(records.subrange(k, j - 1).push(records[j - 1]) =~= records.subrange(k, j));
        assert(rotate_fold(records.take(j), Some(b)).1 == records.subrange(k, j).flatten());
    }
}

/// Atomicity of the first rotation: if the cumulative size first exceeds the
/// budget at record `k` and never again afterwards, exactly two parts come
/// out; part one holds records `0..k`, part two records `k..`.
pub proof fn lemma_first_rotation(records: Seq<Seq<u8>>, b: usize, k: int)
    requires
        forall|i: int| 0 <= i < records.len() ==> (#[trigger] records[i]).len() >= 1,
        0 < k < records.len(),
        forall|jj: int|
            1 <= jj < k ==> records.take(jj).flatten().len() + (#[trigger] records[jj]).len() < b,
        records.take(k).flatten().len() + records[k].len() >= b,
        forall|jj: int|
            k < jj < records.len() ==> records.subrange(k, jj).flatten().len() + (
            #[trigger] records[jj]).len() < b,
    ensures
        writer_parts(records, Some(b)).len() == 2,
        writer_parts(records, Some(b))[0] == records.take(k).flatten(),
        writer_parts(records, Some(b))[1] == records.skip(k).flatten(),
{
    lemma_fold_two_parts(records, b, k, records.len() as int);
    assert(records.take(records.len() as int) =~= records);
    assert(records.subrange(k, records.len() as int) =~= records.skip(k));
}

/// The closed parts only ever grow: the closed parts after a prefix of the
/// writes are a prefix of the closed parts after all of them.
proof fn lemma_fold_closed_prefix(records: Seq<Seq<u8>>, budget: Option<usize>, j: int)
    requires
        0 <= j <= records.len(),
    ensures
        rotate_fold(records.take(j), budget).0.is_prefix_of(rotate_fold(records, budget).0),
    decreases records.len() - j,
{
    if j == records.len() {
        assert(records.take(j) =~= records);
        assert(rotate_fold(records.take(j), budget).0.is_prefix_of(
            rotate_fold(records, budget).0,
        ));
    } else {
        lemma_fold_closed_prefix(records, budget, j + 1);
        assert(records.take(j + 1).drop_last() =~= records.take(j));
        let a = rotate_fold(records.take(j), budget).0;
        let mid = rotate_fold(records.take(j + 1), budget).0;
        let c = rotate_fold(records, budget).0;
        assert(a.is_prefix_of(mid));
        assert(a =~= mid.take(a.len() as int));
        assert(mid =~= c.take(mid.len() as int));
        assert(a =~= c.take(a.len() as int));
    }
}

/// Oversized-first-record policy: a first record at least as large as the
/// budget is written whole into part one, which holds nothing else; it is
/// never split. If it is the only record, it is the only part.
pub proof fn lemma_oversized_first_record(records: Seq<Seq<u8>>, b: usize)
    requires
        records.len() >= 1,
        records[0].len() >= b,
        records[0].len() >= 1,
    ensures
        writer_parts(records, Some(b))[0] == records[0],
        records.len() == 1 ==> writer_parts(records, Some(b)) == seq![records[0]],
{
    reveal_with_fuel(rotate_fold, 3);
    assert(records.take(1).drop_last() =~= Seq::<Seq<u8>>::empty());
    assert(records.take(1).last() == records[0]);
    assert(Seq::<u8>::empty() + records[0] =~= records[0]);
    assert(rotate_fold(records.take(1), Some(b)).0 =~= Seq::<Seq<u8>>::empty());
    assert(rotate_fold(records.take(1), Some(b)).1 =~= records[0]);
    if records.len() == 1 {
        assert(records.take(1) =~= records);
        assert(writer_parts(records, Some(b)) =~= seq![records[0]]);
    } else {
        assert(records.take(2).drop_last() =~= records.take(1));
        assert(records.take(2).last() == records[1]);
        let cur = records[0];
        assert(!(cur.len() + records[1].len() < b) && cur.len() != 0);
        assert(rotate_fold(records.take(2), Some(b)).0 =~= seq![records[0]]);
        lemma_fold_closed_prefix(records, Some(b), 2);
        let c = rotate_fold(records, Some(b)).0;
        assert(seq![records[0]].is_prefix_of(c));
        assert(c.len() >= 1);
        assert(records[0] == c.subrange(0, 1)[0]);
        assert(c.subrange(0, 1)[0] == c[0]);
        assert(c[0] == records[0]);
        assert(writer_parts(records, Some(b))[0] == records[0]);
    }
}

} // verus!
