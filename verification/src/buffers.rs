//! Gathering the buffers of a send into one datagram and scattering the bytes
//! of a received datagram over the buffers of a receive.

use vstd::prelude::*;

verus! {

/// The smaller of two natural numbers.
pub open spec fn min_nat(a: nat, b: nat) -> nat {
    if a <= b {
        a
    } else {
        b
    }
}

/// What the buffers of a send hold, buffer by buffer.
pub open spec fn contents(iov: Seq<&[u8]>) -> Seq<Seq<u8>> {
    Seq::new(iov.len(), |i: int| iov[i]@)
}

/// What the buffers of a receive hold, buffer by buffer.
pub open spec fn vec_contents(iov: Seq<Vec<u8>>) -> Seq<Seq<u8>> {
    Seq::new(iov.len(), |i: int| iov[i]@)
}

/// How many bytes a receive with room for `capacity` bytes takes from a
/// datagram of `len` bytes. What does not fit is discarded.
pub open spec fn received_len(capacity: nat, len: nat) -> nat {
    min_nat(capacity, len)
}

/// What a buffer holds after a datagram was received into it: the bytes of
/// the datagram as far as they fit, then what the buffer held before.
pub open spec fn filled(buf: Seq<u8>, data: Seq<u8>) -> Seq<u8> {
    let n = received_len(buf.len(), data.len()) as int;
    data.take(n) + buf.skip(n)
}

/// A sequence of `n` zero bytes.
pub open spec fn zeros(n: nat) -> Seq<u8> {
    Seq::new(n, |i: int| 0u8)
}

/// Filling two buffers one after the other is filling their concatenation.
pub proof fn lemma_filled_concat(first: Seq<u8>, second: Seq<u8>, data: Seq<u8>)
    ensures
        filled(first + second, data) == filled(first, data) + filled(
            second,
            data.skip(received_len(first.len(), data.len()) as int),
        ),
{
    let used = received_len(first.len(), data.len()) as int;
    assert(filled(first + second, data) =~= filled(first, data) + filled(
        second,
        data.skip(used),
    ));
}

/// Appends the bytes of `src` to `out`.
pub(crate) fn append(out: &mut Vec<u8>, src: &[u8])
    ensures
        final(out)@ == old(out)@ + src@,
{
    let mut i: usize = 0;
    while i < src.len()
        invariant
            i <= src@.len(),
            out@ == old(out)@ + src@.take(i as int),
        decreases src@.len() - i,
    {
        out.push(src[i]);
        assert(out@ =~= old(out)@ + src@.take(i + 1));
        i = i + 1;
    }
    assert(src@.take(i as int) =~= src@);
}

/// Copies the bytes of `data` from position `from` up to position `to`.
pub(crate) fn copy_range(data: &[u8], from: usize, to: usize) -> (copy: Vec<u8>)
    requires
        from <= to <= data@.len(),
    ensures
        copy@ == data@.subrange(from as int, to as int),
{
    let mut copy: Vec<u8> = Vec::new();
    let mut i: usize = from;
    while i < to
        invariant
            from <= i <= to <= data@.len(),
            copy@ == data@.subrange(from as int, i as int),
        decreases to - i,
    {
        copy.push(data[i]);
        assert(copy@ =~= data@.subrange(from as int, i + 1));
        i = i + 1;
    }
    copy
}

/// Concatenates the buffers of `iov`, in order.
pub fn gather(iov: &[&[u8]]) -> (data: Vec<u8>)
    ensures
        data@ == contents(iov@).flatten(),
{
    let ghost all = contents(iov@);
    let mut data: Vec<u8> = Vec::new();
    let mut k: usize = 0;
    proof {
        assert(all.take(0) =~= Seq::<Seq<u8>>::empty());
    }
    while k < iov.len()
        invariant
            k <= iov@.len(),
            all == contents(iov@),
            data@ == all.take(k as int).flatten(),
        decreases iov@.len() - k,
    {
        proof {
            assert(all.take(k + 1) =~= all.take(k as int).push(all[k as int]));
            all.take(k as int).lemma_flatten_push(all[k as int]);
        }
        append(&mut data, iov[k]);
        k = k + 1;
    }
    proof {
        assert(all.take(k as int) =~= all);
    }
    data
}

/// Receives the bytes of `data` from position `from` on into `buf`, as far
/// as they fit, and returns how many were taken.
pub(crate) fn fill(buf: &mut [u8], data: &[u8], from: usize) -> (taken: usize)
    requires
        from <= data@.len(),
    ensures
        final(buf)@ == filled(old(buf)@, data@.skip(from as int)),
        taken == received_len(old(buf)@.len(), (data@.len() - from) as nat),
{
    let room: usize = buf.len();
    let left: usize = data.len() - from;
    let taken: usize = if room <= left {
        room
    } else {
        left
    };
    let mut i: usize = 0;
    while i < taken
        invariant
            i <= taken,
            taken <= room,
            from <= data@.len() <= usize::MAX,
            taken <= data@.len() - from,
            room == old(buf)@.len(),
            buf@.len() == room,
            buf@ == data@.skip(from as int).take(i as int) + old(buf)@.skip(i as int),
        decreases taken - i,
    {
        buf[i] = data[from + i];
        assert(buf@ =~= data@.skip(from as int).take(i + 1) + old(buf)@.skip(i + 1));
        i = i + 1;
    }
    taken
}

/// How many bytes the buffers of `iov` have room for together, as far as a
/// `usize` can say.
pub fn total_room(iov: &[Vec<u8>]) -> (room: usize)
    ensures
        room == min_nat(vec_contents(iov@).flatten().len(), usize::MAX as nat),
{
    let ghost all = vec_contents(iov@);
    let mut room: usize = 0;
    let mut k: usize = 0;
    proof {
        assert(all.take(0) =~= Seq::<Seq<u8>>::empty());
    }
    while k < iov.len()
        invariant
            k <= iov@.len(),
            all == vec_contents(iov@),
            room == min_nat(all.take(k as int).flatten().len(), usize::MAX as nat),
        decreases iov@.len() - k,
    {
        proof {
            assert(all.take(k + 1) =~= all.take(k as int).push(all[k as int]));
            all.take(k as int).lemma_flatten_push(all[k as int]);
        }
        room = room.saturating_add(iov[k].len());
        k = k + 1;
    }
    proof {
        assert(all.take(k as int) =~= all);
    }
    room
}

/// Receives the bytes of `data` into the buffers of `iov`, filling each in
/// turn, and returns how many bytes were taken.
pub fn scatter(iov: &mut [Vec<u8>], data: &[u8]) -> (taken: usize)
    ensures
        final(iov)@.len() == old(iov)@.len(),
        forall|k: int| 0 <= k < old(iov)@.len() ==> final(iov)@[k]@.len() == old(iov)@[k]@.len(),
        vec_contents(final(iov)@).flatten() == filled(vec_contents(old(iov)@).flatten(), data@),
        taken == received_len(vec_contents(old(iov)@).flatten().len(), data@.len()),
{
    let ghost before = vec_contents(iov@);
    let total: usize = data.len();
    let mut taken: usize = 0;
    let mut k: usize = 0;
    proof {
        assert(before.take(0) =~= Seq::<Seq<u8>>::empty());
        assert(vec_contents(iov@).take(0) =~= Seq::<Seq<u8>>::empty());
        assert(filled(Seq::<u8>::empty(), data@) =~= Seq::<u8>::empty());
    }
    while k < iov.len()
        invariant
            k <= iov@.len(),
            total == data@.len(),
            iov@.len() == old(iov)@.len(),
            before == vec_contents(old(iov)@),
            forall|j: int| 0 <= j < iov@.len() ==> iov@[j]@.len() == before[j].len(),
            forall|j: int| k <= j < iov@.len() ==> iov@[j]@ == before[j],
            taken == received_len(before.take(k as int).flatten().len(), data@.len()),
            vec_contents(iov@).take(k as int).flatten() == filled(
                before.take(k as int).flatten(),
                data@,
            ),
        decreases iov@.len() - k,
    {
        let ghost prior = vec_contents(iov@);
        let count: usize = fill(iov[k].as_mut_slice(), data, taken);
        proof {
            let now = vec_contents(iov@);
            let done = before.take(k as int).flatten();
            assert(now.take(k as int) =~= prior.take(k as int));
            assert(now.take(k + 1) =~= now.take(k as int).push(now[k as int]));
            now.take(k as int).lemma_flatten_push(now[k as int]);
            assert(before.take(k + 1) =~= before.take(k as int).push(before[k as int]));
            before.take(k as int).lemma_flatten_push(before[k as int]);
            lemma_filled_concat(done, before[k as int], data@);
            assert(taken <= data@.len());
            assert(count <= data@.len() - taken);
        }
        taken = taken + count;
        k = k + 1;
    }
    proof {
        assert(before.take(k as int) =~= before);
        assert(vec_contents(iov@).take(k as int) =~= vec_contents(iov@));
        assert forall|j: int| 0 <= j < old(iov)@.len() implies iov@[j]@.len() == old(
            iov,
        )@[j]@.len() by {
            assert(before[j] == old(iov)@[j]@);
        }
    }
    taken
}

} // verus!
