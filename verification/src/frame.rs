use vstd::prelude::*;
use vstd::bytes::{
    lemma_auto_spec_u64_to_from_le_bytes, spec_u64_from_le_bytes, spec_u64_to_le_bytes,
    u64_from_le_bytes, u64_to_le_bytes,
};
use crate::tls::bytes_of;

verus! {

/// One field as it is stored: its length in eight bytes, low byte first, then
/// its bytes.
pub open spec fn framed_field(field: Seq<u8>) -> Seq<u8> {
    spec_u64_to_le_bytes(field.len() as u64) + field
}

/// A list of fields as it is stored: the fields one after the other.
pub open spec fn framed(fields: Seq<Seq<u8>>) -> Seq<u8>
    decreases fields.len(),
{
    if fields.len() == 0 {
        Seq::empty()
    } else {
        framed(fields.drop_last()) + framed_field(fields.last())
    }
}

/// The fields that stored bytes hold; `None` where the bytes end inside a
/// length or inside a field.
pub open spec fn unframed(bytes: Seq<u8>) -> Option<Seq<Seq<u8>>>
    decreases bytes.len(),
{
    if bytes.len() == 0 {
        Some(Seq::empty())
    } else if bytes.len() < 8 {
        None
    } else {
        let n = spec_u64_from_le_bytes(bytes.subrange(0, 8)) as int;
        if bytes.len() - 8 < n {
            None
        } else {
            prefixed(seq![bytes.subrange(8, 8 + n)], unframed(bytes.skip(8 + n)))
        }
    }
}

/// Fields already read, before those that the rest holds.
pub open spec fn prefixed(done: Seq<Seq<u8>>, rest: Option<Seq<Seq<u8>>>) -> Option<Seq<Seq<u8>>> {
    match rest {
        None => None,
        Some(r) => Some(done + r),
    }
}

/// The stored form begins with the first field.
proof fn lemma_framed_front(fields: Seq<Seq<u8>>)
    requires
        fields.len() > 0,
    ensures
        framed(fields) == framed_field(fields[0]) + framed(fields.skip(1)),
    decreases fields.len(),
{
    if fields.len() == 1 {
        assert(fields.drop_last() =~= Seq::<Seq<u8>>::empty());
        assert(fields.skip(1) =~= Seq::<Seq<u8>>::empty());
        assert(framed(fields) =~= framed_field(fields[0]) + framed(fields.skip(1)));
    } else {
        lemma_framed_front(fields.drop_last());
        assert(fields.skip(1).drop_last() =~= fields.drop_last().skip(1));
        assert(fields.skip(1).last() == fields.last());
        assert(framed(fields) =~= framed_field(fields[0]) + framed(fields.skip(1)));
    }
}

/// What is stored is read back as it was: reading the stored form of a list
/// of fields gives that list.
pub proof fn lemma_unframe_framed(fields: Seq<Seq<u8>>)
    requires
        forall|i: int| 0 <= i < fields.len() ==> (#[trigger] fields[i]).len() <= u64::MAX,
    ensures
        unframed(framed(fields)) == Some(fields),
    decreases fields.len(),
{
    lemma_auto_spec_u64_to_from_le_bytes();
    if fields.len() > 0 {
        lemma_framed_front(fields);
        let b = framed(fields);
        let n = fields[0].len() as int;
        let head = spec_u64_to_le_bytes(fields[0].len() as u64);
        assert(head.len() == 8);
        assert(b.subrange(0, 8) =~= head);
        assert(b.subrange(8, 8 + n) =~= fields[0]);
        assert(b.skip(8 + n) =~= framed(fields.skip(1)));
        lemma_unframe_framed(fields.skip(1));
        assert(seq![fields[0]] + fields.skip(1) =~= fields);
    }
}

/// Appends bytes to a buffer.
fn append(out: &mut Vec<u8>, more: &Vec<u8>)
    ensures
        final(out)@ == old(out)@ + more@,
{
    let mut i: usize = 0;
    while i < more.len()
        invariant
            i <= more@.len(),
            out@ == old(out)@ + more@.take(i as int),
        decreases more@.len() - i,
    {
        out.push(more[i]);
        proof {
            assert(out@ =~= old(out)@ + more@.take(i + 1));
        }
        i += 1;
    }
    proof {
        assert(more@.take(i as int) =~= more@);
    }
}

/// A copy of a range of bytes.
fn copy_range(bytes: &Vec<u8>, from: usize, to: usize) -> (r: Vec<u8>)
    requires
        from <= to <= bytes@.len(),
    ensures
        r@ == bytes@.subrange(from as int, to as int),
{
    let mut r: Vec<u8> = Vec::new();
    let mut i: usize = from;
    while i < to
        invariant
            from <= i <= to <= bytes@.len(),
            r@ == bytes@.subrange(from as int, i as int),
        decreases to - i,
    {
        r.push(bytes[i]);
        proof {
            assert(r@ =~= bytes@.subrange(from as int, i + 1));
        }
        i += 1;
    }
    r
}

/// Stores a list of fields: each with its length before it.
pub fn frame(fields: &Vec<Vec<u8>>) -> (out: Vec<u8>)
    ensures
        out@ == framed(bytes_of(fields@)),
        unframed(out@) == Some(bytes_of(fields@)),
{
    let mut out: Vec<u8> = Vec::new();
    let mut i: usize = 0;
    while i < fields.len()
        invariant
            i <= fields@.len(),
            out@ == framed(bytes_of(fields@).take(i as int)),
        decreases fields@.len() - i,
    {
        let length = u64_to_le_bytes(fields[i].len() as u64);
        append(&mut out, &length);
        append(&mut out, &fields[i]);
        proof {
            let all = bytes_of(fields@);
            assert(all.take(i + 1).drop_last() =~= all.take(i as int));
            assert(all.take(i + 1).last() == fields@[i as int]@);
            assert(out@ =~= framed(all.take(i as int)) + framed_field(fields@[i as int]@));
        }
        i += 1;
    }
    proof {
        let all = bytes_of(fields@);
        assert(all.take(i as int) =~= all);
        assert forall|j: int| 0 <= j < all.len() implies (#[trigger] all[j]).len() <= u64::MAX by {
            assert(all[j] == fields@[j]@);
            assert(fields@[j]@.len() == fields@[j].len());
        }
        lemma_unframe_framed(all);
    }
    out
}

/// Reads stored fields back. Fails where the bytes end inside a length or
/// inside a field.
pub fn unframe(bytes: &Vec<u8>) -> (r: Option<Vec<Vec<u8>>>)
    ensures
        match r {
            Some(fields) => unframed(bytes@) == Some(bytes_of(fields@)),
            None => unframed(bytes@) is None,
        },
{
    let mut out: Vec<Vec<u8>> = Vec::new();
    let mut pos: usize = 0;
    proof {
        assert(bytes@.skip(0) =~= bytes@);
        assert(bytes_of(out@) =~= Seq::<Seq<u8>>::empty());
        let whole = unframed(bytes@);
        if whole is Some {
            assert(Seq::<Seq<u8>>::empty() + whole.unwrap() =~= whole.unwrap());
        }
    }
    while pos < bytes.len()
        invariant
            pos <= bytes@.len(),
            unframed(bytes@) == prefixed(bytes_of(out@), unframed(bytes@.skip(pos as int))),
        decreases bytes@.len() - pos,
    {
        let rest = bytes.len() - pos;
        let ghost s = bytes@.skip(pos as int);
        if rest < 8 {
            return None;
        }
        let head = copy_range(bytes, pos, pos + 8);
        let n = u64_from_le_bytes(head.as_slice());
        proof {
            assert(s.subrange(0, 8) =~= head@);
        }
        if n > (rest - 8) as u64 {
            return None;
        }
        let width = n as usize;
        let field = copy_range(bytes, pos + 8, pos + 8 + width);
        proof {
            assert(s.subrange(8, 8 + n) =~= field@);
            assert(s.skip(8 + n) =~= bytes@.skip(pos + 8 + n));
            assert(bytes_of(out@.push(field)) =~= bytes_of(out@).push(field@));
            let later = unframed(bytes@.skip(pos + 8 + n));
            if later is Some {
                assert(bytes_of(out@) + (seq![field@] + later.unwrap()) =~= bytes_of(out@).push(field@)
                    + later.unwrap());
            }
        }
        out.push(field);
        pos = pos + 8 + width;
    }
    proof {
        assert(bytes@.skip(pos as int) =~= Seq::<u8>::empty());
        assert(bytes_of(out@) + Seq::<Seq<u8>>::empty() =~= bytes_of(out@));
    }
    Some(out)
}

} // verus!
