use crate::checksum::reinterpret_signed;
use crate::types::EngineError;
use vstd::bytes::{
    lemma_auto_spec_u32_to_from_le_bytes, spec_u32_from_le_bytes, spec_u32_to_le_bytes,
    u32_from_le_bytes, u32_to_le_bytes,
};
use vstd::prelude::*;
use vstd::slice::slice_subrange;

verus! {

/// The unsigned 32-bit integer with the same two's-complement bit pattern.
pub open spec fn reinterpret_unsigned(x: i32) -> u32 {
    if x >= 0 {
        x as u32
    } else {
        (x + 0x1_0000_0000) as u32
    }
}

/// A checksum list as it is stored: each checksum as four bytes, least
/// significant first, in two's complement, one after the other.
pub open spec fn blob_of(checksums: Seq<i32>) -> Seq<u8>
    decreases checksums.len(),
{
    if checksums.len() == 0 {
        Seq::empty()
    } else {
        blob_of(checksums.drop_last()) + spec_u32_to_le_bytes(
            reinterpret_unsigned(checksums.last()),
        )
    }
}

/// The checksum list that a blob stores: the bytes taken four at a time.
/// Bytes left over at the end are not read.
pub open spec fn checksums_in(blob: Seq<u8>) -> Seq<i32>
    decreases blob.len(),
{
    if blob.len() < 4 {
        Seq::empty()
    } else {
        let n = blob.len() - blob.len() % 4;
        checksums_in(blob.subrange(0, n - 4)).push(
            reinterpret_signed(spec_u32_from_le_bytes(blob.subrange(n - 4, n))),
        )
    }
}

fn to_unsigned(x: i32) -> (u: u32)
    ensures
        u == reinterpret_unsigned(x),
        reinterpret_signed(u) == x,
{
    if x >= 0 {
        x as u32
    } else {
        let back: i32 = x - i32::MIN;
        (back as u32) + 0x8000_0000
    }
}

fn to_signed(u: u32) -> (x: i32)
    ensures
        x == reinterpret_signed(u),
        reinterpret_unsigned(x) == u,
{
    if u < 0x8000_0000 {
        u as i32
    } else {
        let low: u32 = u - 0x8000_0000;
        (low as i32) + i32::MIN
    }
}

fn append_bytes(out: &mut Vec<u8>, bytes: &[u8])
    ensures
        final(out)@ == old(out)@ + bytes@,
{
    let mut i: usize = 0;
    assert(out@ =~= old(out)@ + bytes@.take(0));
    while i < bytes.len()
        invariant
            i <= bytes@.len(),
            out@ == old(out)@ + bytes@.take(i as int),
        decreases bytes.len() - i,
    {
        out.push(bytes[i]);
        assert(out@ =~= old(out)@ + bytes@.take(i + 1));
        i += 1;
    }
    assert(bytes@.take(bytes@.len() as int) =~= bytes@);
}

/// Packs a checksum list into a blob.
pub fn encode_checksums(checksums: &[i32]) -> (blob: Vec<u8>)
    ensures
        blob@ == blob_of(checksums@),
        blob@.len() == 4 * checksums@.len(),
{
    let mut blob: Vec<u8> = Vec::new();
    let mut i: usize = 0;
    assert(checksums@.take(0) =~= Seq::<i32>::empty());
    while i < checksums.len()
        invariant
            i <= checksums@.len(),
            blob@ == blob_of(checksums@.take(i as int)),
            blob@.len() == 4 * i,
        decreases checksums.len() - i,
    {
        let word: Vec<u8> = u32_to_le_bytes(to_unsigned(checksums[i]));
        proof {
            let next = checksums@.take(i + 1);
            assert(next.drop_last() =~= checksums@.take(i as int));
            assert(next.last() == checksums@[i as int]);
        }
        append_bytes(&mut blob, word.as_slice());
        i += 1;
    }
    assert(checksums@.take(checksums@.len() as int) =~= checksums@);
    blob
}

/// Unpacks a blob into the checksum list it stores.
///
/// Fails, with `EngineError::Invariant`, exactly when the length of the
/// blob is not a multiple of four.
pub fn decode_checksums(blob: &[u8]) -> (result: Result<Vec<i32>, EngineError>)
    ensures
        match result {
            Ok(checksums) => blob@.len() % 4 == 0 && checksums@ == checksums_in(blob@)
                && blob_of(checksums@) == blob@,
            Err(e) => blob@.len() % 4 != 0 && e is Invariant,
        },
{
    if blob.len() % 4 != 0 {
        return Err(
            EngineError::Invariant("the length of a checksum blob is no multiple of 4".to_string()),
        );
    }
    let mut checksums: Vec<i32> = Vec::new();
    let mut at: usize = 0;
    assert(blob@.subrange(0, 0) =~= Seq::<u8>::empty());
    while at < blob.len()
        invariant
            at <= blob@.len(),
            at % 4 == 0,
            blob@.len() % 4 == 0,
            checksums@ == checksums_in(blob@.subrange(0, at as int)),
            blob_of(checksums@) == blob@.subrange(0, at as int),
        decreases blob.len() - at,
    {
        let word: &[u8] = slice_subrange(blob, at, at + 4);
        let value: i32 = to_signed(u32_from_le_bytes(word));
        proof {
            lemma_auto_spec_u32_to_from_le_bytes();
            let read = blob@.subrange(0, at + 4);
            assert(read.subrange(0, at as int) =~= blob@.subrange(0, at as int));
            assert(read.subrange(at as int, at + 4) =~= word@);
            let grown = checksums@.push(value);
            assert(grown.drop_last() =~= checksums@);
            assert(blob_of(grown) =~= read);
        }
        checksums.push(value);
        at += 4;
    }
    assert(blob@.subrange(0, blob@.len() as int) =~= blob@);
    Ok(checksums)
}

/// A blob that was packed unpacks to the list it was packed from.
pub proof fn packed_checksums_unpack(checksums: Seq<i32>)
    ensures
        blob_of(checksums).len() == 4 * checksums.len(),
        checksums_in(blob_of(checksums)) == checksums,
    decreases checksums.len(),
{
    lemma_auto_spec_u32_to_from_le_bytes();
    if checksums.len() > 0 {
        let rest = checksums.drop_last();
        packed_checksums_unpack(rest);
        let word = spec_u32_to_le_bytes(reinterpret_unsigned(checksums.last()));
        let blob = blob_of(checksums);
        assert(blob.subrange(0, blob.len() - 4) =~= blob_of(rest));
        assert(blob.subrange(blob.len() - 4, blob.len() as int) =~= word);
        assert(reinterpret_signed(reinterpret_unsigned(checksums.last())) == checksums.last());
        assert(checksums_in(blob) =~= checksums);
    }
}

/// A field as it is stored: its length as four bytes, least significant
/// first, then its bytes.
pub open spec fn field_bytes(field: Seq<u8>) -> Seq<u8> {
    spec_u32_to_le_bytes(field.len() as u32) + field
}

/// A list of fields as it is stored: the fields one after the other.
pub open spec fn frame(fields: Seq<Seq<u8>>) -> Seq<u8>
    decreases fields.len(),
{
    if fields.len() == 0 {
        Seq::empty()
    } else {
        field_bytes(fields.first()) + frame(fields.drop_first())
    }
}

/// Every field is short enough for its length to be stored.
pub open spec fn fields_fit(fields: Seq<Seq<u8>>) -> bool {
    forall|i: int| 0 <= i < fields.len() ==> (#[trigger] fields[i]).len() <= u32::MAX
}

/// The list of fields that the bytes store, read from the front; nothing
/// where the bytes end inside a field.
pub open spec fn unframe(bytes: Seq<u8>) -> Option<Seq<Seq<u8>>>
    decreases bytes.len(),
{
    if bytes.len() == 0 {
        Some(Seq::empty())
    } else if bytes.len() < 4 {
        None
    } else {
        let n = spec_u32_from_le_bytes(bytes.subrange(0, 4)) as int;
        if bytes.len() < 4 + n {
            None
        } else {
            match unframe(bytes.subrange(4 + n, bytes.len() as int)) {
                Some(rest) => Some(seq![bytes.subrange(4, 4 + n)] + rest),
                None => None,
            }
        }
    }
}

/// The bytes of each field of a list.
pub open spec fn byte_fields(fields: Seq<Vec<u8>>) -> Seq<Seq<u8>> {
    fields.map_values(|field: Vec<u8>| field@)
}

/// Fields that were stored are read back as they were.
pub proof fn framed_fields_unframe(fields: Seq<Seq<u8>>)
    requires
        fields_fit(fields),
    ensures
        unframe(frame(fields)) == Some(fields),
    decreases fields.len(),
{
    lemma_auto_spec_u32_to_from_le_bytes();
    if fields.len() > 0 {
        let first = fields.first();
        let rest = fields.drop_first();
        assert(first.len() <= u32::MAX);
        assert(fields_fit(rest)) by {
            assert forall|i: int| 0 <= i < rest.len() implies (#[trigger] rest[i]).len()
                <= u32::MAX by {
                assert(rest[i] == fields[i + 1]);
            }
        }
        framed_fields_unframe(rest);
        let bytes = frame(fields);
        let n = first.len() as int;
        assert(bytes.subrange(0, 4) =~= spec_u32_to_le_bytes(first.len() as u32));
        assert(bytes.subrange(4, 4 + n) =~= first);
        assert(bytes.subrange(4 + n, bytes.len() as int) =~= frame(rest));
        assert(seq![first] + rest =~= fields);
    }
}

/// Storing one more field appends it.
pub proof fn lemma_frame_push(fields: Seq<Seq<u8>>, field: Seq<u8>)
    ensures
        frame(fields.push(field)) == frame(fields) + field_bytes(field),
    decreases fields.len(),
{
    if fields.len() == 0 {
        let none = Seq::<Seq<u8>>::empty();
        assert(fields.push(field).drop_first() =~= none);
        assert(frame(none) =~= Seq::<u8>::empty());
        assert(frame(fields) =~= Seq::<u8>::empty());
        assert(frame(fields.push(field)) =~= frame(fields) + field_bytes(field));
    } else {
        lemma_frame_push(fields.drop_first(), field);
        assert(fields.push(field).drop_first() =~= fields.drop_first().push(field));
        assert(frame(fields.push(field)) =~= frame(fields) + field_bytes(field));
    }
}

/// Stores a list of fields.
///
/// Fails, with `EngineError::Store`, exactly when a field is longer than
/// 4,294,967,295 bytes.
pub fn frame_fields(fields: &Vec<Vec<u8>>) -> (result: Result<Vec<u8>, EngineError>)
    ensures
        match result {
            Ok(bytes) => fields_fit(byte_fields(fields@)) && bytes@ == frame(byte_fields(fields@)),
            Err(e) => !fields_fit(byte_fields(fields@)) && e is Store,
        },
{
    let ghost all = byte_fields(fields@);
    let mut bytes: Vec<u8> = Vec::new();
    let mut i: usize = 0;
    assert(all.take(0) =~= Seq::<Seq<u8>>::empty());
    while i < fields.len()
        invariant
            i <= fields@.len(),
            all == byte_fields(fields@),
            fields_fit(all.take(i as int)),
            bytes@ == frame(all.take(i as int)),
        decreases fields.len() - i,
    {
        let field: &Vec<u8> = &fields[i];
        if field.len() > 0xffff_ffff {
            assert(all[i as int].len() > u32::MAX);
            return Err(EngineError::Store("a field is too long to be stored".to_string()));
        }
        let length: Vec<u8> = u32_to_le_bytes(field.len() as u32);
        proof {
            lemma_frame_push(all.take(i as int), field@);
            assert(all.take(i + 1) =~= all.take(i as int).push(field@));
        }
        append_bytes(&mut bytes, length.as_slice());
        append_bytes(&mut bytes, field.as_slice());
        assert(bytes@ =~= frame(all.take(i as int)) + field_bytes(field@));
        i += 1;
    }
    assert(all.take(fields@.len() as int) =~= all);
    Ok(bytes)
}

/// Reads the list of fields that the bytes store.
///
/// Fails, with `EngineError::Store`, exactly when the bytes end inside a
/// field.
pub fn unframe_bytes(bytes: &[u8]) -> (result: Result<Vec<Vec<u8>>, EngineError>)
    ensures
        match result {
            Ok(fields) => unframe(bytes@) == Some(byte_fields(fields@)),
            Err(e) => unframe(bytes@) is None && e is Store,
        },
{
    let mut fields: Vec<Vec<u8>> = Vec::new();
    let mut at: usize = 0;
    let total: usize = bytes.len();
    assert(bytes@.subrange(0, total as int) =~= bytes@);
    assert(byte_fields(fields@) =~= Seq::<Seq<u8>>::empty());
    while at < total
        invariant
            total == bytes@.len(),
            at <= total,
            unframe(bytes@) == match unframe(bytes@.subrange(at as int, total as int)) {
                Some(rest) => Some(byte_fields(fields@) + rest),
                None => None,
            },
        decreases total - at,
    {
        let ghost here = bytes@.subrange(at as int, total as int);
        if total - at < 4 {
            return Err(EngineError::Store("the store ends inside a length".to_string()));
        }
        let length: usize = u32_from_le_bytes(slice_subrange(bytes, at, at + 4)) as usize;
        assert(here.subrange(0, 4) =~= bytes@.subrange(at as int, at + 4));
        if total - at - 4 < length {
            return Err(EngineError::Store("the store ends inside a field".to_string()));
        }
        let from: usize = at + 4;
        let mut field: Vec<u8> = Vec::new();
        append_bytes(&mut field, slice_subrange(bytes, from, from + length));
        proof {
            let so_far = byte_fields(fields@);
            assert(here.subrange(4, 4 + length) =~= field@);
            assert(here.subrange(4 + length, here.len() as int) =~= bytes@.subrange(
                from + length,
                total as int,
            ));
            let rest_bytes = bytes@.subrange(from + length, total as int);
            if unframe(rest_bytes) is Some {
                let rest = unframe(rest_bytes)->0;
                assert(so_far + (seq![field@] + rest) =~= so_far.push(field@) + rest);
            }
            assert(byte_fields(fields@.push(field)) =~= so_far.push(field@));
        }
        fields.push(field);
        at = from + length;
    }
    proof {
        assert(bytes@.subrange(at as int, total as int) =~= Seq::<u8>::empty());
        assert(byte_fields(fields@) + Seq::<Seq<u8>>::empty() =~= byte_fields(fields@));
    }
    Ok(fields)
}

} // verus!
