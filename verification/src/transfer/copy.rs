//! The copy of one object: what is read must be what was recorded, and what is
//! written is what was read.
use crate::attributes::AttributePair;
use crate::text::same_text;
use crate::transfer::buffer::{
    buffer_len, buffered, extend_buffer, new_buffer, split_buffer,
};
use crate::transfer::digest::{absorb, absorbed, hex_digest, new_hasher, sha256_hex, Hasher};
use crate::transfer::failure::TransferError;
use crate::transfer::record::{
    attributes, forms_of, in_order, names_unsupported, order_is_unique, pair_forms, same_attributes,
    AttributeForm, ObjectRecord,
};
use bytes::BytesMut;
use vstd::prelude::*;

verus! {

/// The most bytes of one part of a transfer.
pub const PART_BYTES: usize = 8_388_608;

/// What the destination says of a key before it is written in parts.
#[derive(Clone, Copy, Debug, PartialEq, Eq, Structural)]
pub enum DestinationHead {
    /// No object has the key.
    NotFound,
    /// An object has the key.
    Found,
    /// The destination could not tell.
    Failed,
}

/// How an object is written to the destination.
#[derive(Clone, Copy, Debug, PartialEq, Eq, Structural)]
pub enum CopyRoute {
    /// In one piece, by a create that refuses to overwrite.
    Create,
    /// In parts, after a look that the key is free.
    Parts,
}

/// How an object of this size is written.
pub fn copy_route(size: u64) -> (route: CopyRoute)
    ensures
        route == if size <= PART_BYTES {
            CopyRoute::Create
        } else {
            CopyRoute::Parts
        },
{
    if size <= PART_BYTES as u64 {
        CopyRoute::Create
    } else {
        CopyRoute::Parts
    }
}

/// Whether the key is known to be free at the destination.
pub fn check_absent(key: &str, head: DestinationHead) -> (checked: Result<(), TransferError>)
    ensures
        checked is Ok <==> head is NotFound,
        checked matches Err(error) ==> error matches TransferError::DestinationExists { key: shown }
            && shown@ == key@,
{
    match head {
        DestinationHead::NotFound => Ok(()),
        _ => Err(TransferError::DestinationExists { key: key.to_owned() }),
    }
}

/// The bytes of a source object on their way to the destination.
pub struct CopyReader {
    pub key: String,
    pub size: u64,
    pub sha256: String,
    pub hasher: Hasher,
    pub count: u64,
    pub parts: u64,
    pub pending: BytesMut,
    /// The bytes that are in a part handed out or pending.
    pub taken: Ghost<Seq<u8>>,
}

/// Whether the bytes that came are those of the record.
pub fn check_copied(
    key: &str,
    size: u64,
    sha256: &str,
    count: u64,
    actual: &str,
) -> (checked: Result<(), TransferError>)
    ensures
        checked is Ok <==> count == size && actual@ == sha256@,
        checked matches Err(error) ==> error matches TransferError::SourceContent { key: shown }
            && shown@ == key@,
{
    if count == size && same_text(actual, sha256) {
        Ok(())
    } else {
        Err(TransferError::SourceContent { key: key.to_owned() })
    }
}

impl CopyReader {
    /// The bytes that came are counted and hashed; of those taken, all but the
    /// pending ones are in parts.
    pub open spec fn wf(self) -> bool {
        &&& self.count == absorbed(self.hasher).len()
        &&& self.count <= self.size
        &&& self.taken@.len() == self.parts * PART_BYTES + buffered(self.pending).len()
        &&& buffered(self.pending) == self.taken@.skip(self.parts * PART_BYTES)
        &&& self.taken@.len() <= self.count
        &&& absorbed(self.hasher).take(self.taken@.len() as int) == self.taken@
    }

    /// Begins with the answer of the source: its size and attributes must be those
    /// of the record.
    pub fn new(record: &ObjectRecord, size: u64, pairs: &Vec<AttributePair>) -> (begun: Result<
        CopyReader,
        TransferError,
    >)
        ensures
            match begun {
                Ok(begun) => {
                    &&& size == record.size
                    &&& attributes_are(record@.attributes, pairs@)
                    &&& begun.wf()
                    &&& begun.key@ == record@.key
                    &&& begun.size == record.size
                    &&& begun.sha256@ == record@.sha256
                    &&& begun.count == 0
                    &&& begun.parts == 0
                    &&& absorbed(begun.hasher) == Seq::<u8>::empty()
                    &&& begun.taken@ == Seq::<u8>::empty()
                },
                Err(TransferError::SourceChanged { key }) => key@ == record@.key && (size
                    != record.size || !attributes_are(record@.attributes, pairs@)),
                Err(error) => size == record.size && names_unsupported(error, pairs@),
            },
    {
        if size != record.size {
            return Err(TransferError::SourceChanged { key: record.key.clone() });
        }
        let told = match attributes(pairs) {
            Ok(told) => told,
            Err(error) => return Err(error),
        };
        if !same_attributes(&told, &record.attributes) {
            proof {
                if attributes_are(record@.attributes, pairs@) {
                    order_is_unique(record@.attributes, forms_of(told@));
                }
            }
            return Err(TransferError::SourceChanged { key: record.key.clone() });
        }
        assert(Seq::<u8>::empty().skip(0) =~= Seq::<u8>::empty());
        let capacity: usize = if record.size < PART_BYTES as u64 {
            record.size as usize
        } else {
            PART_BYTES
        };
        let hasher = new_hasher();
        assert(absorbed(hasher).take(0) =~= Seq::<u8>::empty());
        Ok(
            CopyReader {
                key: record.key.clone(),
                size: record.size,
                sha256: record.sha256.clone(),
                hasher,
                count: 0,
                parts: 0,
                pending: new_buffer(capacity),
                taken: Ghost(Seq::empty()),
            },
        )
    }

    /// Counts and hashes the next bytes of the source, which may not be more than
    /// the record says.
    pub fn accept(&mut self, bytes: &Vec<u8>) -> (taken: Result<(), TransferError>)
        requires
            old(self).wf(),
            old(self).count + bytes@.len() <= u64::MAX,
        ensures
            final(self).key == old(self).key,
            final(self).size == old(self).size,
            final(self).sha256 == old(self).sha256,
            final(self).parts == old(self).parts,
            final(self).taken == old(self).taken,
            final(self).pending == old(self).pending,
            final(self).count == old(self).count + bytes@.len(),
            taken is Err <==> old(self).count + bytes@.len() > old(self).size,
            taken matches Err(error) ==> {
                &&& error matches TransferError::SourceExceeded { key }
                &&& key@ == old(self).key@
                &&& final(self).hasher == old(self).hasher
            },
            taken is Ok ==> {
                &&& final(self).wf()
                &&& absorbed(final(self).hasher) == absorbed(old(self).hasher) + bytes@
            },
    {
        self.count = self.count + bytes.len() as u64;
        if self.count > self.size {
            return Err(TransferError::SourceExceeded { key: self.key.clone() });
        }
        let ghost earlier = absorbed(self.hasher);
        absorb(&mut self.hasher, bytes);
        proof {
            let n = self.taken@.len() as int;
            assert(absorbed(self.hasher).take(n) =~= earlier.take(n));
        }
        Ok(())
    }

    /// Takes bytes that were counted, as many as fill the next part: how many it
    /// took, and the part where it is full.
    pub fn cut(&mut self, bytes: &Vec<u8>, from: usize) -> (step: (usize, Option<Vec<u8>>))
        requires
            old(self).wf(),
            buffered(old(self).pending).len() < PART_BYTES,
            from < bytes@.len(),
            absorbed(old(self).hasher).skip(old(self).taken@.len() as int) == bytes@.skip(
                from as int,
            ),
        ensures
            final(self).wf(),
            buffered(final(self).pending).len() < PART_BYTES,
            final(self).key == old(self).key,
            final(self).size == old(self).size,
            final(self).sha256 == old(self).sha256,
            final(self).hasher == old(self).hasher,
            final(self).count == old(self).count,
            0 < step.0 <= bytes@.len() - from,
            final(self).taken@ == old(self).taken@ + bytes@.subrange(from as int, from + step.0),
            absorbed(final(self).hasher).skip(final(self).taken@.len() as int) == bytes@.skip(
                from + step.0,
            ),
            step.1 is None ==> final(self).parts == old(self).parts && from + step.0
                == bytes@.len(),
            step.1 matches Some(part) ==> {
                &&& final(self).parts == old(self).parts + 1
                &&& part@.len() == PART_BYTES
                &&& part@ == final(self).taken@.subrange(
                    old(self).parts * PART_BYTES,
                    old(self).parts * PART_BYTES + PART_BYTES,
                )
                &&& buffered(final(self).pending).len() == 0
            },
    {
        let room: usize = PART_BYTES - buffer_len(&self.pending);
        let left: usize = bytes.len() - from;
        let count: usize = if room < left {
            room
        } else {
            left
        };
        let ghost earlier = self.taken@;
        let ghost all = absorbed(self.hasher);
        extend_buffer(&mut self.pending, bytes, from, from + count);
        proof {
            let n = earlier.len() as int;
            self.taken = Ghost(earlier + bytes@.subrange(from as int, from + count));
            assert(self.taken@.skip(self.parts * PART_BYTES) =~= buffered(self.pending));
            assert(all.len() == n + (bytes@.len() - from)) by {
                assert(all.skip(n).len() == bytes@.skip(from as int).len());
            }
            assert forall|j: int| n <= j < n + count implies all[j] == bytes@[from + (j - n)] by {
                assert(all.skip(n)[j - n] == bytes@.skip(from as int)[j - n]);
            }
            assert forall|j: int| 0 <= j < n implies all[j] == earlier[j] by {
                assert(all.take(n)[j] == earlier[j]);
            }
            assert(all.take(n + count) =~= self.taken@);
            assert(all.skip(n + count) =~= bytes@.skip(from + count)) by {
                assert(all.skip(n).skip(count as int) =~= all.skip(n + count));
                assert(bytes@.skip(from as int).skip(count as int) =~= bytes@.skip(from + count));
            }
        }
        if buffer_len(&self.pending) == PART_BYTES {
            let part = split_buffer(&mut self.pending);
            let done: u64 = self.parts;
            proof {
                let c = done * PART_BYTES;
                assert(part@ =~= self.taken@.subrange(c, c + PART_BYTES));
                assert((done + 1) * PART_BYTES == c + PART_BYTES);
                assert(self.taken@.skip(c + PART_BYTES) =~= Seq::<u8>::empty());
            }
            self.parts = done + 1;
            return (count, Some(part));
        }
        (count, None)
    }

    /// Keeps bytes that were counted, for an object written in one piece.
    pub fn keep(&mut self, bytes: &Vec<u8>)
        requires
            old(self).wf(),
            old(self).size <= PART_BYTES,
            absorbed(old(self).hasher).skip(old(self).taken@.len() as int) == bytes@,
        ensures
            final(self).wf(),
            final(self).key == old(self).key,
            final(self).size == old(self).size,
            final(self).sha256 == old(self).sha256,
            final(self).hasher == old(self).hasher,
            final(self).count == old(self).count,
            final(self).parts == old(self).parts,
            final(self).taken@ == old(self).taken@ + bytes@,
    {
        let ghost earlier = self.taken@;
        let ghost all = absorbed(self.hasher);
        assert(all.skip(earlier.len() as int).len() == bytes@.len());
        extend_buffer(&mut self.pending, bytes, 0, bytes.len());
        proof {
            let n = earlier.len() as int;
            self.taken = Ghost(earlier + bytes@);
            assert(bytes@.subrange(0, bytes@.len() as int) =~= bytes@);
            assert(self.taken@.skip(self.parts * PART_BYTES) =~= buffered(self.pending));
            assert(all.len() == n + bytes@.len());
            assert forall|j: int| n <= j < all.len() implies all[j] == bytes@[j - n] by {
                assert(all.skip(n)[j - n] == bytes@[j - n]);
            }
            assert forall|j: int| 0 <= j < n implies all[j] == earlier[j] by {
                assert(all.take(n)[j] == earlier[j]);
            }
            assert(all.take(n + bytes@.len()) =~= self.taken@);
        }
    }

    /// The bytes left over once the source has ended, where all that came is what
    /// was recorded: as many bytes as the size says, with the SHA-256 of the
    /// record.
    pub fn finish(self) -> (rest: Result<Vec<u8>, TransferError>)
        requires
            self.wf(),
            self.taken@ == absorbed(self.hasher),
        ensures
            rest is Ok <==> self.taken@.len() == self.size && sha256_hex(self.taken@)
                == self.sha256@,
            rest matches Ok(rest) ==> rest@ == self.taken@.skip(self.parts * PART_BYTES),
            rest matches Err(error) ==> error matches TransferError::SourceContent { key } && key@
                == self.key@,
    {
        let actual = hex_digest(self.hasher);
        match check_copied(
            self.key.as_str(),
            self.size,
            self.sha256.as_str(),
            self.count,
            actual.as_str(),
        ) {
            Ok(()) => {
                let mut pending = self.pending;
                Ok(split_buffer(&mut pending))
            },
            Err(error) => Err(error),
        }
    }
}

/// The attributes in order are those of the pairs.
pub open spec fn attributes_are(forms: Seq<AttributeForm>, pairs: Seq<AttributePair>) -> bool {
    &&& in_order(forms)
    &&& forms.to_multiset() == pair_forms(pairs).to_multiset()
}

/// The parts handed out, one behind another, and the bytes left over behind them
/// are the bytes of the source.
pub proof fn parts_add_up(source: Seq<u8>, parts: nat)
    requires
        parts * PART_BYTES <= source.len(),
    ensures
        parts_of(source, parts) + source.skip((parts * PART_BYTES) as int) == source,
    decreases parts,
{
    if parts == 0 {
        assert(parts_of(source, 0) + source.skip(0) =~= source);
    } else {
        parts_add_up(source, (parts - 1) as nat);
        let c = (parts - 1) * PART_BYTES;
        assert(parts * PART_BYTES == c + PART_BYTES);
        parts_are_a_prefix(source, (parts - 1) as nat);
        parts_are_a_prefix(source, parts);
        assert(parts_of(source, parts) + source.skip((parts * PART_BYTES) as int) =~= source);
    }
}

/// The first parts of the bytes of a source, one behind another.
pub open spec fn parts_of(source: Seq<u8>, parts: nat) -> Seq<u8>
    decreases parts,
{
    if parts == 0 {
        Seq::empty()
    } else {
        parts_of(source, (parts - 1) as nat) + source.subrange(
            (parts - 1) * PART_BYTES,
            (parts - 1) * PART_BYTES + PART_BYTES,
        )
    }
}

proof fn parts_are_a_prefix(source: Seq<u8>, parts: nat)
    requires
        parts * PART_BYTES <= source.len(),
    ensures
        parts_of(source, parts) == source.take((parts * PART_BYTES) as int),
    decreases parts,
{
    if parts == 0 {
        assert(source.take(0) =~= Seq::<u8>::empty());
    } else {
        let c = (parts - 1) * PART_BYTES;
        assert(parts * PART_BYTES == c + PART_BYTES);
        parts_are_a_prefix(source, (parts - 1) as nat);
        assert(parts_of(source, parts) =~= source.take((parts * PART_BYTES) as int));
    }
}

} // verus!
