//! The standard key tables (`standardkeyQ.bin` / `standardkeyT.bin`): 256 keys
//! of four 16-bit values that compressed animation frames refer to by index.
use crate::bytes::{
    avail, bits_of_i16, i16_bytes, i16_le, lemma_bits_i16, lemma_emit_emit, lemma_emit_empty,
    lemma_i16_bits, lemma_u16_bytes_of_le, lemma_u16_round_trip, u16_bytes, u16_le, ByteReader,
    ByteWriter, IoError, group_positions, lemma_reader_pos, lemma_writer_pos,
};
use vstd::prelude::*;

verus! {

broadcast use group_positions;

pub const NUM_KEYS: usize = 256;

/// One entry of a key table.
#[derive(Debug, Clone, Copy, PartialEq, Eq, Structural)]
pub struct Key {
    pub x: i16,
    pub y: i16,
    pub z: i16,
    pub n: i16,
}

/// The eight bytes of a key: its four values in order, little-endian.
pub open spec fn key_bytes(k: Key) -> Seq<u8> {
    i16_bytes(k.x) + i16_bytes(k.y) + i16_bytes(k.z) + i16_bytes(k.n)
}

/// The key stored in the eight bytes of `s` at `p`.
pub open spec fn key_at(s: Seq<u8>, p: int) -> Key {
    Key { x: i16_le(s, p), y: i16_le(s, p + 2), z: i16_le(s, p + 4), n: i16_le(s, p + 6) }
}

/// The bytes of a sequence of keys, one after the other.
pub open spec fn keys_bytes(keys: Seq<Key>) -> Seq<u8>
    decreases keys.len(),
{
    if keys.len() == 0 {
        Seq::empty()
    } else {
        keys_bytes(keys.drop_last()) + key_bytes(keys.last())
    }
}

/// The `n` keys stored one after the other in `s` from `p` on.
pub open spec fn keys_at(s: Seq<u8>, p: int, n: nat) -> Seq<Key> {
    Seq::new(n, |i: int| key_at(s, p + 8 * i))
}

impl Key {
    pub fn read(reader: &mut ByteReader) -> (r: Result<Key, IoError>)
        ensures
            final(reader)@.bytes == old(reader)@.bytes,
            avail(old(reader)@.bytes, old(reader)@.pos, 8) ==> r == Ok::<Key, IoError>(
                key_at(old(reader)@.bytes, old(reader)@.pos),
            ) && final(reader)@.pos == old(reader)@.pos + 8,
            !avail(old(reader)@.bytes, old(reader)@.pos, 8) ==> r == Err::<Key, IoError>(
                IoError::UnexpectedEof,
            ),
    {
        let x = reader.read_i16()?;
        let y = reader.read_i16()?;
        let z = reader.read_i16()?;
        let n = reader.read_i16()?;
        Ok(Key { x, y, z, n })
    }

    pub fn write(&self, writer: &mut ByteWriter)
        requires
            old(writer)@.pos + 8 <= usize::MAX,
        ensures
            final(writer)@ == old(writer)@.emit(key_bytes(*self)),
    {
        let ghost st = writer@;
        writer.write_i16(self.x);
        writer.write_i16(self.y);
        writer.write_i16(self.z);
        writer.write_i16(self.n);
        proof {
            lemma_emit_emit(st, i16_bytes(self.x), i16_bytes(self.y));
            lemma_emit_emit(st, i16_bytes(self.x) + i16_bytes(self.y), i16_bytes(self.z));
            lemma_emit_emit(
                st,
                i16_bytes(self.x) + i16_bytes(self.y) + i16_bytes(self.z),
                i16_bytes(self.n),
            );
        }
    }
}

/// A table of exactly 256 keys.
#[derive(Debug)]
pub struct StdKey {
    keys: Vec<Key>,
}

impl View for StdKey {
    type V = Seq<Key>;

    closed spec fn view(&self) -> Seq<Key> {
        self.keys@
    }
}

impl StdKey {
    #[verifier::type_invariant]
    closed spec fn inv(self) -> bool {
        self.keys@.len() == NUM_KEYS
    }

    /// Reads the 256 keys of a table.
    pub fn read(reader: &mut ByteReader) -> (r: Result<StdKey, IoError>)
        ensures
            final(reader)@.bytes == old(reader)@.bytes,
            avail(old(reader)@.bytes, old(reader)@.pos, 8 * NUM_KEYS) ==> r is Ok && r->Ok_0@
                == keys_at(old(reader)@.bytes, old(reader)@.pos, NUM_KEYS as nat)
                && final(reader)@.pos == old(reader)@.pos + 8 * NUM_KEYS,
            !avail(old(reader)@.bytes, old(reader)@.pos, 8 * NUM_KEYS) ==> r
                == Err::<StdKey, IoError>(IoError::UnexpectedEof),
    {
        let ghost s = reader@.bytes;
        let ghost p = reader@.pos;
        proof {
            lemma_reader_pos(*reader);
        }
        let mut keys: Vec<Key> = Vec::new();
        let mut i: usize = 0;
        while i < NUM_KEYS
            invariant
                0 <= i <= NUM_KEYS,
                reader@.bytes == s,
                s == old(reader)@.bytes,
                p == old(reader)@.pos,
                reader@.pos == p + 8 * i,
                p >= 0,
                i > 0 ==> avail(s, p, 8 * i),
                keys@ == keys_at(s, p, i as nat),
            decreases NUM_KEYS - i,
        {
            let key = Key::read(reader)?;
            proof {
                assert(avail(s, p, 8 * (i + 1)));
            }
            keys.push(key);
            i = i + 1;
            proof {
                assert(keys@ =~= keys_at(s, p, i as nat));
            }
        }
        Ok(StdKey { keys })
    }

    /// Writes the 256 keys of the table in order.
    pub fn write(&self, writer: &mut ByteWriter)
        requires
            old(writer)@.pos + 8 * NUM_KEYS <= usize::MAX,
        ensures
            final(writer)@ == old(writer)@.emit(keys_bytes(self@)),
    {
        proof {
            use_type_invariant(self);
        }
        let ghost st = writer@;
        proof {
            lemma_writer_pos(*writer);
        }
        let mut i: usize = 0;
        proof {
            assert(self@.subrange(0, 0) =~= Seq::<Key>::empty());
            lemma_emit_empty(st);
        }
        while i < self.keys.len()
            invariant
                0 <= i <= self.keys@.len() == NUM_KEYS,
                st.pos + 8 * NUM_KEYS <= usize::MAX,
                st.pos >= 0,
                writer@ == st.emit(keys_bytes(self.keys@.subrange(0, i as int))),
                writer@.pos == st.pos + 8 * i,
            decreases self.keys@.len() - i,
        {
            self.keys[i].write(writer);
            proof {
                let pre = self.keys@.subrange(0, i as int);
                let next = self.keys@.subrange(0, i + 1);
                assert(next.drop_last() =~= pre);
                lemma_emit_emit(st, keys_bytes(pre), key_bytes(self.keys@[i as int]));
                lemma_keys_bytes_len(next);
            }
            i = i + 1;
        }
        proof {
            assert(self.keys@.subrange(0, NUM_KEYS as int) =~= self.keys@);
        }
    }

    /// The key at `index`; every `u8` is a valid index of the 256 keys.
    pub fn get(&self, index: u8) -> (k: Key)
        ensures
            k == self@[index as int],
    {
        proof {
            use_type_invariant(self);
        }
        self.keys[index as usize]
    }

    /// The number of keys, which is always 256.
    pub fn len(&self) -> (n: usize)
        ensures
            n == self@.len(),
            n == NUM_KEYS,
    {
        proof {
            use_type_invariant(self);
        }
        self.keys.len()
    }
}

pub proof fn lemma_keys_bytes_len(keys: Seq<Key>)
    ensures
        keys_bytes(keys).len() == 8 * keys.len(),
    decreases keys.len(),
{
    if keys.len() > 0 {
        lemma_keys_bytes_len(keys.drop_last());
    }
}

/// Reading the eight bytes written for a key gives the key back.
pub proof fn lemma_key_round_trip(k: Key, front: Seq<u8>, rest: Seq<u8>)
    ensures
        key_at(front + key_bytes(k) + rest, front.len() as int) == k,
{
    let f = front.len() as int;
    let s = front + key_bytes(k) + rest;
    let kb = key_bytes(k);
    lemma_u16_round_trip(bits_of_i16(k.x), kb.subrange(2, 8) + rest, front);
    assert(s =~= front + u16_bytes(bits_of_i16(k.x)) + (kb.subrange(2, 8) + rest));
    lemma_u16_round_trip(
        bits_of_i16(k.y),
        kb.subrange(4, 8) + rest,
        front + kb.subrange(0, 2),
    );
    assert(s =~= (front + kb.subrange(0, 2)) + u16_bytes(bits_of_i16(k.y)) + (kb.subrange(4, 8)
        + rest));
    lemma_u16_round_trip(
        bits_of_i16(k.z),
        kb.subrange(6, 8) + rest,
        front + kb.subrange(0, 4),
    );
    assert(s =~= (front + kb.subrange(0, 4)) + u16_bytes(bits_of_i16(k.z)) + (kb.subrange(6, 8)
        + rest));
    lemma_u16_round_trip(bits_of_i16(k.n), rest, front + kb.subrange(0, 6));
    assert(s =~= (front + kb.subrange(0, 6)) + u16_bytes(bits_of_i16(k.n)) + rest);
    lemma_i16_bits(k.x);
    lemma_i16_bits(k.y);
    lemma_i16_bits(k.z);
    lemma_i16_bits(k.n);
}

/// Writing the key stored at `p` gives back its eight bytes.
pub proof fn lemma_key_bytes_of_at(s: Seq<u8>, p: int)
    requires
        avail(s, p, 8),
    ensures
        key_bytes(key_at(s, p)) == s.subrange(p, p + 8),
{
    lemma_u16_bytes_of_le(s, p);
    lemma_u16_bytes_of_le(s, p + 2);
    lemma_u16_bytes_of_le(s, p + 4);
    lemma_u16_bytes_of_le(s, p + 6);
    lemma_bits_i16(u16_le(s, p));
    lemma_bits_i16(u16_le(s, p + 2));
    lemma_bits_i16(u16_le(s, p + 4));
    lemma_bits_i16(u16_le(s, p + 6));
    assert(key_bytes(key_at(s, p)) =~= s.subrange(p, p + 8));
}

/// Reading a table back from the bytes written for it gives the same keys.
pub proof fn law_stdkey_write_read(keys: Seq<Key>, front: Seq<u8>, rest: Seq<u8>)
    requires
        keys.len() == NUM_KEYS,
    ensures
        avail(front + keys_bytes(keys) + rest, front.len() as int, 8 * NUM_KEYS),
        keys_at(front + keys_bytes(keys) + rest, front.len() as int, NUM_KEYS as nat) == keys,
{
    lemma_keys_at_bytes(keys, front, rest);
    lemma_keys_bytes_len(keys);
}

pub proof fn lemma_keys_at_bytes(keys: Seq<Key>, front: Seq<u8>, rest: Seq<u8>)
    ensures
        keys_at(front + keys_bytes(keys) + rest, front.len() as int, keys.len()) == keys,
    decreases keys.len(),
{
    let s = front + keys_bytes(keys) + rest;
    if keys.len() > 0 {
        let init = keys.drop_last();
        let last = keys.last();
        lemma_keys_bytes_len(init);
        assert(s =~= front + keys_bytes(init) + (key_bytes(last) + rest));
        lemma_keys_at_bytes(init, front, key_bytes(last) + rest);
        assert(s =~= (front + keys_bytes(init)) + key_bytes(last) + rest);
        lemma_key_round_trip(last, front + keys_bytes(init), rest);
        let f = front.len() as int;
        assert forall|i: int| 0 <= i < keys.len() implies #[trigger] keys_at(s, f, keys.len())[i]
            == keys[i] by {
            if i < init.len() {
                assert(keys_at(s, f, init.len())[i] == init[i]);
            }
        }
        assert(keys_at(s, f, keys.len()) =~= keys);
    } else {
        assert(keys_at(s, front.len() as int, 0) =~= keys);
    }
}

/// Writing the keys read from bytes gives those bytes back.
pub proof fn law_stdkey_read_write(s: Seq<u8>, p: int)
    requires
        avail(s, p, 8 * NUM_KEYS),
    ensures
        keys_bytes(keys_at(s, p, NUM_KEYS as nat)) == s.subrange(p, p + 8 * NUM_KEYS),
{
    lemma_keys_bytes_of_at(s, p, NUM_KEYS as nat);
}

pub proof fn lemma_keys_bytes_of_at(s: Seq<u8>, p: int, n: nat)
    requires
        avail(s, p, 8 * n as int),
        0 <= p <= s.len(),
    ensures
        keys_bytes(keys_at(s, p, n)) == s.subrange(p, p + 8 * n),
    decreases n,
{
    if n > 0 {
        let m = (n - 1) as nat;
        lemma_keys_bytes_of_at(s, p, m);
        assert(keys_at(s, p, n).drop_last() =~= keys_at(s, p, m));
        lemma_key_bytes_of_at(s, p + 8 * m);
        assert(s.subrange(p, p + 8 * m) + s.subrange(p + 8 * m, p + 8 * n) =~= s.subrange(
            p,
            p + 8 * n,
        ));
    } else {
        assert(keys_bytes(keys_at(s, p, 0)) =~= s.subrange(p, p));
    }
}

} // verus!
