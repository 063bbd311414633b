//! The entity record that host and guest exchange, and its wire image.
//!
//! A record is `ENTITY_SZ` 32-bit fields long. The first `ENGINE_FIELDS_SZ`
//! of them have a meaning that the engine knows; on the wire each is a
//! little-endian word. The rest belongs to the guest: the host keeps those
//! bytes exactly as the guest wrote them.

use vstd::prelude::*;

verus! {

/// Bytes in one field of a record.
pub const FIELD_SZ: usize = 4;

/// Fields in one record.
pub const ENTITY_SZ: usize = 31;

/// Fields at the start of a record that the engine interprets.
pub const ENGINE_FIELDS_SZ: usize = 12;

/// Fields at the end of a record that only the guest interprets.
pub const GAME_FIELDS_SZ: usize = 19;

/// Bytes in the wire image of a record.
pub const ENTITY_BYTES: usize = 124;

/// Bytes in the wire image of the engine's fields.
pub const ENGINE_BYTES: usize = 48;

/// Bytes in the guest's part of a record.
pub const GAME_BYTES: usize = 76;

/// The four bytes of a word, least significant first.
pub open spec fn le_bytes(word: u32) -> Seq<u8> {
    seq![
        (word % 256) as u8,
        (word / 256 % 256) as u8,
        (word / 65536 % 256) as u8,
        (word / 16777216) as u8,
    ]
}

/// The word whose bytes, least significant first, are the first four of
/// `bytes`.
pub open spec fn le_word(bytes: Seq<u8>) -> u32
    recommends
        bytes.len() >= 4,
{
    (bytes[0] + bytes[1] * 256 + bytes[2] * 65536 + bytes[3] * 16777216) as u32
}

/// The little-endian image of a sequence of words.
pub open spec fn words_le(words: Seq<u32>) -> Seq<u8> {
    Seq::new(4 * words.len(), |k: int| le_bytes(words[k / 4])[k % 4])
}

/// Reading a word back from its little-endian bytes gives the word.
pub proof fn lemma_le_word_of_bytes(word: u32)
    ensures
        le_bytes(word).len() == 4,
        le_word(le_bytes(word)) == word,
{
}

/// Writing out the word read from four bytes gives the four bytes.
pub proof fn lemma_le_bytes_of_word(bytes: Seq<u8>)
    requires
        bytes.len() == 4,
    ensures
        le_bytes(le_word(bytes)) == bytes,
{
    let b0: u32 = bytes[0] as u32;
    let b1: u32 = bytes[1] as u32;
    let b2: u32 = bytes[2] as u32;
    let b3: u32 = bytes[3] as u32;
    let word: u32 = le_word(bytes);
    assert(word == b0 + b1 * 256 + b2 * 65536 + b3 * 16777216);
    assert(word % 256 == b0 && word / 256 % 256 == b1 && word / 65536 % 256 == b2 && word
        / 16777216 == b3) by (bit_vector)
        requires
            b0 < 256,
            b1 < 256,
            b2 < 256,
            b3 < 256,
            word == b0 + b1 * 256 + b2 * 65536 + b3 * 16777216,
    ;
    assert(le_bytes(word) =~= bytes);
}

/// Two words with the same little-endian bytes are the same word.
pub proof fn lemma_le_bytes_injective(a: u32, b: u32)
    requires
        le_bytes(a) == le_bytes(b),
    ensures
        a == b,
{
    lemma_le_word_of_bytes(a);
    lemma_le_word_of_bytes(b);
}

/// Two sequences of words with the same little-endian image are equal.
pub proof fn lemma_words_le_injective(a: Seq<u32>, b: Seq<u32>)
    requires
        words_le(a) == words_le(b),
    ensures
        a == b,
{
    assert(words_le(a).len() == 4 * a.len());
    assert(words_le(b).len() == 4 * b.len());
    assert forall|i: int| 0 <= i < a.len() implies a[i] == b[i] by {
        assert forall|j: int| 0 <= j < 4 implies le_bytes(a[i])[j] == le_bytes(b[i])[j] by {
            assert(words_le(a)[4 * i + j] == le_bytes(a[(4 * i + j) / 4])[(4 * i + j) % 4]);
            assert(words_le(b)[4 * i + j] == le_bytes(b[(4 * i + j) / 4])[(4 * i + j) % 4]);
        }
        assert(le_bytes(a[i]) =~= le_bytes(b[i]));
        lemma_le_bytes_injective(a[i], b[i]);
    }
    assert(a =~= b);
}

/// Splits a word into its bytes, least significant first.
pub fn word_to_le(word: u32) -> (bytes: [u8; FIELD_SZ])
    ensures
        bytes@ == le_bytes(word),
{
    let bytes: [u8; FIELD_SZ] = [
        (word % 256) as u8,
        (word / 256 % 256) as u8,
        (word / 65536 % 256) as u8,
        (word / 16777216) as u8,
    ];
    assert(bytes@ =~= le_bytes(word));
    bytes
}

/// Joins four bytes, least significant first, into a word.
pub fn word_from_le(b0: u8, b1: u8, b2: u8, b3: u8) -> (word: u32)
    ensures
        word == le_word(seq![b0, b1, b2, b3]),
{
    (b0 as u32) + (b1 as u32) * 256 + (b2 as u32) * 65536 + (b3 as u32) * 16777216
}

/// Where an entity is in the pipe. Both fields hold the bits of a
/// single-precision number.
#[derive(Debug, Clone, Copy, PartialEq, Eq)]
pub struct PipePosition {
    pub angle: u32,
    pub depth: u32,
}

/// The fields of a record that the engine interprets, in wire order. All
/// but `model` hold the bits of single-precision numbers.
#[derive(Debug, Clone, Copy, PartialEq, Eq)]
pub struct EngineFields {
    pub position: PipePosition,
    pub velocity: [u32; 2],
    pub target_velocity: [u32; 2],
    pub max_acceleration: u32,
    pub max_speed: u32,
    pub color: [u32; 3],
    pub model: u32,
}

impl EngineFields {
    /// The fields as words, in wire order.
    pub open spec fn words(self) -> Seq<u32> {
        seq![
            self.position.angle,
            self.position.depth,
            self.velocity[0],
            self.velocity[1],
            self.target_velocity[0],
            self.target_velocity[1],
            self.max_acceleration,
            self.max_speed,
            self.color[0],
            self.color[1],
            self.color[2],
            self.model,
        ]
    }

    /// The fields whose words, in wire order, are the first twelve of
    /// `words`.
    pub open spec fn of_words(words: Seq<u32>) -> EngineFields
        recommends
            words.len() >= ENGINE_FIELDS_SZ,
    {
        EngineFields {
            position: PipePosition { angle: words[0], depth: words[1] },
            velocity: [words[2], words[3]],
            target_velocity: [words[4], words[5]],
            max_acceleration: words[6],
            max_speed: words[7],
            color: [words[8], words[9], words[10]],
            model: words[11],
        }
    }

    /// Every field zero.
    pub open spec fn zero() -> EngineFields {
        EngineFields {
            position: PipePosition { angle: 0, depth: 0 },
            velocity: [0u32, 0u32],
            target_velocity: [0u32, 0u32],
            max_acceleration: 0,
            max_speed: 0,
            color: [0u32, 0u32, 0u32],
            model: 0,
        }
    }

    /// Fields are determined by their words.
    pub proof fn lemma_words_injective(a: EngineFields, b: EngineFields)
        requires
            a.words() == b.words(),
        ensures
            a == b,
    {
        let wa = a.words();
        let wb = b.words();
        assert(wa[0] == wb[0] && wa[1] == wb[1] && wa[2] == wb[2] && wa[3] == wb[3]);
        assert(wa[4] == wb[4] && wa[5] == wb[5] && wa[6] == wb[6] && wa[7] == wb[7]);
        assert(wa[8] == wb[8] && wa[9] == wb[9] && wa[10] == wb[10] && wa[11] == wb[11]);
        assert(a.velocity =~= b.velocity);
        assert(a.target_velocity =~= b.target_velocity);
        assert(a.color =~= b.color);
    }

    /// Laying fields out as words and reading them back changes nothing.
    pub proof fn lemma_of_words(fields: EngineFields)
        ensures
            fields.words().len() == ENGINE_FIELDS_SZ,
            EngineFields::of_words(fields.words()) == fields,
    {
        let back = EngineFields::of_words(fields.words());
        assert(back.words() =~= fields.words());
        Self::lemma_words_injective(back, fields);
    }

    /// Reading fields from twelve words and laying them out again gives
    /// the twelve words.
    pub proof fn lemma_words_of(words: Seq<u32>)
        requires
            words.len() == ENGINE_FIELDS_SZ,
        ensures
            EngineFields::of_words(words).words() == words,
    {
        assert(EngineFields::of_words(words).words() =~= words);
    }

    /// Fields that are all zero.
    pub fn zeroed() -> (fields: Self)
        ensures
            fields == EngineFields::zero(),
    {
        let fields = EngineFields {
            position: PipePosition { angle: 0, depth: 0 },
            velocity: [0u32, 0u32],
            target_velocity: [0u32, 0u32],
            max_acceleration: 0,
            max_speed: 0,
            color: [0u32, 0u32, 0u32],
            model: 0,
        };
        proof {
            assert(fields.words() =~= EngineFields::zero().words());
            Self::lemma_words_injective(fields, EngineFields::zero());
        }
        fields
    }

    /// Lays the fields out as words, in wire order.
    pub fn to_words(&self) -> (words: [u32; ENGINE_FIELDS_SZ])
        ensures
            words@ == self.words(),
    {
        let words: [u32; ENGINE_FIELDS_SZ] = [
            self.position.angle,
            self.position.depth,
            self.velocity[0],
            self.velocity[1],
            self.target_velocity[0],
            self.target_velocity[1],
            self.max_acceleration,
            self.max_speed,
            self.color[0],
            self.color[1],
            self.color[2],
            self.model,
        ];
        assert(words@ =~= self.words());
        words
    }

    /// Reads the fields from words in wire order.
    pub fn from_words(words: &[u32; ENGINE_FIELDS_SZ]) -> (fields: Self)
        ensures
            fields == EngineFields::of_words(words@),
    {
        let fields = EngineFields {
            position: PipePosition { angle: words[0], depth: words[1] },
            velocity: [words[2], words[3]],
            target_velocity: [words[4], words[5]],
            max_acceleration: words[6],
            max_speed: words[7],
            color: [words[8], words[9], words[10]],
            model: words[11],
        };
        proof {
            assert(fields.words() =~= EngineFields::of_words(words@).words());
            Self::lemma_words_injective(fields, EngineFields::of_words(words@));
        }
        fields
    }
}

/// An array whose first `n` bytes are those of `bytes`.
pub open spec fn game_array_upto(bytes: Seq<u8>, n: nat) -> [u8; GAME_BYTES]
    decreases n,
{
    if n == 0 {
        [0u8; GAME_BYTES]
    } else {
        vstd::array::spec_array_update(game_array_upto(bytes, (n - 1) as nat), n - 1, bytes[n - 1])
    }
}

/// The array that holds the first `GAME_BYTES` bytes of `bytes`.
pub open spec fn game_array(bytes: Seq<u8>) -> [u8; GAME_BYTES]
    recommends
        bytes.len() >= GAME_BYTES,
{
    game_array_upto(bytes, GAME_BYTES as nat)
}

proof fn lemma_game_array_upto(bytes: Seq<u8>, n: nat)
    requires
        n <= GAME_BYTES,
        bytes.len() >= n,
    ensures
        forall|i: int| 0 <= i < n ==> game_array_upto(bytes, n)@[i] == bytes[i],
    decreases n,
{
    if n > 0 {
        lemma_game_array_upto(bytes, (n - 1) as nat);
    }
}

/// The array made from a sequence of `GAME_BYTES` bytes holds that
/// sequence.
pub proof fn lemma_game_array(bytes: Seq<u8>)
    requires
        bytes.len() == GAME_BYTES,
    ensures
        game_array(bytes)@ == bytes,
{
    lemma_game_array_upto(bytes, GAME_BYTES as nat);
    assert(game_array(bytes)@ =~= bytes);
}

/// One entity record.
#[derive(Debug, Clone, Copy, PartialEq, Eq)]
pub struct Entity {
    pub engine_fields: EngineFields,
    pub game_fields: [u8; GAME_BYTES],
}

impl Entity {
    /// The record with every field zero.
    pub open spec fn zero() -> Entity {
        Entity { engine_fields: EngineFields::zero(), game_fields: [0u8; GAME_BYTES] }
    }

    /// The wire image of the record: the engine's fields as little-endian
    /// words, then the guest's bytes unchanged.
    pub open spec fn wire_bytes(self) -> Seq<u8> {
        words_le(self.engine_fields.words()) + self.game_fields@
    }

    /// The words that the first `ENGINE_BYTES` bytes of a wire image hold.
    pub open spec fn wire_words(bytes: Seq<u8>) -> Seq<u32> {
        Seq::new(ENGINE_FIELDS_SZ as nat, |i: int| le_word(bytes.subrange(4 * i, 4 * i + 4)))
    }

    /// The record that a wire image of `ENTITY_BYTES` bytes stands for.
    pub open spec fn of_wire(bytes: Seq<u8>) -> Entity
        recommends
            bytes.len() == ENTITY_BYTES,
    {
        Entity {
            engine_fields: EngineFields::of_words(Self::wire_words(bytes)),
            game_fields: game_array(bytes.subrange(ENGINE_BYTES as int, ENTITY_BYTES as int)),
        }
    }

    /// A record is determined by its wire image.
    pub proof fn lemma_wire_injective(a: Entity, b: Entity)
        requires
            a.wire_bytes() == b.wire_bytes(),
        ensures
            a == b,
    {
        let wa = words_le(a.engine_fields.words());
        let wb = words_le(b.engine_fields.words());
        assert(wa.len() == ENGINE_BYTES && wb.len() == ENGINE_BYTES);
        assert(wa =~= a.wire_bytes().subrange(0, ENGINE_BYTES as int));
        assert(wb =~= b.wire_bytes().subrange(0, ENGINE_BYTES as int));
        lemma_words_le_injective(a.engine_fields.words(), b.engine_fields.words());
        EngineFields::lemma_words_injective(a.engine_fields, b.engine_fields);
        assert(a.game_fields@ =~= a.wire_bytes().subrange(
            ENGINE_BYTES as int,
            ENTITY_BYTES as int,
        ));
        assert(b.game_fields@ =~= b.wire_bytes().subrange(
            ENGINE_BYTES as int,
            ENTITY_BYTES as int,
        ));
        assert(a.game_fields =~= b.game_fields);
    }

    /// Reading a record back from its wire image gives the record: every
    /// value of every engine field survives the trip.
    pub proof fn lemma_of_wire_bytes(entity: Entity)
        ensures
            entity.wire_bytes().len() == ENTITY_BYTES,
            Entity::of_wire(entity.wire_bytes()) == entity,
    {
        let bytes = entity.wire_bytes();
        let back = Entity::of_wire(bytes);
        Self::lemma_wire_bytes_of(bytes);
        Self::lemma_wire_injective(back, entity);
    }

    /// Writing out the record read from a wire image gives the image, byte
    /// for byte.
    pub proof fn lemma_wire_bytes_of(bytes: Seq<u8>)
        requires
            bytes.len() == ENTITY_BYTES,
        ensures
            Entity::of_wire(bytes).wire_bytes() == bytes,
    {
        let entity = Entity::of_wire(bytes);
        let words = Self::wire_words(bytes);
        EngineFields::lemma_words_of(words);
        lemma_game_array(bytes.subrange(ENGINE_BYTES as int, ENTITY_BYTES as int));
        let image = entity.wire_bytes();
        assert(image.len() == ENTITY_BYTES);
        assert forall|k: int| 0 <= k < ENTITY_BYTES implies image[k] == bytes[k] by {
            if k < ENGINE_BYTES {
                let i = k / 4;
                let four = bytes.subrange(4 * i, 4 * i + 4);
                lemma_le_bytes_of_word(four);
                assert(words[i] == le_word(four));
                assert(image[k] == le_bytes(words[i])[k % 4]);
                assert(four[k % 4] == bytes[k]);
            } else {
                assert(image[k] == entity.game_fields@[k - ENGINE_BYTES]);
            }
        }
        assert(image =~= bytes);
    }

    /// The record with every field zero.
    pub fn zeroed() -> (entity: Self)
        ensures
            entity == Entity::zero(),
    {
        Entity { engine_fields: EngineFields::zeroed(), game_fields: [0u8; GAME_BYTES] }
    }

    /// Writes the wire image of the record over the first `ENTITY_BYTES`
    /// bytes of `out`.
    pub fn write_wire(&self, out: &mut [u8])
        requires
            old(out)@.len() >= ENTITY_BYTES,
        ensures
            final(out)@.len() == old(out)@.len(),
            final(out)@.subrange(0, ENTITY_BYTES as int) == self.wire_bytes(),
            final(out)@.subrange(ENTITY_BYTES as int, old(out)@.len() as int) == old(out)@.subrange(
                ENTITY_BYTES as int,
                old(out)@.len() as int,
            ),
    {
        let words = self.engine_fields.to_words();
        let ghost image = self.wire_bytes();
        let mut i: usize = 0;
        while i < ENGINE_FIELDS_SZ
            invariant
                i <= ENGINE_FIELDS_SZ,
                words@ == self.engine_fields.words(),
                image == self.wire_bytes(),
                out@.len() == old(out)@.len(),
                out@.len() >= ENTITY_BYTES,
                forall|k: int| 0 <= k < 4 * i ==> out@[k] == image[k],
                forall|k: int| 4 * i <= k < out@.len() ==> out@[k] == old(out)@[k],
            decreases ENGINE_FIELDS_SZ - i,
        {
            let four = word_to_le(words[i]);
            let at: usize = 4 * i;
            proof {
                assert forall|j: int| 0 <= j < 4 implies image[4 * i + j] == four@[j] by {
                    assert(image[4 * i + j] == words_le(self.engine_fields.words())[4 * i + j]);
                    assert((4 * i + j) / 4 == i as int && (4 * i + j) % 4 == j);
                }
            }
            out[at] = four[0];
            out[at + 1] = four[1];
            out[at + 2] = four[2];
            out[at + 3] = four[3];
            i = i + 1;
        }
        let mut j: usize = 0;
        while j < GAME_BYTES
            invariant
                j <= GAME_BYTES,
                image == self.wire_bytes(),
                out@.len() == old(out)@.len(),
                out@.len() >= ENTITY_BYTES,
                forall|k: int| 0 <= k < ENGINE_BYTES + j ==> out@[k] == image[k],
                forall|k: int| ENGINE_BYTES + j <= k < out@.len() ==> out@[k] == old(out)@[k],
            decreases GAME_BYTES - j,
        {
            assert(image[ENGINE_BYTES + j] == self.game_fields@[j as int]);
            out[ENGINE_BYTES + j] = self.game_fields[j];
            j = j + 1;
        }
        assert(out@.subrange(0, ENTITY_BYTES as int) =~= image);
        assert(out@.subrange(ENTITY_BYTES as int, old(out)@.len() as int) =~= old(out)@.subrange(
            ENTITY_BYTES as int,
            old(out)@.len() as int,
        ));
    }

    /// Reads the record whose wire image is the first `ENTITY_BYTES` bytes
    /// of `bytes`.
    pub fn read_wire(bytes: &[u8]) -> (entity: Self)
        requires
            bytes@.len() >= ENTITY_BYTES,
        ensures
            entity == Entity::of_wire(bytes@.subrange(0, ENTITY_BYTES as int)),
            entity.wire_bytes() == bytes@.subrange(0, ENTITY_BYTES as int),
    {
        let ghost image = bytes@.subrange(0, ENTITY_BYTES as int);
        let mut words: [u32; ENGINE_FIELDS_SZ] = [0u32; ENGINE_FIELDS_SZ];
        let mut i: usize = 0;
        while i < ENGINE_FIELDS_SZ
            invariant
                i <= ENGINE_FIELDS_SZ,
                bytes@.len() >= ENTITY_BYTES,
                image == bytes@.subrange(0, ENTITY_BYTES as int),
                forall|k: int| 0 <= k < i ==> words@[k] == Entity::wire_words(image)[k],
            decreases ENGINE_FIELDS_SZ - i,
        {
            let at: usize = 4 * i;
            let word = word_from_le(bytes[at], bytes[at + 1], bytes[at + 2], bytes[at + 3]);
            proof {
                assert(image.subrange(4 * i, 4 * i + 4) =~= seq![
                    bytes@[at as int],
                    bytes@[at + 1],
                    bytes@[at + 2],
                    bytes@[at + 3],
                ]);
            }
            words[i] = word;
            i = i + 1;
        }
        assert(words@ =~= Entity::wire_words(image));
        let mut game: [u8; GAME_BYTES] = [0u8; GAME_BYTES];
        let mut j: usize = 0;
        while j < GAME_BYTES
            invariant
                j <= GAME_BYTES,
                bytes@.len() >= ENTITY_BYTES,
                forall|k: int| 0 <= k < j ==> game@[k] == bytes@[ENGINE_BYTES + k],
            decreases GAME_BYTES - j,
        {
            game[j] = bytes[ENGINE_BYTES + j];
            j = j + 1;
        }
        let entity = Entity { engine_fields: EngineFields::from_words(&words), game_fields: game };
        proof {
            let tail = image.subrange(ENGINE_BYTES as int, ENTITY_BYTES as int);
            lemma_game_array(tail);
            assert(game@ =~= tail);
            assert(game =~= game_array(tail));
            Self::lemma_wire_bytes_of(image);
        }
        entity
    }
}

} // verus!
