//! The record through which a guest reports a fault.
//!
//! A guest that faults cannot say why through the call that failed. It
//! leaves the reason in a record of fixed layout in its own memory, and the
//! host reads the record after the call.

use vstd::prelude::*;
use vstd::utf8::*;
use crate::shared::le_bytes;
use crate::shared::word_to_le;

verus! {

/// Bytes that a report's message can hold.
pub const PANIC_MESSAGE_SZ: usize = 256;

/// Bytes in the wire image of a report: two words, then the message.
pub const PANIC_REPORT_BYTES: usize = 264;

/// How far a report got.
#[derive(Debug, Clone, Copy, PartialEq, Eq, Structural)]
pub enum PanicCode {
    /// Nothing was reported.
    NoPanic,
    /// The whole message was written.
    CompleteReport,
    /// The message was begun and did not fit.
    WriteAborted,
}

impl PanicCode {
    /// The word that stands for the code on the wire.
    pub open spec fn spec_number(&self) -> u32 {
        match *self {
            PanicCode::NoPanic => 0,
            PanicCode::CompleteReport => 1,
            PanicCode::WriteAborted => 2,
        }
    }

    /// The code that a word on the wire stands for. A word that is no
    /// code reports nothing.
    pub open spec fn of_number(number: u32) -> PanicCode {
        if number == 1 {
            PanicCode::CompleteReport
        } else if number == 2 {
            PanicCode::WriteAborted
        } else {
            PanicCode::NoPanic
        }
    }

    /// A report with this code carries a message.
    pub open spec fn spec_has_message(&self) -> bool {
        *self != PanicCode::NoPanic
    }

    #[verifier::when_used_as_spec(spec_number)]
    pub fn number(&self) -> (number: u32)
        ensures
            number == self.spec_number(),
    {
        match *self {
            PanicCode::NoPanic => 0,
            PanicCode::CompleteReport => 1,
            PanicCode::WriteAborted => 2,
        }
    }

    /// The code that a word on the wire stands for.
    pub fn from_number(number: u32) -> (code: Self)
        ensures
            code == PanicCode::of_number(number),
    {
        if number == 1 {
            PanicCode::CompleteReport
        } else if number == 2 {
            PanicCode::WriteAborted
        } else {
            PanicCode::NoPanic
        }
    }

    #[verifier::when_used_as_spec(spec_has_message)]
    pub fn has_message(&self) -> (has: bool)
        ensures
            has == self.spec_has_message(),
    {
        match *self {
            PanicCode::NoPanic => false,
            _ => true,
        }
    }
}

/// A word read back from the wire gives the code that was written.
pub proof fn lemma_code_of_number(code: PanicCode)
    ensures
        PanicCode::of_number(code.spec_number()) == code,
{
}

/// The message did not fit into the report.
#[derive(Debug, Clone, Copy, PartialEq, Eq, Structural)]
pub struct MessageOverflow;

/// The number of bytes that the UTF-8 encoding of a character takes, read
/// off its first byte.
pub open spec fn width_of_lead(lead: u8) -> int {
    if lead < 0x80 {
        1
    } else if lead < 0xE0 {
        2
    } else if lead < 0xF0 {
        3
    } else {
        4
    }
}

/// The number of bytes that the whole characters at the start of `chars`
/// take, up to the first character that would take the total over `room`.
pub open spec fn fitting_bytes(chars: Seq<char>, room: int) -> int
    decreases chars.len(),
{
    if chars.len() == 0 {
        0
    } else {
        let width = encode_scalar(chars[0] as u32).len() as int;
        if width > room {
            0
        } else {
            width + fitting_bytes(chars.drop_first(), room - width)
        }
    }
}

/// The first byte of a character's encoding tells how long the encoding
/// is.
pub proof fn lemma_width_of_lead(scalar: u32)
    requires
        is_scalar(scalar),
    ensures
        1 <= encode_scalar(scalar).len() <= 4,
        width_of_lead(encode_scalar(scalar)[0]) == encode_scalar(scalar).len(),
{
    if has_width_1_encoding(scalar) {
        assert(((scalar & 0x7F) as u8) < 0x80) by (bit_vector);
    } else if has_width_2_encoding(scalar) {
        let low: u8 = ((scalar >> 6) & 0x1F) as u8;
        assert(low < 0x20) by (bit_vector)
            requires
                low == ((scalar >> 6) & 0x1F) as u8,
        ;
        assert(0xC0 <= (0xC0 | low) < 0xE0) by (bit_vector)
            requires
                low < 0x20,
        ;
    } else if has_width_3_encoding(scalar) {
        let low: u8 = ((scalar >> 12) & 0x0F) as u8;
        assert(low < 0x10) by (bit_vector)
            requires
                low == ((scalar >> 12) & 0x0F) as u8,
        ;
        assert(0xE0 <= (0xE0 | low) < 0xF0) by (bit_vector)
            requires
                low < 0x10,
        ;
    } else {
        let low: u8 = ((scalar >> 18) & 0x7) as u8;
        assert(low < 0x8) by (bit_vector)
            requires
                low == ((scalar >> 18) & 0x7) as u8,
        ;
        assert(0xF0 <= (0xF0 | low)) by (bit_vector)
            requires
                low < 0x8,
        ;
    }
}

/// What fits is a prefix of the encoding, and no longer than the room.
pub proof fn lemma_fitting_bytes(chars: Seq<char>, room: int)
    requires
        0 <= room,
    ensures
        0 <= fitting_bytes(chars, room) <= room,
        fitting_bytes(chars, room) <= encode_utf8(chars).len(),
        encode_utf8(chars).len() <= room ==> fitting_bytes(chars, room) == encode_utf8(chars).len(),
        fitting_bytes(chars, room) == encode_utf8(chars).len() ==> encode_utf8(chars).len() <= room,
    decreases chars.len(),
{
    if chars.len() > 0 {
        let width = encode_scalar(chars[0] as u32).len() as int;
        if width <= room {
            lemma_fitting_bytes(chars.drop_first(), room - width);
        }
    }
}

/// The fault report of one guest.
pub struct PanicReport {
    code: PanicCode,
    length: u32,
    message: [u8; PANIC_MESSAGE_SZ],
}

impl PanicReport {
    #[verifier::type_invariant]
    spec fn length_fits(&self) -> bool {
        self.length <= PANIC_MESSAGE_SZ
    }

    /// How far the report got.
    pub closed spec fn spec_code(&self) -> PanicCode {
        self.code
    }

    /// The number of message bytes written.
    pub closed spec fn spec_length(&self) -> u32 {
        self.length
    }

    /// All bytes of the message area, written or not.
    pub closed spec fn spec_message(&self) -> Seq<u8> {
        self.message@
    }

    /// The message bytes written so far.
    pub open spec fn written(&self) -> Seq<u8> {
        self.spec_message().subrange(0, self.spec_length() as int)
    }

    /// The number of bytes that the message can still take.
    pub open spec fn room(&self) -> int {
        PANIC_MESSAGE_SZ - self.spec_length()
    }

    /// `after` holds the message of this report with the characters of
    /// `chars` behind it, as many whole ones from the start as fit: the
    /// length has grown by their bytes, and the rest of the message area is
    /// as it was.
    pub open spec fn extended(&self, after: PanicReport, chars: Seq<char>) -> bool {
        let fits = fitting_bytes(chars, self.room());
        &&& after.spec_length() == self.spec_length() + fits
        &&& after.spec_length() <= PANIC_MESSAGE_SZ
        &&& after.written() == self.written() + encode_utf8(chars).subrange(0, fits)
        &&& after.spec_message().subrange(after.spec_length() as int, PANIC_MESSAGE_SZ as int)
            == self.spec_message().subrange(after.spec_length() as int, PANIC_MESSAGE_SZ as int)
    }

    /// The wire image of the report: the code and the length as
    /// little-endian words, then the message area.
    pub open spec fn wire_bytes(&self) -> Seq<u8> {
        le_bytes(self.spec_code().spec_number()) + le_bytes(self.spec_length())
            + self.spec_message()
    }

    /// A report of nothing, with an empty message.
    pub fn new() -> (report: Self)
        ensures
            report.spec_code() == PanicCode::NoPanic,
            report.spec_length() == 0,
            report.spec_message() == Seq::new(PANIC_MESSAGE_SZ as nat, |i: int| 0u8),
    {
        let report = PanicReport {
            code: PanicCode::NoPanic,
            length: 0,
            message: [0u8; PANIC_MESSAGE_SZ],
        };
        assert(report.message@ =~= Seq::new(PANIC_MESSAGE_SZ as nat, |i: int| 0u8));
        report
    }

    #[verifier::when_used_as_spec(spec_code)]
    pub fn code(&self) -> (code: PanicCode)
        ensures
            code == self.spec_code(),
    {
        self.code
    }

    #[verifier::when_used_as_spec(spec_length)]
    pub fn length(&self) -> (length: u32)
        ensures
            length == self.spec_length(),
            length <= PANIC_MESSAGE_SZ,
    {
        proof {
            use_type_invariant(self);
        }
        self.length
    }

    /// The message area.
    pub fn message(&self) -> (message: &[u8; PANIC_MESSAGE_SZ])
        ensures
            message@ == self.spec_message(),
    {
        &self.message
    }

    /// Marks how far the report got.
    pub fn set_code(&mut self, code: PanicCode)
        ensures
            final(self).spec_code() == code,
            final(self).spec_length() == old(self).spec_length(),
            final(self).spec_message() == old(self).spec_message(),
            final(self).spec_length() <= PANIC_MESSAGE_SZ,
    {
        proof {
            use_type_invariant(&*self);
        }
        self.code = code;
    }

    /// Appends the characters of `string` to the message, one whole
    /// character after another, and stops at the first that does not fit.
    /// The code is left as it was.
    pub fn write_str(&mut self, string: &str) -> (result: Result<(), MessageOverflow>)
        ensures
            final(self).spec_code() == old(self).spec_code(),
            old(self).extended(*final(self), string@),
            result is Ok <==> encode_utf8(string@).len() <= old(self).room(),
    {
        proof {
            use_type_invariant(&*self);
        }
        let bytes = string.as_bytes();
        let total: usize = bytes.len();
        let ghost chars = string@;
        let ghost start = self.length as int;
        let ghost room = PANIC_MESSAGE_SZ - start;
        let ghost area = self.message@;
        let ghost done: int = 0;
        let mut at: usize = 0;
        proof {
            lemma_fitting_bytes(chars, room);
            assert(chars.skip(0) =~= chars);
            assert(bytes@.subrange(0, bytes@.len() as int) =~= bytes@);
        }
        while at < total
            invariant
                total == bytes@.len(),
                bytes@ == encode_utf8(chars),
                chars == string@,
                0 <= done <= chars.len(),
                at <= bytes@.len(),
                bytes@.subrange(at as int, bytes@.len() as int) == encode_utf8(chars.skip(done)),
                fitting_bytes(chars, room) == at + fitting_bytes(chars.skip(done), room - at),
                at <= room,
                room == PANIC_MESSAGE_SZ - start,
                0 <= start,
                start == old(self).length,
                self.length == start + at,
                self.code == old(self).code,
                self.message@.len() == PANIC_MESSAGE_SZ,
                area.len() == PANIC_MESSAGE_SZ,
                area == old(self).message@,
                forall|k: int| 0 <= k < start ==> self.message@[k] == area[k],
                forall|k: int| 0 <= k < at ==> self.message@[start + k] == bytes@[k],
                forall|k: int| start + at <= k < PANIC_MESSAGE_SZ ==> self.message@[k] == area[k],
            decreases total - at,
        {
            let ghost rest = chars.skip(done);
            let ghost tail = bytes@.subrange(at as int, bytes@.len() as int);
            proof {
                if rest.len() == 0 {
                    assert(encode_utf8(rest).len() == 0);
                }
                assert(rest.len() > 0);
                char_is_scalar(rest[0]);
                lemma_width_of_lead(rest[0] as u32);
                assert(rest.drop_first() =~= chars.skip(done + 1));
                assert(tail == encode_scalar(rest[0] as u32) + encode_utf8(rest.drop_first()));
                assert(tail[0] == bytes@[at as int]);
                assert(tail.len() >= encode_scalar(rest[0] as u32).len());
            }
            let lead: u8 = bytes[at];
            let width: usize = if lead < 0x80 {
                1
            } else if lead < 0xE0 {
                2
            } else if lead < 0xF0 {
                3
            } else {
                4
            };
            assert(width == encode_scalar(rest[0] as u32).len());
            let offset: usize = self.length as usize;
            if offset + width > PANIC_MESSAGE_SZ {
                proof {
                    assert(fitting_bytes(rest, room - at) == 0);
                    assert(self.message@.subrange(0, self.length as int) =~= area.subrange(0, start)
                        + bytes@.subrange(0, at as int));
                    assert(self.message@.subrange(self.length as int, PANIC_MESSAGE_SZ as int)
                        =~= area.subrange(self.length as int, PANIC_MESSAGE_SZ as int));
                    lemma_fitting_bytes(chars, room);
                }
                return Err(MessageOverflow);
            }
            let mut idx: usize = 0;
            while idx < width
                invariant
                    idx <= width,
                    1 <= width <= 4,
                    0 <= start,
                    offset == start + at,
                    offset + width <= PANIC_MESSAGE_SZ,
                    at + width <= bytes@.len(),
                    total == bytes@.len(),
                    self.length == start + at,
                    self.code == old(self).code,
                    self.message@.len() == PANIC_MESSAGE_SZ,
                    area.len() == PANIC_MESSAGE_SZ,
                    forall|k: int| 0 <= k < start ==> self.message@[k] == area[k],
                    forall|k: int| 0 <= k < at + idx ==> self.message@[start + k] == bytes@[k],
                    forall|k: int|
                        start + at + idx <= k < PANIC_MESSAGE_SZ ==> self.message@[k] == area[k],
                decreases width - idx,
            {
                self.message[offset + idx] = bytes[at + idx];
                idx = idx + 1;
            }
            self.length = (offset + width) as u32;
            proof {
                assert(tail.subrange(width as int, tail.len() as int) =~= encode_utf8(
                    rest.drop_first(),
                ));
                assert(bytes@.subrange(at + width, bytes@.len() as int) =~= tail.subrange(
                    width as int,
                    tail.len() as int,
                ));
                done = done + 1;
            }
            at = at + width;
        }
        proof {
            let rest = chars.skip(done);
            if rest.len() > 0 {
                char_is_scalar(rest[0]);
                lemma_width_of_lead(rest[0] as u32);
                assert(encode_utf8(rest).len() > 0);
            }
            assert(fitting_bytes(rest, room - at) == 0);
            assert(self.message@.subrange(0, self.length as int) =~= area.subrange(0, start)
                + bytes@.subrange(0, at as int));
            assert(self.message@.subrange(self.length as int, PANIC_MESSAGE_SZ as int)
                =~= area.subrange(self.length as int, PANIC_MESSAGE_SZ as int));
            lemma_fitting_bytes(chars, room);
        }
        Ok(())
    }

    /// The wire image of the report.
    pub fn to_bytes(&self) -> (bytes: [u8; PANIC_REPORT_BYTES])
        ensures
            bytes@ == self.wire_bytes(),
    {
        let mut bytes: [u8; PANIC_REPORT_BYTES] = [0u8; PANIC_REPORT_BYTES];
        let code = word_to_le(self.code.number());
        let length = word_to_le(self.length);
        bytes[0] = code[0];
        bytes[1] = code[1];
        bytes[2] = code[2];
        bytes[3] = code[3];
        bytes[4] = length[0];
        bytes[5] = length[1];
        bytes[6] = length[2];
        bytes[7] = length[3];
        let mut at: usize = 0;
        while at < PANIC_MESSAGE_SZ
            invariant
                at <= PANIC_MESSAGE_SZ,
                forall|k: int| 0 <= k < 4 ==> bytes@[k] == code@[k],
                forall|k: int| 0 <= k < 4 ==> bytes@[4 + k] == length@[k],
                forall|k: int| 0 <= k < at ==> bytes@[8 + k] == self.message@[k],
            decreases PANIC_MESSAGE_SZ - at,
        {
            bytes[8 + at] = self.message[at];
            at = at + 1;
        }
        assert(bytes@ =~= self.wire_bytes());
        bytes
    }
}

/// The fault report of one guest together with the mark that a report is
/// under way. Of all faults of one guest only the first is reported.
pub struct PanicChannel {
    report: PanicReport,
    is_panicking: bool,
}

impl PanicChannel {
    /// The report as it stands.
    pub closed spec fn spec_report(&self) -> PanicReport {
        self.report
    }

    /// A fault was reported, or is being reported.
    pub closed spec fn spec_is_panicking(&self) -> bool {
        self.is_panicking
    }

    /// The channel of a guest that has not faulted.
    pub fn new() -> (channel: Self)
        ensures
            !channel.spec_is_panicking(),
            channel.spec_report().spec_code() == PanicCode::NoPanic,
            channel.spec_report().spec_length() == 0,
            channel.spec_report().spec_message() == Seq::new(
                PANIC_MESSAGE_SZ as nat,
                |i: int| 0u8,
            ),
    {
        PanicChannel { report: PanicReport::new(), is_panicking: false }
    }

    pub fn report(&self) -> (report: &PanicReport)
        ensures
            *report == self.spec_report(),
    {
        &self.report
    }

    #[verifier::when_used_as_spec(spec_is_panicking)]
    pub fn is_panicking(&self) -> (panicking: bool)
        ensures
            panicking == self.spec_is_panicking(),
    {
        self.is_panicking
    }

    /// Begins the report of a fault. The first fault of a guest may be
    /// reported, and its report counts as aborted until it is completed;
    /// for any later fault the answer is no and nothing changes.
    pub fn begin(&mut self) -> (first: bool)
        ensures
            first == !old(self).spec_is_panicking(),
            final(self).spec_is_panicking(),
            !first ==> final(self).spec_report() == old(self).spec_report(),
            final(self).spec_report().spec_length() == old(self).spec_report().spec_length(),
            final(self).spec_report().spec_message() == old(self).spec_report().spec_message(),
            final(self).spec_report().spec_code() == if first {
                PanicCode::WriteAborted
            } else {
                old(self).spec_report().spec_code()
            },
    {
        if self.is_panicking {
            false
        } else {
            self.is_panicking = true;
            self.report.set_code(PanicCode::WriteAborted);
            true
        }
    }

    /// Appends the characters of `string` to the message of the report,
    /// one whole character after another, and stops at the first that does
    /// not fit.
    pub fn write_str(&mut self, string: &str) -> (result: Result<(), MessageOverflow>)
        ensures
            final(self).spec_is_panicking() == old(self).spec_is_panicking(),
            final(self).spec_report().spec_code() == old(self).spec_report().spec_code(),
            old(self).spec_report().extended(final(self).spec_report(), string@),
            result is Ok <==> encode_utf8(string@).len() <= old(self).spec_report().room(),
    {
        self.report.write_str(string)
    }

    /// Marks the report complete.
    pub fn complete(&mut self)
        ensures
            final(self).spec_is_panicking() == old(self).spec_is_panicking(),
            final(self).spec_report().spec_code() == PanicCode::CompleteReport,
            final(self).spec_report().spec_length() == old(self).spec_report().spec_length(),
            final(self).spec_report().spec_message() == old(self).spec_report().spec_message(),
    {
        self.report.set_code(PanicCode::CompleteReport);
    }

    /// Reports a fault with the given message. The first fault of a guest
    /// is written to the report: complete if the message fits behind what
    /// the report holds, aborted at the last whole character that fits if
    /// not. Any later fault changes nothing.
    pub fn panic(&mut self, message: &str)
        ensures
            final(self).spec_is_panicking(),
            final(self).spec_report().spec_length() <= PANIC_MESSAGE_SZ,
            old(self).spec_is_panicking() ==> final(self).spec_report() == old(self).spec_report(),
            !old(self).spec_is_panicking() ==> old(self).spec_report().extended(
                final(self).spec_report(),
                message@,
            ),
            !old(self).spec_is_panicking() ==> final(self).spec_report().spec_code()
                == if encode_utf8(message@).len() <= old(self).spec_report().room() {
                PanicCode::CompleteReport
            } else {
                PanicCode::WriteAborted
            },
    {
        proof {
            use_type_invariant(&self.report);
        }
        if self.begin() {
            match self.write_str(message) {
                Ok(_) => {
                    self.complete();
                },
                Err(_) => {},
            }
        }
    }
}

} // verus!
