//! The four entry points that a guest calls. Each takes plain integers, a
//! handle's wire value and an address in the guest's own memory, and
//! answers with a status: no call can make the host fault.

use vstd::prelude::*;
use vstd::slice::slice_subrange;
use vstd::utf8::*;
use crate::shared::le_word;
use crate::shared::lemma_le_word_of_bytes;
use crate::shared::word_from_le;
use crate::shared::Entity;
use crate::shared::ENTITY_BYTES;
use crate::sys::PanicCode;
use crate::sys::PanicReport;
use crate::sys::PANIC_MESSAGE_SZ;
use crate::sys::PANIC_REPORT_BYTES;
use crate::wasm_entity::encode;
use crate::wasm_entity::well_formed;
use crate::wasm_entity::Handle;
use crate::world::WasmWorld;

verus! {

/// The status of a call that did what was asked.
pub const SUCCESS: u32 = 0;

/// The status of a call that was refused.
pub const FAILURE: u32 = 1;

/// The record at `address` lies within a guest memory of `memory_len`
/// bytes.
pub open spec fn in_bounds(address: u32, memory_len: nat) -> bool {
    address + ENTITY_BYTES <= memory_len
}

/// `memory` with the bytes from `address` on replaced by `image`.
pub open spec fn with_image(memory: Seq<u8>, address: u32, image: Seq<u8>) -> Seq<u8> {
    memory.subrange(0, address as int) + image + memory.subrange(
        address + image.len(),
        memory.len() as int,
    )
}

/// The record of `ENTITY_BYTES` bytes at `address`.
pub open spec fn image_at(memory: Seq<u8>, address: u32) -> Seq<u8> {
    memory.subrange(address as int, address + ENTITY_BYTES)
}

/// A guest may read or write back through `handle_bits` at `address`: the
/// wire value decodes, the handle names an entity, and the record lies
/// within the guest's memory.
pub open spec fn transfer_allowed(
    world: WasmWorld,
    handle_bits: u64,
    address: u32,
    memory_len: nat,
) -> bool {
    &&& well_formed(handle_bits)
    &&& world@.valid(Handle::of_bits(handle_bits))
    &&& in_bounds(address, memory_len)
}

/// Creates a zeroed entity and returns the wire value of its handle.
pub fn create_entity(world: &mut WasmWorld) -> (handle_bits: u64)
    requires
        old(world).wf(),
        old(world)@.can_alloc(),
    ensures
        final(world).wf(),
        final(world)@ == old(world)@.after_alloc(),
        handle_bits == encode(old(world)@.next_id, old(world)@.alloc_index()),
        well_formed(handle_bits),
        final(world)@.valid(Handle::of_bits(handle_bits)),
        final(world)@.payload(Handle::of_bits(handle_bits)) == Entity::zero(),
{
    let handle = world.create_entity();
    proof {
        crate::wasm_entity::lemma_encode_decode(handle.spec_bits());
        Handle::lemma_of_own_bits(handle);
    }
    handle.bits()
}

/// Copies the entity that `handle_bits` names into the guest's memory at
/// `address`. Where the transfer is not allowed the guest's memory is left
/// as it was.
pub fn get_entity(
    world: &WasmWorld,
    memory: &mut [u8],
    handle_bits: u64,
    address: u32,
) -> (status: u32)
    requires
        world.wf(),
    ensures
        status == if transfer_allowed(*world, handle_bits, address, old(memory)@.len()) {
            SUCCESS
        } else {
            FAILURE
        },
        status == SUCCESS ==> final(memory)@ == with_image(
            old(memory)@,
            address,
            world@.payload(Handle::of_bits(handle_bits)).wire_bytes(),
        ),
        status != SUCCESS ==> final(memory)@ == old(memory)@,
{
    let handle = match Handle::from_bits(handle_bits) {
        Some(handle) => handle,
        None => {
            return FAILURE;
        },
    };
    let start: usize = address as usize;
    if start > memory.len() || memory.len() - start < ENTITY_BYTES {
        return FAILURE;
    }
    let ghost before = memory@;
    let (head, tail) = memory.split_at_mut(start);
    let (window, rest) = tail.split_at_mut(ENTITY_BYTES);
    if world.write_entity_to_guest(handle, window) {
        proof {
            Entity::lemma_of_wire_bytes(world@.payload(handle));
            assert(head@ + (window@ + rest@) =~= with_image(before, address, window@));
        }
        SUCCESS
    } else {
        proof {
            assert(head@ + (window@ + rest@) =~= before);
        }
        FAILURE
    }
}

/// Replaces the entity that `handle_bits` names by the record in the
/// guest's memory at `address`. Where the transfer is not allowed nothing
/// changes.
pub fn write_entity_back(
    world: &mut WasmWorld,
    memory: &[u8],
    handle_bits: u64,
    address: u32,
) -> (status: u32)
    requires
        old(world).wf(),
    ensures
        final(world).wf(),
        status == if transfer_allowed(*old(world), handle_bits, address, memory@.len()) {
            SUCCESS
        } else {
            FAILURE
        },
        status == SUCCESS ==> final(world)@ == old(world)@.with_payload(
            Handle::of_bits(handle_bits),
            Entity::of_wire(image_at(memory@, address)),
        ),
        status == SUCCESS ==> final(world)@.valid(Handle::of_bits(handle_bits)),
        status == SUCCESS ==> final(world)@.payload(Handle::of_bits(handle_bits)).wire_bytes()
            == image_at(memory@, address),
        status != SUCCESS ==> final(world)@ == old(world)@,
{
    let handle = match Handle::from_bits(handle_bits) {
        Some(handle) => handle,
        None => {
            return FAILURE;
        },
    };
    let start: usize = address as usize;
    if start > memory.len() || memory.len() - start < ENTITY_BYTES {
        return FAILURE;
    }
    let window = slice_subrange(memory, start, start + ENTITY_BYTES);
    if world.read_entity_from_guest(handle, window) {
        SUCCESS
    } else {
        FAILURE
    }
}

/// Removes the entity that `handle_bits` names. A wire value that does not
/// decode, or a handle that names nothing, is refused and nothing changes.
pub fn remove_entity(world: &mut WasmWorld, handle_bits: u64) -> (status: u32)
    requires
        old(world).wf(),
    ensures
        final(world).wf(),
        status == if well_formed(handle_bits) && old(world)@.valid(Handle::of_bits(handle_bits)) {
            SUCCESS
        } else {
            FAILURE
        },
        status == SUCCESS ==> final(world)@ == old(world)@.after_free(Handle::of_bits(handle_bits)),
        status != SUCCESS ==> final(world)@ == old(world)@,
        !final(world)@.valid(Handle::of_bits(handle_bits)),
{
    match Handle::from_bits(handle_bits) {
        Some(handle) => {
            if world.remove_entity(handle) {
                SUCCESS
            } else {
                FAILURE
            }
        },
        None => {
            proof {
                Handle::lemma_of_bits(handle_bits);
            }
            FAILURE
        },
    }
}

/// What the host finds in a guest's fault report.
#[derive(Debug, Clone, PartialEq, Eq)]
pub enum PanicReading {
    /// The guest reported nothing.
    NoPanic,
    /// The guest reported a fault. `code` says whether the message is
    /// complete.
    Report { code: PanicCode, message: String },
    /// The record claims a longer message than it can hold.
    Malformed,
}

/// The code word of the wire image of a report.
pub open spec fn report_code_word(bytes: Seq<u8>) -> u32 {
    le_word(bytes.subrange(0, 4))
}

/// The length word of the wire image of a report.
pub open spec fn report_length(bytes: Seq<u8>) -> u32 {
    le_word(bytes.subrange(4, 8))
}

/// The code of the wire image of a report.
pub open spec fn report_code(bytes: Seq<u8>) -> PanicCode {
    PanicCode::of_number(report_code_word(bytes))
}

/// The message bytes that the wire image of a report says were written.
pub open spec fn report_message(bytes: Seq<u8>) -> Seq<u8> {
    bytes.subrange(8, 8 + report_length(bytes))
}

/// The characters of the text that stands in for a message that is not
/// UTF-8.
pub open spec fn bad_text() -> Seq<char> {
    "Bad UTF-8 string"@
}

/// The text of a message: its characters if it is UTF-8, a fixed text if
/// it is not.
pub open spec fn message_text(message: Seq<u8>) -> Seq<char> {
    if valid_utf8(message) {
        decode_utf8(message)
    } else {
        bad_text()
    }
}

/// Reads bytes as text with `std::str::from_utf8`: there is a text exactly
/// if the bytes are valid UTF-8, and the text is then those same bytes.
#[verifier::external_body]
fn utf8_text<'a>(bytes: &'a [u8]) -> (text: Option<&'a str>)
    ensures
        text is Some <==> valid_utf8(bytes@),
        text is Some ==> encode_utf8(text->0@) == bytes@,
{
    match std::str::from_utf8(bytes) {
        Ok(text) => Some(text),
        Err(_) => None,
    }
}

/// The two words at the head of a report's wire image: the code word and
/// the length, as the guest wrote them.
pub fn panic_report_header(bytes: &[u8; PANIC_REPORT_BYTES]) -> (header: (u32, u32))
    ensures
        header.0 == report_code_word(bytes@),
        header.1 == report_length(bytes@),
{
    let code = word_from_le(bytes[0], bytes[1], bytes[2], bytes[3]);
    let length = word_from_le(bytes[4], bytes[5], bytes[6], bytes[7]);
    proof {
        assert(bytes@.subrange(0, 4) =~= seq![bytes@[0], bytes@[1], bytes@[2], bytes@[3]]);
        assert(bytes@.subrange(4, 8) =~= seq![bytes@[4], bytes@[5], bytes@[6], bytes@[7]]);
    }
    (code, length)
}

/// Reads a guest's fault report from its wire image. The message is read
/// only under the two codes that carry one.
pub fn read_panic_report(bytes: &[u8; PANIC_REPORT_BYTES]) -> (reading: PanicReading)
    ensures
        !report_code(bytes@).spec_has_message() ==> reading == PanicReading::NoPanic,
        report_code(bytes@).spec_has_message() && report_length(bytes@) > PANIC_MESSAGE_SZ
            ==> reading == PanicReading::Malformed,
        report_code(bytes@).spec_has_message() && report_length(bytes@) <= PANIC_MESSAGE_SZ ==> (
        reading matches PanicReading::Report { code, message } && code == report_code(bytes@)
            && message@ == message_text(report_message(bytes@))),
{
    let (code_word, length) = panic_report_header(bytes);
    let code = PanicCode::from_number(code_word);
    if !code.has_message() {
        return PanicReading::NoPanic;
    }
    if length as usize > PANIC_MESSAGE_SZ {
        return PanicReading::Malformed;
    }
    let message = slice_subrange(bytes.as_slice(), 8, 8 + length as usize);
    let text: &str = match utf8_text(message) {
        Some(text) => {
            proof {
                encode_utf8_decode_utf8(text@);
            }
            text
        },
        None => "Bad UTF-8 string",
    };
    PanicReading::Report { code, message: text.to_owned() }
}

/// What a guest wrote into its report is what the host reads from the
/// report's wire image: the same code, the same length, the same message
/// bytes.
pub proof fn law_report_read_back(report: PanicReport)
    requires
        report.spec_length() <= PANIC_MESSAGE_SZ,
        report.spec_message().len() == PANIC_MESSAGE_SZ,
    ensures
        report.wire_bytes().len() == PANIC_REPORT_BYTES,
        report_code(report.wire_bytes()) == report.spec_code(),
        report_length(report.wire_bytes()) == report.spec_length(),
        report_message(report.wire_bytes()) == report.written(),
{
    let bytes = report.wire_bytes();
    lemma_le_word_of_bytes(report.spec_code().spec_number());
    lemma_le_word_of_bytes(report.spec_length());
    assert(bytes.subrange(0, 4) =~= crate::shared::le_bytes(report.spec_code().spec_number()));
    assert(bytes.subrange(4, 8) =~= crate::shared::le_bytes(report.spec_length()));
    crate::sys::lemma_code_of_number(report.spec_code());
    assert(report_message(bytes) =~= report.written());
}

/// A record written back and then read again is the record that was
/// written, byte for byte: the engine's fields keep every value, and the
/// guest's part is untouched.
pub proof fn law_write_back_then_read(
    world: WasmWorld,
    handle_bits: u64,
    written: Seq<u8>,
    from: u32,
    target: Seq<u8>,
    to: u32,
)
    requires
        world.wf(),
        transfer_allowed(world, handle_bits, from, written.len()),
        in_bounds(to, target.len()),
    ensures
        ({
            let handle = Handle::of_bits(handle_bits);
            let after = world@.with_payload(handle, Entity::of_wire(image_at(written, from)));
            &&& after.valid(handle)
            &&& after.inv()
            &&& after.payload(handle).wire_bytes() == image_at(written, from)
            &&& image_at(with_image(target, to, after.payload(handle).wire_bytes()), to)
                == image_at(written, from)
        }),
{
    let handle = Handle::of_bits(handle_bits);
    let image = image_at(written, from);
    world.lemma_wf_inv();
    crate::wasm_entity::model::lemma_with_payload_inv(world@, handle, Entity::of_wire(image));
    Entity::lemma_wire_bytes_of(image);
    assert(image_at(with_image(target, to, image), to) =~= image);
}

} // verus!
