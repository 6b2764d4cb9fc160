//! The assembler of the `pio` crate, as far as the greyscale program needs
//! it. Nothing in this file is proved: each contract states what the crate's
//! source shows of the function that is called.

use vstd::prelude::*;

verus! {

/// `pio::Assembler`, carried through as it is: the verifier sees nothing
/// inside it.
#[verifier::external_type_specification]
#[verifier::external_body]
pub struct ExAssembler<const PROGRAM_SIZE: usize>(pio::Assembler<PROGRAM_SIZE>);

/// The instruction words that the assembler holds, first instruction first:
/// what `pio::Assembler::assemble` would give.
pub uninterp spec fn assembled(a: pio::Assembler<32>) -> Seq<u16>;

/// A program as the assembler hands it over.
#[derive(Debug, PartialEq, Eq)]
pub struct PioProgram {
    /// The instruction words, first instruction first.
    pub code: Vec<u16>,
    /// Index of the instruction after which execution wraps.
    pub wrap_source: u8,
    /// Index of the instruction at which execution goes on after a wrap.
    pub wrap_target: u8,
}

/// `pio::Assembler::new`: an assembler that holds no instruction, without
/// side-set.
#[verifier::external_body]
pub(crate) fn assembler() -> (a: pio::Assembler<32>)
    ensures
        assembled(a) == Seq::<u16>::empty(),
{
    pio::Assembler::<32>::new()
}

/// `pio::Assembler::out` to scratch register X: appends the word of
/// `out x, bit_count`, which is class 3 in bits 13 to 15, destination 1 in
/// bits 5 to 7, and the low five bits of the count. The assembler must have
/// room.
#[verifier::external_body]
pub(crate) fn out_x(a: &mut pio::Assembler<32>, bit_count: u8)
    requires
        assembled(*old(a)).len() < 32,
    ensures
        assembled(*final(a)) == assembled(*old(a)).push((0x6020 + bit_count % 32) as u16),
{
    a.out(pio::OutDestination::X, bit_count);
}

/// `pio::Assembler::set` of scratch register Y: appends the word of
/// `set y, data`, which is class 7 in bits 13 to 15, destination 2 in bits 5
/// to 7, and the value, for a value of at most five bits. The assembler
/// must have room.
#[verifier::external_body]
pub(crate) fn set_y(a: &mut pio::Assembler<32>, data: u8)
    requires
        assembled(*old(a)).len() < 32,
        data < 32,
    ensures
        assembled(*final(a)) == assembled(*old(a)).push((0xe040 + data) as u16),
{
    a.set(pio::SetDestination::Y, data);
}

/// `pio::Assembler::in_with_delay` from scratch register X with no delay:
/// appends the word of `in x, bit_count`, which is class 2 in bits 13 to 15,
/// source 1 in bits 5 to 7, and the count, for a count of at most five bits.
/// The assembler must have room.
#[verifier::external_body]
pub(crate) fn in_x(a: &mut pio::Assembler<32>, bit_count: u8)
    requires
        assembled(*old(a)).len() < 32,
        bit_count < 32,
    ensures
        assembled(*final(a)) == assembled(*old(a)).push((0x4020 + bit_count) as u16),
{
    a.in_with_delay(pio::InSource::X, bit_count, 0);
}

/// `pio::Assembler::jmp` on "Y not zero before decrement" to a label made by
/// `pio::Assembler::label_at_offset`: appends the word of `jmp y--, address`,
/// which is class 0, condition 4 in bits 5 to 7, and the address, for an
/// address of at most five bits. The assembler must have room.
#[verifier::external_body]
pub(crate) fn jmp_y_dec(a: &mut pio::Assembler<32>, address: u8)
    requires
        assembled(*old(a)).len() < 32,
        address < 32,
    ensures
        assembled(*final(a)) == assembled(*old(a)).push((0x0080 + address) as u16),
{
    let mut target = a.label_at_offset(address);
    a.jmp(pio::JmpCondition::YDecNonZero, &mut target);
}

/// `pio::Assembler::assemble_program`: the words that the assembler holds,
/// wrapping from the last instruction to the first. The assembler must hold
/// an instruction.
#[verifier::external_body]
pub(crate) fn finish(a: pio::Assembler<32>) -> (program: PioProgram)
    requires
        assembled(a).len() >= 1,
    ensures
        program.code@ == assembled(a),
        program.wrap_source == assembled(a).len() - 1,
        program.wrap_target == 0,
{
    let p = a.assemble_program();
    PioProgram { code: p.code.to_vec(), wrap_source: p.wrap.source, wrap_target: p.wrap.target }
}

} // verus!
