//! A small assembler for a handful of x86-64 mnemonics, together with an
//! emitter that serializes the assembled sections into an ELF64 relocatable
//! object file.
//!
//! The pipeline has two halves.  [`assembler::assemble`] walks the source text
//! line by line, producing named sections of machine-code bytes and a list of
//! resolved relocations; [`elf::create_binary`] serializes that result, with a
//! symbol table, a relocation table and the section-header metadata the ELF64
//! object format asks for.
#![verifier::loop_isolation(false)]

pub mod assembler;
pub mod elf;
pub mod laws;
mod text;

use vstd::prelude::*;

verus! {

/// One named chunk of encoded bytes produced by the assembler.
pub struct AssemblySection {
    pub name: String,
    pub content: Vec<u8>,
}

/// Width of the value a relocation will patch.
#[derive(Copy, Clone, PartialEq, Eq, Structural, Debug)]
pub enum RelocationType {
    U32,
    U64,
}

impl RelocationType {
    /// ELF relocation-type code for x86-64 absolute addressing:
    /// `R_X86_64_32` (10) for 4-byte values, `R_X86_64_64` (1) for 8-byte ones.
    pub open spec fn spec_code(self) -> u32 {
        match self {
            RelocationType::U32 => 10u32,
            RelocationType::U64 => 1u32,
        }
    }

    /// Exec twin of [`RelocationType::spec_code`].
    #[verifier::when_used_as_spec(spec_code)]
    pub fn code(self) -> (c: u32)
        ensures
            c == self.spec_code(),
    {
        match self {
            RelocationType::U32 => 10,
            RelocationType::U64 => 1,
        }
    }

    /// Number of zero placeholder bytes a pending relocation of this width
    /// leaves in the section content.
    pub open spec fn spec_width(self) -> nat {
        match self {
            RelocationType::U32 => 4,
            RelocationType::U64 => 8,
        }
    }
}

/// A relocation after label lookup: `location` is the byte offset of the
/// placeholder, `section` the name of the section the label lives in, and
/// `addend` the label's offset inside that section.
pub struct ResolvedRelocation {
    pub location: u64,
    pub typ: RelocationType,
    pub section: String,
    pub addend: u64,
}

/// Final output of the assembler: sections in the order their `section`
/// directives first appeared, plus all resolved relocations in source order.
pub struct AssemblyResult {
    pub sections: Vec<AssemblySection>,
    pub relocations: Vec<ResolvedRelocation>,
}

/// Why a call into the assembler or the emitter failed.
#[derive(Debug)]
pub enum AsmError {
    /// A numeric literal could not be parsed under its expected base or
    /// width, or an instruction is missing an operand (the payload is the
    /// offending token or line).
    MalformedOperand(String),
    /// An operand naming a register matched none of the eight recognized
    /// 32-bit register names.
    UnknownRegister(String),
    /// The mnemonic is not one of the supported set.
    UnsupportedInstruction(String),
    /// A byte-producing line appeared before any `section` directive.
    NoActiveSection,
    /// A relocation referenced a label never defined anywhere in the input.
    UndefinedLabel(String),
    /// A resolved relocation names a target section with no corresponding
    /// object section at emission time.
    UnknownSectionReference(String),
}

/// Mathematical model of [`AssemblySection`].
pub struct SpecSection {
    pub name: Seq<char>,
    pub content: Seq<u8>,
}

/// Mathematical model of [`ResolvedRelocation`].
pub struct SpecResolved {
    pub location: u64,
    pub typ: RelocationType,
    pub section: Seq<char>,
    pub addend: u64,
}

/// Mathematical model of [`AssemblyResult`].
pub struct SpecResult {
    pub sections: Seq<SpecSection>,
    pub relocations: Seq<SpecResolved>,
}

/// Mathematical model of [`AsmError`].
pub enum SpecError {
    MalformedOperand(Seq<char>),
    UnknownRegister(Seq<char>),
    UnsupportedInstruction(Seq<char>),
    NoActiveSection,
    UndefinedLabel(Seq<char>),
    UnknownSectionReference(Seq<char>),
}

impl View for AssemblySection {
    type V = SpecSection;

    open spec fn view(&self) -> SpecSection {
        SpecSection { name: self.name@, content: self.content@ }
    }
}

impl DeepView for AssemblySection {
    type V = SpecSection;

    open spec fn deep_view(&self) -> SpecSection {
        self@
    }
}

impl View for ResolvedRelocation {
    type V = SpecResolved;

    open spec fn view(&self) -> SpecResolved {
        SpecResolved {
            location: self.location,
            typ: self.typ,
            section: self.section@,
            addend: self.addend,
        }
    }
}

impl DeepView for ResolvedRelocation {
    type V = SpecResolved;

    open spec fn deep_view(&self) -> SpecResolved {
        self@
    }
}

impl View for AssemblyResult {
    type V = SpecResult;

    open spec fn view(&self) -> SpecResult {
        SpecResult { sections: self.sections.deep_view(), relocations: self.relocations.deep_view() }
    }
}

impl View for AsmError {
    type V = SpecError;

    open spec fn view(&self) -> SpecError {
        match self {
            AsmError::MalformedOperand(t) => SpecError::MalformedOperand(t@),
            AsmError::UnknownRegister(t) => SpecError::UnknownRegister(t@),
            AsmError::UnsupportedInstruction(t) => SpecError::UnsupportedInstruction(t@),
            AsmError::NoActiveSection => SpecError::NoActiveSection,
            AsmError::UndefinedLabel(t) => SpecError::UndefinedLabel(t@),
            AsmError::UnknownSectionReference(t) => SpecError::UnknownSectionReference(t@),
        }
    }
}

impl AsmError {
    /// A short human-readable description, for callers that surface errors.
    pub fn describe(&self) -> (r: String)
        ensures
            match self {
                AsmError::MalformedOperand(t) => r@ == "malformed operand: "@ + t@,
                AsmError::UnknownRegister(t) => r@ == "unknown register: "@ + t@,
                AsmError::UnsupportedInstruction(t) => r@ == "unsupported instruction: "@ + t@,
                AsmError::NoActiveSection => r@ == "bytes emitted before any section"@,
                AsmError::UndefinedLabel(t) => r@ == "undefined label: "@ + t@,
                AsmError::UnknownSectionReference(t) => r@ == "unknown section reference: "@ + t@,
            },
    {
        match self {
            AsmError::MalformedOperand(t) => String::from_str("malformed operand: ").concat(
                t.as_str(),
            ),
            AsmError::UnknownRegister(t) => String::from_str("unknown register: ").concat(
                t.as_str(),
            ),
            AsmError::UnsupportedInstruction(t) => String::from_str(
                "unsupported instruction: ",
            ).concat(t.as_str()),
            AsmError::NoActiveSection => String::from_str("bytes emitted before any section"),
            AsmError::UndefinedLabel(t) => String::from_str("undefined label: ").concat(t.as_str()),
            AsmError::UnknownSectionReference(t) => String::from_str(
                "unknown section reference: ",
            ).concat(t.as_str()),
        }
    }
}

} // verus!
