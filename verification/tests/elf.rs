use minitools::assembler::assemble;
use minitools::elf::{create_binary, emit_limits_ok};
use minitools::{AsmError, AssemblyResult, AssemblySection, RelocationType, ResolvedRelocation};

const SOURCE: &str = "section .text\nmov esi, message\nsection .rodata\nmessage:\ndb \"Hello\"";

fn emit(text: &str) -> Vec<u8> {
    let result = assemble(text).unwrap();
    assert!(emit_limits_ok(&result));
    create_binary(result).unwrap()
}

fn u16le(buf: &[u8], at: usize) -> u16 {
    u16::from_le_bytes([buf[at], buf[at + 1]])
}

fn u32le(buf: &[u8], at: usize) -> u32 {
    u32::from_le_bytes([buf[at], buf[at + 1], buf[at + 2], buf[at + 3]])
}

fn u64le(buf: &[u8], at: usize) -> u64 {
    u64::from_le_bytes([
        buf[at],
        buf[at + 1],
        buf[at + 2],
        buf[at + 3],
        buf[at + 4],
        buf[at + 5],
        buf[at + 6],
        buf[at + 7],
    ])
}

#[test]
fn header_identifies_a_relocatable_elf64_object() {
    let buf = emit(SOURCE);
    assert_eq!(&buf[0..4], &[0x7f, 0x45, 0x4c, 0x46]);
    // 64-bit, little-endian, version 1, System V.
    assert_eq!(&buf[4..8], &[2, 1, 1, 0]);
    // Relocatable object for x86-64.
    assert_eq!(u16le(&buf, 16), 1);
    assert_eq!(u16le(&buf, 18), 62);
    // No program headers; 64-byte section header entries.
    assert_eq!(u16le(&buf, 54), 0);
    assert_eq!(u16le(&buf, 56), 0);
    assert_eq!(u16le(&buf, 58), 64);
}

#[test]
fn section_header_count_is_sections_plus_five() {
    // 2 assembled sections + 4 synthetic sections + 1 reserved null entry.
    let buf = emit(SOURCE);
    assert_eq!(u16le(&buf, 60), 7);
    // The name table is the last section.
    assert_eq!(u16le(&buf, 62), 6);

    let buf = emit("section .text\nret");
    assert_eq!(u16le(&buf, 60), 6);
}

#[test]
fn content_blob_keeps_section_order() {
    let buf = emit(SOURCE);
    // .text first, right after the header; .rodata immediately after it.
    assert_eq!(&buf[64..69], &[0xb8 + 6, 0, 0, 0, 0]);
    assert_eq!(&buf[69..74], b"Hello");
    // .strtab: one NUL, then the symbol names NUL-terminated.
    assert_eq!(&buf[74..89], b"\0.text\0.rodata\0");
}

#[test]
fn section_header_table_describes_the_blob() {
    let buf = emit(SOURCE);
    // Contents: 5 + 5 + 15 (.strtab) + 72 (.symtab) + 24 (.rela.text)
    // + 52 (.shstrtab) bytes, so the header table starts at 237.
    assert_eq!(u64le(&buf, 40), 237);
    assert_eq!(buf.len(), 237 + 7 * 64);
    // The reserved null entry is all zero.
    assert_eq!(&buf[237..301], &[0u8; 64]);
    // .text: PROGBITS, writable+executable, at 64, 5 bytes.
    let t = 301;
    assert_eq!(u32le(&buf, t), 1);
    assert_eq!(u32le(&buf, t + 4), 1);
    assert_eq!(u64le(&buf, t + 8), 6);
    assert_eq!(u64le(&buf, t + 24), 64);
    assert_eq!(u64le(&buf, t + 32), 5);
    // .rodata: read-only flags.
    let r = 301 + 64;
    assert_eq!(u64le(&buf, r + 8), 2);
    assert_eq!(u64le(&buf, r + 24), 69);
    // .symtab links to .strtab (index 3) and counts 3 local symbols.
    let s = 301 + 64 * 3;
    assert_eq!(u32le(&buf, s + 4), 2);
    assert_eq!(u32le(&buf, s + 40), 3);
    assert_eq!(u32le(&buf, s + 44), 3);
    assert_eq!(u64le(&buf, s + 56), 24);
    // .rela.text links to .symtab (index 4) and targets .text (index 1).
    let a = 301 + 64 * 4;
    assert_eq!(u32le(&buf, a + 4), 4);
    assert_eq!(u32le(&buf, a + 40), 4);
    assert_eq!(u32le(&buf, a + 44), 1);
}

#[test]
fn relocation_entry_names_the_target_section_symbol() {
    let buf = emit(SOURCE);
    // The single relocation entry sits at 161: location 1 within .text,
    // type 10 (4-byte absolute), the SECTION symbol of .rodata (index 2),
    // addend 0.
    assert_eq!(u64le(&buf, 161), 1);
    assert_eq!(u32le(&buf, 169), 10);
    assert_eq!(u32le(&buf, 173), 2);
    assert_eq!(u64le(&buf, 177), 0);
}

#[test]
fn symbol_table_holds_one_section_symbol_per_section() {
    let buf = emit(SOURCE);
    // Null entry.
    assert_eq!(&buf[89..113], &[0u8; 24]);
    // .text symbol: name at offset 1, LOCAL SECTION, section index 1.
    assert_eq!(u32le(&buf, 113), 1);
    assert_eq!(buf[117], 3);
    assert_eq!(u16le(&buf, 119), 1);
    // .rodata symbol: name at offset 7, section index 2.
    assert_eq!(u32le(&buf, 137), 7);
    assert_eq!(buf[141], 3);
    assert_eq!(u16le(&buf, 143), 2);
}

#[test]
fn emitting_is_deterministic() {
    let first = emit(SOURCE);
    let second = emit(SOURCE);
    assert_eq!(first, second);
}

#[test]
fn unknown_section_reference_is_reported() {
    let result = AssemblyResult {
        sections: vec![AssemblySection { name: ".text".to_string(), content: vec![0xc3] }],
        relocations: vec![ResolvedRelocation {
            location: 0,
            typ: RelocationType::U32,
            section: ".nowhere".to_string(),
            addend: 0,
        }],
    };
    assert!(emit_limits_ok(&result));
    let r = create_binary(result);
    match r {
        Err(AsmError::UnknownSectionReference(name)) => assert_eq!(name, ".nowhere"),
        _ => panic!("expected UnknownSectionReference"),
    }
}

#[test]
fn emit_limits_accept_ordinary_results() {
    let result = assemble(SOURCE).unwrap();
    assert!(emit_limits_ok(&result));
}
