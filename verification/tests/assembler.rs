use minitools::assembler::{assemble, assemble_line, register_offset, to_uint, AssemblyLineResult};
use minitools::AsmError;

fn assert_assembly(line: &str, expected: Vec<u8>) {
    let mut results = assemble_line(line, 0).unwrap();
    let result = results.remove(0);
    let assembly = match result {
        AssemblyLineResult::Bytes(bytes) => bytes,
        _ => panic!("Unexpected AssemblyLineResult type"),
    };
    assert_eq!(assembly, expected);
}

#[test]
fn conversion() {
    assert_eq!(to_uint::<u32>("0x42").unwrap(), 66);
    assert_eq!(to_uint::<u32>("42").unwrap(), 42);
    assert_eq!(to_uint::<u32>("0x0").unwrap(), 0);
    assert_eq!(to_uint::<u8>("0x0").unwrap(), 0);
}

#[test]
fn syscall() {
    assert_assembly("syscall", vec![0xf, 0x5]);
}

#[test]
fn ret() {
    assert_assembly("ret", vec![0xc3]);
}

#[test]
fn mov() {
    assert_assembly("mov eax, 60", vec![0xb8, 0x3c, 0, 0, 0]);
    assert_assembly("mov ebx, 0x42", vec![0xbb, 0x42, 0, 0, 0]);
    assert_assembly("mov ebx, 0x12345678", vec![0xbb, 0x78, 0x56, 0x34, 0x12]);
}

#[test]
fn mov_with_reference() {
    let result =
        assemble("section .text\nmov esi, message\nsection .rodata\nmessage:\ndb \"Hello\"")
            .unwrap();
    assert_eq!(result.sections[0].name, ".text");
    assert_eq!(result.sections[1].name, ".rodata");
    assert_eq!(result.sections[0].content, vec![0xb8 + 6, 0, 0, 0, 0]);
    assert_eq!(result.relocations[0].section, ".rodata");
    assert_eq!(result.relocations[0].location, 1);
}

#[test]
fn cmp() {
    assert_assembly("cmp eax, 5", vec![0x83, 0xf8, 5]);
}

#[test]
fn db() {
    assert_assembly("db 0x42", vec![0x42]);
    assert_assembly("db 42", vec![42]);
    assert_assembly("db \"*\"", vec![42]);
    assert_assembly("db \"*\", 0x42, 42", vec![42, 0x42, 42]);
    assert_assembly("db \"hello\"", vec![104, 101, 108, 108, 111]);
}

#[test]
fn conversion_covers_all_three_widths() {
    assert_eq!(to_uint::<u8>("255").unwrap(), 255);
    assert!(matches!(to_uint::<u8>("256"), Err(AsmError::MalformedOperand(_))));
    assert_eq!(to_uint::<u32>("0xFFFFFFFF").unwrap(), u32::MAX);
    assert!(matches!(to_uint::<u32>("0x100000000"), Err(AsmError::MalformedOperand(_))));
    assert_eq!(to_uint::<u64>("0xFFFFFFFFFFFFFFFF").unwrap(), u64::MAX);
    assert_eq!(to_uint::<u64>("18446744073709551615").unwrap(), u64::MAX);
    assert!(matches!(to_uint::<u64>("18446744073709551616"), Err(AsmError::MalformedOperand(_))));
    assert_eq!(to_uint::<u32>(" 0x2A ").unwrap(), 42);
    assert_eq!(to_uint::<u8>("0x2a").unwrap(), 42);
}

#[test]
fn mov_reference_addend_points_into_target_section() {
    let result =
        assemble("section .text\nmov esi, message\nsection .rodata\ndb 1, 2\nmessage:\ndb 3")
            .unwrap();
    assert_eq!(result.relocations.len(), 1);
    assert_eq!(result.relocations[0].section, ".rodata");
    // `message` sits after the two earlier data bytes.
    assert_eq!(result.relocations[0].addend, 2);
    assert_eq!(result.relocations[0].location, 1);
}

#[test]
fn register_offsets_cover_all_eight_names() {
    let names = ["eax", "ecx", "edx", "ebx", "esp", "ebp", "esi", "edi"];
    for (i, name) in names.iter().enumerate() {
        assert_eq!(register_offset(name).unwrap(), i as u8);
    }
}

#[test]
fn malformed_operand_is_reported() {
    let r = to_uint::<u8>("0x");
    assert!(matches!(r, Err(AsmError::MalformedOperand(_))));
    let r = assemble("section .text\ndb 999");
    assert!(matches!(r, Err(AsmError::MalformedOperand(_))));
}

#[test]
fn unknown_register_is_reported() {
    let r = assemble("section .text\nmov foo, 1");
    assert!(matches!(r, Err(AsmError::UnknownRegister(_))));
    let r = register_offset("rax");
    assert!(matches!(r, Err(AsmError::UnknownRegister(_))));
}

#[test]
fn unsupported_instruction_is_reported() {
    let r = assemble("section .text\nnop");
    assert!(matches!(r, Err(AsmError::UnsupportedInstruction(_))));
}

#[test]
fn bytes_before_any_section_are_rejected() {
    let r = assemble("mov eax, 60");
    assert!(matches!(r, Err(AsmError::NoActiveSection)));
    let r = assemble("start:\nret");
    assert!(matches!(r, Err(AsmError::NoActiveSection)));
}

#[test]
fn undefined_label_is_reported() {
    let r = assemble("section .text\nmov esi, missing");
    match r {
        Err(AsmError::UndefinedLabel(name)) => assert_eq!(name, "missing"),
        _ => panic!("expected UndefinedLabel"),
    }
}

#[test]
fn blank_lines_contribute_nothing() {
    let result = assemble("\n\nsection .text\n\nret\n\n").unwrap();
    assert_eq!(result.sections.len(), 1);
    assert_eq!(result.sections[0].content, vec![0xc3]);
}

#[test]
fn first_label_definition_wins() {
    let result = assemble("section .text\nspot:\ndb 1\nspot:\nmov eax, spot").unwrap();
    assert_eq!(result.relocations[0].addend, 0);
}

#[test]
fn assemble_is_deterministic() {
    let text = "section .text\nmov esi, message\ncmp eax, 5\nsection .rodata\nmessage:\ndb \"Hi\"";
    let a = assemble(text).unwrap();
    let b = assemble(text).unwrap();
    assert_eq!(a.sections.len(), b.sections.len());
    for i in 0..a.sections.len() {
        assert_eq!(a.sections[i].name, b.sections[i].name);
        assert_eq!(a.sections[i].content, b.sections[i].content);
    }
    assert_eq!(a.relocations.len(), b.relocations.len());
    for i in 0..a.relocations.len() {
        assert_eq!(a.relocations[i].location, b.relocations[i].location);
        assert_eq!(a.relocations[i].section, b.relocations[i].section);
        assert_eq!(a.relocations[i].addend, b.relocations[i].addend);
    }
}

#[test]
fn describe_names_the_offending_token() {
    let r = assemble("section .text\nmov esi, missing");
    match r {
        Err(e) => assert_eq!(e.describe(), "undefined label: missing"),
        _ => panic!("expected an error"),
    }
}
