//! Laws the assembler and the emitter obey, each proved from the spec
//! functions the executable contracts are stated over.
use vstd::prelude::*;

use crate::assembler::{
    spec_assemble,
    spec_assemble_line,
    spec_args,
    spec_op_and_rest,
    spec_initial_state,
    spec_run,
    spec_resolve,
    spec_lookup,
    spec_register_offset,
    spec_to_uint,
    dec_digit,
    SpecItem,
    SpecLabel,
    SpecPending,
};
use crate::elf::{
    spec_create_binary,
    spec_obj_sections,
    spec_prog_sections,
    spec_rela_names,
    spec_rela_bytes,
    spec_blob,
    spec_header,
    spec_ident,
    lemma_blob_concat,
};
use crate::text::{spec_trim, spec_split, lemma_trim_idempotent, lemma_find_none};
use crate::{SpecError, SpecResult};
use vstd::bytes::{
    spec_u16_to_le_bytes,
    spec_u32_to_le_bytes,
    lemma_auto_spec_u16_to_from_le_bytes,
    lemma_auto_spec_u32_to_from_le_bytes,
    lemma_auto_spec_u64_to_from_le_bytes,
};

verus! {

/// The zero-operand mnemonics encode to constants: a `syscall` line always
/// contributes exactly the bytes `0F 05` and a `ret` line exactly `C3`,
/// whatever the current offset is.
pub proof fn lemma_zero_operand_constant(line: Seq<char>, location: u64)
    requires
        spec_trim(line) == "syscall"@ || spec_trim(line) == "ret"@,
    ensures
        spec_trim(line) == "syscall"@ ==> spec_assemble_line(line, location)
            == Ok::<Seq<SpecItem>, SpecError>(seq![SpecItem::Bytes(seq![0x0fu8, 0x05u8])]),
        spec_trim(line) == "ret"@ ==> spec_assemble_line(line, location) == Ok::<
            Seq<SpecItem>,
            SpecError,
        >(seq![SpecItem::Bytes(seq![0xc3u8])]),
{
    reveal_strlit("syscall");
    reveal_strlit("ret");
    reveal_strlit("section");
    let t = spec_trim(line);
    lemma_trim_idempotent(line);
    if t == "syscall"@ {
        assert(t[0] != ' ');
        assert(t[1] != ' ');
        assert(t[2] != ' ');
        assert(t[3] != ' ');
        assert(t[4] != ' ');
        assert(t[5] != ' ');
        assert(t[6] != ' ');
        lemma_find_none(t, ' ');
        assert(spec_op_and_rest(t).0 == t);
        assert(spec_trim(spec_op_and_rest(t).0) == t);
        assert(t.last() != ':');
        assert(t != "section"@) by {
            assert("syscall"@[1] == 'y');
            assert("section"@[1] == 'e');
        }
    } else {
        assert(t[0] != ' ');
        assert(t[1] != ' ');
        assert(t[2] != ' ');
        lemma_find_none(t, ' ');
        assert(spec_op_and_rest(t).0 == t);
        assert(spec_trim(spec_op_and_rest(t).0) == t);
        assert(t.last() != ':');
        assert(t != "section"@);
        assert(t != "syscall"@);
    }
}

/// A `mov` whose source operand is numeric always encodes to the opcode
/// byte `B8` plus the register's offset, followed by the immediate as four
/// little-endian bytes; no relocation is recorded and the current offset
/// plays no part.
pub proof fn lemma_mov_immediate_encoding(line: Seq<char>, location: u64)
    requires
        ({
            let t = spec_trim(line);
            let op = spec_trim(spec_op_and_rest(t).0);
            let args = spec_args(spec_op_and_rest(t).1);
            &&& op == "mov"@
            &&& args.len() >= 2
            &&& spec_register_offset(args[0]) is Some
            &&& args[1].len() > 0
            &&& dec_digit(args[1][0])
            &&& spec_to_uint(args[1], 0xFFFF_FFFF) is Some
        }),
    ensures
        ({
            let t = spec_trim(line);
            let args = spec_args(spec_op_and_rest(t).1);
            let off = spec_register_offset(args[0])->Some_0;
            let v = spec_to_uint(args[1], 0xFFFF_FFFF)->Some_0;
            spec_assemble_line(line, location) == Ok::<Seq<SpecItem>, SpecError>(
                seq![
                    SpecItem::Bytes(seq![(0xb8 + off) as u8] + spec_u32_to_le_bytes(v as u32)),
                ],
            )
        }),
{
    reveal_strlit("mov");
    reveal_strlit("section");
    reveal_strlit("syscall");
    reveal_strlit("ret");
    let t = spec_trim(line);
    let op = spec_trim(spec_op_and_rest(t).0);
    assert(t.len() > 0);
    assert(op.last() != ':');
    assert(op != "section"@);
    assert(op != "syscall"@);
    assert(op != "ret"@) by {
        assert("mov"@[0] == 'm');
        assert("ret"@[0] == 'r');
    }
}

/// `spec_resolve` succeeds exactly when every pending relocation's label is
/// in the label table, and otherwise fails with `UndefinedLabel` naming
/// some unresolved label — it never silently drops or zeroes a reference.
pub proof fn lemma_resolve_exact(pending: Seq<SpecPending>, labels: Seq<SpecLabel>)
    ensures
        match spec_resolve(pending, labels) {
            Ok(_) => forall|i: int|
                0 <= i < pending.len() ==> spec_lookup(labels, #[trigger] pending[i].label)
                    is Some,
            Err(e) => exists|i: int|
                0 <= i < pending.len() && spec_lookup(labels, #[trigger] pending[i].label) is None
                    && e == SpecError::UndefinedLabel(pending[i].label),
        },
    decreases pending.len(),
{
    if pending.len() > 0 {
        lemma_resolve_exact(pending.drop_first(), labels);
        match spec_lookup(labels, pending[0].label) {
            None => {
                assert(pending[0].label == pending[0].label);
            },
            Some(_) => {
                match spec_resolve(pending.drop_first(), labels) {
                    Ok(_) => {
                        assert forall|i: int| 0 <= i < pending.len() implies spec_lookup(
                            labels,
                            #[trigger] pending[i].label,
                        ) is Some by {
                            if i > 0 {
                                assert(pending.drop_first()[i - 1] == pending[i]);
                            }
                        }
                    },
                    Err(e) => {
                        let j = choose|j: int|
                            0 <= j < pending.drop_first().len() && spec_lookup(
                                labels,
                                #[trigger] pending.drop_first()[j].label,
                            ) is None && e == SpecError::UndefinedLabel(
                                pending.drop_first()[j].label,
                            );
                        assert(pending[j + 1] == pending.drop_first()[j]);
                    },
                }
            },
        }
    }
}

/// Referencing an undefined label anywhere always fails with
/// `UndefinedLabel`: when the line pass succeeds, the whole assembly
/// succeeds exactly when every recorded relocation's label was defined
/// somewhere in the input, and otherwise the error names an undefined
/// label.
pub proof fn lemma_undefined_label_always_fails(text: Seq<char>)
    ensures
        match spec_run(spec_initial_state(), spec_split(text, '\n')) {
            Ok(st) => {
                &&& (spec_assemble(text) is Ok <==> (forall|i: int|
                    0 <= i < st.pending.len() ==> spec_lookup(
                        st.labels,
                        #[trigger] st.pending[i].label,
                    ) is Some))
                &&& (spec_assemble(text) is Err ==> (exists|i: int|
                    0 <= i < st.pending.len() && spec_lookup(
                        st.labels,
                        #[trigger] st.pending[i].label,
                    ) is None && spec_assemble(text) == Err::<SpecResult, SpecError>(
                        SpecError::UndefinedLabel(st.pending[i].label),
                    )))
            },
            Err(e) => spec_assemble(text) == Err::<SpecResult, SpecError>(e),
        },
{
    match spec_run(spec_initial_state(), spec_split(text, '\n')) {
        Ok(st) => {
            lemma_resolve_exact(st.pending, st.labels);
        },
        Err(_) => {},
    }
}

/// Assembling is deterministic: the result is a function of the source
/// text alone, so two runs on identical input agree in every byte of every
/// section and every relocation.
pub proof fn lemma_assemble_deterministic(text: Seq<char>, r1: SpecResult, r2: SpecResult)
    requires
        spec_assemble(text) == Ok::<SpecResult, SpecError>(r1),
        spec_assemble(text) == Ok::<SpecResult, SpecError>(r2),
    ensures
        r1 == r2,
{
}

/// Emitting is deterministic: the object file is a function of the
/// assembly result alone, so two runs on identical input are
/// byte-for-byte identical.
pub proof fn lemma_emit_deterministic(a: SpecResult, b1: Seq<u8>, b2: Seq<u8>)
    requires
        spec_create_binary(a) == Ok::<Seq<u8>, SpecError>(b1),
        spec_create_binary(a) == Ok::<Seq<u8>, SpecError>(b2),
    ensures
        b1 == b2,
{
}

/// The 64-byte header really takes 64 bytes.
pub proof fn lemma_header_len(objs: Seq<crate::elf::SpecObjSection>)
    ensures
        spec_header(objs).len() == 64,
{
    lemma_auto_spec_u16_to_from_le_bytes();
    lemma_auto_spec_u32_to_from_le_bytes();
    lemma_auto_spec_u64_to_from_le_bytes();
}

/// File offset of one assembled section's content inside the emitted
/// object file: the 64-byte header, then every earlier section's content.
pub open spec fn spec_section_file_offset(a: SpecResult, i: int) -> int {
    64 + spec_blob(spec_prog_sections(a.sections).subrange(0, i)).len() as int
}

/// Section ordering round-trips into the object file: the emitted content
/// blob holds every assembled section's bytes unchanged, at its running
/// offset, in exactly the order the sections were first opened.
pub proof fn lemma_content_blob_order(a: SpecResult, buf: Seq<u8>, i: int)
    requires
        spec_create_binary(a) == Ok::<Seq<u8>, SpecError>(buf),
        0 <= i < a.sections.len(),
    ensures
        ({
            let start = spec_section_file_offset(a, i);
            &&& start + a.sections[i].content.len() <= buf.len()
            &&& buf.subrange(start, start + a.sections[i].content.len())
                == a.sections[i].content
        }),
{
    let rc = spec_rela_bytes(a.relocations, spec_rela_names(a))->Ok_0;
    let objs = spec_obj_sections(a, rc);
    let prog = spec_prog_sections(a.sections);
    let ns = a.sections.len() as int;
    lemma_header_len(objs);
    let head = objs.subrange(0, i);
    let tail = objs.subrange(i + 1, objs.len() as int);
    assert(head =~= prog.subrange(0, i));
    assert(objs =~= head + (seq![objs[i]] + tail));
    lemma_blob_concat(head, seq![objs[i]] + tail);
    lemma_blob_concat(seq![objs[i]], tail);
    let single = seq![objs[i]];
    assert(single.drop_first() =~= Seq::<crate::elf::SpecObjSection>::empty());
    assert(spec_blob(single) == single[0].content + spec_blob(single.drop_first()));
    assert(spec_blob(single.drop_first()) == Seq::<u8>::empty());
    assert(spec_blob(single) =~= objs[i].content);
    assert(objs[i].content == a.sections[i].content);
    let start = spec_section_file_offset(a, i);
    let clen = a.sections[i].content.len() as int;
    assert(spec_blob(objs) == spec_blob(head) + (objs[i].content + spec_blob(tail)));
    assert(buf == spec_header(objs) + spec_blob(objs) + crate::elf::spec_sht(objs));
    assert(buf.subrange(start, start + clen) =~= a.sections[i].content) by {
        assert forall|k: int| 0 <= k < clen implies buf[start + k] == a.sections[i].content[k] by {
            assert(buf[start + k] == spec_blob(objs)[start - 64 + k]);
            assert(spec_blob(objs)[start - 64 + k] == objs[i].content[k]);
        }
    }
}

/// The section-header count field of the emitted file (bytes 60..62 of the
/// header, little-endian) always equals the number of assembled sections,
/// plus the 4 synthetic sections, plus 1 for the reserved null entry.
pub proof fn lemma_section_header_count(a: SpecResult, buf: Seq<u8>)
    requires
        spec_create_binary(a) == Ok::<Seq<u8>, SpecError>(buf),
        a.sections.len() + 5 <= 0xFFFF,
    ensures
        buf.subrange(60, 62) == spec_u16_to_le_bytes((a.sections.len() + 5) as u16),
{
    let rc = spec_rela_bytes(a.relocations, spec_rela_names(a))->Ok_0;
    let objs = spec_obj_sections(a, rc);
    lemma_auto_spec_u16_to_from_le_bytes();
    lemma_auto_spec_u32_to_from_le_bytes();
    lemma_auto_spec_u64_to_from_le_bytes();
    lemma_header_len(objs);
    assert(objs.len() == a.sections.len() + 4);
    assert((objs.len() + 1) as u16 == (a.sections.len() + 5) as u16);
    assert(buf == spec_header(objs) + spec_blob(objs) + crate::elf::spec_sht(objs));
    assert(spec_ident().len() == 16);
    assert(buf.subrange(60, 62) =~= spec_u16_to_le_bytes((objs.len() + 1) as u16)) by {
        assert(buf[60] == spec_header(objs)[60]);
        assert(buf[61] == spec_header(objs)[61]);
        assert(spec_header(objs)[60] == spec_u16_to_le_bytes((objs.len() + 1) as u16)[0]);
        assert(spec_header(objs)[61] == spec_u16_to_le_bytes((objs.len() + 1) as u16)[1]);
    }
}

} // verus!
