//! The object emitter: serializes an [`crate::AssemblyResult`] into an ELF64
//! relocatable object file, with a string table, a symbol table, a
//! relocation table and the section header table the format asks for.
use vstd::prelude::*;

use crate::text::{str_eq, push_str_utf8};
use crate::assembler::spec_zeros;
use crate::{
    AsmError,
    SpecError,
    SpecSection,
    SpecResolved,
    SpecResult,
    AssemblyResult,
    AssemblySection,
    ResolvedRelocation,
};
use vstd::bytes::{
    spec_u16_to_le_bytes,
    spec_u32_to_le_bytes,
    spec_u64_to_le_bytes,
    u16_to_le_bytes,
    u32_to_le_bytes,
    u64_to_le_bytes,
    lemma_auto_spec_u16_to_from_le_bytes,
    lemma_auto_spec_u32_to_from_le_bytes,
    lemma_auto_spec_u64_to_from_le_bytes,
};
use vstd::utf8::encode_utf8;

verus! {

/// One ELF section descriptor: what one 64-byte section header entry
/// carries, next to the section's raw content.
pub struct Section {
    pub name: String,
    pub typ: u32,
    pub flags: u64,
    pub content: Vec<u8>,
    pub link: u32,
    pub info: u32,
    pub entry_size: u64,
}

/// Mathematical model of [`Section`].
pub struct SpecObjSection {
    pub name: Seq<char>,
    pub typ: u32,
    pub flags: u64,
    pub content: Seq<u8>,
    pub link: u32,
    pub info: u32,
    pub entry_size: u64,
}

impl View for Section {
    type V = SpecObjSection;

    open spec fn view(&self) -> SpecObjSection {
        SpecObjSection {
            name: self.name@,
            typ: self.typ,
            flags: self.flags,
            content: self.content@,
            link: self.link,
            info: self.info,
            entry_size: self.entry_size,
        }
    }
}

impl DeepView for Section {
    type V = SpecObjSection;

    open spec fn deep_view(&self) -> SpecObjSection {
        self@
    }
}

/// One ELF symbol-table entry.
pub struct Symbol {
    pub name: String,
    pub typ_and_binding: u8,
    pub visibility: u8,
    pub section: u16,
    pub value: u64,
    pub size: u64,
}

/// Mathematical model of [`Symbol`].
pub struct SpecSymbol {
    pub name: Seq<char>,
    pub typ_and_binding: u8,
    pub visibility: u8,
    pub section: u16,
    pub value: u64,
    pub size: u64,
}

impl View for Symbol {
    type V = SpecSymbol;

    open spec fn view(&self) -> SpecSymbol {
        SpecSymbol {
            name: self.name@,
            typ_and_binding: self.typ_and_binding,
            visibility: self.visibility,
            section: self.section,
            value: self.value,
            size: self.size,
        }
    }
}

impl DeepView for Symbol {
    type V = SpecSymbol;

    open spec fn deep_view(&self) -> SpecSymbol {
        self@
    }
}

/// Alignment constraint written into every section header.  The format
/// permits 0, meaning no constraint.
pub open spec fn spec_alignment_from_section_name(name: Seq<char>) -> u64 {
    0
}

/// Exec twin of [`spec_alignment_from_section_name`].
pub fn alignment_from_section_name(name: &str) -> (a: u64)
    ensures
        a == spec_alignment_from_section_name(name@),
{
    0
}

// ---------------------------------------------------------------------------
// Little-endian writing.
// ---------------------------------------------------------------------------
/// Appends `x` as 2 little-endian bytes.
fn push_u16_le(out: &mut Vec<u8>, x: u16)
    ensures
        final(out)@ == old(out)@ + spec_u16_to_le_bytes(x),
{
    let mut b = u16_to_le_bytes(x);
    out.append(&mut b);
}

/// Appends `x` as 4 little-endian bytes.
fn push_u32_le(out: &mut Vec<u8>, x: u32)
    ensures
        final(out)@ == old(out)@ + spec_u32_to_le_bytes(x),
{
    let mut b = u32_to_le_bytes(x);
    out.append(&mut b);
}

/// Appends `x` as 8 little-endian bytes.
fn push_u64_le(out: &mut Vec<u8>, x: u64)
    ensures
        final(out)@ == old(out)@ + spec_u64_to_le_bytes(x),
{
    let mut b = u64_to_le_bytes(x);
    out.append(&mut b);
}

/// Appends a copy of `src`.
fn push_bytes(out: &mut Vec<u8>, src: &Vec<u8>)
    ensures
        final(out)@ == old(out)@ + src@,
{
    let mut j: usize = 0;
    while j < src.len()
        invariant
            0 <= j <= src@.len(),
            out@ == old(out)@ + src@.subrange(0, j as int),
        decreases src@.len() - j,
    {
        out.push(src[j]);
        proof {
            assert(src@.subrange(0, j as int).push(src@[j as int]) =~= src@.subrange(0, j + 1));
            assert(old(out)@ + src@.subrange(0, j as int) + seq![src@[j as int]] =~= old(out)@
                + src@.subrange(0, j + 1));
        }
        j = j + 1;
    }
    proof {
        assert(src@.subrange(0, src@.len() as int) =~= src@);
    }
}

/// Appends `n` zero bytes.
fn push_zeros(out: &mut Vec<u8>, n: usize)
    ensures
        final(out)@ == old(out)@ + spec_zeros(n as nat),
{
    let mut j: usize = 0;
    while j < n
        invariant
            0 <= j <= n,
            out@ == old(out)@ + spec_zeros(j as nat),
        decreases n - j,
    {
        out.push(0);
        proof {
            assert(old(out)@ + spec_zeros(j as nat) + seq![0u8] =~= old(out)@ + spec_zeros(
                (j + 1) as nat,
            ));
        }
        j = j + 1;
    }
}

// ---------------------------------------------------------------------------
// String tables.
// ---------------------------------------------------------------------------
/// UTF-8 bytes of each name in order, each followed by one NUL byte.
pub open spec fn spec_names_concat(names: Seq<Seq<char>>) -> Seq<u8>
    decreases names.len(),
{
    if names.len() == 0 {
        Seq::<u8>::empty()
    } else {
        encode_utf8(names[0]) + seq![0u8] + spec_names_concat(names.drop_first())
    }
}

/// Appending one name appends its bytes and a NUL terminator.
pub proof fn lemma_names_concat_snoc(names: Seq<Seq<char>>, n: Seq<char>)
    ensures
        spec_names_concat(names.push(n)) == spec_names_concat(names) + encode_utf8(n) + seq![0u8],
    decreases names.len(),
{
    if names.len() == 0 {
        assert(names.push(n).drop_first() =~= names);
        assert(spec_names_concat(names.push(n)) =~= spec_names_concat(names) + encode_utf8(n)
            + seq![0u8]);
    } else {
        assert(names.push(n).drop_first() =~= names.drop_first().push(n));
        lemma_names_concat_snoc(names.drop_first(), n);
        assert(spec_names_concat(names.push(n)) =~= spec_names_concat(names) + encode_utf8(n)
            + seq![0u8]);
    }
}

/// The names of a list of object sections, in order.
pub open spec fn spec_section_names(sections: Seq<SpecObjSection>) -> Seq<Seq<char>> {
    sections.map_values(|s: SpecObjSection| s.name)
}

/// The names of a list of symbols, in order.
pub open spec fn spec_symbol_names(symbols: Seq<SpecSymbol>) -> Seq<Seq<char>> {
    symbols.map_values(|s: SpecSymbol| s.name)
}

/// A string-table byte blob: one NUL, then every name NUL-terminated.
pub open spec fn spec_string_table(names: Seq<Seq<char>>) -> Seq<u8> {
    seq![0u8] + spec_names_concat(names)
}

/// Content of the `.shstrtab` section: every section name, NUL-terminated,
/// after one leading NUL.
pub fn section_names_bytes(sections: &Vec<Section>) -> (r: Vec<u8>)
    ensures
        r@ == spec_string_table(spec_section_names(sections.deep_view())),
{
    let ghost names = spec_section_names(sections.deep_view());
    let mut out: Vec<u8> = Vec::new();
    out.push(0);
    proof {
        assert(names.subrange(0, 0) =~= Seq::<Seq<char>>::empty());
        assert(out@ =~= seq![0u8] + spec_names_concat(names.subrange(0, 0)));
    }
    let mut i: usize = 0;
    while i < sections.len()
        invariant
            0 <= i <= sections@.len(),
            names == spec_section_names(sections.deep_view()),
            names.len() == sections@.len(),
            out@ == seq![0u8] + spec_names_concat(names.subrange(0, i as int)),
        decreases sections@.len() - i,
    {
        push_str_utf8(&mut out, sections[i].name.as_str());
        out.push(0);
        proof {
            assert(names.subrange(0, i as int).push(names[i as int]) =~= names.subrange(
                0,
                i + 1,
            ));
            lemma_names_concat_snoc(names.subrange(0, i as int), names[i as int]);
            assert(out@ =~= seq![0u8] + spec_names_concat(names.subrange(0, i + 1)));
        }
        i = i + 1;
    }
    proof {
        assert(names.subrange(0, names.len() as int) =~= names);
    }
    out
}

/// Content of the `.strtab` section: every symbol name, NUL-terminated,
/// after one leading NUL.
pub fn string_bytes(symbols: &Vec<Symbol>) -> (r: Vec<u8>)
    ensures
        r@ == spec_string_table(spec_symbol_names(symbols.deep_view())),
{
    let ghost names = spec_symbol_names(symbols.deep_view());
    let mut out: Vec<u8> = Vec::new();
    out.push(0);
    proof {
        assert(names.subrange(0, 0) =~= Seq::<Seq<char>>::empty());
        assert(out@ =~= seq![0u8] + spec_names_concat(names.subrange(0, 0)));
    }
    let mut i: usize = 0;
    while i < symbols.len()
        invariant
            0 <= i <= symbols@.len(),
            names == spec_symbol_names(symbols.deep_view()),
            names.len() == symbols@.len(),
            out@ == seq![0u8] + spec_names_concat(names.subrange(0, i as int)),
        decreases symbols@.len() - i,
    {
        push_str_utf8(&mut out, symbols[i].name.as_str());
        out.push(0);
        proof {
            assert(names.subrange(0, i as int).push(names[i as int]) =~= names.subrange(
                0,
                i + 1,
            ));
            lemma_names_concat_snoc(names.subrange(0, i as int), names[i as int]);
            assert(out@ =~= seq![0u8] + spec_names_concat(names.subrange(0, i + 1)));
        }
        i = i + 1;
    }
    proof {
        assert(names.subrange(0, names.len() as int) =~= names);
    }
    out
}

// ---------------------------------------------------------------------------
// Symbol table.
// ---------------------------------------------------------------------------
/// Total byte length of the names in a string table, each counted with its
/// NUL terminator.
pub open spec fn spec_names_len(names: Seq<Seq<char>>) -> int
    decreases names.len(),
{
    if names.len() == 0 {
        0
    } else {
        encode_utf8(names[0]).len() + 1 + spec_names_len(names.drop_first())
    }
}

/// `spec_names_concat` has exactly `spec_names_len` bytes.
pub proof fn lemma_names_concat_len(names: Seq<Seq<char>>)
    ensures
        spec_names_concat(names).len() == spec_names_len(names),
        spec_names_len(names) >= 0,
    decreases names.len(),
{
    if names.len() > 0 {
        lemma_names_concat_len(names.drop_first());
    }
}

/// Appending one name adds its byte length plus one to the sum.
pub proof fn lemma_names_len_snoc(names: Seq<Seq<char>>, n: Seq<char>)
    ensures
        spec_names_len(names.push(n)) == spec_names_len(names) + encode_utf8(n).len() + 1,
    decreases names.len(),
{
    if names.len() == 0 {
        assert(names.push(n).drop_first() =~= names);
    } else {
        assert(names.push(n).drop_first() =~= names.drop_first().push(n));
        lemma_names_len_snoc(names.drop_first(), n);
    }
}

/// Name sums only grow as names are appended.
pub proof fn lemma_names_len_prefix(names: Seq<Seq<char>>, i: int)
    requires
        0 <= i <= names.len(),
    ensures
        spec_names_len(names.subrange(0, i)) <= spec_names_len(names),
        spec_names_len(names.subrange(0, i)) >= 0,
    decreases i, names.len(),
{
    if i == 0 {
        assert(names.subrange(0, 0) =~= Seq::<Seq<char>>::empty());
        lemma_names_concat_len(names);
    } else {
        assert(names.subrange(0, i).drop_first() =~= names.drop_first().subrange(0, i - 1));
        lemma_names_len_prefix(names.drop_first(), i - 1);
        lemma_names_concat_len(names.subrange(0, i));
    }
}

/// One 24-byte symbol-table entry: the name's offset in `.strtab`, type and
/// binding, visibility, defining section index, value and size.
pub open spec fn spec_symbol_entry(sym: SpecSymbol, name_off: u32) -> Seq<u8> {
    spec_u32_to_le_bytes(name_off) + seq![sym.typ_and_binding] + seq![sym.visibility]
        + spec_u16_to_le_bytes(sym.section) + spec_u64_to_le_bytes(sym.value)
        + spec_u64_to_le_bytes(sym.size)
}

/// All symbol entries in order; each name offset is one past the previous
/// name's NUL terminator, starting right after the leading NUL.
pub open spec fn spec_symtab_entries(symbols: Seq<SpecSymbol>, name_off: int) -> Seq<u8>
    decreases symbols.len(),
{
    if symbols.len() == 0 {
        Seq::<u8>::empty()
    } else {
        spec_symbol_entry(symbols[0], name_off as u32) + spec_symtab_entries(
            symbols.drop_first(),
            name_off + encode_utf8(symbols[0].name).len() + 1,
        )
    }
}

/// Content of the `.symtab` section: the reserved all-zero entry, then one
/// 24-byte entry per symbol.
pub open spec fn spec_symtab_bytes(symbols: Seq<SpecSymbol>) -> Seq<u8> {
    spec_zeros(24) + spec_symtab_entries(symbols, 1)
}

/// Serializes the symbol table, as [`spec_symtab_bytes`] describes it.
pub fn symbol_bytes(symbols: &Vec<Symbol>) -> (r: Vec<u8>)
    requires
        1 + spec_names_len(spec_symbol_names(symbols.deep_view())) <= 0xFFFF_FFFF,
    ensures
        r@ == spec_symtab_bytes(symbols.deep_view()),
{
    let ghost syms = symbols.deep_view();
    let ghost names = spec_symbol_names(syms);
    let mut out: Vec<u8> = Vec::new();
    push_zeros(&mut out, 24);
    let mut offset: u32 = 1;
    let mut i: usize = 0;
    proof {
        assert(syms.subrange(0, syms.len() as int) =~= syms);
        assert(names.subrange(0, 0) =~= Seq::<Seq<char>>::empty());
        assert(spec_symtab_bytes(syms) == out@ + spec_symtab_entries(
            syms.subrange(0, syms.len() as int),
            1,
        ));
    }
    while i < symbols.len()
        invariant
            0 <= i <= syms.len(),
            syms == symbols.deep_view(),
            names == spec_symbol_names(syms),
            names.len() == syms.len(),
            offset as int == 1 + spec_names_len(names.subrange(0, i as int)),
            spec_symtab_bytes(syms) == out@ + spec_symtab_entries(
                syms.subrange(i as int, syms.len() as int),
                offset as int,
            ),
        decreases syms.len() - i,
    {
        let ghost rem = syms.subrange(i as int, syms.len() as int);
        proof {
            assert(rem[0] == syms[i as int]);
            assert(rem.drop_first() =~= syms.subrange(i + 1, syms.len() as int));
            assert(names.subrange(0, i as int).push(names[i as int]) =~= names.subrange(
                0,
                i + 1,
            ));
            lemma_names_concat_len(names.subrange(0, i + 1));
            lemma_names_len_prefix(names, i + 1);
        }
        push_u32_le(&mut out, offset);
        out.push(symbols[i].typ_and_binding);
        out.push(symbols[i].visibility);
        push_u16_le(&mut out, symbols[i].section);
        push_u64_le(&mut out, symbols[i].value);
        push_u64_le(&mut out, symbols[i].size);
        proof {
            assert(spec_symtab_bytes(syms) == out@ + spec_symtab_entries(
                rem.drop_first(),
                offset as int + encode_utf8(rem[0].name).len() + 1,
            ));
        }
        let name_len: usize = symbols[i].name.as_str().len();
        proof {
            assert(names[i as int] == syms[i as int].name);
            lemma_names_len_snoc(names.subrange(0, i as int), names[i as int]);
            lemma_names_len_prefix(names, i as int);
            lemma_names_len_prefix(names, i + 1);
            assert(encode_utf8(names[i as int]).len() + 1 <= spec_names_len(
                names.subrange(0, i + 1),
            ));
            assert(encode_utf8(names[i as int]).len() < 0xFFFF_FFFF);
            assert(name_len == encode_utf8(names[i as int]).len());
            assert(offset as int + name_len + 1 == 1 + spec_names_len(names.subrange(0, i + 1)));
        }
        offset = offset + (name_len as u32) + 1;
        i = i + 1;
    }
    proof {
        assert(syms.subrange(syms.len() as int, syms.len() as int) =~= Seq::<SpecSymbol>::empty());
        assert(out@ + Seq::<u8>::empty() =~= out@);
    }
    out
}

// ---------------------------------------------------------------------------
// Relocation table.
// ---------------------------------------------------------------------------
/// Index of the first section with the given name, or `-1` when none has
/// it.
pub open spec fn spec_find_name(names: Seq<Seq<char>>, target: Seq<char>) -> int
    decreases names.len(),
{
    if names.len() == 0 {
        -1
    } else if names[0] == target {
        0
    } else if spec_find_name(names.drop_first(), target) < 0 {
        -1
    } else {
        spec_find_name(names.drop_first(), target) + 1
    }
}

/// `spec_find_name` returns the index of the first match.
pub proof fn lemma_find_name_at(names: Seq<Seq<char>>, target: Seq<char>, i: int)
    requires
        0 <= i < names.len(),
        names[i] == target,
        forall|j: int| 0 <= j < i ==> names[j] != target,
    ensures
        spec_find_name(names, target) == i,
    decreases i,
{
    if i > 0 {
        lemma_find_name_at(names.drop_first(), target, i - 1);
    }
}

/// `spec_find_name` fails exactly when no name matches.
pub proof fn lemma_find_name_none(names: Seq<Seq<char>>, target: Seq<char>)
    requires
        forall|j: int| 0 <= j < names.len() ==> names[j] != target,
    ensures
        spec_find_name(names, target) == -1,
    decreases names.len(),
{
    if names.len() > 0 {
        lemma_find_name_none(names.drop_first(), target);
    }
}

/// All 24-byte relocation entries in order: the placeholder's location, the
/// relocation-type code, the symbol-table index of the target section's
/// SECTION symbol, and the addend.  A target section name with no object
/// section fails with `UnknownSectionReference`.
pub open spec fn spec_rela_bytes(relocs: Seq<SpecResolved>, names: Seq<Seq<char>>) -> Result<
    Seq<u8>,
    SpecError,
>
    decreases relocs.len(),
{
    if relocs.len() == 0 {
        Ok(Seq::<u8>::empty())
    } else {
        let i = spec_find_name(names, relocs[0].section);
        if i < 0 {
            Err(SpecError::UnknownSectionReference(relocs[0].section))
        } else {
            match spec_rela_bytes(relocs.drop_first(), names) {
                Err(e) => Err(e),
                Ok(rest) => Ok(
                    spec_u64_to_le_bytes(relocs[0].location) + spec_u32_to_le_bytes(
                        relocs[0].typ.spec_code(),
                    ) + spec_u32_to_le_bytes((i + 1) as u32) + spec_u64_to_le_bytes(
                        relocs[0].addend,
                    ) + rest,
                ),
            }
        }
    }
}

/// Index of the first section with the given name.
fn find_section_index(sections: &Vec<Section>, target: &str) -> (r: Option<usize>)
    ensures
        match r {
            Some(i) => i < sections@.len() && spec_find_name(
                spec_section_names(sections.deep_view()),
                target@,
            ) == i as int,
            None => spec_find_name(spec_section_names(sections.deep_view()), target@) == -1,
        },
{
    let ghost names = spec_section_names(sections.deep_view());
    let mut i: usize = 0;
    while i < sections.len()
        invariant
            0 <= i <= sections@.len(),
            names == spec_section_names(sections.deep_view()),
            names.len() == sections@.len(),
            forall|j: int| 0 <= j < i ==> names[j] != target@,
        decreases sections@.len() - i,
    {
        if str_eq(sections[i].name.as_str(), target) {
            proof {
                lemma_find_name_at(names, target@, i as int);
            }
            return Some(i);
        }
        i = i + 1;
    }
    proof {
        lemma_find_name_none(names, target@);
    }
    None
}

/// Serializes the relocation table against the given object sections, as
/// [`spec_rela_bytes`] describes it.
pub fn relocation_bytes(relocations: &Vec<crate::ResolvedRelocation>, sections: &Vec<Section>) -> (r:
    Result<Vec<u8>, AsmError>)
    requires
        sections@.len() <= 0xFFFF,
    ensures
        match r {
            Ok(v) => spec_rela_bytes(
                relocations.deep_view(),
                spec_section_names(sections.deep_view()),
            ) == Ok::<Seq<u8>, SpecError>(v@),
            Err(e) => spec_rela_bytes(
                relocations.deep_view(),
                spec_section_names(sections.deep_view()),
            ) == Err::<Seq<u8>, SpecError>(e@),
        },
{
    let ghost relocs = relocations.deep_view();
    let ghost names = spec_section_names(sections.deep_view());
    let mut out: Vec<u8> = Vec::new();
    let mut i: usize = 0;
    proof {
        assert(relocs.subrange(0, relocs.len() as int) =~= relocs);
        match spec_rela_bytes(relocs, names) {
            Ok(v) => {
                assert(out@ + v =~= v);
            },
            Err(_) => {},
        }
    }
    while i < relocations.len()
        invariant
            0 <= i <= relocs.len(),
            relocs == relocations.deep_view(),
            names == spec_section_names(sections.deep_view()),
            sections@.len() <= 0xFFFF,
            spec_rela_bytes(relocs, names) == (match spec_rela_bytes(
                relocs.subrange(i as int, relocs.len() as int),
                names,
            ) {
                Ok(rest) => Ok::<Seq<u8>, SpecError>(out@ + rest),
                Err(e) => Err::<Seq<u8>, SpecError>(e),
            }),
        decreases relocs.len() - i,
    {
        let ghost rem = relocs.subrange(i as int, relocs.len() as int);
        proof {
            assert(rem[0] == relocs[i as int]);
            assert(rem.drop_first() =~= relocs.subrange(i + 1, relocs.len() as int));
        }
        let ghost out0 = out@;
        match find_section_index(sections, relocations[i].section.as_str()) {
            None => {
                return Err(AsmError::UnknownSectionReference(relocations[i].section.clone()));
            },
            Some(idx) => {
                push_u64_le(&mut out, relocations[i].location);
                push_u32_le(&mut out, relocations[i].typ.code());
                push_u32_le(&mut out, (idx as u32) + 1);
                push_u64_le(&mut out, relocations[i].addend);
                proof {
                    match spec_rela_bytes(rem.drop_first(), names) {
                        Ok(rest) => {
                            assert(out@ =~= out0 + (spec_u64_to_le_bytes(rem[0].location)
                                + spec_u32_to_le_bytes(rem[0].typ.spec_code())
                                + spec_u32_to_le_bytes((idx + 1) as u32) + spec_u64_to_le_bytes(
                                rem[0].addend,
                            )));
                            assert(out0 + (spec_u64_to_le_bytes(rem[0].location)
                                + spec_u32_to_le_bytes(rem[0].typ.spec_code())
                                + spec_u32_to_le_bytes((idx + 1) as u32) + spec_u64_to_le_bytes(
                                rem[0].addend,
                            ) + rest) =~= out@ + rest);
                        },
                        Err(_) => {},
                    }
                }
            },
        }
        i = i + 1;
    }
    proof {
        assert(relocs.subrange(relocs.len() as int, relocs.len() as int)
            =~= Seq::<SpecResolved>::empty());
        match spec_rela_bytes(relocs, names) {
            Ok(_) => {
                assert(out@ + Seq::<u8>::empty() =~= out@);
            },
            Err(_) => {},
        }
    }
    Ok(out)
}

// ---------------------------------------------------------------------------
// The object file as one function of the assembly result.
// ---------------------------------------------------------------------------
/// The names of the assembled sections, in order.
pub open spec fn spec_asm_names(sections: Seq<SpecSection>) -> Seq<Seq<char>> {
    sections.map_values(|s: SpecSection| s.name)
}

/// One PROGBITS object section per assembled section: writable and
/// executable by default, read-only for a section literally named
/// `.rodata`.
pub open spec fn spec_prog_sections(sections: Seq<SpecSection>) -> Seq<SpecObjSection> {
    sections.map_values(
        |s: SpecSection|
            SpecObjSection {
                name: s.name,
                typ: 1u32,
                flags: if s.name == ".rodata"@ {
                    2u64
                } else {
                    6u64
                },
                content: s.content,
                link: 0u32,
                info: 0u32,
                entry_size: 0u64,
            },
    )
}

/// One local SECTION symbol per assembled section, in section order; this
/// is the emitter's whole symbol policy.
pub open spec fn spec_symbols_of(sections: Seq<SpecSection>) -> Seq<SpecSymbol> {
    Seq::new(
        sections.len(),
        |i: int|
            SpecSymbol {
                name: sections[i].name,
                typ_and_binding: 3u8,
                visibility: 0u8,
                section: (i + 1) as u16,
                value: 0u64,
                size: 0u64,
            },
    )
}

/// `link` of `.symtab`: the header-table index of the first section named
/// `.strtab` in the list as it stood when `.symtab` was built.
pub open spec fn spec_symtab_link(a: SpecResult) -> u32 {
    (spec_find_name(spec_asm_names(a.sections) + seq![".strtab"@], ".strtab"@) + 1) as u32
}

/// `info` of `.symtab`: one greater than the index of the last local
/// symbol; the null entry and the section symbols are all local.
pub open spec fn spec_symtab_info(a: SpecResult) -> u32 {
    (a.sections.len() + 1) as u32
}

/// The section names `.rela.text` entries are resolved against: every
/// assembled section, then `.strtab` and `.symtab`.
pub open spec fn spec_rela_names(a: SpecResult) -> Seq<Seq<char>> {
    spec_asm_names(a.sections) + seq![".strtab"@, ".symtab"@]
}

/// `link` of `.rela.text`: the header-table index of the first section
/// named `.symtab`.
pub open spec fn spec_rela_link(a: SpecResult) -> u32 {
    (spec_find_name(spec_rela_names(a), ".symtab"@) + 1) as u32
}

/// `info` of `.rela.text`: the header-table index of the first section
/// named `.text`, or 0 when no section has that name.
pub open spec fn spec_rela_info(a: SpecResult) -> u32 {
    let f = spec_find_name(spec_rela_names(a), ".text"@);
    if f < 0 {
        0u32
    } else {
        (f + 1) as u32
    }
}

/// The names of every object section of the file, synthetic ones included.
pub open spec fn spec_all_names(a: SpecResult) -> Seq<Seq<char>> {
    spec_asm_names(a.sections) + seq![".strtab"@, ".symtab"@, ".rela.text"@, ".shstrtab"@]
}

/// All object sections of the file, in their fixed order: the assembled
/// sections, then `.strtab`, `.symtab`, `.rela.text` and `.shstrtab`.
pub open spec fn spec_obj_sections(a: SpecResult, rela_content: Seq<u8>) -> Seq<SpecObjSection> {
    let symbols = spec_symbols_of(a.sections);
    spec_prog_sections(a.sections) + seq![
        SpecObjSection {
            name: ".strtab"@,
            typ: 3u32,
            flags: 0u64,
            content: spec_string_table(spec_symbol_names(symbols)),
            link: 0u32,
            info: 0u32,
            entry_size: 0u64,
        },
        SpecObjSection {
            name: ".symtab"@,
            typ: 2u32,
            flags: 0u64,
            content: spec_symtab_bytes(symbols),
            link: spec_symtab_link(a),
            info: spec_symtab_info(a),
            entry_size: 24u64,
        },
        SpecObjSection {
            name: ".rela.text"@,
            typ: 4u32,
            flags: 0u64,
            content: rela_content,
            link: spec_rela_link(a),
            info: spec_rela_info(a),
            entry_size: 24u64,
        },
        SpecObjSection {
            name: ".shstrtab"@,
            typ: 3u32,
            flags: 0u64,
            content: spec_string_table(spec_all_names(a)),
            link: 0u32,
            info: 0u32,
            entry_size: 0u64,
        },
    ]
}

/// The content blob: every object section's content, concatenated in
/// declaration order.
pub open spec fn spec_blob(objs: Seq<SpecObjSection>) -> Seq<u8>
    decreases objs.len(),
{
    if objs.len() == 0 {
        Seq::<u8>::empty()
    } else {
        objs[0].content + spec_blob(objs.drop_first())
    }
}

/// The blob of a concatenation is the concatenation of the blobs.
pub proof fn lemma_blob_concat(x: Seq<SpecObjSection>, y: Seq<SpecObjSection>)
    ensures
        spec_blob(x + y) == spec_blob(x) + spec_blob(y),
    decreases x.len(),
{
    if x.len() == 0 {
        assert(x + y =~= y);
        assert(spec_blob(x) + spec_blob(y) =~= spec_blob(y));
    } else {
        assert((x + y).drop_first() =~= x.drop_first() + y);
        lemma_blob_concat(x.drop_first(), y);
        assert(spec_blob(x + y) =~= spec_blob(x) + spec_blob(y));
    }
}

/// Name sums add over concatenation.
pub proof fn lemma_names_len_concat(x: Seq<Seq<char>>, y: Seq<Seq<char>>)
    ensures
        spec_names_len(x + y) == spec_names_len(x) + spec_names_len(y),
    decreases x.len(),
{
    if x.len() == 0 {
        assert(x + y =~= y);
    } else {
        assert((x + y).drop_first() =~= x.drop_first() + y);
        lemma_names_len_concat(x.drop_first(), y);
    }
}

/// The 16-byte ELF identification region: magic, 64-bit class,
/// little-endian data, version 1, System V ABI, padding.
pub open spec fn spec_ident() -> Seq<u8> {
    seq![
        0x7fu8,
        0x45u8,
        0x4cu8,
        0x46u8,
        2u8,
        1u8,
        1u8,
        0u8,
        0u8,
        0u8,
        0u8,
        0u8,
        0u8,
        0u8,
        0u8,
        0u8,
    ]
}

/// The 64-byte ELF header: relocatable object for x86-64, no program
/// headers, the section header table right after the content blob, and the
/// section-name table as the last section.
pub open spec fn spec_header(objs: Seq<SpecObjSection>) -> Seq<u8> {
    spec_ident() + spec_u16_to_le_bytes(1u16) + spec_u16_to_le_bytes(62u16) + spec_u32_to_le_bytes(
        1u32,
    ) + spec_u64_to_le_bytes(0u64) + spec_u64_to_le_bytes(0u64) + spec_u64_to_le_bytes(
        (64 + spec_blob(objs).len()) as u64,
    ) + spec_u32_to_le_bytes(0u32) + spec_u16_to_le_bytes(64u16) + spec_u16_to_le_bytes(0u16)
        + spec_u16_to_le_bytes(0u16) + spec_u16_to_le_bytes(64u16) + spec_u16_to_le_bytes(
        (objs.len() + 1) as u16,
    ) + spec_u16_to_le_bytes(objs.len() as u16)
}

/// One 64-byte section header entry.
pub open spec fn spec_sht_entry(sec: SpecObjSection, name_off: u32, file_off: u64) -> Seq<u8> {
    spec_u32_to_le_bytes(name_off) + spec_u32_to_le_bytes(sec.typ) + spec_u64_to_le_bytes(sec.flags)
        + spec_u64_to_le_bytes(0u64) + spec_u64_to_le_bytes(file_off) + spec_u64_to_le_bytes(
        sec.content.len() as u64,
    ) + spec_u32_to_le_bytes(sec.link) + spec_u32_to_le_bytes(sec.info) + spec_u64_to_le_bytes(
        spec_alignment_from_section_name(sec.name),
    ) + spec_u64_to_le_bytes(sec.entry_size)
}

/// All section header entries in order, with running name-string and file
/// offsets.
pub open spec fn spec_sht_entries(objs: Seq<SpecObjSection>, name_off: int, file_off: int) -> Seq<
    u8,
>
    decreases objs.len(),
{
    if objs.len() == 0 {
        Seq::<u8>::empty()
    } else {
        spec_sht_entry(objs[0], name_off as u32, file_off as u64) + spec_sht_entries(
            objs.drop_first(),
            name_off + encode_utf8(objs[0].name).len() + 1,
            file_off + objs[0].content.len(),
        )
    }
}

/// The section header table: the reserved all-zero entry, then one entry
/// per object section.  Name offsets start after the leading NUL of
/// `.shstrtab`; file offsets after the 64-byte header.
pub open spec fn spec_sht(objs: Seq<SpecObjSection>) -> Seq<u8> {
    spec_zeros(64) + spec_sht_entries(objs, 1, 64)
}

/// The whole object file: header, content blob, section header table.
pub open spec fn spec_create_binary(a: SpecResult) -> Result<Seq<u8>, SpecError> {
    match spec_rela_bytes(a.relocations, spec_rela_names(a)) {
        Err(e) => Err(e),
        Ok(rc) => {
            let objs = spec_obj_sections(a, rc);
            Ok(spec_header(objs) + spec_blob(objs) + spec_sht(objs))
        },
    }
}

/// Machine and format limits an assembly result must respect for the
/// fixed-width ELF fields to hold it: the section-header count and
/// name-table index are 16-bit, name-string offsets are 32-bit, file
/// offsets are 64-bit, and every relocation entry takes 24 bytes.
pub open spec fn emit_wf(a: SpecResult) -> bool {
    &&& a.sections.len() + 5 <= 0xFFFF
    &&& spec_names_len(spec_asm_names(a.sections)) <= 0x1000_0000
    &&& spec_blob(spec_prog_sections(a.sections)).len() <= 0x1000_0000_0000
    &&& a.relocations.len() <= 0x1000_0000
}

/// Every symbol-table entry takes 24 bytes.
proof fn lemma_symtab_entries_len(symbols: Seq<SpecSymbol>, name_off: int)
    ensures
        spec_symtab_entries(symbols, name_off).len() == 24 * symbols.len(),
    decreases symbols.len(),
{
    lemma_auto_spec_u16_to_from_le_bytes();
    lemma_auto_spec_u32_to_from_le_bytes();
    lemma_auto_spec_u64_to_from_le_bytes();
    if symbols.len() > 0 {
        lemma_symtab_entries_len(
            symbols.drop_first(),
            name_off + encode_utf8(symbols[0].name).len() + 1,
        );
    }
}

/// Every relocation-table entry takes 24 bytes.
proof fn lemma_rela_len(relocs: Seq<SpecResolved>, names: Seq<Seq<char>>)
    ensures
        match spec_rela_bytes(relocs, names) {
            Ok(v) => v.len() == 24 * relocs.len(),
            Err(_) => true,
        },
    decreases relocs.len(),
{
    lemma_auto_spec_u32_to_from_le_bytes();
    lemma_auto_spec_u64_to_from_le_bytes();
    if relocs.len() > 0 {
        lemma_rela_len(relocs.drop_first(), names);
    }
}

/// Byte lengths of the four synthetic section names.
proof fn lemma_synth_name_lens()
    ensures
        encode_utf8(".strtab"@).len() == 7,
        encode_utf8(".symtab"@).len() == 7,
        encode_utf8(".rela.text"@).len() == 10,
        encode_utf8(".shstrtab"@).len() == 9,
{
    reveal_strlit(".strtab");
    reveal_strlit(".symtab");
    reveal_strlit(".rela.text");
    reveal_strlit(".shstrtab");
    assert(vstd::utf8::is_ascii_chars(".strtab"@));
    assert(vstd::utf8::is_ascii_chars(".symtab"@));
    assert(vstd::utf8::is_ascii_chars(".rela.text"@));
    assert(vstd::utf8::is_ascii_chars(".shstrtab"@));
    vstd::utf8::is_ascii_chars_encode_utf8(".strtab"@);
    vstd::utf8::is_ascii_chars_encode_utf8(".symtab"@);
    vstd::utf8::is_ascii_chars_encode_utf8(".rela.text"@);
    vstd::utf8::is_ascii_chars_encode_utf8(".shstrtab"@);
}

/// Under [`emit_wf`], the whole file's sizes stay inside the fixed-width
/// fields: the blob is far below 2^64 and the name table far below 2^32.
proof fn lemma_emit_bounds(a: SpecResult, rc: Seq<u8>)
    requires
        emit_wf(a),
        rc.len() == 24 * a.relocations.len(),
    ensures
        spec_obj_sections(a, rc).len() == a.sections.len() + 4,
        spec_section_names(spec_obj_sections(a, rc)) =~= spec_all_names(a),
        spec_blob(spec_obj_sections(a, rc)).len() <= 0x3000_0000_0000,
        spec_names_len(spec_all_names(a)) <= 0x1000_0000 + 37,
{
    let objs = spec_obj_sections(a, rc);
    let prog = spec_prog_sections(a.sections);
    let synth = objs.subrange(prog.len() as int, objs.len() as int);
    let symbols = spec_symbols_of(a.sections);
    assert(objs =~= prog + synth);
    lemma_blob_concat(prog, synth);
    lemma_synth_name_lens();
    // Names of the whole file.
    assert(spec_section_names(objs) =~= spec_all_names(a)) by {
        assert forall|i: int| 0 <= i < a.sections.len() implies spec_section_names(objs)[i]
            == spec_asm_names(a.sections)[i] by {
            assert(objs[i] == prog[i]);
        }
    }
    // Symbol names are exactly the assembled section names.
    assert(spec_symbol_names(symbols) =~= spec_asm_names(a.sections));
    lemma_names_len_concat(
        spec_asm_names(a.sections),
        seq![".strtab"@, ".symtab"@, ".rela.text"@, ".shstrtab"@],
    );
    assert(spec_names_len(seq![".strtab"@, ".symtab"@, ".rela.text"@, ".shstrtab"@]) == 37) by {
        reveal_with_fuel(spec_names_len, 6);
        assert(seq![".strtab"@, ".symtab"@, ".rela.text"@, ".shstrtab"@].drop_first()
            =~= seq![".symtab"@, ".rela.text"@, ".shstrtab"@]);
        assert(seq![".symtab"@, ".rela.text"@, ".shstrtab"@].drop_first()
            =~= seq![".rela.text"@, ".shstrtab"@]);
        assert(seq![".rela.text"@, ".shstrtab"@].drop_first() =~= seq![".shstrtab"@]);
        assert(seq![".shstrtab"@].drop_first() =~= Seq::<Seq<char>>::empty());
    }
    // Blob length of the four synthetic sections.
    lemma_names_concat_len(spec_symbol_names(symbols));
    lemma_names_concat_len(spec_all_names(a));
    lemma_symtab_entries_len(symbols, 1);
    assert(spec_blob(synth).len() == synth[0].content.len() + synth[1].content.len()
        + synth[2].content.len() + synth[3].content.len()) by {
        reveal_with_fuel(spec_blob, 6);
        assert(synth.drop_first().drop_first().drop_first().drop_first()
            =~= Seq::<SpecObjSection>::empty());
    }
}

/// Appending one section appends its content to the blob.
pub proof fn lemma_blob_snoc(objs: Seq<SpecObjSection>, s: SpecObjSection)
    ensures
        spec_blob(objs.push(s)) == spec_blob(objs) + s.content,
    decreases objs.len(),
{
    if objs.len() == 0 {
        assert(objs.push(s).drop_first() =~= objs);
        assert(spec_blob(objs.push(s)) =~= spec_blob(objs) + s.content);
    } else {
        assert(objs.push(s).drop_first() =~= objs.drop_first().push(s));
        lemma_blob_snoc(objs.drop_first(), s);
        assert(spec_blob(objs.push(s)) =~= spec_blob(objs) + s.content);
    }
}

/// A failed name search means no name matches.
pub proof fn lemma_find_name_missing(names: Seq<Seq<char>>, target: Seq<char>)
    requires
        spec_find_name(names, target) == -1,
    ensures
        forall|j: int| 0 <= j < names.len() ==> names[j] != target,
    decreases names.len(),
{
    if names.len() > 0 {
        lemma_find_name_missing(names.drop_first(), target);
        assert forall|j: int| 0 <= j < names.len() implies names[j] != target by {
            if j > 0 {
                assert(names.drop_first()[j - 1] == names[j]);
            }
        }
    }
}

/// Builds the file's object section list: the assembled sections, then
/// `.strtab`, `.symtab`, `.rela.text` and `.shstrtab`, with their links,
/// info fields and contents.
fn build_object_sections(asecs: Vec<AssemblySection>, arelocs: &Vec<ResolvedRelocation>) -> (r:
    Result<Vec<Section>, AsmError>)
    requires
        emit_wf(SpecResult { sections: asecs.deep_view(), relocations: arelocs.deep_view() }),
    ensures
        ({
            let a = SpecResult { sections: asecs.deep_view(), relocations: arelocs.deep_view() };
            match spec_rela_bytes(a.relocations, spec_rela_names(a)) {
                Ok(rc) => match r {
                    Ok(v) => v.deep_view() == spec_obj_sections(a, rc),
                    Err(_) => false,
                },
                Err(e) => match r {
                    Ok(_) => false,
                    Err(e2) => e2@ == e,
                },
            }
        }),
{
    let ghost a = SpecResult { sections: asecs.deep_view(), relocations: arelocs.deep_view() };
    let ghost prog = spec_prog_sections(a.sections);
    let ghost spec_syms = spec_symbols_of(a.sections);
    // One PROGBITS section and one SECTION symbol per assembled section.
    let mut src = asecs;
    let mut sections: Vec<Section> = Vec::new();
    let mut symbols: Vec<Symbol> = Vec::new();
    let mut i: usize = 0;
    proof {
        assert(src.deep_view() =~= a.sections.subrange(0, a.sections.len() as int));
        assert(sections.deep_view() =~= prog.subrange(0, 0));
        assert(symbols.deep_view() =~= spec_syms.subrange(0, 0));
    }
    while src.len() > 0
        invariant
            0 <= i <= a.sections.len(),
            i + src@.len() == a.sections.len(),
            src.deep_view() == a.sections.subrange(i as int, a.sections.len() as int),
            sections.deep_view() == prog.subrange(0, i as int),
            symbols.deep_view() == spec_syms.subrange(0, i as int),
        decreases src@.len(),
    {
        let ghost sdv0 = src.deep_view();
        let ghost srcv0 = src@;
        let s = src.remove(0);
        proof {
            assert(s@ == sdv0[0]);
            assert(sdv0[0] == a.sections[i as int]);
            assert forall|j: int| 0 <= j < src@.len() implies src.deep_view()[j] == a.sections[i
                + 1 + j] by {
                assert(src@[j] == srcv0[j + 1]);
                assert(src.deep_view()[j] == src@[j].deep_view());
                assert(sdv0[j + 1] == srcv0[j + 1].deep_view());
            }
            assert(src.deep_view() =~= a.sections.subrange(i + 1, a.sections.len() as int));
        }
        let is_ro = str_eq(s.name.as_str(), ".rodata");
        let flags: u64 = if is_ro {
            2
        } else {
            6
        };
        let sym = Symbol {
            name: s.name.clone(),
            typ_and_binding: 3,
            visibility: 0,
            section: (i as u16) + 1,
            value: 0,
            size: 0,
        };
        let ghost symv = sym@;
        symbols.push(sym);
        let sec = Section {
            name: s.name,
            typ: 1,
            flags: flags,
            content: s.content,
            link: 0,
            info: 0,
            entry_size: 0,
        };
        let ghost secv = sec@;
        sections.push(sec);
        proof {
            assert(symv == spec_syms[i as int]);
            assert(secv == prog[i as int]);
            assert(sections.deep_view() =~= prog.subrange(0, i + 1));
            assert(symbols.deep_view() =~= spec_syms.subrange(0, i + 1));
        }
        i = i + 1;
    }
    let ns = sections.len();
    proof {
        assert(prog.subrange(0, prog.len() as int) =~= prog);
        assert(spec_syms.subrange(0, spec_syms.len() as int) =~= spec_syms);
        assert(sections.deep_view() == prog);
        assert(symbols.deep_view() == spec_syms);
    }
    // `.strtab`: the symbol names.
    let strtab_content = string_bytes(&symbols);
    let strtab = Section {
        name: ".strtab".to_owned(),
        typ: 3,
        flags: 0,
        content: strtab_content,
        link: 0,
        info: 0,
        entry_size: 0,
    };
    let ghost strtabv = strtab@;
    sections.push(strtab);
    let ghost dv_str = sections.deep_view();
    // `.symtab`: the null entry plus one entry per symbol; its link names
    // the string table, its info counts the local symbols.
    let symtab_link_idx: usize;
    match find_section_index(&sections, ".strtab") {
        Some(j) => {
            symtab_link_idx = j;
        },
        None => {
            proof {
                assert(spec_section_names(dv_str)[ns as int] == ".strtab"@);
                lemma_find_name_missing(spec_section_names(dv_str), ".strtab"@);
                assert(false);
            }
            return Err(AsmError::NoActiveSection);
        },
    }
    proof {
        assert(spec_section_names(dv_str) =~= spec_asm_names(a.sections) + seq![".strtab"@]) by {
            assert forall|k: int| 0 <= k < ns implies spec_section_names(dv_str)[k]
                == spec_asm_names(a.sections)[k] by {
                assert(dv_str[k] == prog[k]);
            }
        }
        assert(spec_symbol_names(symbols.deep_view()) =~= spec_asm_names(a.sections));
        lemma_names_len_concat(spec_asm_names(a.sections), seq![".strtab"@]);
    }
    let symtab_content = symbol_bytes(&symbols);
    let symtab = Section {
        name: ".symtab".to_owned(),
        typ: 2,
        flags: 0,
        content: symtab_content,
        link: (symtab_link_idx as u32) + 1,
        info: (ns as u32) + 1,
        entry_size: 24,
    };
    let ghost symtabv = symtab@;
    sections.push(symtab);
    let ghost dv_sym = sections.deep_view();
    proof {
        assert(spec_section_names(dv_sym) =~= spec_rela_names(a)) by {
            assert forall|k: int| 0 <= k < ns implies spec_section_names(dv_sym)[k]
                == spec_asm_names(a.sections)[k] by {
                assert(dv_sym[k] == prog[k]);
            }
        }
        assert(symtabv.link == spec_symtab_link(a));
        assert(symtabv.info == spec_symtab_info(a));
    }
    // `.rela.text`: one entry per resolved relocation; its link names the
    // symbol table, its info the first section named `.text` (0 when none
    // is).
    let rela_link_idx: usize;
    match find_section_index(&sections, ".symtab") {
        Some(j) => {
            rela_link_idx = j;
        },
        None => {
            proof {
                assert(spec_section_names(dv_sym)[ns + 1] == ".symtab"@);
                lemma_find_name_missing(spec_section_names(dv_sym), ".symtab"@);
                assert(false);
            }
            return Err(AsmError::NoActiveSection);
        },
    }
    let rela_info: u32 = match find_section_index(&sections, ".text") {
        Some(j) => (j as u32) + 1,
        None => 0,
    };
    proof {
        assert((rela_link_idx as u32) + 1 == spec_rela_link(a));
        assert(rela_info == spec_rela_info(a));
    }
    let rela_content: Vec<u8>;
    match relocation_bytes(&arelocs, &sections) {
        Ok(v) => {
            rela_content = v;
        },
        Err(e) => {
            return Err(e);
        },
    }
    let ghost rcv = rela_content@;
    proof {
        assert(spec_rela_bytes(a.relocations, spec_rela_names(a)) == Ok::<Seq<u8>, SpecError>(
            rcv,
        ));
        lemma_rela_len(a.relocations, spec_rela_names(a));
    }
    let rela = Section {
        name: ".rela.text".to_owned(),
        typ: 4,
        flags: 0,
        content: rela_content,
        link: (rela_link_idx as u32) + 1,
        info: rela_info,
        entry_size: 24,
    };
    let ghost relav = rela@;
    sections.push(rela);
    let ghost dv_rela = sections.deep_view();
    // `.shstrtab`: pushed first so that its own name is in the name list,
    // then filled with the names of every section.
    sections.push(
        Section {
            name: ".shstrtab".to_owned(),
            typ: 3,
            flags: 0,
            content: Vec::new(),
            link: 0,
            info: 0,
            entry_size: 0,
        },
    );
    let ghost dv_shstr = sections.deep_view();
    proof {
        assert(spec_section_names(dv_shstr) =~= spec_all_names(a)) by {
            assert forall|k: int| 0 <= k < ns implies spec_section_names(dv_shstr)[k]
                == spec_asm_names(a.sections)[k] by {
                assert(dv_shstr[k] == prog[k]);
            }
        }
    }
    let nb = section_names_bytes(&sections);
    let k = sections.len();
    let mut last = sections.remove(k - 1);
    last.content = nb;
    let ghost shstrv = last@;
    sections.push(last);
    let ghost objs = spec_obj_sections(a, rcv);
    proof {
        assert(sections.deep_view() =~= objs) by {
            assert(sections.deep_view().len() == ns + 4);
            assert forall|m: int| 0 <= m < ns implies sections.deep_view()[m] == objs[m] by {
                assert(sections.deep_view()[m] == dv_rela[m]);
                assert(dv_rela[m] == dv_sym[m]);
                assert(dv_sym[m] == dv_str[m]);
                assert(dv_str[m] == prog[m]);
                assert(objs[m] == prog[m]);
            }
            assert(sections.deep_view()[ns as int] == strtabv);
            assert(sections.deep_view()[ns + 1] == symtabv);
            assert(sections.deep_view()[ns + 2] == relav);
            assert(sections.deep_view()[ns + 3] == shstrv);
            assert(objs[ns as int] == strtabv);
            assert(objs[ns + 1] == symtabv);
            assert(objs[ns + 2] == relav);
            assert(objs[ns + 3] == shstrv);
        }
    }
    Ok(sections)
}

/// Serializes an object section list: the 64-byte header, every section's
/// content in declaration order, then the section header table.
#[verifier::rlimit(60)]
#[verifier::spinoff_prover]
fn serialize_object(sections: &Vec<Section>) -> (buf: Vec<u8>)
    requires
        sections@.len() + 1 <= 0xFFFF,
        spec_blob(sections.deep_view()).len() <= 0x3000_0000_0000,
        spec_names_len(spec_section_names(sections.deep_view())) <= 0x1000_0000 + 37,
    ensures
        buf@ == spec_header(sections.deep_view()) + spec_blob(sections.deep_view()) + spec_sht(
            sections.deep_view(),
        ),
{
    let ghost objs = sections.deep_view();
    let nsec = sections.len();
    // Total size of the content blob, for the header's section-header
    // offset field.
    let mut content_size: u64 = 0;
    let mut ci: usize = 0;
    proof {
        assert(objs.subrange(0, 0) =~= Seq::<SpecObjSection>::empty());
    }
    while ci < nsec
        invariant
            0 <= ci <= nsec,
            nsec == sections@.len(),
            sections.deep_view() == objs,
            content_size as int == spec_blob(objs.subrange(0, ci as int)).len(),
            spec_blob(objs).len() <= 0x3000_0000_0000,
        decreases nsec - ci,
    {
        proof {
            assert(objs.subrange(0, ci as int).push(objs[ci as int]) =~= objs.subrange(
                0,
                ci + 1,
            ));
            lemma_blob_snoc(objs.subrange(0, ci as int), objs[ci as int]);
            assert(objs =~= objs.subrange(0, ci + 1) + objs.subrange(ci + 1, objs.len() as int));
            lemma_blob_concat(objs.subrange(0, ci + 1), objs.subrange(ci + 1, objs.len() as int));
        }
        content_size = content_size + (sections[ci].content.len() as u64);
        ci = ci + 1;
    }
    proof {
        assert(objs.subrange(0, objs.len() as int) =~= objs);
    }
    // The 64-byte header.
    let mut buffer: Vec<u8> = Vec::new();
    buffer.push(0x7f);
    buffer.push(0x45);
    buffer.push(0x4c);
    buffer.push(0x46);
    buffer.push(2);
    buffer.push(1);
    buffer.push(1);
    buffer.push(0);
    buffer.push(0);
    buffer.push(0);
    buffer.push(0);
    buffer.push(0);
    buffer.push(0);
    buffer.push(0);
    buffer.push(0);
    buffer.push(0);
    proof {
        assert(buffer@ =~= spec_ident());
    }
    push_u16_le(&mut buffer, 1);
    push_u16_le(&mut buffer, 62);
    push_u32_le(&mut buffer, 1);
    push_u64_le(&mut buffer, 0);
    push_u64_le(&mut buffer, 0);
    push_u64_le(&mut buffer, 64 + content_size);
    push_u32_le(&mut buffer, 0);
    push_u16_le(&mut buffer, 64);
    push_u16_le(&mut buffer, 0);
    push_u16_le(&mut buffer, 0);
    push_u16_le(&mut buffer, 64);
    push_u16_le(&mut buffer, (nsec as u16) + 1);
    push_u16_le(&mut buffer, nsec as u16);
    proof {
        assert(64 + content_size == (64 + spec_blob(objs).len()) as u64);
        assert((nsec as u16) + 1 == (objs.len() + 1) as u16);
        assert(nsec as u16 == objs.len() as u16);
        assert(buffer@ == spec_header(objs));
    }
    // The content blob.
    let mut bi: usize = 0;
    while bi < nsec
        invariant
            0 <= bi <= nsec,
            nsec == sections@.len(),
            sections.deep_view() == objs,
            buffer@ == spec_header(objs) + spec_blob(objs.subrange(0, bi as int)),
        decreases nsec - bi,
    {
        push_bytes(&mut buffer, &sections[bi].content);
        proof {
            assert(objs.subrange(0, bi as int).push(objs[bi as int]) =~= objs.subrange(
                0,
                bi + 1,
            ));
            lemma_blob_snoc(objs.subrange(0, bi as int), objs[bi as int]);
            assert(spec_header(objs) + spec_blob(objs.subrange(0, bi as int))
                + objs[bi as int].content =~= spec_header(objs) + spec_blob(
                objs.subrange(0, bi + 1),
            ));
        }
        bi = bi + 1;
    }
    proof {
        assert(objs.subrange(0, objs.len() as int) =~= objs);
    }
    // The section header table: the reserved null entry, then one entry
    // per section with running name-string and file offsets.
    push_zeros(&mut buffer, 64);
    let ghost target = spec_header(objs) + spec_blob(objs) + spec_sht(objs);
    let ghost all_names = spec_section_names(objs);
    proof {
        assert(buffer@ =~= spec_header(objs) + spec_blob(objs) + spec_zeros(64));
        assert(target =~= buffer@ + spec_sht_entries(objs, 1, 64));
        assert(objs.subrange(0, objs.len() as int) =~= objs);
        assert(all_names.subrange(0, 0) =~= Seq::<Seq<char>>::empty());
        assert(objs.subrange(0, 0) =~= Seq::<SpecObjSection>::empty());
    }
    let mut name_offset: u32 = 1;
    let mut offset: u64 = 64;
    let mut hi: usize = 0;
    while hi < nsec
        invariant
            0 <= hi <= nsec,
            nsec == sections@.len(),
            sections.deep_view() == objs,
            all_names == spec_section_names(objs),
            all_names.len() == objs.len(),
            name_offset as int == 1 + spec_names_len(all_names.subrange(0, hi as int)),
            offset as int == 64 + spec_blob(objs.subrange(0, hi as int)).len(),
            spec_names_len(all_names) <= 0x1000_0000 + 37,
            spec_blob(objs).len() <= 0x3000_0000_0000,
            target == buffer@ + spec_sht_entries(
                objs.subrange(hi as int, objs.len() as int),
                name_offset as int,
                offset as int,
            ),
        decreases nsec - hi,
    {
        let ghost rem = objs.subrange(hi as int, objs.len() as int);
        let ghost buf0 = buffer@;
        proof {
            assert(rem[0] == objs[hi as int]);
            assert(rem.drop_first() =~= objs.subrange(hi + 1, objs.len() as int));
        }
        push_u32_le(&mut buffer, name_offset);
        push_u32_le(&mut buffer, sections[hi].typ);
        push_u64_le(&mut buffer, sections[hi].flags);
        push_u64_le(&mut buffer, 0);
        push_u64_le(&mut buffer, offset);
        push_u64_le(&mut buffer, sections[hi].content.len() as u64);
        push_u32_le(&mut buffer, sections[hi].link);
        push_u32_le(&mut buffer, sections[hi].info);
        let al = alignment_from_section_name(sections[hi].name.as_str());
        push_u64_le(&mut buffer, al);
        push_u64_le(&mut buffer, sections[hi].entry_size);
        proof {
            assert(buffer@ =~= buf0 + spec_sht_entry(objs[hi as int], name_offset, offset));
            assert(buf0 + (spec_sht_entry(objs[hi as int], name_offset, offset)
                + spec_sht_entries(
                rem.drop_first(),
                name_offset as int + encode_utf8(rem[0].name).len() + 1,
                offset as int + rem[0].content.len(),
            )) =~= buffer@ + spec_sht_entries(
                rem.drop_first(),
                name_offset as int + encode_utf8(rem[0].name).len() + 1,
                offset as int + rem[0].content.len(),
            ));
        }
        let name_len: usize = sections[hi].name.as_str().len();
        proof {
            assert(all_names[hi as int] == objs[hi as int].name);
            assert(all_names.subrange(0, hi as int).push(all_names[hi as int])
                =~= all_names.subrange(0, hi + 1));
            lemma_names_len_snoc(all_names.subrange(0, hi as int), all_names[hi as int]);
            lemma_names_len_prefix(all_names, hi as int);
            lemma_names_len_prefix(all_names, hi + 1);
            assert(encode_utf8(all_names[hi as int]).len() < 0xFFFF_FFFF);
            assert(name_len == encode_utf8(all_names[hi as int]).len());
            assert(objs.subrange(0, hi as int).push(objs[hi as int]) =~= objs.subrange(
                0,
                hi + 1,
            ));
            lemma_blob_snoc(objs.subrange(0, hi as int), objs[hi as int]);
            assert(objs =~= objs.subrange(0, hi + 1) + objs.subrange(hi + 1, objs.len() as int));
            lemma_blob_concat(objs.subrange(0, hi + 1), objs.subrange(hi + 1, objs.len() as int));
        }
        name_offset = name_offset + (name_len as u32) + 1;
        offset = offset + (sections[hi].content.len() as u64);
        hi = hi + 1;
    }
    proof {
        assert(objs.subrange(objs.len() as int, objs.len() as int)
            =~= Seq::<SpecObjSection>::empty());
        assert(buffer@ + Seq::<u8>::empty() =~= buffer@);
        assert(buffer@ == target);
    }
    buffer
}

/// Decides at run time that an assembly result is small enough for the
/// fixed-width ELF fields, by bounding every name's UTF-8 length with four
/// bytes per character.  A `true` answer establishes [`emit_wf`], the
/// precondition of [`create_binary`].
pub fn emit_limits_ok(assembly: &AssemblyResult) -> (b: bool)
    ensures
        b ==> emit_wf(assembly@),
{
    let ghost a = assembly@;
    let ghost names = spec_asm_names(a.sections);
    let ghost prog = spec_prog_sections(a.sections);
    let ns = assembly.sections.len();
    if ns > 0xFFFF - 5 {
        return false;
    }
    if assembly.relocations.len() > 0x1000_0000 {
        return false;
    }
    let mut name_sum: u64 = 0;
    let mut i: usize = 0;
    proof {
        assert(names.subrange(0, 0) =~= Seq::<Seq<char>>::empty());
    }
    while i < ns
        invariant
            0 <= i <= ns,
            ns == assembly.sections@.len(),
            names == spec_asm_names(a.sections),
            names.len() == ns,
            name_sum <= 0x1000_0000,
            spec_names_len(names.subrange(0, i as int)) <= name_sum as int,
        decreases ns - i,
    {
        let cl: usize = assembly.sections[i].name.as_str().unicode_len();
        if cl > 0x0400_0000 {
            return false;
        }
        proof {
            assert(names[i as int] == a.sections[i as int].name);
            assert(names.subrange(0, i as int).push(names[i as int]) =~= names.subrange(
                0,
                i + 1,
            ));
            lemma_names_len_snoc(names.subrange(0, i as int), names[i as int]);
            crate::text::lemma_encode_utf8_len_bound(names[i as int]);
        }
        name_sum = name_sum + 4 * (cl as u64) + 1;
        if name_sum > 0x1000_0000 {
            return false;
        }
        i = i + 1;
    }
    proof {
        assert(names.subrange(0, names.len() as int) =~= names);
    }
    let mut content_sum: u64 = 0;
    let mut j: usize = 0;
    proof {
        assert(prog.subrange(0, 0) =~= Seq::<SpecObjSection>::empty());
    }
    while j < ns
        invariant
            0 <= j <= ns,
            ns == assembly.sections@.len(),
            prog == spec_prog_sections(a.sections),
            prog.len() == ns,
            content_sum <= 0x1000_0000_0000,
            content_sum as int == spec_blob(prog.subrange(0, j as int)).len(),
        decreases ns - j,
    {
        let cl: u64 = assembly.sections[j].content.len() as u64;
        if cl > 0x1000_0000_0000 {
            return false;
        }
        proof {
            assert(prog[j as int].content == a.sections[j as int].content);
            assert(prog.subrange(0, j as int).push(prog[j as int]) =~= prog.subrange(0, j + 1));
            lemma_blob_snoc(prog.subrange(0, j as int), prog[j as int]);
        }
        content_sum = content_sum + cl;
        if content_sum > 0x1000_0000_0000 {
            return false;
        }
        j = j + 1;
    }
    proof {
        assert(prog.subrange(0, prog.len() as int) =~= prog);
    }
    true
}

/// Serializes a whole assembly result into an ELF64 relocatable object
/// file, exactly as [`spec_create_binary`] describes it.
///
/// The symbol table holds the reserved null entry and one local SECTION
/// symbol per assembled section, nothing else.  When no section is named
/// `.text`, the `info` field of `.rela.text` is 0.
pub fn create_binary(assembly: AssemblyResult) -> (r: Result<Vec<u8>, AsmError>)
    requires
        emit_wf(assembly@),
    ensures
        match r {
            Ok(buf) => spec_create_binary(assembly@) == Ok::<Seq<u8>, SpecError>(buf@),
            Err(e) => spec_create_binary(assembly@) == Err::<Seq<u8>, SpecError>(e@),
        },
{
    let ghost a = assembly@;
    let AssemblyResult { sections: asecs, relocations: arelocs } = assembly;
    proof {
        assert(SpecResult { sections: asecs.deep_view(), relocations: arelocs.deep_view() } == a);
    }
    let sections: Vec<Section>;
    match build_object_sections(asecs, &arelocs) {
        Ok(v) => {
            sections = v;
        },
        Err(e) => {
            return Err(e);
        },
    }
    proof {
        let rc = spec_rela_bytes(a.relocations, spec_rela_names(a))->Ok_0;
        lemma_rela_len(a.relocations, spec_rela_names(a));
        lemma_emit_bounds(a, rc);
    }
    let buffer = serialize_object(&sections);
    Ok(buffer)
}

} // verus!
