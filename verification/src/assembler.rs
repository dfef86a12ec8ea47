//! The line encoder and the section/label assembler: turns source text into
//! named sections of machine-code bytes, a label table and resolved
//! relocations.
use vstd::prelude::*;

use crate::text::{
    spec_trim,
    trim_str,
    str_eq,
    spec_find,
    spec_split,
    spec_strip_end,
    spec_strip_both,
    strip_end_str,
    strip_both_str,
    split_str,
    find_char_from,
    lemma_find_at,
    lemma_find_none,
    lemma_trim_idempotent,
    push_str_utf8,
};
use crate::{
    AsmError,
    SpecError,
    RelocationType,
    AssemblySection,
    AssemblyResult,
    ResolvedRelocation,
    SpecSection,
    SpecResolved,
    SpecResult,
};
use vstd::bytes::{spec_u32_to_le_bytes, u32_to_le_bytes};
use vstd::utf8::encode_utf8;

verus! {

// ---------------------------------------------------------------------------
// Operand codec: numeric literals and register names.
// ---------------------------------------------------------------------------
/// True for an ASCII decimal digit.
pub open spec fn dec_digit(c: char) -> bool {
    48 <= c as u32 <= 57
}

/// True for a character usable as a digit of the given base: decimal
/// digits, plus both cases of `a`-`f` when `hex` is set.
pub open spec fn spec_digit(c: char, hex: bool) -> bool {
    dec_digit(c) || (hex && (97 <= c as u32 <= 102 || 65 <= c as u32 <= 70))
}

/// Numeric value of one digit character.
pub open spec fn spec_digit_val(c: char, hex: bool) -> nat {
    if dec_digit(c) {
        (c as u32 - 48) as nat
    } else if 97 <= c as u32 <= 102 {
        (c as u32 - 87) as nat
    } else {
        (c as u32 - 55) as nat
    }
}

/// True when every character of `s` is a digit of the given base.
pub open spec fn spec_all_digits(s: Seq<char>, hex: bool) -> bool {
    forall|i: int| 0 <= i < s.len() ==> spec_digit(#[trigger] s[i], hex)
}

/// Value of a digit string read most-significant first.
pub open spec fn spec_num_val(s: Seq<char>, hex: bool) -> nat
    decreases s.len(),
{
    if s.len() == 0 {
        0
    } else {
        spec_num_val(s.drop_last(), hex) * (if hex {
            16nat
        } else {
            10nat
        }) + spec_digit_val(s.last(), hex)
    }
}

/// A digit string's value only grows as more digits are appended.
proof fn lemma_num_val_prefix(s: Seq<char>, hex: bool, i: int)
    requires
        0 <= i <= s.len(),
    ensures
        spec_num_val(s, hex) >= spec_num_val(s.subrange(0, i), hex),
    decreases s.len() - i,
{
    if i < s.len() {
        assert(s.subrange(0, i + 1).drop_last() =~= s.subrange(0, i));
        assert(spec_num_val(s.subrange(0, i + 1), hex) >= spec_num_val(s.subrange(0, i), hex));
        lemma_num_val_prefix(s, hex, i + 1);
    } else {
        assert(s.subrange(0, i) =~= s);
    }
}

/// Parses the digits of `s` from position `from` to its end as one unsigned
/// number of the given base, refusing empty digit strings, stray characters
/// and values above `max`.
fn parse_digits(s: &str, from: usize, hex: bool, max: u64) -> (r: Option<u64>)
    requires
        from <= s@.len(),
    ensures
        ({
            let d = s@.subrange(from as int, s@.len() as int);
            match r {
                Some(v) => d.len() > 0 && spec_all_digits(d, hex) && v as nat == spec_num_val(
                    d,
                    hex,
                ) && v <= max,
                None => d.len() == 0 || !spec_all_digits(d, hex) || spec_num_val(d, hex) > max,
            }
        }),
{
    let ghost d = s@.subrange(from as int, s@.len() as int);
    let n: usize = s.unicode_len();
    if from == n {
        return None;
    }
    let base: u128 = if hex {
        16
    } else {
        10
    };
    let mut acc: u128 = 0;
    let mut i: usize = from;
    while i < n
        invariant
            from <= i <= n,
            n == s@.len(),
            acc <= max,
            acc as nat == spec_num_val(d.subrange(0, i - from), hex),
            spec_all_digits(d.subrange(0, i - from), hex),
        decreases n - i,
    {
        let c = s.get_char(i);
        let cv: u32 = c as u32;
        let dv: u128 = if cv >= 48 && cv <= 57 {
            (cv - 48) as u128
        } else if hex && cv >= 97 && cv <= 102 {
            (cv - 87) as u128
        } else if hex && cv >= 65 && cv <= 70 {
            (cv - 55) as u128
        } else {
            proof {
                assert(d[i - from] == s@[i as int]);
                assert(!spec_digit(d[i - from], hex));
            }
            return None;
        };
        proof {
            assert(d[i - from] == s@[i as int]);
            assert(spec_digit(d[i - from], hex));
            assert(dv as nat == spec_digit_val(d[i - from], hex));
        }
        let next: u128 = acc * base + dv;
        proof {
            assert(d.subrange(0, i - from + 1).drop_last() =~= d.subrange(0, i - from));
            assert(d.subrange(0, i - from + 1).last() == d[i - from]);
        }
        if next > max as u128 {
            proof {
                if spec_all_digits(d, hex) {
                    lemma_num_val_prefix(d, hex, i - from + 1);
                }
            }
            return None;
        }
        acc = next;
        i = i + 1;
    }
    proof {
        assert(d.subrange(0, n - from) =~= d);
    }
    Some(acc as u64)
}

/// The two ways a textual operand turns into an unsigned integer: base 10,
/// or base 16 after a `0x` prefix.
pub trait HexAndDecimalConvertable: Sized {
    /// The numeric value this fixed-width integer carries.
    spec fn spec_nat(self) -> nat;

    /// Largest value of the width.
    spec fn spec_max() -> nat;

    /// Parses `s` entirely as base-16 digits.
    fn from_hex_str(s: &str) -> (r: Result<Self, AsmError>)
        ensures
            match r {
                Ok(v) => s@.len() > 0 && spec_all_digits(s@, true) && spec_num_val(s@, true)
                    <= Self::spec_max() && v.spec_nat() == spec_num_val(s@, true),
                Err(e) => (s@.len() == 0 || !spec_all_digits(s@, true) || spec_num_val(s@, true)
                    > Self::spec_max()) && e@ == SpecError::MalformedOperand(s@),
            },
    ;

    /// Parses `s` entirely as base-10 digits.
    fn parse_decimal(s: &str) -> (r: Result<Self, AsmError>)
        ensures
            match r {
                Ok(v) => s@.len() > 0 && spec_all_digits(s@, false) && spec_num_val(s@, false)
                    <= Self::spec_max() && v.spec_nat() == spec_num_val(s@, false),
                Err(e) => (s@.len() == 0 || !spec_all_digits(s@, false) || spec_num_val(s@, false)
                    > Self::spec_max()) && e@ == SpecError::MalformedOperand(s@),
            },
    ;
}

impl HexAndDecimalConvertable for u8 {
    open spec fn spec_nat(self) -> nat {
        self as nat
    }

    open spec fn spec_max() -> nat {
        255
    }

    fn from_hex_str(s: &str) -> (r: Result<Self, AsmError>) {
        proof {
            assert(s@.subrange(0, s@.len() as int) =~= s@);
        }
        match parse_digits(s, 0, true, 255) {
            Some(v) => Ok(v as u8),
            None => Err(AsmError::MalformedOperand(s.to_owned())),
        }
    }

    fn parse_decimal(s: &str) -> (r: Result<Self, AsmError>) {
        proof {
            assert(s@.subrange(0, s@.len() as int) =~= s@);
        }
        match parse_digits(s, 0, false, 255) {
            Some(v) => Ok(v as u8),
            None => Err(AsmError::MalformedOperand(s.to_owned())),
        }
    }
}

impl HexAndDecimalConvertable for u32 {
    open spec fn spec_nat(self) -> nat {
        self as nat
    }

    open spec fn spec_max() -> nat {
        0xFFFF_FFFF
    }

    fn from_hex_str(s: &str) -> (r: Result<Self, AsmError>) {
        proof {
            assert(s@.subrange(0, s@.len() as int) =~= s@);
        }
        match parse_digits(s, 0, true, 0xFFFF_FFFF) {
            Some(v) => Ok(v as u32),
            None => Err(AsmError::MalformedOperand(s.to_owned())),
        }
    }

    fn parse_decimal(s: &str) -> (r: Result<Self, AsmError>) {
        proof {
            assert(s@.subrange(0, s@.len() as int) =~= s@);
        }
        match parse_digits(s, 0, false, 0xFFFF_FFFF) {
            Some(v) => Ok(v as u32),
            None => Err(AsmError::MalformedOperand(s.to_owned())),
        }
    }
}

impl HexAndDecimalConvertable for u64 {
    open spec fn spec_nat(self) -> nat {
        self as nat
    }

    open spec fn spec_max() -> nat {
        0xFFFF_FFFF_FFFF_FFFF
    }

    fn from_hex_str(s: &str) -> (r: Result<Self, AsmError>) {
        proof {
            assert(s@.subrange(0, s@.len() as int) =~= s@);
        }
        match parse_digits(s, 0, true, 0xFFFF_FFFF_FFFF_FFFF) {
            Some(v) => Ok(v),
            None => Err(AsmError::MalformedOperand(s.to_owned())),
        }
    }

    fn parse_decimal(s: &str) -> (r: Result<Self, AsmError>) {
        proof {
            assert(s@.subrange(0, s@.len() as int) =~= s@);
        }
        match parse_digits(s, 0, false, 0xFFFF_FFFF_FFFF_FFFF) {
            Some(v) => Ok(v),
            None => Err(AsmError::MalformedOperand(s.to_owned())),
        }
    }
}

/// Value of a numeric literal: after trimming, base-16 digits when a `0x`
/// prefix is present, base-10 digits otherwise; `None` when the digits are
/// missing or malformed or the value exceeds `max`.
pub open spec fn spec_to_uint(s: Seq<char>, max: nat) -> Option<nat> {
    let t = spec_trim(s);
    if t.len() > 1 && t[0] == '0' && t[1] == 'x' {
        let h = t.subrange(2, t.len() as int);
        if h.len() > 0 && spec_all_digits(h, true) && spec_num_val(h, true) <= max {
            Some(spec_num_val(h, true))
        } else {
            None
        }
    } else {
        if t.len() > 0 && spec_all_digits(t, false) && spec_num_val(t, false) <= max {
            Some(spec_num_val(t, false))
        } else {
            None
        }
    }
}

/// Converts a textual numeric literal (decimal, or hexadecimal after `0x`)
/// into a fixed-width unsigned integer.
pub fn to_uint<T: HexAndDecimalConvertable>(s: &str) -> (r: Result<T, AsmError>)
    ensures
        match r {
            Ok(v) => spec_to_uint(s@, T::spec_max()) == Some(v.spec_nat()),
            Err(e) => spec_to_uint(s@, T::spec_max()) is None && e@ == SpecError::MalformedOperand(
                spec_trim(s@),
            ),
        },
{
    let t = trim_str(s);
    let n: usize = t.unicode_len();
    if n > 1 && t.get_char(0) == '0' && t.get_char(1) == 'x' {
        let h = t.substring_char(2, n);
        match T::from_hex_str(h) {
            Ok(v) => Ok(v),
            Err(_) => Err(AsmError::MalformedOperand(t.to_owned())),
        }
    } else {
        match T::parse_decimal(t) {
            Ok(v) => Ok(v),
            Err(_) => Err(AsmError::MalformedOperand(t.to_owned())),
        }
    }
}

/// Encoding offset of the eight 32-bit general-purpose registers, in the
/// order the x86 encoding numbers them.
pub open spec fn spec_register_offset(r: Seq<char>) -> Option<u8> {
    if r == "eax"@ {
        Some(0u8)
    } else if r == "ecx"@ {
        Some(1u8)
    } else if r == "edx"@ {
        Some(2u8)
    } else if r == "ebx"@ {
        Some(3u8)
    } else if r == "esp"@ {
        Some(4u8)
    } else if r == "ebp"@ {
        Some(5u8)
    } else if r == "esi"@ {
        Some(6u8)
    } else if r == "edi"@ {
        Some(7u8)
    } else {
        None
    }
}

/// Looks up a register name's 0-7 encoding offset.
pub fn register_offset(reg: &str) -> (r: Result<u8, AsmError>)
    ensures
        match r {
            Ok(v) => spec_register_offset(reg@) == Some(v),
            Err(e) => spec_register_offset(reg@) is None && e@ == SpecError::UnknownRegister(reg@),
        },
{
    if str_eq(reg, "eax") {
        Ok(0)
    } else if str_eq(reg, "ecx") {
        Ok(1)
    } else if str_eq(reg, "edx") {
        Ok(2)
    } else if str_eq(reg, "ebx") {
        Ok(3)
    } else if str_eq(reg, "esp") {
        Ok(4)
    } else if str_eq(reg, "ebp") {
        Ok(5)
    } else if str_eq(reg, "esi") {
        Ok(6)
    } else if str_eq(reg, "edi") {
        Ok(7)
    } else {
        Err(AsmError::UnknownRegister(reg.to_owned()))
    }
}

// ---------------------------------------------------------------------------
// Line encoder: one line of text becomes bytes, a label, a section switch or
// a pending relocation.
// ---------------------------------------------------------------------------
/// A deferred reference to a label, recorded while encoding a `mov` whose
/// source operand is not numeric.
pub struct Relocation {
    pub typ: RelocationType,
    pub label: String,
    pub location: u64,
}

/// Mathematical model of [`Relocation`].
pub struct SpecPending {
    pub typ: RelocationType,
    pub label: Seq<char>,
    pub location: u64,
}

impl View for Relocation {
    type V = SpecPending;

    open spec fn view(&self) -> SpecPending {
        SpecPending { typ: self.typ, label: self.label@, location: self.location }
    }
}

impl DeepView for Relocation {
    type V = SpecPending;

    open spec fn deep_view(&self) -> SpecPending {
        self@
    }
}

/// What one line of input contributes to the assembly.
pub enum AssemblyLineResult {
    /// Machine-code bytes to append to the current section.
    Bytes(Vec<u8>),
    /// A label defined at the current offset.
    Label(String),
    /// A switch to a (new) section of this name.
    Section(String),
    /// A pending relocation; the placeholder bytes are appended by the
    /// caller when it sees this result.
    Relocation(Relocation),
}

/// Mathematical model of [`AssemblyLineResult`].
pub enum SpecItem {
    Bytes(Seq<u8>),
    Label(Seq<char>),
    Section(Seq<char>),
    Relocation(SpecPending),
}

impl View for AssemblyLineResult {
    type V = SpecItem;

    open spec fn view(&self) -> SpecItem {
        match self {
            AssemblyLineResult::Bytes(b) => SpecItem::Bytes(b@),
            AssemblyLineResult::Label(n) => SpecItem::Label(n@),
            AssemblyLineResult::Section(n) => SpecItem::Section(n@),
            AssemblyLineResult::Relocation(p) => SpecItem::Relocation(p@),
        }
    }
}

impl DeepView for AssemblyLineResult {
    type V = SpecItem;

    open spec fn deep_view(&self) -> SpecItem {
        self@
    }
}

/// The first space-delimited token of a trimmed line and everything after
/// the separating space.
pub open spec fn spec_op_and_rest(t: Seq<char>) -> (Seq<char>, Seq<char>) {
    let i = spec_find(t, ' ');
    if 0 <= i < t.len() {
        (t.subrange(0, i), t.subrange(i + 1, t.len() as int))
    } else {
        (t, Seq::<char>::empty())
    }
}

/// The comma-separated operand list of a line: split on every comma, each
/// piece trimmed.
pub open spec fn spec_args(rest: Seq<char>) -> Seq<Seq<char>> {
    spec_split(rest, ',').map_values(|a: Seq<char>| spec_trim(a))
}

/// The relocation offset recorded for a `mov` immediate: one past the
/// opcode byte.  Offset arithmetic wraps at the width of the field, as the
/// unchecked addition it models does.
pub open spec fn spec_after_opcode(location: u64) -> u64 {
    if location == u64::MAX {
        0u64
    } else {
        (location + 1) as u64
    }
}

/// Bytes of a `db` operand list: the raw UTF-8 bytes of each quoted piece
/// (quotes stripped), one byte for each numeric piece; the leftmost bad
/// piece decides the error.
pub open spec fn spec_db_bytes(args: Seq<Seq<char>>) -> Result<Seq<u8>, SpecError>
    decreases args.len(),
{
    if args.len() == 0 {
        Ok(Seq::<u8>::empty())
    } else {
        let a = args[0];
        let first: Result<Seq<u8>, SpecError> = if a.len() > 0 && a[0] == '"' {
            Ok(encode_utf8(spec_strip_both(a, '"')))
        } else {
            match spec_to_uint(a, 255) {
                Some(v) => Ok(seq![v as u8]),
                None => Err(SpecError::MalformedOperand(a)),
            }
        };
        match first {
            Err(e) => Err(e),
            Ok(b) => match spec_db_bytes(args.drop_first()) {
                Err(e) => Err(e),
                Ok(rest) => Ok(b + rest),
            },
        }
    }
}

/// What one line of input contributes to the assembly, or why it is
/// rejected.  `location` is the byte offset inside the currently open
/// section at which the line's bytes would land.
///
/// Blank lines contribute nothing.  A line whose first token ends in `:`
/// defines a label.  Otherwise the first token is the mnemonic and the
/// remainder, split on commas, the operands.
pub open spec fn spec_assemble_line(line: Seq<char>, location: u64) -> Result<
    Seq<SpecItem>,
    SpecError,
> {
    let t = spec_trim(line);
    if t.len() == 0 {
        Ok(Seq::<SpecItem>::empty())
    } else {
        let op = spec_trim(spec_op_and_rest(t).0);
        let rest = spec_op_and_rest(t).1;
        if op.len() > 0 && op.last() == ':' {
            Ok(seq![SpecItem::Label(spec_strip_end(op, ':'))])
        } else {
            let args = spec_args(rest);
            if op == "section"@ {
                Ok(seq![SpecItem::Section(args[0])])
            } else if op == "syscall"@ {
                Ok(seq![SpecItem::Bytes(seq![0x0fu8, 0x05u8])])
            } else if op == "ret"@ {
                Ok(seq![SpecItem::Bytes(seq![0xc3u8])])
            } else if op == "mov"@ {
                if args.len() < 2 {
                    Err(SpecError::MalformedOperand(t))
                } else {
                    match spec_register_offset(args[0]) {
                        None => Err(SpecError::UnknownRegister(args[0])),
                        Some(off) => {
                            let source = args[1];
                            if source.len() == 0 {
                                Err(SpecError::MalformedOperand(source))
                            } else if dec_digit(source[0]) {
                                match spec_to_uint(source, 0xFFFF_FFFF) {
                                    Some(v) => Ok(
                                        seq![
                                            SpecItem::Bytes(
                                                seq![(0xb8 + off) as u8] + spec_u32_to_le_bytes(
                                                    v as u32,
                                                ),
                                            ),
                                        ],
                                    ),
                                    None => Err(SpecError::MalformedOperand(source)),
                                }
                            } else {
                                Ok(
                                    seq![
                                        SpecItem::Bytes(seq![(0xb8 + off) as u8]),
                                        SpecItem::Relocation(
                                            SpecPending {
                                                typ: RelocationType::U32,
                                                label: source,
                                                location: spec_after_opcode(location),
                                            },
                                        ),
                                    ],
                                )
                            }
                        },
                    }
                }
            } else if op == "cmp"@ {
                if args.len() < 2 {
                    Err(SpecError::MalformedOperand(t))
                } else {
                    match spec_to_uint(args[1], 255) {
                        None => Err(SpecError::MalformedOperand(args[1])),
                        Some(v) => match spec_register_offset(args[0]) {
                            None => Err(SpecError::UnknownRegister(args[0])),
                            Some(off) => Ok(
                                seq![
                                    SpecItem::Bytes(seq![0x83u8, (0xf8 + off) as u8, v as u8]),
                                ],
                            ),
                        },
                    }
                }
            } else if op == "db"@ {
                match spec_db_bytes(args) {
                    Ok(bs) => Ok(seq![SpecItem::Bytes(bs)]),
                    Err(e) => Err(e),
                }
            } else {
                Err(SpecError::UnsupportedInstruction(op))
            }
        }
    }
}

/// Splits an operand string on commas and trims each piece.
fn split_and_trim(s: &str) -> (args: Vec<String>)
    ensures
        args.deep_view() == spec_args(s@),
{
    let raw = split_str(s, ',');
    let mut args: Vec<String> = Vec::new();
    let mut i: usize = 0;
    while i < raw.len()
        invariant
            0 <= i <= raw.len(),
            raw.deep_view() == spec_split(s@, ','),
            args.deep_view().len() == i,
            forall|j: int| 0 <= j < i ==> args.deep_view()[j] == spec_args(s@)[j],
        decreases raw.len() - i,
    {
        let ghost dv0 = args.deep_view();
        let t = trim_str(raw[i].as_str()).to_owned();
        proof {
            assert(t@ == spec_trim(raw.deep_view()[i as int]));
            assert(spec_args(s@)[i as int] == spec_trim(spec_split(s@, ',')[i as int]));
        }
        args.push(t);
        proof {
            assert(args.deep_view() =~= dv0.push(t@));
        }
        i = i + 1;
    }
    proof {
        assert(args.deep_view() =~= spec_args(s@));
    }
    args
}

/// Encodes a `db` operand list, as [`spec_db_bytes`] describes it.
fn db_bytes(args: &Vec<String>) -> (r: Result<Vec<u8>, AsmError>)
    requires
        forall|j: int|
            0 <= j < args.deep_view().len() ==> spec_trim(#[trigger] args.deep_view()[j])
                == args.deep_view()[j],
    ensures
        match r {
            Ok(v) => spec_db_bytes(args.deep_view()) == Ok::<Seq<u8>, SpecError>(v@),
            Err(e) => spec_db_bytes(args.deep_view()) == Err::<Seq<u8>, SpecError>(e@),
        },
{
    let ghost whole = args.deep_view();
    let mut out: Vec<u8> = Vec::new();
    let mut i: usize = 0;
    proof {
        assert(whole.subrange(0, whole.len() as int) =~= whole);
        match spec_db_bytes(whole) {
            Ok(r) => {
                assert(out@ + r =~= r);
            },
            Err(_) => {},
        }
    }
    while i < args.len()
        invariant
            0 <= i <= args.len(),
            whole == args.deep_view(),
            spec_db_bytes(whole) == (match spec_db_bytes(
                whole.subrange(i as int, whole.len() as int),
            ) {
                Ok(rest) => Ok::<Seq<u8>, SpecError>(out@ + rest),
                Err(e) => Err::<Seq<u8>, SpecError>(e),
            }),
        decreases args.len() - i,
    {
        let ghost rem = whole.subrange(i as int, whole.len() as int);
        proof {
            assert(rem[0] == whole[i as int]);
            assert(rem.drop_first() =~= whole.subrange(i + 1, whole.len() as int));
        }
        let ghost out0 = out@;
        let a = args[i].as_str();
        let alen: usize = a.unicode_len();
        if alen > 0 && a.get_char(0) == '"' {
            let stripped = strip_both_str(a, '"');
            push_str_utf8(&mut out, stripped);
            proof {
                assert(out@ =~= out0 + encode_utf8(spec_strip_both(rem[0], '"')));
            }
        } else {
            match to_uint::<u8>(a) {
                Ok(v) => {
                    out.push(v);
                    proof {
                        assert(spec_to_uint(rem[0], 255) == Some(v as nat));
                        assert(out@ =~= out0 + seq![v]);
                    }
                },
                Err(e) => {
                    proof {
                        assert(spec_trim(rem[0]) == rem[0]);
                        assert(spec_db_bytes(rem) == Err::<Seq<u8>, SpecError>(
                            SpecError::MalformedOperand(rem[0]),
                        ));
                    }
                    return Err(e);
                },
            }
        }
        proof {
            match spec_db_bytes(rem) {
                Ok(first_and_rest) => {
                    match spec_db_bytes(rem.drop_first()) {
                        Ok(tail) => {
                            assert(out0 + first_and_rest =~= out@ + tail);
                        },
                        Err(_) => {},
                    }
                },
                Err(_) => {},
            }
        }
        i = i + 1;
    }
    proof {
        assert(whole.subrange(i as int, whole.len() as int) =~= Seq::<Seq<char>>::empty());
        assert(out@ + Seq::<u8>::empty() =~= out@);
    }
    Ok(out)
}

/// Classifies one line of input and encodes it, as [`spec_assemble_line`]
/// describes it.
pub fn assemble_line(line: &str, location: u64) -> (r: Result<Vec<AssemblyLineResult>, AsmError>)
    ensures
        match r {
            Ok(v) => spec_assemble_line(line@, location) == Ok::<Seq<SpecItem>, SpecError>(
                v.deep_view(),
            ),
            Err(e) => spec_assemble_line(line@, location) == Err::<Seq<SpecItem>, SpecError>(e@),
        },
{
    let t = trim_str(line);
    let n: usize = t.unicode_len();
    if n == 0 {
        let v: Vec<AssemblyLineResult> = Vec::new();
        proof {
            assert(v.deep_view() =~= Seq::<SpecItem>::empty());
        }
        return Ok(v);
    }
    let op_raw: &str;
    let rest: &str;
    match find_char_from(t, 0, ' ') {
        Some(i) => {
            proof {
                lemma_find_at(t@, ' ', i as int);
            }
            op_raw = t.substring_char(0, i);
            rest = t.substring_char(i + 1, n);
        },
        None => {
            proof {
                lemma_find_none(t@, ' ');
            }
            op_raw = t;
            rest = t.substring_char(n, n);
            proof {
                assert(rest@ =~= Seq::<char>::empty());
            }
        },
    }
    proof {
        assert(op_raw@ == spec_op_and_rest(t@).0);
        assert(rest@ == spec_op_and_rest(t@).1);
    }
    let op = trim_str(op_raw);
    let oplen: usize = op.unicode_len();
    if oplen > 0 && op.get_char(oplen - 1) == ':' {
        let name = strip_end_str(op, ':');
        let mut v: Vec<AssemblyLineResult> = Vec::new();
        v.push(AssemblyLineResult::Label(name.to_owned()));
        proof {
            assert(v.deep_view() =~= seq![SpecItem::Label(spec_strip_end(op@, ':'))]);
        }
        return Ok(v);
    }
    let args = split_and_trim(rest);
    proof {
        assert forall|j: int|
            0 <= j < args.deep_view().len() implies spec_trim(#[trigger] args.deep_view()[j])
            == args.deep_view()[j] by {
            lemma_trim_idempotent(spec_split(rest@, ',')[j]);
        }
    }
    if str_eq(op, "section") {
        proof {
            assert(spec_split(rest@, ',').len() >= 1);
        }
        let mut v: Vec<AssemblyLineResult> = Vec::new();
        v.push(AssemblyLineResult::Section(args[0].clone()));
        proof {
            assert(v.deep_view() =~= seq![SpecItem::Section(args.deep_view()[0])]);
        }
        Ok(v)
    } else if str_eq(op, "syscall") {
        let mut b: Vec<u8> = Vec::new();
        b.push(0x0f);
        b.push(0x05);
        proof {
            assert(b@ =~= seq![0x0fu8, 0x05u8]);
        }
        let mut v: Vec<AssemblyLineResult> = Vec::new();
        v.push(AssemblyLineResult::Bytes(b));
        proof {
            assert(v.deep_view() =~= seq![SpecItem::Bytes(seq![0x0fu8, 0x05u8])]);
        }
        Ok(v)
    } else if str_eq(op, "ret") {
        let mut b: Vec<u8> = Vec::new();
        b.push(0xc3);
        proof {
            assert(b@ =~= seq![0xc3u8]);
        }
        let mut v: Vec<AssemblyLineResult> = Vec::new();
        v.push(AssemblyLineResult::Bytes(b));
        proof {
            assert(v.deep_view() =~= seq![SpecItem::Bytes(seq![0xc3u8])]);
        }
        Ok(v)
    } else if str_eq(op, "mov") {
        if args.len() < 2 {
            return Err(AsmError::MalformedOperand(t.to_owned()));
        }
        let off: u8;
        match register_offset(args[0].as_str()) {
            Ok(o) => {
                off = o;
            },
            Err(e) => {
                return Err(e);
            },
        }
        let source = args[1].as_str();
        let slen: usize = source.unicode_len();
        if slen == 0 {
            return Err(AsmError::MalformedOperand(source.to_owned()));
        }
        let c0v: u32 = source.get_char(0) as u32;
        if c0v >= 48 && c0v <= 57 {
            match to_uint::<u32>(source) {
                Ok(val) => {
                    let mut b: Vec<u8> = Vec::new();
                    b.push(0xb8 + off);
                    let mut le = u32_to_le_bytes(val);
                    b.append(&mut le);
                    let ghost bv = b@;
                    proof {
                        assert(bv =~= seq![(0xb8 + off) as u8] + spec_u32_to_le_bytes(val));
                    }
                    let mut v: Vec<AssemblyLineResult> = Vec::new();
                    v.push(AssemblyLineResult::Bytes(b));
                    proof {
                        assert(v.deep_view() =~= seq![SpecItem::Bytes(bv)]);
                    }
                    Ok(v)
                },
                Err(e) => Err(e),
            }
        } else {
            let mut b: Vec<u8> = Vec::new();
            b.push(0xb8 + off);
            let ghost bv = b@;
            proof {
                assert(bv =~= seq![(0xb8 + off) as u8]);
            }
            let mut v: Vec<AssemblyLineResult> = Vec::new();
            v.push(AssemblyLineResult::Bytes(b));
            v.push(
                AssemblyLineResult::Relocation(
                    Relocation {
                        typ: RelocationType::U32,
                        label: source.to_owned(),
                        location: location.wrapping_add(1),
                    },
                ),
            );
            proof {
                assert(v.deep_view() =~= seq![
                    SpecItem::Bytes(bv),
                    SpecItem::Relocation(
                        SpecPending {
                            typ: RelocationType::U32,
                            label: source@,
                            location: spec_after_opcode(location),
                        },
                    ),
                ]);
            }
            Ok(v)
        }
    } else if str_eq(op, "cmp") {
        if args.len() < 2 {
            return Err(AsmError::MalformedOperand(t.to_owned()));
        }
        match to_uint::<u8>(args[1].as_str()) {
            Err(e) => Err(e),
            Ok(val) => {
                match register_offset(args[0].as_str()) {
                    Err(e) => Err(e),
                    Ok(off) => {
                        let mut b: Vec<u8> = Vec::new();
                        b.push(0x83);
                        b.push(0xf8 + off);
                        b.push(val);
                        let ghost bv = b@;
                        proof {
                            assert(bv =~= seq![0x83u8, (0xf8 + off) as u8, val]);
                        }
                        let mut v: Vec<AssemblyLineResult> = Vec::new();
                        v.push(AssemblyLineResult::Bytes(b));
                        proof {
                            assert(v.deep_view() =~= seq![SpecItem::Bytes(bv)]);
                        }
                        Ok(v)
                    },
                }
            },
        }
    } else if str_eq(op, "db") {
        match db_bytes(&args) {
            Ok(bs) => {
                let ghost bsv = bs@;
                let mut v: Vec<AssemblyLineResult> = Vec::new();
                v.push(AssemblyLineResult::Bytes(bs));
                proof {
                    assert(v.deep_view() =~= seq![SpecItem::Bytes(bsv)]);
                }
                Ok(v)
            },
            Err(e) => Err(e),
        }
    } else {
        Err(AsmError::UnsupportedInstruction(op.to_owned()))
    }
}

// ---------------------------------------------------------------------------
// Section/label assembler: a single left-to-right pass over all lines.
// ---------------------------------------------------------------------------
/// One entry of the label table: a label name, the section it was defined
/// in, and its byte offset within that section.
pub struct LabelEntry {
    pub name: String,
    pub section: String,
    pub offset: u64,
}

/// Mathematical model of [`LabelEntry`].
pub struct SpecLabel {
    pub name: Seq<char>,
    pub section: Seq<char>,
    pub offset: u64,
}

impl View for LabelEntry {
    type V = SpecLabel;

    open spec fn view(&self) -> SpecLabel {
        SpecLabel { name: self.name@, section: self.section@, offset: self.offset }
    }
}

impl DeepView for LabelEntry {
    type V = SpecLabel;

    open spec fn deep_view(&self) -> SpecLabel {
        self@
    }
}

/// The assembler's whole state during its single pass: the sections opened
/// so far (the last one is the open one), the label table in insertion
/// order, and the pending relocations in source order.
#[verifier::ext_equal]
pub struct SpecState {
    pub sections: Seq<SpecSection>,
    pub labels: Seq<SpecLabel>,
    pub pending: Seq<SpecPending>,
}

/// The assembler starts with no section opened.
pub open spec fn spec_initial_state() -> SpecState {
    SpecState { sections: Seq::empty(), labels: Seq::empty(), pending: Seq::empty() }
}

/// The running byte offset within the currently open section: its content
/// length, or 0 while no section is open.
pub open spec fn spec_location(st: SpecState) -> u64 {
    if st.sections.len() == 0 {
        0u64
    } else {
        st.sections.last().content.len() as u64
    }
}

/// The section list with `bs` appended to the open (last) section.
pub open spec fn spec_append_content(sections: Seq<SpecSection>, bs: Seq<u8>) -> Seq<SpecSection>
    recommends
        sections.len() > 0,
{
    sections.update(
        sections.len() - 1,
        SpecSection { name: sections.last().name, content: sections.last().content + bs },
    )
}

/// `n` zero placeholder bytes.
pub open spec fn spec_zeros(n: nat) -> Seq<u8> {
    Seq::new(n, |i: int| 0u8)
}

/// First matching entry of the label table, so the first definition of a
/// name wins and later redefinitions are ignored.
pub open spec fn spec_lookup(labels: Seq<SpecLabel>, name: Seq<char>) -> Option<SpecLabel>
    decreases labels.len(),
{
    if labels.len() == 0 {
        None::<SpecLabel>
    } else if labels[0].name == name {
        Some(labels[0])
    } else {
        spec_lookup(labels.drop_first(), name)
    }
}

/// How one line result changes the assembler state.  Bytes and placeholders
/// need an open section; a label is recorded at the current offset unless
/// the name is already taken; a section directive opens a new empty section
/// and resets the offset.
pub open spec fn spec_apply_item(st: SpecState, item: SpecItem) -> Result<SpecState, SpecError> {
    match item {
        SpecItem::Bytes(bs) => if st.sections.len() == 0 {
            Err(SpecError::NoActiveSection)
        } else {
            Ok(
                SpecState {
                    sections: spec_append_content(st.sections, bs),
                    labels: st.labels,
                    pending: st.pending,
                },
            )
        },
        SpecItem::Label(name) => if st.sections.len() == 0 {
            Err(SpecError::NoActiveSection)
        } else if spec_lookup(st.labels, name) is Some {
            Ok(st)
        } else {
            Ok(
                SpecState {
                    sections: st.sections,
                    labels: st.labels.push(
                        SpecLabel {
                            name: name,
                            section: st.sections.last().name,
                            offset: spec_location(st),
                        },
                    ),
                    pending: st.pending,
                },
            )
        },
        SpecItem::Section(name) => Ok(
            SpecState {
                sections: st.sections.push(SpecSection { name: name, content: Seq::empty() }),
                labels: st.labels,
                pending: st.pending,
            },
        ),
        SpecItem::Relocation(p) => if st.sections.len() == 0 {
            Err(SpecError::NoActiveSection)
        } else {
            Ok(
                SpecState {
                    sections: spec_append_content(st.sections, spec_zeros(p.typ.spec_width())),
                    labels: st.labels,
                    pending: st.pending.push(p),
                },
            )
        },
    }
}

/// Applies a line's results in order; the first failure wins.
pub open spec fn spec_apply_items(st: SpecState, items: Seq<SpecItem>) -> Result<
    SpecState,
    SpecError,
>
    decreases items.len(),
{
    if items.len() == 0 {
        Ok(st)
    } else {
        match spec_apply_item(st, items[0]) {
            Err(e) => Err(e),
            Ok(st2) => spec_apply_items(st2, items.drop_first()),
        }
    }
}

/// Encodes one line at the current offset and applies its results.
pub open spec fn spec_apply_line(st: SpecState, line: Seq<char>) -> Result<SpecState, SpecError> {
    match spec_assemble_line(line, spec_location(st)) {
        Err(e) => Err(e),
        Ok(items) => spec_apply_items(st, items),
    }
}

/// Runs the assembler pass over all lines.
pub open spec fn spec_run(st: SpecState, lines: Seq<Seq<char>>) -> Result<SpecState, SpecError>
    decreases lines.len(),
{
    if lines.len() == 0 {
        Ok(st)
    } else {
        match spec_apply_line(st, lines[0]) {
            Err(e) => Err(e),
            Ok(st2) => spec_run(st2, lines.drop_first()),
        }
    }
}

/// Resolves every pending relocation against the label table: the label's
/// section becomes the relocation target, the label's offset the addend.  A
/// label nowhere defined fails with `UndefinedLabel`.
pub open spec fn spec_resolve(pending: Seq<SpecPending>, labels: Seq<SpecLabel>) -> Result<
    Seq<SpecResolved>,
    SpecError,
>
    decreases pending.len(),
{
    if pending.len() == 0 {
        Ok(Seq::<SpecResolved>::empty())
    } else {
        match spec_lookup(labels, pending[0].label) {
            None => Err(SpecError::UndefinedLabel(pending[0].label)),
            Some(l) => match spec_resolve(pending.drop_first(), labels) {
                Err(e) => Err(e),
                Ok(rest) => Ok(
                    seq![
                        SpecResolved {
                            location: pending[0].location,
                            typ: pending[0].typ,
                            section: l.section,
                            addend: l.offset,
                        },
                    ] + rest,
                ),
            },
        }
    }
}

/// The whole assembler as one function of the source text: split into
/// lines on `\n` (a trailing `\r` is whitespace and trims away), run the
/// pass from the empty state, then resolve relocations.
pub open spec fn spec_assemble(text: Seq<char>) -> Result<SpecResult, SpecError> {
    match spec_run(spec_initial_state(), spec_split(text, '\n')) {
        Err(e) => Err(e),
        Ok(st) => match spec_resolve(st.pending, st.labels) {
            Err(e) => Err(e),
            Ok(rr) => Ok(SpecResult { sections: st.sections, relocations: rr }),
        },
    }
}

/// First matching entry of the label table, as [`spec_lookup`] finds it.
fn lookup_label(labels: &Vec<LabelEntry>, name: &str) -> (r: Option<usize>)
    ensures
        match r {
            Some(i) => i < labels@.len() && spec_lookup(labels.deep_view(), name@) == Some(
                labels.deep_view()[i as int],
            ),
            None => spec_lookup(labels.deep_view(), name@) is None,
        },
{
    let mut i: usize = 0;
    while i < labels.len()
        invariant
            0 <= i <= labels@.len(),
            forall|j: int| 0 <= j < i ==> labels.deep_view()[j].name != name@,
        decreases labels@.len() - i,
    {
        if str_eq(labels[i].name.as_str(), name) {
            proof {
                lemma_lookup_at(labels.deep_view(), name@, i as int);
            }
            return Some(i);
        }
        i = i + 1;
    }
    proof {
        lemma_lookup_none(labels.deep_view(), name@);
    }
    None
}

/// `spec_lookup` returns the first entry whose name matches.
proof fn lemma_lookup_at(labels: Seq<SpecLabel>, name: Seq<char>, i: int)
    requires
        0 <= i < labels.len(),
        labels[i].name == name,
        forall|j: int| 0 <= j < i ==> labels[j].name != name,
    ensures
        spec_lookup(labels, name) == Some(labels[i]),
    decreases i,
{
    if i > 0 {
        lemma_lookup_at(labels.drop_first(), name, i - 1);
    }
}

/// `spec_lookup` fails exactly when no entry's name matches.
proof fn lemma_lookup_none(labels: Seq<SpecLabel>, name: Seq<char>)
    requires
        forall|j: int| 0 <= j < labels.len() ==> labels[j].name != name,
    ensures
        spec_lookup(labels, name) is None,
    decreases labels.len(),
{
    if labels.len() > 0 {
        lemma_lookup_none(labels.drop_first(), name);
    }
}

/// Drives the line encoder over the whole input: accumulates bytes into
/// per-section buffers, records label locations, writes zero placeholders
/// for pending relocations and resolves them once all labels are known.
/// Behaves exactly as [`spec_assemble`] describes.
pub fn assemble(text: &str) -> (r: Result<AssemblyResult, AsmError>)
    ensures
        match r {
            Ok(res) => spec_assemble(text@) == Ok::<SpecResult, SpecError>(res@),
            Err(e) => spec_assemble(text@) == Err::<SpecResult, SpecError>(e@),
        },
{
    let lines = split_str(text, '\n');
    let ghost all_lines = lines.deep_view();
    let mut sections: Vec<AssemblySection> = Vec::new();
    let mut labels: Vec<LabelEntry> = Vec::new();
    let mut pending: Vec<Relocation> = Vec::new();
    let mut li: usize = 0;
    proof {
        assert(all_lines.subrange(0, all_lines.len() as int) =~= all_lines);
        assert(SpecState {
            sections: sections.deep_view(),
            labels: labels.deep_view(),
            pending: pending.deep_view(),
        } =~= spec_initial_state());
    }
    while li < lines.len()
        invariant
            0 <= li <= all_lines.len(),
            lines.deep_view() == all_lines,
            lines@.len() == all_lines.len(),
            spec_run(spec_initial_state(), all_lines) == spec_run(
                SpecState {
                    sections: sections.deep_view(),
                    labels: labels.deep_view(),
                    pending: pending.deep_view(),
                },
                all_lines.subrange(li as int, all_lines.len() as int),
            ),
        decreases all_lines.len() - li,
    {
        let ghost st_line = SpecState {
            sections: sections.deep_view(),
            labels: labels.deep_view(),
            pending: pending.deep_view(),
        };
        let ghost rem_lines = all_lines.subrange(li as int, all_lines.len() as int);
        proof {
            assert(rem_lines[0] == all_lines[li as int]);
            assert(rem_lines.drop_first() =~= all_lines.subrange(
                li + 1,
                all_lines.len() as int,
            ));
        }
        let location: u64 = if sections.len() > 0 {
            let k = sections.len();
            sections[k - 1].content.len() as u64
        } else {
            0
        };
        proof {
            assert(location == spec_location(st_line));
        }
        match assemble_line(lines[li].as_str(), location) {
            Err(e) => {
                return Err(e);
            },
            Ok(items_vec) => {
                let ghost items0 = items_vec.deep_view();
                let mut items = items_vec;
                proof {
                    assert(items.deep_view().subrange(0, items.deep_view().len() as int)
                        =~= items0);
                }
                while items.len() > 0
                    invariant
                        spec_apply_items(st_line, items0) == spec_apply_items(
                            SpecState {
                                sections: sections.deep_view(),
                                labels: labels.deep_view(),
                                pending: pending.deep_view(),
                            },
                            items.deep_view(),
                        ),
                    decreases items@.len(),
                {
                    let ghost st_cur = SpecState {
                        sections: sections.deep_view(),
                        labels: labels.deep_view(),
                        pending: pending.deep_view(),
                    };
                    let ghost items_rem = items.deep_view();
                    let item = items.remove(0);
                    proof {
                        assert(item.deep_view() == items_rem[0]);
                        assert(items.deep_view() =~= items_rem.drop_first());
                    }
                    match item {
                        AssemblyLineResult::Bytes(bs) => {
                            let mut bs = bs;
                            let ghost bsv = bs@;
                            let k = sections.len();
                            if k == 0 {
                                return Err(AsmError::NoActiveSection);
                            }
                            let ghost secs0 = sections.deep_view();
                            let mut sec = sections.remove(k - 1);
                            sec.content.append(&mut bs);
                            sections.push(sec);
                            proof {
                                assert(sections.deep_view() =~= spec_append_content(secs0, bsv));
                            }
                        },
                        AssemblyLineResult::Label(name) => {
                            let k = sections.len();
                            if k == 0 {
                                return Err(AsmError::NoActiveSection);
                            }
                            let loc_now: u64 = sections[k - 1].content.len() as u64;
                            proof {
                                assert(loc_now == spec_location(st_cur));
                            }
                            match lookup_label(&labels, name.as_str()) {
                                Some(_) => {
                                },
                                None => {
                                    let ghost labels0 = labels.deep_view();
                                    let entry = LabelEntry {
                                        name: name,
                                        section: sections[k - 1].name.clone(),
                                        offset: loc_now,
                                    };
                                    let ghost ev = entry@;
                                    labels.push(entry);
                                    proof {
                                        assert(labels.deep_view() =~= labels0.push(ev));
                                    }
                                },
                            }
                        },
                        AssemblyLineResult::Section(name) => {
                            let ghost secs0 = sections.deep_view();
                            let ghost namev = name@;
                            sections.push(AssemblySection { name: name, content: Vec::new() });
                            proof {
                                assert(sections.deep_view() =~= secs0.push(
                                    SpecSection { name: namev, content: Seq::<u8>::empty() },
                                ));
                            }
                        },
                        AssemblyLineResult::Relocation(rel) => {
                            let k = sections.len();
                            if k == 0 {
                                return Err(AsmError::NoActiveSection);
                            }
                            let mut zeros: Vec<u8> = Vec::new();
                            match rel.typ {
                                RelocationType::U32 => {
                                    zeros.push(0);
                                    zeros.push(0);
                                    zeros.push(0);
                                    zeros.push(0);
                                },
                                RelocationType::U64 => {
                                    zeros.push(0);
                                    zeros.push(0);
                                    zeros.push(0);
                                    zeros.push(0);
                                    zeros.push(0);
                                    zeros.push(0);
                                    zeros.push(0);
                                    zeros.push(0);
                                },
                            }
                            proof {
                                assert(zeros@ =~= spec_zeros(rel.typ.spec_width()));
                            }
                            let ghost secs0 = sections.deep_view();
                            let ghost pend0 = pending.deep_view();
                            let ghost relv = rel@;
                            let mut sec = sections.remove(k - 1);
                            sec.content.append(&mut zeros);
                            sections.push(sec);
                            pending.push(rel);
                            proof {
                                assert(sections.deep_view() =~= spec_append_content(
                                    secs0,
                                    spec_zeros(relv.typ.spec_width()),
                                ));
                                assert(pending.deep_view() =~= pend0.push(relv));
                            }
                        },
                    }
                }
                proof {
                    assert(items.deep_view() =~= Seq::<SpecItem>::empty());
                }
            },
        }
        li = li + 1;
    }
    proof {
        assert(all_lines.subrange(all_lines.len() as int, all_lines.len() as int)
            =~= Seq::<Seq<char>>::empty());
    }
    // Resolve every pending relocation against the completed label table.
    let ghost final_labels = labels.deep_view();
    let ghost all_pending = pending.deep_view();
    let mut resolved: Vec<ResolvedRelocation> = Vec::new();
    let mut ri: usize = 0;
    proof {
        assert(all_pending.subrange(0, all_pending.len() as int) =~= all_pending);
        match spec_resolve(all_pending, final_labels) {
            Ok(rr) => {
                assert(resolved.deep_view() + rr =~= rr);
            },
            Err(_) => {},
        }
    }
    while ri < pending.len()
        invariant
            0 <= ri <= all_pending.len(),
            pending.deep_view() == all_pending,
            pending@.len() == all_pending.len(),
            labels.deep_view() == final_labels,
            spec_resolve(all_pending, final_labels) == (match spec_resolve(
                all_pending.subrange(ri as int, all_pending.len() as int),
                final_labels,
            ) {
                Ok(rest) => Ok::<Seq<SpecResolved>, SpecError>(resolved.deep_view() + rest),
                Err(e) => Err::<Seq<SpecResolved>, SpecError>(e),
            }),
        decreases all_pending.len() - ri,
    {
        let ghost rem = all_pending.subrange(ri as int, all_pending.len() as int);
        proof {
            assert(rem[0] == all_pending[ri as int]);
            assert(rem.drop_first() =~= all_pending.subrange(ri + 1, all_pending.len() as int));
        }
        match lookup_label(&labels, pending[ri].label.as_str()) {
            None => {
                return Err(AsmError::UndefinedLabel(pending[ri].label.clone()));
            },
            Some(idx) => {
                let ghost res0 = resolved.deep_view();
                let entry = ResolvedRelocation {
                    location: pending[ri].location,
                    typ: pending[ri].typ,
                    section: labels[idx].section.clone(),
                    addend: labels[idx].offset,
                };
                let ghost ev = entry@;
                resolved.push(entry);
                proof {
                    assert(resolved.deep_view() =~= res0.push(ev));
                    match spec_resolve(rem.drop_first(), final_labels) {
                        Ok(rest) => {
                            assert(res0 + (seq![ev] + rest) =~= resolved.deep_view() + rest);
                        },
                        Err(_) => {},
                    }
                }
            },
        }
        ri = ri + 1;
    }
    proof {
        assert(all_pending.subrange(all_pending.len() as int, all_pending.len() as int)
            =~= Seq::<SpecPending>::empty());
        match spec_resolve(all_pending, final_labels) {
            Ok(rr) => {
                assert(resolved.deep_view() + Seq::<SpecResolved>::empty()
                    =~= resolved.deep_view());
            },
            Err(_) => {},
        }
    }
    Ok(AssemblyResult { sections: sections, relocations: resolved })
}

} // verus!
