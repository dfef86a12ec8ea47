//! Verified text utilities the line encoder is built on: whitespace
//! trimming, splitting on a separator character, stripping quote or colon
//! characters, and UTF-8 encoding of characters, each with a spec-level
//! definition and an executable twin proved against it.
use vstd::prelude::*;
use vstd::string::StrSliceExecFns;
use vstd::utf8::char_is_scalar;
use vstd::utf8::encode_scalar;
use vstd::utf8::encode_utf8;

verus! {

/// ASCII whitespace, the characters the tokenizer treats as blank.
pub open spec fn is_space(c: char) -> bool {
    c == ' ' || c == '\t' || c == '\n' || c == '\r' || c == '\u{b}' || c == '\u{c}'
}

/// Exec twin of [`is_space`].
#[verifier::when_used_as_spec(is_space)]
pub fn is_space_char(c: char) -> (b: bool)
    ensures
        b == is_space(c),
{
    c == ' ' || c == '\t' || c == '\n' || c == '\r' || c == '\u{b}' || c == '\u{c}'
}

/// The sequence with every leading character satisfying `p` removed.
pub open spec fn spec_drop_start(s: Seq<char>, p: spec_fn(char) -> bool) -> Seq<char>
    decreases s.len(),
{
    if s.len() > 0 && p(s[0]) {
        spec_drop_start(s.drop_first(), p)
    } else {
        s
    }
}

/// The sequence with every trailing character satisfying `p` removed.
pub open spec fn spec_drop_end(s: Seq<char>, p: spec_fn(char) -> bool) -> Seq<char>
    decreases s.len(),
{
    if s.len() > 0 && p(s.last()) {
        spec_drop_end(s.drop_last(), p)
    } else {
        s
    }
}

/// `spec_drop_start` keeps exactly the suffix from the first index whose
/// character does not satisfy `p`.
pub proof fn lemma_drop_start_at(s: Seq<char>, p: spec_fn(char) -> bool, i: int)
    requires
        0 <= i <= s.len(),
        forall|j: int| 0 <= j < i ==> p(s[j]),
        i < s.len() ==> !p(s[i]),
    ensures
        spec_drop_start(s, p) == s.subrange(i, s.len() as int),
    decreases i,
{
    if i == 0 {
        assert(s.subrange(0, s.len() as int) =~= s);
    } else {
        lemma_drop_start_at(s.drop_first(), p, i - 1);
        assert(s.drop_first().subrange(i - 1, s.drop_first().len() as int) =~= s.subrange(
            i,
            s.len() as int,
        ));
    }
}

/// `spec_drop_end` keeps exactly the prefix up to the last index whose
/// character does not satisfy `p`.
pub proof fn lemma_drop_end_at(s: Seq<char>, p: spec_fn(char) -> bool, i: int)
    requires
        0 <= i <= s.len(),
        forall|j: int| i <= j < s.len() ==> p(s[j]),
        i > 0 ==> !p(s[i - 1]),
    ensures
        spec_drop_end(s, p) == s.subrange(0, i),
    decreases s.len(),
{
    if i == s.len() {
        assert(s.subrange(0, s.len() as int) =~= s);
    } else {
        lemma_drop_end_at(s.drop_last(), p, i);
        assert(s.drop_last().subrange(0, i) =~= s.subrange(0, i));
    }
}

/// The string with leading and trailing whitespace removed.
pub open spec fn spec_trim(s: Seq<char>) -> Seq<char> {
    spec_drop_end(spec_drop_start(s, |c: char| is_space(c)), |c: char| is_space(c))
}

/// A nonempty `spec_drop_start` result never begins with a `p` character.
proof fn lemma_drop_start_head(s: Seq<char>, p: spec_fn(char) -> bool)
    ensures
        spec_drop_start(s, p).len() > 0 ==> !p(spec_drop_start(s, p)[0]),
    decreases s.len(),
{
    if s.len() > 0 && p(s[0]) {
        lemma_drop_start_head(s.drop_first(), p);
    }
}

/// `spec_drop_end` keeps a prefix of its input and never ends with a `p`
/// character.
proof fn lemma_drop_end_shape(s: Seq<char>, p: spec_fn(char) -> bool)
    ensures
        spec_drop_end(s, p).len() <= s.len(),
        forall|i: int|
            0 <= i < spec_drop_end(s, p).len() ==> #[trigger] spec_drop_end(s, p)[i] == s[i],
        spec_drop_end(s, p).len() > 0 ==> !p(spec_drop_end(s, p).last()),
    decreases s.len(),
{
    if s.len() > 0 && p(s.last()) {
        lemma_drop_end_shape(s.drop_last(), p);
    }
}

/// Trimming an already trimmed string changes nothing.
pub proof fn lemma_trim_idempotent(s: Seq<char>)
    ensures
        spec_trim(spec_trim(s)) == spec_trim(s),
{
    let p = |c: char| is_space(c);
    let a = spec_drop_start(s, p);
    let t = spec_drop_end(a, p);
    lemma_drop_start_head(s, p);
    lemma_drop_end_shape(a, p);
    if t.len() > 0 {
        assert(t[0] == a[0]);
        assert(!p(t[0]));
        assert(!p(t.last()));
    }
    assert(spec_drop_start(t, p) == t);
    assert(spec_drop_end(t, p) == t);
}

/// Exec whitespace trim, proved equal to [`spec_trim`].
pub fn trim_str<'a>(s: &'a str) -> (t: &'a str)
    ensures
        t@ == spec_trim(s@),
{
    let ghost p = |c: char| is_space(c);
    let n: usize = s.unicode_len();
    let mut a: usize = 0;
    while a < n && is_space_char(s.get_char(a))
        invariant
            0 <= a <= n,
            forall|j: int| 0 <= j < a ==> is_space(s@[j]),
        decreases n - a,
    {
        a = a + 1;
    }
    if a == n {
        proof {
            lemma_drop_start_at(s@, p, n as int);
            lemma_drop_end_at(s@.subrange(n as int, n as int), p, 0);
        }
        return s.substring_char(n, n);
    }
    let mut b: usize = n;
    while is_space_char(s.get_char(b - 1))
        invariant
            a < b <= n,
            forall|k: int| b <= k < n ==> is_space(s@[k]),
            !is_space(s@[a as int]),
        decreases b,
    {
        b = b - 1;
    }
    let t = s.substring_char(a, b);
    proof {
        lemma_drop_start_at(s@, p, a as int);
        let mid = s@.subrange(a as int, n as int);
        lemma_drop_end_at(mid, p, b - a);
        assert(mid.subrange(0, b - a) =~= s@.subrange(a as int, b as int));
    }
    t
}

/// The string with every leading occurrence of `c` removed.
pub open spec fn spec_strip_start(s: Seq<char>, c: char) -> Seq<char>
    decreases s.len(),
{
    if s.len() > 0 && s[0] == c {
        spec_strip_start(s.drop_first(), c)
    } else {
        s
    }
}

/// The string with every trailing occurrence of `c` removed.
pub open spec fn spec_strip_end(s: Seq<char>, c: char) -> Seq<char>
    decreases s.len(),
{
    if s.len() > 0 && s.last() == c {
        spec_strip_end(s.drop_last(), c)
    } else {
        s
    }
}

/// `spec_strip_start` keeps exactly the suffix from the first index whose
/// character is not `c`.
pub proof fn lemma_strip_start_at(s: Seq<char>, c: char, i: int)
    requires
        0 <= i <= s.len(),
        forall|j: int| 0 <= j < i ==> s[j] == c,
        i < s.len() ==> s[i] != c,
    ensures
        spec_strip_start(s, c) == s.subrange(i, s.len() as int),
    decreases i,
{
    if i == 0 {
        assert(s.subrange(0, s.len() as int) =~= s);
    } else {
        lemma_strip_start_at(s.drop_first(), c, i - 1);
        assert(s.drop_first().subrange(i - 1, s.drop_first().len() as int) =~= s.subrange(
            i,
            s.len() as int,
        ));
    }
}

/// `spec_strip_end` keeps exactly the prefix up to the last index whose
/// character is not `c`.
pub proof fn lemma_strip_end_at(s: Seq<char>, c: char, i: int)
    requires
        0 <= i <= s.len(),
        forall|j: int| i <= j < s.len() ==> s[j] == c,
        i > 0 ==> s[i - 1] != c,
    ensures
        spec_strip_end(s, c) == s.subrange(0, i),
    decreases s.len(),
{
    if i == s.len() {
        assert(s.subrange(0, s.len() as int) =~= s);
    } else {
        lemma_strip_end_at(s.drop_last(), c, i);
        assert(s.drop_last().subrange(0, i) =~= s.subrange(0, i));
    }
}

/// The string with every leading and trailing occurrence of `c` removed.
pub open spec fn spec_strip_both(s: Seq<char>, c: char) -> Seq<char> {
    spec_strip_end(spec_strip_start(s, c), c)
}

/// Exec twin of [`spec_strip_end`].
pub fn strip_end_str<'a>(s: &'a str, c: char) -> (t: &'a str)
    ensures
        t@ == spec_strip_end(s@, c),
{
    let n: usize = s.unicode_len();
    let mut b: usize = n;
    while b > 0 && s.get_char(b - 1) == c
        invariant
            0 <= b <= n,
            forall|k: int| b <= k < n ==> s@[k] == c,
        decreases b,
    {
        b = b - 1;
    }
    let t = s.substring_char(0, b);
    proof {
        lemma_strip_end_at(s@, c, b as int);
    }
    t
}

/// Exec twin of [`spec_strip_both`].
pub fn strip_both_str<'a>(s: &'a str, c: char) -> (t: &'a str)
    ensures
        t@ == spec_strip_both(s@, c),
{
    let n: usize = s.unicode_len();
    let mut a: usize = 0;
    while a < n && s.get_char(a) == c
        invariant
            0 <= a <= n,
            forall|j: int| 0 <= j < a ==> s@[j] == c,
        decreases n - a,
    {
        a = a + 1;
    }
    if a == n {
        proof {
            lemma_strip_start_at(s@, c, n as int);
            lemma_strip_end_at(s@.subrange(n as int, n as int), c, 0);
        }
        return s.substring_char(n, n);
    }
    let mut b: usize = n;
    while s.get_char(b - 1) == c
        invariant
            a < b <= n,
            forall|k: int| b <= k < n ==> s@[k] == c,
            s@[a as int] != c,
        decreases b,
    {
        b = b - 1;
    }
    let t = s.substring_char(a, b);
    proof {
        lemma_strip_start_at(s@, c, a as int);
        let mid = s@.subrange(a as int, n as int);
        lemma_strip_end_at(mid, c, b - a);
        assert(mid.subrange(0, b - a) =~= s@.subrange(a as int, b as int));
    }
    t
}

/// Index of the first occurrence of `c` in `s`, or `-1` when there is none.
pub open spec fn spec_find(s: Seq<char>, c: char) -> int
    decreases s.len(),
{
    if s.len() == 0 {
        -1
    } else if s[0] == c {
        0
    } else if spec_find(s.drop_first(), c) < 0 {
        -1
    } else {
        spec_find(s.drop_first(), c) + 1
    }
}

/// `spec_find` is `-1` exactly on strings without `c`.
pub proof fn lemma_find_none(s: Seq<char>, c: char)
    requires
        forall|k: int| 0 <= k < s.len() ==> s[k] != c,
    ensures
        spec_find(s, c) == -1,
    decreases s.len(),
{
    if s.len() > 0 {
        lemma_find_none(s.drop_first(), c);
    }
}

/// `spec_find` returns the index of the first occurrence of `c`.
pub proof fn lemma_find_at(s: Seq<char>, c: char, j: int)
    requires
        0 <= j < s.len(),
        s[j] == c,
        forall|k: int| 0 <= k < j ==> s[k] != c,
    ensures
        spec_find(s, c) == j,
    decreases j,
{
    if j > 0 {
        lemma_find_at(s.drop_first(), c, j - 1);
    }
}

/// Exec search for the first occurrence of `c` at or after `from`.
pub fn find_char_from(s: &str, from: usize, c: char) -> (r: Option<usize>)
    requires
        from <= s@.len(),
    ensures
        match r {
            Some(j) => from <= j < s@.len() && s@[j as int] == c && (forall|k: int|
                from <= k < j ==> s@[k] != c),
            None => forall|k: int| from <= k < s@.len() ==> s@[k] != c,
        },
{
    let n: usize = s.unicode_len();
    let mut i: usize = from;
    while i < n
        invariant
            from <= i <= n,
            forall|k: int| from <= k < i ==> s@[k] != c,
        decreases n - i,
    {
        if s.get_char(i) == c {
            return Some(i);
        }
        i = i + 1;
    }
    None
}

/// `s` split on every occurrence of `c`; separators are not kept, empty
/// pieces are.  The result always has one more piece than `s` has
/// occurrences of `c`.
pub open spec fn spec_split(s: Seq<char>, c: char) -> Seq<Seq<char>>
    decreases s.len(),
{
    let i = spec_find(s, c);
    if 0 <= i < s.len() {
        seq![s.subrange(0, i)] + spec_split(s.subrange(i + 1, s.len() as int), c)
    } else {
        seq![s]
    }
}

/// Exec twin of [`spec_split`], returning owned pieces.
pub fn split_str(s: &str, c: char) -> (parts: Vec<String>)
    ensures
        parts.deep_view() == spec_split(s@, c),
{
    let n: usize = s.unicode_len();
    let mut parts: Vec<String> = Vec::new();
    let mut pos: usize = 0;
    proof {
        assert(s@.subrange(0, n as int) =~= s@);
        assert(parts.deep_view() =~= Seq::<Seq<char>>::empty());
        assert(parts.deep_view() + spec_split(s@, c) =~= spec_split(s@, c));
    }
    loop
        invariant
            pos <= n,
            n == s@.len(),
            spec_split(s@, c) == parts.deep_view() + spec_split(
                s@.subrange(pos as int, n as int),
                c,
            ),
        decreases n - pos,
    {
        let ghost rem = s@.subrange(pos as int, n as int);
        match find_char_from(s, pos, c) {
            Some(j) => {
                proof {
                    assert forall|k: int| 0 <= k < j - pos implies rem[k] != c by {
                        assert(rem[k] == s@[pos + k]);
                    }
                    assert(rem[j - pos] == c);
                    lemma_find_at(rem, c, j - pos);
                    assert(rem.subrange(0, j - pos) =~= s@.subrange(pos as int, j as int));
                    assert(rem.subrange(j - pos + 1, rem.len() as int) =~= s@.subrange(
                        j + 1,
                        n as int,
                    ));
                }
                let piece = s.substring_char(pos, j).to_owned();
                parts.push(piece);
                proof {
                    assert(parts.deep_view() =~= parts.deep_view().drop_last().push(
                        s@.subrange(pos as int, j as int),
                    ));
                    assert(spec_split(s@, c) =~= parts.deep_view() + spec_split(
                        s@.subrange(j + 1, n as int),
                        c,
                    ));
                }
                pos = j + 1;
            },
            None => {
                proof {
                    assert forall|k: int| 0 <= k < rem.len() implies rem[k] != c by {
                        assert(rem[k] == s@[pos + k]);
                    }
                    lemma_find_none(rem, c);
                }
                let piece = s.substring_char(pos, n).to_owned();
                parts.push(piece);
                proof {
                    assert(parts.deep_view() =~= parts.deep_view().drop_last().push(rem));
                    assert(spec_split(s@, c) =~= parts.deep_view());
                }
                return parts;
            },
        }
    }
}

/// Exec equality on string slices, decided character by character.
pub fn str_eq(a: &str, b: &str) -> (r: bool)
    ensures
        r == (a@ == b@),
{
    let na: usize = a.unicode_len();
    let nb: usize = b.unicode_len();
    if na != nb {
        return false;
    }
    let mut i: usize = 0;
    while i < na
        invariant
            0 <= i <= na,
            na == a@.len(),
            na == b@.len(),
            forall|j: int| 0 <= j < i ==> a@[j] == b@[j],
        decreases na - i,
    {
        if a.get_char(i) != b.get_char(i) {
            return false;
        }
        i = i + 1;
    }
    proof {
        assert(a@ =~= b@);
    }
    true
}

/// Appending one character to a sequence appends that character's UTF-8
/// encoding to the sequence's encoding.
pub proof fn lemma_encode_utf8_snoc(s: Seq<char>, c: char)
    ensures
        encode_utf8(s.push(c)) == encode_utf8(s) + encode_scalar(c as u32),
    decreases s.len(),
{
    if s.len() == 0 {
        assert(s.push(c).drop_first() =~= s);
        assert(encode_utf8(s.push(c)) =~= encode_utf8(s) + encode_scalar(c as u32));
    } else {
        assert(s.push(c).drop_first() =~= s.drop_first().push(c));
        lemma_encode_utf8_snoc(s.drop_first(), c);
        assert(encode_utf8(s.push(c)) =~= encode_utf8(s) + encode_scalar(c as u32));
    }
}

/// A character sequence's UTF-8 encoding takes at most four bytes per
/// character.
pub proof fn lemma_encode_utf8_len_bound(s: Seq<char>)
    ensures
        encode_utf8(s).len() <= 4 * s.len(),
    decreases s.len(),
{
    if s.len() > 0 {
        lemma_encode_utf8_len_bound(s.drop_first());
        assert(encode_scalar(s[0] as u32).len() <= 4);
    }
}

/// Appends the UTF-8 encoding of one character, exactly as
/// `vstd::utf8::encode_scalar` describes it.
pub fn push_char_utf8(out: &mut Vec<u8>, c: char)
    ensures
        final(out)@ == old(out)@ + encode_scalar(c as u32),
{
    proof {
        char_is_scalar(c);
    }
    let v: u32 = c as u32;
    if v <= 0x7F {
        proof {
            assert(v & 0x7F < 256) by (bit_vector);
        }
        out.push((v & 0x7F) as u8);
        assert(final(out)@ =~= old(out)@ + encode_scalar(c as u32));
    } else if v <= 0x7FF {
        proof {
            assert((v >> 6) & 0x1F < 256 && v & 0x3F < 256) by (bit_vector);
        }
        out.push(0xC0 | ((v >> 6) & 0x1F) as u8);
        out.push(0x80 | (v & 0x3F) as u8);
        assert(final(out)@ =~= old(out)@ + encode_scalar(c as u32));
    } else if v <= 0xFFFF {
        proof {
            assert((v >> 12) & 0x0F < 256 && (v >> 6) & 0x3F < 256 && v & 0x3F < 256)
                by (bit_vector);
        }
        out.push(0xE0 | ((v >> 12) & 0x0F) as u8);
        out.push(0x80 | ((v >> 6) & 0x3F) as u8);
        out.push(0x80 | (v & 0x3F) as u8);
        assert(final(out)@ =~= old(out)@ + encode_scalar(c as u32));
    } else {
        proof {
            assert((v >> 18) & 0x7 < 256 && (v >> 12) & 0x3F < 256 && (v >> 6) & 0x3F < 256 && v
                & 0x3F < 256) by (bit_vector);
        }
        out.push(0xF0 | ((v >> 18) & 0x7) as u8);
        out.push(0x80 | ((v >> 12) & 0x3F) as u8);
        out.push(0x80 | ((v >> 6) & 0x3F) as u8);
        out.push(0x80 | (v & 0x3F) as u8);
        assert(final(out)@ =~= old(out)@ + encode_scalar(c as u32));
    }
}

/// Appends the UTF-8 encoding of a whole string, exactly as
/// `vstd::utf8::encode_utf8` describes it.
pub fn push_str_utf8(out: &mut Vec<u8>, s: &str)
    ensures
        final(out)@ == old(out)@ + encode_utf8(s@),
{
    let n: usize = s.unicode_len();
    let mut i: usize = 0;
    while i < n
        invariant
            0 <= i <= n,
            n == s@.len(),
            out@ == old(out)@ + encode_utf8(s@.subrange(0, i as int)),
        decreases n - i,
    {
        let c = s.get_char(i);
        push_char_utf8(out, c);
        proof {
            assert(s@.subrange(0, i as int).push(s@[i as int]) =~= s@.subrange(0, i + 1));
            lemma_encode_utf8_snoc(s@.subrange(0, i as int), c);
        }
        i = i + 1;
    }
    proof {
        assert(s@.subrange(0, n as int) =~= s@);
    }
}

} // verus!
