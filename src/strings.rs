//! The strings section: `key=content` lines up to the `.ops` marker, compiled
//! into length-prefixed entries and a table of their offsets.
use crate::constants::MAX_STRING_BYTES;
use crate::error::{AsmError, ErrorKind};
use crate::table::SymbolTable;
use crate::text::{chars_of, slice_chars, string_of, trim, trim_chars};
use vstd::prelude::*;
use vstd::utf8::encode_utf8;

verus! {

/// Largest size of one string entry's content, in bytes.
pub const MAX_STRING_LEN: usize = 255;

/// The line that ends the strings section.
pub open spec fn ops_marker() -> Seq<char> {
    seq!['.', 'o', 'p', 's']
}

pub open spec fn is_key_char(c: char) -> bool {
    ('a' <= c && c <= 'z') || ('A' <= c && c <= 'Z') || ('0' <= c && c <= '9') || c == '_'
}

/// A symbol key: `[A-Za-z0-9_]+`.
pub open spec fn valid_key(k: Seq<char>) -> bool {
    k.len() > 0 && forall|i: int| 0 <= i < k.len() ==> is_key_char(#[trigger] k[i])
}

/// `i` is the first position of `c` in `s`.
pub open spec fn is_first(s: Seq<char>, c: char, i: int) -> bool {
    0 <= i < s.len() && s[i] == c && forall|j: int| 0 <= j < i ==> s[j] != c
}

pub open spec fn contains_char(s: Seq<char>, c: char) -> bool {
    exists|i: int| 0 <= i < s.len() && s[i] == c
}

/// The first position of `c` in `s`, where `contains_char(s, c)`.
pub open spec fn first_of(s: Seq<char>, c: char) -> int {
    choose|i: int| is_first(s, c, i)
}

/// Key and content of one `key=content` line, or what is wrong with it. The
/// first `=` splits; without `keep_whitespace` the content is trimmed.
pub open spec fn string_def(line: Seq<char>, keep_whitespace: bool) -> Result<(Seq<char>, Seq<char>), ErrorKind> {
    if !contains_char(line, '=') {
        Err(ErrorKind::MalformedString)
    } else {
        let i = first_of(line, '=');
        let key = trim(line.take(i));
        let raw = line.skip(i + 1);
        let content = if keep_whitespace { raw } else { trim(raw) };
        if !valid_key(key) {
            Err(ErrorKind::InvalidKey)
        } else if encode_utf8(content).len() > MAX_STRING_LEN {
            Err(ErrorKind::StringTooLong)
        } else {
            Ok((key, content))
        }
    }
}

/// Key and content bytes of one `key=content` line, or what is wrong with it.
pub open spec fn string_line(line: Seq<char>, keep_whitespace: bool) -> Result<(Seq<char>, Seq<u8>), ErrorKind> {
    match string_def(line, keep_whitespace) {
        Ok((key, content)) => Ok((key, encode_utf8(content))),
        Err(e) => Err(e),
    }
}

/// Splits a `key=content` line into its key and content.
pub fn split_string_line(c: &Vec<char>, keep_whitespace: bool) -> (r: Result<(Vec<char>, String), ErrorKind>)
    ensures
        r matches Ok((k, v)) ==> string_def(c@, keep_whitespace) == Ok::<_, ErrorKind>((k@, v@)),
        r matches Err(e) ==> string_def(c@, keep_whitespace) == Err::<(Seq<char>, Seq<char>), _>(e),
{
    let eq = match find_char(c, '=') {
        Some(i) => i,
        None => {
            return Err(ErrorKind::MalformedString);
        },
    };
    let key = trim_chars(&slice_chars(c, 0, eq));
    let n = c.len();
    assert(eq < n);
    let raw = slice_chars(c, eq + 1, n);
    let content = if keep_whitespace {
        raw
    } else {
        trim_chars(&raw)
    };
    proof {
        assert(c@.take(eq as int) =~= c@.subrange(0, eq as int));
        assert(c@.skip(eq + 1) =~= c@.subrange(eq + 1, c@.len() as int));
    }
    if !is_valid_key(&key) {
        return Err(ErrorKind::InvalidKey);
    }
    let text = string_of(&content);
    let width = text.as_str().as_bytes().len();
    proof {
        assert(width == encode_utf8(content@).len());
    }
    if width > MAX_STRING_LEN {
        return Err(ErrorKind::StringTooLong);
    }
    Ok((key, text))
}

/// Compiles `lines` onto the addresses `addrs` and bytes `out` compiled so far.
/// Gives the outcome and how many lines were consumed.
pub open spec fn compile_from(
    lines: Seq<Seq<char>>,
    keep_whitespace: bool,
    addrs: Map<Seq<char>, u16>,
    out: Seq<u8>,
) -> (Result<(Map<Seq<char>, u16>, Seq<u8>), ErrorKind>, nat)
    decreases lines.len(),
{
    if lines.len() == 0 {
        (Err(ErrorKind::MissingOps), 0)
    } else if lines[0] == ops_marker() {
        (Ok((addrs, out)), 1)
    } else {
        match string_line(lines[0], keep_whitespace) {
            Err(k) => (Err(k), 1),
            Ok((key, bytes)) => {
                if addrs.contains_key(key) {
                    (Err(ErrorKind::DuplicateKey), 1)
                } else if out.len() + 1 + bytes.len() > MAX_STRING_BYTES {
                    (Err(ErrorKind::StringsTooLarge), 1)
                } else {
                    let rest = compile_from(
                        lines.drop_first(),
                        keep_whitespace,
                        addrs.insert(key, out.len() as u16),
                        out + seq![bytes.len() as u8] + bytes,
                    );
                    (rest.0, rest.1 + 1)
                }
            }
        }
    }
}

/// The strings section of `lines`: the offset of each key and the section's bytes.
pub open spec fn compile_strings_spec(lines: Seq<Seq<char>>, keep_whitespace: bool) -> (
    Result<(Map<Seq<char>, u16>, Seq<u8>), ErrorKind>,
    nat,
) {
    compile_from(lines, keep_whitespace, Map::empty(), Seq::empty())
}

pub open spec fn views(lines: Seq<String>) -> Seq<Seq<char>> {
    lines.map_values(|l: String| l@)
}

fn is_ops_marker(c: &Vec<char>) -> (r: bool)
    ensures
        r == (c@ == ops_marker()),
{
    let r = c.len() == 4 && c[0] == '.' && c[1] == 'o' && c[2] == 'p' && c[3] == 's';
    proof {
        if r {
            assert(c@ =~= ops_marker());
        }
    }
    r
}

fn is_key_character(c: char) -> (r: bool)
    ensures
        r == is_key_char(c),
{
    ('a' <= c && c <= 'z') || ('A' <= c && c <= 'Z') || ('0' <= c && c <= '9') || c == '_'
}

/// Whether `k` is a valid symbol key.
pub fn is_valid_key(k: &Vec<char>) -> (r: bool)
    ensures
        r == valid_key(k@),
{
    if k.len() == 0 {
        return false;
    }
    let mut i: usize = 0;
    while i < k.len()
        invariant
            i <= k@.len(),
            forall|j: int| 0 <= j < i ==> is_key_char(#[trigger] k@[j]),
        decreases k@.len() - i,
    {
        if !is_key_character(k[i]) {
            return false;
        }
        i = i + 1;
    }
    true
}

/// The first position of `c` in `s`, if any.
pub fn find_char(s: &Vec<char>, c: char) -> (r: Option<usize>)
    ensures
        r is None <==> !contains_char(s@, c),
        r matches Some(i) ==> i == first_of(s@, c) && is_first(s@, c, i as int),
{
    let mut i: usize = 0;
    while i < s.len()
        invariant
            i <= s@.len(),
            forall|j: int| 0 <= j < i ==> s@[j] != c,
        decreases s@.len() - i,
    {
        if s[i] == c {
            proof {
                assert(is_first(s@, c, i as int));
                let f = first_of(s@, c);
                assert(is_first(s@, c, f));
                if f < i {
                    assert(s@[f] != c);
                } else if f > i {
                    assert(s@[i as int] != c);
                }
            }
            return Some(i);
        }
        i = i + 1;
    }
    None
}

/// Appends the bytes of `b` to `out`.
pub fn append_bytes(out: &mut Vec<u8>, b: &[u8])
    ensures
        final(out)@ == old(out)@ + b@,
{
    let mut i: usize = 0;
    while i < b.len()
        invariant
            i <= b@.len(),
            out@ == old(out)@ + b@.take(i as int),
        decreases b@.len() - i,
    {
        out.push(b[i]);
        proof {
            assert(b@.take(i + 1) =~= b@.take(i as int).push(b@[i as int]));
        }
        i = i + 1;
    }
    proof {
        assert(b@.take(b@.len() as int) =~= b@);
    }
}

/// Compiles the strings section: consumes `key=content` lines from the front of
/// `lines` up to and including the `.ops` marker. Each entry is one length
/// byte and its content bytes; the table gives each key's offset in the
/// section. Without `keep_whitespace` content is trimmed.
pub fn compile_strings(lines: &mut Vec<String>, keep_whitespace: bool) -> (r: Result<
    (SymbolTable<u16>, Vec<u8>),
    AsmError,
>)
    ensures
        ({
            let (res, n) = compile_strings_spec(views(old(lines)@), keep_whitespace);
            &&& n <= old(lines)@.len()
            &&& final(lines)@ == old(lines)@.skip(n as int)
            &&& res is Ok <==> r is Ok
            &&& r matches Ok((t, bytes)) ==> t.wf() && res == Ok::<_, ErrorKind>((t.map(), bytes@))
            &&& r matches Err(e) ==> res == Err::<(Map<Seq<char>, u16>, Seq<u8>), _>(e.kind)
        }),
{
    let ghost all = views(old(lines)@);
    let ghost orig = old(lines)@;
    let mut table: SymbolTable<u16> = SymbolTable::new();
    let mut output: Vec<u8> = Vec::new();
    let mut consumed: usize = 0;
    let total = lines.len();
    proof {
        assert(table.map() =~= Map::<Seq<char>, u16>::empty());
        assert(orig.skip(0) =~= orig);
    }
    loop
        invariant
            table.wf(),
            output@.len() <= MAX_STRING_BYTES,
            consumed <= orig.len() == total,
            lines@ == orig.skip(consumed as int),
            all == views(orig),
            orig == old(lines)@,
            ({
                let whole = compile_strings_spec(all, keep_whitespace);
                let here = compile_from(views(lines@), keep_whitespace, table.map(), output@);
                whole.0 == here.0 && whole.1 == here.1 + consumed
            }),
        decreases lines@.len(),
    {
        if lines.len() == 0 {
            proof {
                assert(views(lines@).len() == 0);
                assert(compile_from(views(lines@), keep_whitespace, table.map(), output@) == (Err::<
                    (Map<Seq<char>, u16>, Seq<u8>),
                    ErrorKind,
                >(ErrorKind::MissingOps), 0nat));
            }
            return Err(AsmError::new(ErrorKind::MissingOps, String::new()));
        }
        let ghost rest = lines@;
        proof {
            assert(rest.len() == orig.len() - consumed);
            assert(views(rest)[0] == rest[0]@);
            assert(views(rest).drop_first() =~= views(rest.drop_first()));
            assert(orig.skip(consumed + 1) =~= rest.drop_first());
        }
        let line = lines.remove(0);
        consumed = consumed + 1;
        let c = chars_of(line.as_str());
        proof {
            assert(views(rest)[0] == c@);
        }
        if is_ops_marker(&c) {
            proof {
                assert(compile_from(views(rest), keep_whitespace, table.map(), output@) == (Ok::<
                    (Map<Seq<char>, u16>, Seq<u8>),
                    ErrorKind,
                >((table.map(), output@)), 1nat));
            }
            return Ok((table, output));
        }
        let (key_chars, content_string) = match split_string_line(&c, keep_whitespace) {
            Ok(x) => x,
            Err(kind) => {
                return Err(AsmError::new(kind, line));
            },
        };
        let bytes = content_string.as_str().as_bytes();
        let key = string_of(&key_chars);
        if table.find(key.as_str()).is_some() {
            return Err(AsmError::new(ErrorKind::DuplicateKey, line));
        }
        proof {
            assert(bytes@ == encode_utf8(content_string@));
            assert(string_line(c@, keep_whitespace) == Ok::<_, ErrorKind>((key_chars@, bytes@)));
            assert(!table.map().contains_key(key@));
        }
        if output.len() + 1 + bytes.len() > MAX_STRING_BYTES {
            proof {
                assert(compile_from(views(rest), keep_whitespace, table.map(), output@) == (Err::<
                    (Map<Seq<char>, u16>, Seq<u8>),
                    ErrorKind,
                >(ErrorKind::StringsTooLarge), 1nat));
            }
            return Err(AsmError::new(ErrorKind::StringsTooLarge, line));
        }
        let ghost old_out = output@;
        let addr = output.len() as u16;
        table.insert(key, addr);
        output.push(bytes.len() as u8);
        append_bytes(&mut output, bytes);
        proof {
            assert(output@ =~= old_out + seq![bytes@.len() as u8] + bytes@);
            assert(views(lines@) =~= views(rest).drop_first());
        }
    }
}

} // verus!
