//! The front end: a whole source, header and sections, into a `ProgramModel`.
//!
//! A source is, in order: the program name, its version, an optional
//! `.strings` marker and `key=content` lines, an optional `.data` marker and
//! data lines (a key, then one or more byte tokens), the `.ops` marker, and the
//! ops section. A `#` starts a comment; blank lines are skipped. Line numbers
//! count from 1.
use crate::error::{AsmError, ErrorKind};
use crate::language::{string_views, tokenize, tokens};
use crate::ops_section::{compile_ops, label_lines, op_view, ops_from, OpView};
use crate::params::{number_of, parse_number, strip_comment, strip_trailing_comment};
use crate::program_model::{DataModel, LabelModel, OpModel, ProgramModel, StringModel};
use crate::strings::{contains_char, find_char, first_of, is_valid_key, ops_marker, split_string_line, string_def, valid_key};
use crate::table::SymbolTable;
use crate::text::{chars_of, slice_chars, string_of};
use vstd::prelude::*;

verus! {

pub open spec fn strings_marker() -> Seq<char> {
    seq!['.', 's', 't', 'r', 'i', 'n', 'g', 's']
}

pub open spec fn data_marker() -> Seq<char> {
    seq!['.', 'd', 'a', 't', 'a']
}

/// The part of a line before its comment.
pub open spec fn before_comment(s: Seq<char>) -> Seq<char> {
    if contains_char(s, '#') {
        s.take(first_of(s, '#'))
    } else {
        s
    }
}

/// The bytes the number tokens `toks` give, if all are numbers.
pub open spec fn numbers_of(toks: Seq<Seq<char>>) -> Option<Seq<u8>>
    decreases toks.len(),
{
    if toks.len() == 0 {
        Some(seq![])
    } else {
        match (numbers_of(toks.drop_last()), number_of(toks.last())) {
            (Some(b), Some(n)) => Some(b.push(n)),
            _ => None,
        }
    }
}

proof fn lemma_numbers_prefix(toks: Seq<Seq<char>>, j: int)
    requires
        0 <= j <= toks.len(),
        numbers_of(toks.take(j)) is None,
    ensures
        numbers_of(toks) is None,
    decreases toks.len() - j,
{
    if j < toks.len() {
        assert(toks.take(j + 1).drop_last() =~= toks.take(j));
        lemma_numbers_prefix(toks, j + 1);
    } else {
        assert(toks.take(j) =~= toks);
    }
}

/// Key and bytes of one data line, or what is wrong with it.
pub open spec fn data_def(s: Seq<char>) -> Result<(Seq<char>, Seq<u8>), ErrorKind> {
    let toks = tokens(s);
    if toks.len() < 2 {
        Err(ErrorKind::MalformedData)
    } else if !valid_key(toks[0]) {
        Err(ErrorKind::InvalidKey)
    } else {
        match numbers_of(toks.drop_first()) {
            None => Err(ErrorKind::InvalidNumber),
            Some(b) => Ok((toks[0], b)),
        }
    }
}

/// Where the front end is in the source.
#[derive(Clone, Copy, PartialEq, Eq, Structural)]
pub enum Section {
    Name,
    Version,
    Strings,
    Data,
}

/// Name, version, strings (content and line) and data (bytes and line) read so far.
pub type FrontView = (Seq<char>, Seq<char>, Map<Seq<char>, (Seq<char>, usize)>, Map<Seq<char>, (Seq<u8>, usize)>);

/// Reads the source from line `i` in section `sec` up to the `.ops` marker:
/// what was read, and the index of the first line of the ops section.
pub open spec fn front_from(
    lines: Seq<Seq<char>>,
    keep_whitespace: bool,
    i: int,
    sec: Section,
    st: FrontView,
) -> Result<(FrontView, int), ErrorKind>
    decreases lines.len() - i,
{
    if i >= lines.len() || i < 0 {
        Err(ErrorKind::MissingOps)
    } else {
        let s = strip_comment(lines[i]);
        let num = (i + 1) as usize;
        if s.len() == 0 {
            front_from(lines, keep_whitespace, i + 1, sec, st)
        } else {
            match sec {
                Section::Name => front_from(lines, keep_whitespace, i + 1, Section::Version, (s, st.1, st.2, st.3)),
                Section::Version => front_from(lines, keep_whitespace, i + 1, Section::Strings, (st.0, s, st.2, st.3)),
                Section::Strings => if s == ops_marker() {
                    Ok((st, i + 1))
                } else if s == data_marker() {
                    front_from(lines, keep_whitespace, i + 1, Section::Data, st)
                } else if s == strings_marker() {
                    front_from(lines, keep_whitespace, i + 1, Section::Strings, st)
                } else {
                    match string_def(before_comment(lines[i]), keep_whitespace) {
                        Err(e) => Err(e),
                        Ok((k, c)) => if st.2.contains_key(k) {
                            Err(ErrorKind::DuplicateKey)
                        } else {
                            front_from(
                                lines,
                                keep_whitespace,
                                i + 1,
                                Section::Strings,
                                (st.0, st.1, st.2.insert(k, (c, num)), st.3),
                            )
                        },
                    }
                },
                Section::Data => if s == ops_marker() {
                    Ok((st, i + 1))
                } else {
                    match data_def(s) {
                        Err(e) => Err(e),
                        Ok((k, b)) => if st.3.contains_key(k) {
                            Err(ErrorKind::DuplicateKey)
                        } else {
                            front_from(
                                lines,
                                keep_whitespace,
                                i + 1,
                                Section::Data,
                                (st.0, st.1, st.2, st.3.insert(k, (b, num))),
                            )
                        },
                    }
                },
            }
        }
    }
}

/// What a whole source assembles to: header and tables, then ops and label lines.
pub open spec fn assemble_spec(lines: Seq<Seq<char>>, keep_whitespace: bool) -> Result<
    (FrontView, Seq<OpView>, Map<Seq<char>, usize>),
    ErrorKind,
> {
    match front_from(lines, keep_whitespace, 0, Section::Name, (seq![], seq![], Map::empty(), Map::empty())) {
        Err(e) => Err(e),
        Ok((st, start)) => match ops_from(lines, start, seq![], Map::empty()) {
            Err(e) => Err(e),
            Ok((ops, labels)) => Ok((st, ops, labels)),
        },
    }
}

pub open spec fn strings_view(t: SymbolTable<StringModel>) -> Map<Seq<char>, (Seq<char>, usize)> {
    Map::new(|k: Seq<char>| t.map().contains_key(k), |k: Seq<char>| (t.map()[k].content@, t.map()[k].definition.line_num))
}

pub open spec fn data_view(t: SymbolTable<DataModel>) -> Map<Seq<char>, (Seq<u8>, usize)> {
    Map::new(|k: Seq<char>| t.map().contains_key(k), |k: Seq<char>| (t.map()[k].content@, t.map()[k].definition.line_num))
}

fn chars_equal(a: &Vec<char>, b: &Vec<char>) -> (r: bool)
    ensures
        r == (a@ == b@),
{
    if a.len() != b.len() {
        return false;
    }
    let mut i: usize = 0;
    while i < a.len()
        invariant
            i <= a@.len() == b@.len(),
            forall|j: int| 0 <= j < i ==> a@[j] == b@[j],
        decreases a@.len() - i,
    {
        if a[i] != b[i] {
            return false;
        }
        i = i + 1;
    }
    proof {
        assert(a@ =~= b@);
    }
    true
}

/// Reads a data line: its key and bytes.
pub fn parse_data_line(s: &str) -> (r: Result<(String, Vec<u8>), ErrorKind>)
    ensures
        r matches Ok((k, b)) ==> data_def(s@) == Ok::<_, ErrorKind>((k@, b@)),
        r matches Err(e) ==> data_def(s@) == Err::<(Seq<char>, Seq<u8>), _>(e),
{
    let toks = tokenize(s);
    let ghost tv = string_views(toks@);
    if toks.len() < 2 {
        return Err(ErrorKind::MalformedData);
    }
    let key = chars_of(toks[0].as_str());
    proof {
        assert(tv[0] == key@);
    }
    if !is_valid_key(&key) {
        return Err(ErrorKind::InvalidKey);
    }
    let mut bytes: Vec<u8> = Vec::new();
    let mut j: usize = 1;
    proof {
        assert(tv.drop_first().take(0) =~= Seq::<Seq<char>>::empty());
    }
    while j < toks.len()
        invariant
            1 <= j <= toks@.len(),
            tv == string_views(toks@),
            tv == tokens(s@),
            toks@.len() >= 2,
            valid_key(tv[0]),
            key@ == tv[0],
            numbers_of(tv.drop_first().take(j - 1)) == Some(bytes@),
        decreases toks@.len() - j,
    {
        let ghost pre = tv.drop_first().take(j as int);
        proof {
            assert(pre.drop_last() =~= tv.drop_first().take(j - 1));
            assert(pre.last() == toks@[j as int]@);
        }
        match parse_number(toks[j].as_str()) {
            Ok(p) => {
                match p {
                    crate::params::Param::Number(n) => {
                        bytes.push(n);
                    },
                    _ => {},
                }
            },
            Err(_) => {
                proof {
                    assert(numbers_of(pre) is None);
                    lemma_numbers_prefix(tv.drop_first(), j as int);
                }
                return Err(ErrorKind::InvalidNumber);
            },
        }
        j = j + 1;
    }
    proof {
        assert(tv.drop_first().take(toks@.len() - 1) =~= tv.drop_first());
    }
    Ok((string_of(&key), bytes))
}

/// Assembles a whole source into its program.
pub fn assemble(lines: &Vec<String>, keep_whitespace: bool) -> (r: Result<ProgramModel, AsmError>)
    ensures
        ({
            let res = assemble_spec(lines@.map_values(|l: String| l@), keep_whitespace);
            &&& res is Ok <==> r is Ok
            &&& r matches Ok(m) ==> {
                &&& m.wf()
                &&& res == Ok::<_, ErrorKind>(
                    (
                        (m.name@, m.version@, strings_view(m.strings), data_view(m.data)),
                        m.ops@.map_values(|o: OpModel| op_view(o)),
                        label_lines(m.labels),
                    ),
                )
            }
            &&& r matches Err(e) ==> res is Err && res->Err_0 == e.kind
        }),
{
    let ghost all = lines@.map_values(|l: String| l@);
    let mut sec = Section::Name;
    let mut name: Vec<char> = Vec::new();
    let mut version: Vec<char> = Vec::new();
    let mut strings: SymbolTable<StringModel> = SymbolTable::new();
    let mut data: SymbolTable<DataModel> = SymbolTable::new();
    let ops_m: Vec<char> = vec!['.', 'o', 'p', 's'];
    let data_m: Vec<char> = vec!['.', 'd', 'a', 't', 'a'];
    let strings_m: Vec<char> = vec!['.', 's', 't', 'r', 'i', 'n', 'g', 's'];
    let total = lines.len();
    let mut i: usize = 0;
    proof {
        assert(strings_view(strings) =~= Map::<Seq<char>, (Seq<char>, usize)>::empty());
        assert(data_view(data) =~= Map::<Seq<char>, (Seq<u8>, usize)>::empty());
        assert(name@ =~= Seq::<char>::empty());
        assert(version@ =~= Seq::<char>::empty());
    }
    loop
        invariant
            i <= lines@.len() == total,
            all == lines@.map_values(|l: String| l@),
            strings.wf(),
            data.wf(),
            ops_m@ == ops_marker(),
            data_m@ == data_marker(),
            strings_m@ == strings_marker(),
            front_from(all, keep_whitespace, 0, Section::Name, (seq![], seq![], Map::empty(), Map::empty()))
                == front_from(all, keep_whitespace, i as int, sec, (name@, version@, strings_view(strings), data_view(data))),
        ensures
            i < lines@.len() == total,
            all == lines@.map_values(|l: String| l@),
            strings.wf(),
            data.wf(),
            front_from(all, keep_whitespace, 0, Section::Name, (seq![], seq![], Map::empty(), Map::empty())) == Ok::<
                _,
                ErrorKind,
            >(((name@, version@, strings_view(strings), data_view(data)), i + 1)),
        decreases lines@.len() - i,
    {
        if i >= lines.len() {
            return Err(AsmError::new(ErrorKind::MissingOps, String::new()));
        }
        let line = &lines[i];
        let num = i + 1;
        proof {
            assert(all[i as int] == line@);
        }
        let stripped = strip_trailing_comment(line.as_str());
        let s = chars_of(stripped.as_str());
        if s.len() == 0 {
            i = i + 1;
            continue;
        }
        match sec {
            Section::Name => {
                name = s;
                sec = Section::Version;
            },
            Section::Version => {
                version = s;
                sec = Section::Strings;
            },
            Section::Strings => {
                if chars_equal(&s, &ops_m) {
                    break;
                } else if chars_equal(&s, &data_m) {
                    sec = Section::Data;
                } else if !chars_equal(&s, &strings_m) {
                    let c = chars_of(line.as_str());
                    let body = match find_char(&c, '#') {
                        Some(h) => slice_chars(&c, 0, h),
                        None => c,
                    };
                    proof {
                        assert(body@ =~= before_comment(line@));
                    }
                    let (key, content) = match split_string_line(&body, keep_whitespace) {
                        Ok(x) => x,
                        Err(kind) => {
                            return Err(AsmError::new(kind, line.clone()));
                        },
                    };
                    let key = string_of(&key);
                    if strings.find(key.as_str()).is_some() {
                        proof {
                            assert(strings_view(strings).contains_key(key@));
                        }
                        return Err(AsmError::new(ErrorKind::DuplicateKey, line.clone()));
                    }
                    let ghost before = strings_view(strings);
                    let model = StringModel::new(key.clone(), content, line.clone(), num);
                    let ghost entry = (model.content@, num);
                    strings.insert(key, model);
                    proof {
                        assert(strings_view(strings) =~= before.insert(key@, entry));
                    }
                }
            },
            Section::Data => {
                if chars_equal(&s, &ops_m) {
                    break;
                }
                let (key, bytes) = match parse_data_line(stripped.as_str()) {
                    Ok(x) => x,
                    Err(kind) => {
                        return Err(AsmError::new(kind, line.clone()));
                    },
                };
                if data.find(key.as_str()).is_some() {
                    proof {
                        assert(data_view(data).contains_key(key@));
                    }
                    return Err(AsmError::new(ErrorKind::DuplicateKey, line.clone()));
                }
                let ghost before = data_view(data);
                let model = DataModel::new(key.clone(), bytes, line.clone(), num);
                let ghost entry = (model.content@, num);
                data.insert(key, model);
                proof {
                    assert(data_view(data) =~= before.insert(key@, entry));
                }
            },
        }
        i = i + 1;
    }
    let (ops, labels) = match compile_ops(lines, i + 1) {
        Ok(x) => x,
        Err(e) => {
            return Err(e);
        },
    };
    Ok(ProgramModel {
        name: string_of(&name),
        version: string_of(&version),
        ops,
        strings,
        data,
        labels,
    })
}

} // verus!
