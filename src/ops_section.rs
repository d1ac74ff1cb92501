//! The ops section: instruction lines and label definitions, after the
//! `.ops` marker, compiled into ops in source order and a label table.
use crate::error::{AsmError, ErrorKind};
use crate::language::{param_views, parse_line, parse_line_spec};
use crate::params::{strip_comment, strip_trailing_comment, ParamView};
use crate::program_model::{LabelModel, OpModel};
use crate::strings::{is_valid_key, valid_key};
use crate::table::SymbolTable;
use crate::text::{chars_of, slice_chars, string_of, trim, trim_chars};
use vstd::prelude::*;

verus! {

/// An op as the section gives it: opcode byte, operands, line number.
pub type OpView = (u8, Seq<ParamView>, usize);

pub open spec fn op_view(op: OpModel) -> OpView {
    (op.opcode, param_views(op.params@), op.line_num)
}

/// Compiles `lines[i..]` onto the ops and label lines compiled so far; line
/// `i` has number `i + 1`. A line is stripped of its comment and
/// surrounding whitespace; a blank line is skipped, a line ending in `:`
/// defines a label for the next op, any other line is an instruction.
pub open spec fn ops_from(
    lines: Seq<Seq<char>>,
    i: int,
    ops: Seq<OpView>,
    labels: Map<Seq<char>, usize>,
) -> Result<(Seq<OpView>, Map<Seq<char>, usize>), ErrorKind>
    decreases lines.len() - i,
{
    if i >= lines.len() || i < 0 {
        Ok((ops, labels))
    } else {
        let s = strip_comment(lines[i]);
        let num = (i + 1) as usize;
        if s.len() == 0 {
            ops_from(lines, i + 1, ops, labels)
        } else if s.last() == ':' {
            let key = trim(s.drop_last());
            if !valid_key(key) {
                Err(ErrorKind::InvalidKey)
            } else if labels.contains_key(key) {
                Err(ErrorKind::DuplicateKey)
            } else {
                ops_from(lines, i + 1, ops, labels.insert(key, num))
            }
        } else {
            match parse_line_spec(s) {
                Err(k) => Err(k),
                Ok((code, ps)) => ops_from(lines, i + 1, ops.push((code, ps, num)), labels),
            }
        }
    }
}

/// The line number each label of `t` is defined on.
pub open spec fn label_lines(t: SymbolTable<LabelModel>) -> Map<Seq<char>, usize> {
    Map::new(|k: Seq<char>| t.map().contains_key(k), |k: Seq<char>| t.map()[k].definition->0.line_num)
}

/// Compiles the ops section: the lines from index `start` on. Line `i` has
/// number `i + 1`.
pub fn compile_ops(lines: &Vec<String>, start: usize) -> (r: Result<
    (Vec<OpModel>, SymbolTable<LabelModel>),
    AsmError,
>)
    requires
        start <= lines@.len(),
    ensures
        ({
            let res = ops_from(lines@.map_values(|l: String| l@), start as int, seq![], Map::empty());
            &&& res is Ok <==> r is Ok
            &&& r matches Ok((ops, t)) ==> {
                &&& t.wf()
                &&& forall|k: Seq<char>| #[trigger] t.map().contains_key(k) ==> t.map()[k].definition is Some
                &&& res == Ok::<_, ErrorKind>((ops@.map_values(|o: OpModel| op_view(o)), label_lines(t)))
            }
            &&& r matches Err(e) ==> res == Err::<(Seq<OpView>, Map<Seq<char>, usize>), _>(e.kind)
        }),
{
    let ghost all = lines@.map_values(|l: String| l@);
    let mut ops: Vec<OpModel> = Vec::new();
    let mut labels: SymbolTable<LabelModel> = SymbolTable::new();
    let mut i: usize = start;
    proof {
        assert(label_lines(labels) =~= Map::<Seq<char>, usize>::empty());
        assert(ops@.map_values(|o: OpModel| op_view(o)) =~= Seq::<OpView>::empty());
    }
    while i < lines.len()
        invariant
            start <= i <= lines@.len(),
            all == lines@.map_values(|l: String| l@),
            labels.wf(),
            forall|k: Seq<char>| #[trigger] labels.map().contains_key(k) ==> labels.map()[k].definition is Some,
            ops_from(all, start as int, seq![], Map::empty()) == ops_from(
                all,
                i as int,
                ops@.map_values(|o: OpModel| op_view(o)),
                label_lines(labels),
            ),
        decreases lines@.len() - i,
    {
        let line = &lines[i];
        let num = i + 1;
        let stripped = strip_trailing_comment(line.as_str());
        let s = chars_of(stripped.as_str());
        proof {
            assert(all[i as int] == line@);
        }
        let n = s.len();
        if n == 0 {
            i = i + 1;
            continue;
        }
        if s[n - 1] == ':' {
            proof {
                assert(s@.drop_last() =~= s@.subrange(0, n - 1));
            }
            let key_chars = trim_chars(&slice_chars(&s, 0, n - 1));
            if !is_valid_key(&key_chars) {
                return Err(AsmError::new(ErrorKind::InvalidKey, stripped));
            }
            let key = string_of(&key_chars);
            if labels.find(key.as_str()).is_some() {
                proof {
                    assert(label_lines(labels).contains_key(key@));
                }
                return Err(AsmError::new(ErrorKind::DuplicateKey, stripped));
            }
            let ghost before = labels.map();
            let ghost old_lines = label_lines(labels);
            let label = LabelModel::new(key.clone(), line.clone(), num);
            labels.insert(key, label);
            proof {
                assert(label_lines(labels) =~= old_lines.insert(key_chars@, num));
            }
        } else {
            match parse_line(stripped.as_str()) {
                Ok((code, params)) => {
                    let ghost before = ops@.map_values(|o: OpModel| op_view(o));
                    ops.push(OpModel::new(code, params, line.clone(), stripped, num));
                    proof {
                        assert(ops@.map_values(|o: OpModel| op_view(o)) =~= before.push(
                            (code, param_views(params@), num),
                        ));
                    }
                },
                Err(e) => {
                    return Err(e);
                },
            }
        }
        i = i + 1;
    }
    Ok((ops, labels))
}

} // verus!
