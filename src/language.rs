//! Instruction lines: splitting a line into tokens, the catalogue of opcode
//! signatures, and dispatch of a line to the first signature that accepts it.
use crate::constants::{
    ADD_REG_REG, ADD_REG_VAL, CALL_ADDR, CALL_AREG, CMP_REG_REG, CMP_REG_VAL, CPY_AREG_ADDR, CPY_AREG_AREG, CPY_REG_REG,
    CPY_REG_VAL, DEC_REG, HALT, INC_REG, JE_ADDR, JMP_ADDR, JMP_AREG, JNE_ADDR, LD_AREG_DATA_REG_REG, LD_AREG_DATA_REG_VAL,
    LD_AREG_DATA_VAL_REG, LD_AREG_DATA_VAL_VAL, NOP, POP_REG, PRTC_REG, PRTC_VAL, PRTS_STR, PRT_REG, PRT_VAL, PUSH_REG,
    PUSH_VAL, RET, SUB_REG_REG, SUB_REG_VAL,
};
use crate::error::{AsmError, ErrorKind};
use crate::params::{lower, lower_eq, param_of, strip_comment, Param, ParamView, Parameters};
use crate::text::{chars_of, is_whitespace, is_ws, string_of};
use vstd::prelude::*;

verus! {

/// A three-char literal `'c'` starts at `i` (`c` is not a newline).
pub open spec fn char_literal_at(s: Seq<char>, i: int) -> bool {
    0 <= i && i + 2 < s.len() && s[i] == '\'' && s[i + 2] == '\'' && s[i + 1] != '\n'
}

/// The tokens of `s` from position `i`, where `cur` is the run of
/// non-whitespace read so far. A token is a char literal `'c'` or a maximal
/// run of non-whitespace; a literal is taken where a token starts.
pub open spec fn tokens_from(s: Seq<char>, i: int, cur: Seq<char>) -> Seq<Seq<char>>
    decreases s.len() - i,
{
    if i >= s.len() || i < 0 {
        if cur.len() > 0 {
            seq![cur]
        } else {
            seq![]
        }
    } else if cur.len() == 0 {
        if is_ws(s[i]) {
            tokens_from(s, i + 1, seq![])
        } else if char_literal_at(s, i) {
            seq![s.subrange(i, i + 3)] + tokens_from(s, i + 3, seq![])
        } else {
            tokens_from(s, i + 1, seq![s[i]])
        }
    } else if is_ws(s[i]) {
        seq![cur] + tokens_from(s, i + 1, seq![])
    } else {
        tokens_from(s, i + 1, cur.push(s[i]))
    }
}

/// The tokens of a line.
pub open spec fn tokens(s: Seq<char>) -> Seq<Seq<char>> {
    tokens_from(s, 0, seq![])
}

pub open spec fn string_views(v: Seq<String>) -> Seq<Seq<char>> {
    v.map_values(|t: String| t@)
}

/// Splits a line into its tokens.
pub fn tokenize(input: &str) -> (r: Vec<String>)
    ensures
        string_views(r@) == tokens(input@),
{
    let s = chars_of(input);
    let n = s.len();
    let mut out: Vec<String> = Vec::new();
    let mut cur: Vec<char> = Vec::new();
    let mut i: usize = 0;
    while i < n
        invariant
            i <= n == s@.len(),
            s@ == input@,
            tokens(s@) == string_views(out@) + tokens_from(s@, i as int, cur@),
        decreases n - i,
    {
        let c = s[i];
        let ghost before = string_views(out@);
        if cur.len() == 0 {
            if is_whitespace(c) {
                i = i + 1;
            } else if n - i > 2 && c == '\'' && s[i + 2] == '\'' && s[i + 1] != '\n' {
                let lit = vec![s[i], s[i + 1], s[i + 2]];
                proof {
                    assert(lit@ =~= s@.subrange(i as int, i + 3));
                }
                out.push(string_of(&lit));
                proof {
                    assert(string_views(out@) =~= before + seq![s@.subrange(i as int, i + 3)]);
                    assert(tokens_from(s@, i as int, cur@) == seq![s@.subrange(i as int, i + 3)] + tokens_from(s@, i + 3, seq![]));
                }
                i = i + 3;
                proof {
                    assert(tokens(s@) =~= string_views(out@) + tokens_from(s@, i as int, seq![]));
                }
            } else {
                cur.push(c);
                proof {
                    assert(cur@ =~= seq![c]);
                }
                i = i + 1;
            }
        } else if is_whitespace(c) {
            let ghost t = cur@;
            out.push(string_of(&cur));
            cur = Vec::new();
            proof {
                assert(string_views(out@) =~= before + seq![t]);
                assert(tokens(s@) =~= string_views(out@) + tokens_from(s@, i + 1, seq![]));
                assert(cur@ =~= Seq::<char>::empty());
            }
            i = i + 1;
        } else {
            cur.push(c);
            i = i + 1;
        }
    }
    if cur.len() > 0 {
        let ghost before = string_views(out@);
        let ghost t = cur@;
        out.push(string_of(&cur));
        proof {
            assert(string_views(out@) =~= before + seq![t]);
            assert(tokens(s@) =~= string_views(out@));
        }
    } else {
        proof {
            assert(tokens(s@) =~= string_views(out@));
        }
    }
    out
}

/// Number of signatures in the catalogue.
pub const OP_COUNT: usize = 33;

/// Signature `i` of the catalogue: lower-case mnemonic, opcode byte, operand
/// kinds. Where one mnemonic has several signatures, the earlier one wins.
pub open spec fn op_entry(i: int) -> (Seq<char>, u8, Seq<Parameters>) {
    if i == 0 { ("nop"@, NOP, seq![]) }
    else if i == 1 { ("add"@, ADD_REG_REG, seq![Parameters::DATA_REG, Parameters::DATA_REG]) }
    else if i == 2 { ("add"@, ADD_REG_VAL, seq![Parameters::DATA_REG, Parameters::NUMBER]) }
    else if i == 3 { ("sub"@, SUB_REG_REG, seq![Parameters::DATA_REG, Parameters::DATA_REG]) }
    else if i == 4 { ("sub"@, SUB_REG_VAL, seq![Parameters::DATA_REG, Parameters::NUMBER]) }
    else if i == 5 { ("inc"@, INC_REG, seq![Parameters::DATA_REG]) }
    else if i == 6 { ("dec"@, DEC_REG, seq![Parameters::DATA_REG]) }
    else if i == 7 { ("cpy"@, CPY_REG_REG, seq![Parameters::DATA_REG, Parameters::DATA_REG]) }
    else if i == 8 { ("cpy"@, CPY_REG_VAL, seq![Parameters::DATA_REG, Parameters::NUMBER]) }
    else if i == 9 { ("cpy"@, CPY_AREG_AREG, seq![Parameters::ADDR_REG, Parameters::ADDR_REG]) }
    else if i == 10 { ("cpy"@, CPY_AREG_ADDR, seq![Parameters::ADDR_REG, Parameters::ADDRESSES]) }
    else if i == 11 { ("ld"@, LD_AREG_DATA_REG_VAL, seq![Parameters::ADDR_REG, Parameters::DATA_KEY, Parameters::DATA_REG, Parameters::NUMBER]) }
    else if i == 12 { ("ld"@, LD_AREG_DATA_VAL_REG, seq![Parameters::ADDR_REG, Parameters::DATA_KEY, Parameters::NUMBER, Parameters::DATA_REG]) }
    else if i == 13 { ("ld"@, LD_AREG_DATA_REG_REG, seq![Parameters::ADDR_REG, Parameters::DATA_KEY, Parameters::DATA_REG, Parameters::DATA_REG]) }
    else if i == 14 { ("ld"@, LD_AREG_DATA_VAL_VAL, seq![Parameters::ADDR_REG, Parameters::DATA_KEY, Parameters::NUMBER, Parameters::NUMBER]) }
    else if i == 15 { ("cmp"@, CMP_REG_REG, seq![Parameters::DATA_REG, Parameters::DATA_REG]) }
    else if i == 16 { ("cmp"@, CMP_REG_VAL, seq![Parameters::DATA_REG, Parameters::NUMBER]) }
    else if i == 17 { ("jmp"@, JMP_AREG, seq![Parameters::ADDR_REG]) }
    else if i == 18 { ("jmp"@, JMP_ADDR, seq![Parameters::ADDRESSES]) }
    else if i == 19 { ("je"@, JE_ADDR, seq![Parameters::ADDRESSES]) }
    else if i == 20 { ("jne"@, JNE_ADDR, seq![Parameters::ADDRESSES]) }
    else if i == 21 { ("call"@, CALL_AREG, seq![Parameters::ADDR_REG]) }
    else if i == 22 { ("call"@, CALL_ADDR, seq![Parameters::ADDRESSES]) }
    else if i == 23 { ("ret"@, RET, seq![]) }
    else if i == 24 { ("push"@, PUSH_REG, seq![Parameters::REGISTERS]) }
    else if i == 25 { ("push"@, PUSH_VAL, seq![Parameters::NUMBER]) }
    else if i == 26 { ("pop"@, POP_REG, seq![Parameters::REGISTERS]) }
    else if i == 27 { ("prt"@, PRT_REG, seq![Parameters::DATA_REG]) }
    else if i == 28 { ("prt"@, PRT_VAL, seq![Parameters::NUMBER]) }
    else if i == 29 { ("prtc"@, PRTC_REG, seq![Parameters::DATA_REG]) }
    else if i == 30 { ("prtc"@, PRTC_VAL, seq![Parameters::NUMBER]) }
    else if i == 31 { ("prts"@, PRTS_STR, seq![Parameters::STRING_KEY]) }
    else { ("halt"@, HALT, seq![]) }
}

/// Signature `i` of the catalogue.
pub fn op_signature(i: usize) -> (r: (&'static str, u8, Vec<Parameters>))
    requires
        i < OP_COUNT,
    ensures
        r.0@ == op_entry(i as int).0,
        r.1 == op_entry(i as int).1,
        r.2@ == op_entry(i as int).2,
{
    if i == 0 { ("nop", NOP, vec![]) }
    else if i == 1 { ("add", ADD_REG_REG, vec![Parameters::DATA_REG, Parameters::DATA_REG]) }
    else if i == 2 { ("add", ADD_REG_VAL, vec![Parameters::DATA_REG, Parameters::NUMBER]) }
    else if i == 3 { ("sub", SUB_REG_REG, vec![Parameters::DATA_REG, Parameters::DATA_REG]) }
    else if i == 4 { ("sub", SUB_REG_VAL, vec![Parameters::DATA_REG, Parameters::NUMBER]) }
    else if i == 5 { ("inc", INC_REG, vec![Parameters::DATA_REG]) }
    else if i == 6 { ("dec", DEC_REG, vec![Parameters::DATA_REG]) }
    else if i == 7 { ("cpy", CPY_REG_REG, vec![Parameters::DATA_REG, Parameters::DATA_REG]) }
    else if i == 8 { ("cpy", CPY_REG_VAL, vec![Parameters::DATA_REG, Parameters::NUMBER]) }
    else if i == 9 { ("cpy", CPY_AREG_AREG, vec![Parameters::ADDR_REG, Parameters::ADDR_REG]) }
    else if i == 10 { ("cpy", CPY_AREG_ADDR, vec![Parameters::ADDR_REG, Parameters::ADDRESSES]) }
    else if i == 11 { ("ld", LD_AREG_DATA_REG_VAL, vec![Parameters::ADDR_REG, Parameters::DATA_KEY, Parameters::DATA_REG, Parameters::NUMBER]) }
    else if i == 12 { ("ld", LD_AREG_DATA_VAL_REG, vec![Parameters::ADDR_REG, Parameters::DATA_KEY, Parameters::NUMBER, Parameters::DATA_REG]) }
    else if i == 13 { ("ld", LD_AREG_DATA_REG_REG, vec![Parameters::ADDR_REG, Parameters::DATA_KEY, Parameters::DATA_REG, Parameters::DATA_REG]) }
    else if i == 14 { ("ld", LD_AREG_DATA_VAL_VAL, vec![Parameters::ADDR_REG, Parameters::DATA_KEY, Parameters::NUMBER, Parameters::NUMBER]) }
    else if i == 15 { ("cmp", CMP_REG_REG, vec![Parameters::DATA_REG, Parameters::DATA_REG]) }
    else if i == 16 { ("cmp", CMP_REG_VAL, vec![Parameters::DATA_REG, Parameters::NUMBER]) }
    else if i == 17 { ("jmp", JMP_AREG, vec![Parameters::ADDR_REG]) }
    else if i == 18 { ("jmp", JMP_ADDR, vec![Parameters::ADDRESSES]) }
    else if i == 19 { ("je", JE_ADDR, vec![Parameters::ADDRESSES]) }
    else if i == 20 { ("jne", JNE_ADDR, vec![Parameters::ADDRESSES]) }
    else if i == 21 { ("call", CALL_AREG, vec![Parameters::ADDR_REG]) }
    else if i == 22 { ("call", CALL_ADDR, vec![Parameters::ADDRESSES]) }
    else if i == 23 { ("ret", RET, vec![]) }
    else if i == 24 { ("push", PUSH_REG, vec![Parameters::REGISTERS]) }
    else if i == 25 { ("push", PUSH_VAL, vec![Parameters::NUMBER]) }
    else if i == 26 { ("pop", POP_REG, vec![Parameters::REGISTERS]) }
    else if i == 27 { ("prt", PRT_REG, vec![Parameters::DATA_REG]) }
    else if i == 28 { ("prt", PRT_VAL, vec![Parameters::NUMBER]) }
    else if i == 29 { ("prtc", PRTC_REG, vec![Parameters::DATA_REG]) }
    else if i == 30 { ("prtc", PRTC_VAL, vec![Parameters::NUMBER]) }
    else if i == 31 { ("prts", PRTS_STR, vec![Parameters::STRING_KEY]) }
    else { ("halt", HALT, vec![]) }
}

/// The operands that `args` give for the slot kinds `kinds`, one token each.
pub open spec fn parse_args(kinds: Seq<Parameters>, args: Seq<Seq<char>>) -> Option<Seq<ParamView>>
    decreases kinds.len(),
{
    if kinds.len() != args.len() {
        None
    } else if kinds.len() == 0 {
        Some(seq![])
    } else {
        match param_of(kinds[0], strip_comment(args[0])) {
            None => None,
            Some(p) => match parse_args(kinds.drop_first(), args.drop_first()) {
                None => None,
                Some(ps) => Some(seq![p] + ps),
            },
        }
    }
}

/// Whether signature `i` has the mnemonic `m` (in any case).
pub open spec fn names(i: int, m: Seq<char>) -> bool {
    op_entry(i).0 == lower(m)
}

/// Dispatch of the tokens `toks` (mnemonic first) to the signatures from `i` on.
pub open spec fn dispatch_from(toks: Seq<Seq<char>>, i: int) -> Result<(u8, Seq<ParamView>), ErrorKind>
    decreases OP_COUNT - i,
{
    if i >= OP_COUNT || i < 0 {
        if exists|j: int| 0 <= j < OP_COUNT && names(j, toks[0]) {
            Err(ErrorKind::NoMatchingSignature)
        } else {
            Err(ErrorKind::UnknownInstruction)
        }
    } else if names(i, toks[0]) && parse_args(op_entry(i).2, toks.drop_first()) is Some {
        Ok((op_entry(i).1, parse_args(op_entry(i).2, toks.drop_first())->0))
    } else {
        dispatch_from(toks, i + 1)
    }
}

/// The opcode byte and operands of an instruction line.
pub open spec fn parse_line_spec(line: Seq<char>) -> Result<(u8, Seq<ParamView>), ErrorKind> {
    let toks = tokens(line);
    if toks.len() == 0 {
        Err(ErrorKind::UnknownInstruction)
    } else {
        dispatch_from(toks, 0)
    }
}

pub open spec fn param_views(ps: Seq<Param>) -> Seq<ParamView> {
    ps.map_values(|p: Param| p@)
}

/// Parses the operand tokens `args[from..]` for the slot kinds `kinds`.
fn parse_args_exec(kinds: &Vec<Parameters>, args: &Vec<String>, from: usize) -> (r: Option<Vec<Param>>)
    requires
        from <= args@.len(),
    ensures
        r matches Some(ps) ==> parse_args(kinds@, string_views(args@).skip(from as int)) == Some(param_views(ps@)),
        r is None ==> parse_args(kinds@, string_views(args@).skip(from as int)) is None,
{
    let ghost all = string_views(args@).skip(from as int);
    if kinds.len() != args.len() - from {
        return None;
    }
    let na = args.len();
    let mut out: Vec<Param> = Vec::new();
    let mut j: usize = 0;
    proof {
        assert(kinds@.skip(0) =~= kinds@);
        assert(all.skip(0) =~= all);
    }
    while j < kinds.len()
        invariant
            j <= kinds@.len() == all.len(),
            from + kinds@.len() == args@.len() == na,
            all == string_views(args@).skip(from as int),
            parse_args(kinds@, all) == match parse_args(kinds@.skip(j as int), all.skip(j as int)) {
                Some(ps) => Some(param_views(out@) + ps),
                None => None::<Seq<ParamView>>,
            },
        decreases kinds@.len() - j,
    {
        let k = kinds[j];
        let ghost ks = kinds@.skip(j as int);
        let ghost xs = all.skip(j as int);
        proof {
            assert(ks[0] == k);
            assert(xs[0] == args@[from + j]@);
            assert(ks.drop_first() =~= kinds@.skip(j + 1));
            assert(xs.drop_first() =~= all.skip(j + 1));
        }
        match k.parse(args[from + j].as_str()) {
            Ok(p) => {
                let ghost before = param_views(out@);
                out.push(p);
                proof {
                    assert(param_views(out@) =~= before + seq![p@]);
                    match parse_args(kinds@.skip(j + 1), all.skip(j + 1)) {
                        Some(ps) => {
                            assert(before + (seq![p@] + ps) =~= param_views(out@) + ps);
                        },
                        None => {},
                    }
                }
            },
            Err(_) => {
                return None;
            },
        }
        j = j + 1;
    }
    proof {
        assert(kinds@.skip(j as int).len() == 0);
        assert(all.skip(j as int).len() == 0);
        assert(param_views(out@) + seq![] =~= param_views(out@));
    }
    Some(out)
}

/// Parses an instruction line (without label or comment line) into its opcode
/// byte and operands: the first signature of the catalogue whose mnemonic
/// matches case-insensitively and whose operand kinds accept the tokens.
pub fn parse_line(input: &str) -> (r: Result<(u8, Vec<Param>), AsmError>)
    ensures
        r matches Ok((code, ps)) ==> parse_line_spec(input@) == Ok::<_, ErrorKind>((code, param_views(ps@))),
        r matches Err(e) ==> parse_line_spec(input@) == Err::<(u8, Seq<ParamView>), _>(e.kind),
{
    let toks = tokenize(input);
    if toks.len() == 0 {
        return Err(AsmError::new(ErrorKind::UnknownInstruction, input.to_owned()));
    }
    let ghost tv = string_views(toks@);
    let mnemonic = chars_of(toks[0].as_str());
    let mut seen = false;
    let mut i: usize = 0;
    proof {
        assert(tv[0] == mnemonic@);
        assert(tv.drop_first() =~= tv.skip(1));
    }
    while i < OP_COUNT
        invariant
            i <= OP_COUNT,
            tv == string_views(toks@),
            tv == tokens(input@),
            toks@.len() > 0,
            tv[0] == mnemonic@,
            tv.drop_first() == tv.skip(1),
            dispatch_from(tv, 0) == dispatch_from(tv, i as int),
            seen == exists|j: int| 0 <= j < i && names(j, tv[0]),
        decreases OP_COUNT - i,
    {
        let (name, code, kinds) = op_signature(i);
        if lower_eq(&mnemonic, name) {
            seen = true;
            match parse_args_exec(&kinds, &toks, 1) {
                Some(ps) => {
                    return Ok((code, ps));
                },
                None => {},
            }
        }
        proof {
            if seen {
                if names(i as int, tv[0]) {
                    assert(0 <= i && i < i + 1 && names(i as int, tv[0]));
                }
            }
        }
        i = i + 1;
    }
    if seen {
        Err(AsmError::new(ErrorKind::NoMatchingSignature, input.to_owned()))
    } else {
        Err(AsmError::new(ErrorKind::UnknownInstruction, input.to_owned()))
    }
}

/// Whether an operand of kind `k` takes two address bytes.
pub open spec fn is_address_kind(k: Parameters) -> bool {
    k == Parameters::ADDRESS || k == Parameters::ADDRESSES || k == Parameters::LABEL || k == Parameters::STRING_KEY
        || k == Parameters::DATA_KEY
}

/// Bytes taken by operands of the kinds `ks`.
pub open spec fn kinds_width(ks: Seq<Parameters>) -> int
    decreases ks.len(),
{
    if ks.len() == 0 {
        0
    } else {
        kinds_width(ks.drop_last()) + if is_address_kind(ks.last()) {
            2int
        } else {
            1int
        }
    }
}

/// Position of the first address operand among `ks` from `j` on, if any.
pub open spec fn first_address_from(ks: Seq<Parameters>, j: int) -> Option<int>
    decreases ks.len() - j,
{
    if j >= ks.len() || j < 0 {
        None
    } else if is_address_kind(ks[j]) {
        Some(j)
    } else {
        first_address_from(ks, j + 1)
    }
}

/// First catalogue index from `i` on with opcode byte `code`, or `OP_COUNT`.
pub open spec fn signature_from(code: u8, i: int) -> int
    decreases OP_COUNT - i,
{
    if i >= OP_COUNT || i < 0 {
        OP_COUNT as int
    } else if op_entry(i).1 == code {
        i
    } else {
        signature_from(code, i + 1)
    }
}

/// The byte offset, from the start of an instruction with opcode `code`, of
/// its 16-bit address operand; none for unknown opcodes and opcodes without one.
pub open spec fn addr_operand_offset(code: u8) -> Option<int> {
    let i = signature_from(code, 0);
    if i >= OP_COUNT {
        None
    } else {
        match first_address_from(op_entry(i).2, 0) {
            Some(j) => Some(1 + kinds_width(op_entry(i).2.take(j))),
            None => None,
        }
    }
}

/// The byte offset of the address operand of opcode `code` within its instruction.
pub fn get_addr_byte_offset(code: u8) -> (r: Option<usize>)
    ensures
        r matches Some(o) ==> addr_operand_offset(code) == Some(o as int),
        r is None ==> addr_operand_offset(code) is None,
{
    let mut i: usize = 0;
    while i < OP_COUNT
        invariant
            i <= OP_COUNT,
            signature_from(code, 0) == signature_from(code, i as int),
        decreases OP_COUNT - i,
    {
        let (_, c, kinds) = op_signature(i);
        if c == code {
            let mut j: usize = 0;
            let mut width: usize = 1;
            proof {
                assert(kinds@.take(0) =~= Seq::<Parameters>::empty());
            }
            while j < kinds.len()
                invariant
                    j <= kinds@.len() <= 4,
                    kinds@ == op_entry(i as int).2,
                    signature_from(code, 0) == i,
                    first_address_from(kinds@, 0) == first_address_from(kinds@, j as int),
                    width == 1 + kinds_width(kinds@.take(j as int)),
                    width <= 1 + 2 * j,
                decreases kinds@.len() - j,
            {
                proof {
                    assert(kinds@.take(j + 1).drop_last() =~= kinds@.take(j as int));
                }
                let k = kinds[j];
                if k == Parameters::ADDRESS || k == Parameters::ADDRESSES || k == Parameters::LABEL || k
                    == Parameters::STRING_KEY || k == Parameters::DATA_KEY {
                    return Some(width);
                }
                width = width + 1;
                j = j + 1;
            }
            return None;
        }
        i = i + 1;
    }
    None
}

} // verus!
