//! Operands: the typed values an instruction takes, the kinds of operand slot,
//! and the parsers that turn one token into an operand of a given kind.
use crate::constants::{REG_A0, REG_A1, REG_ACC, REG_D0, REG_D1, REG_D2, REG_D3};
use crate::error::{AsmError, ErrorKind};
use crate::strings::{contains_char, find_char, first_of};
use crate::text::{chars_of, slice_chars, string_of, trim, trim_chars};
use vstd::prelude::*;

verus! {

/// One operand, with registers as their id byte.
#[derive(Debug, Clone, Eq, PartialEq)]
pub enum Param {
    Number(u8),
    DataReg(u8),
    AddrReg(u8),
    Addr(u16),
    Label(String),
    StrKey(String),
    DataKey(String),
}

/// An operand with its names as char sequences.
pub enum ParamView {
    Number(u8),
    DataReg(u8),
    AddrReg(u8),
    Addr(u16),
    Label(Seq<char>),
    StrKey(Seq<char>),
    DataKey(Seq<char>),
}

impl View for Param {
    type V = ParamView;

    open spec fn view(&self) -> ParamView {
        match self {
            Param::Number(n) => ParamView::Number(*n),
            Param::DataReg(r) => ParamView::DataReg(*r),
            Param::AddrReg(r) => ParamView::AddrReg(*r),
            Param::Addr(a) => ParamView::Addr(*a),
            Param::Label(s) => ParamView::Label(s@),
            Param::StrKey(s) => ParamView::StrKey(s@),
            Param::DataKey(s) => ParamView::DataKey(s@),
        }
    }
}

/// The kind of one operand slot: an atomic kind, or one of the two composites
/// `ADDRESSES` (label or address) and `REGISTERS` (data or address register).
#[allow(non_camel_case_types)]
#[derive(Debug, Clone, Copy, PartialEq, Eq, Structural)]
pub enum Parameters {
    NUMBER,
    ADDRESS,
    DATA_REG,
    ADDR_REG,
    LABEL,
    STRING_KEY,
    DATA_KEY,
    ADDRESSES,
    REGISTERS,
}

pub const BIT_NUMBER: u32 = 0b0000001;
pub const BIT_ADDRESS: u32 = 0b0000010;
pub const BIT_DATA_REG: u32 = 0b0000100;
pub const BIT_ADDR_REG: u32 = 0b0001000;
pub const BIT_LABEL: u32 = 0b0010000;
pub const BIT_STRING_KEY: u32 = 0b0100000;
pub const BIT_DATA_KEY: u32 = 0b1000000;

pub open spec fn kind_bits(k: Parameters) -> u32 {
    match k {
        Parameters::NUMBER => BIT_NUMBER,
        Parameters::ADDRESS => BIT_ADDRESS,
        Parameters::DATA_REG => BIT_DATA_REG,
        Parameters::ADDR_REG => BIT_ADDR_REG,
        Parameters::LABEL => BIT_LABEL,
        Parameters::STRING_KEY => BIT_STRING_KEY,
        Parameters::DATA_KEY => BIT_DATA_KEY,
        Parameters::ADDRESSES => BIT_LABEL | BIT_ADDRESS,
        Parameters::REGISTERS => BIT_DATA_REG | BIT_ADDR_REG,
    }
}

/// The atomic kind an operand value belongs to.
pub open spec fn param_bit(p: ParamView) -> u32 {
    match p {
        ParamView::Number(_) => BIT_NUMBER,
        ParamView::DataReg(_) => BIT_DATA_REG,
        ParamView::AddrReg(_) => BIT_ADDR_REG,
        ParamView::Addr(_) => BIT_ADDRESS,
        ParamView::Label(_) => BIT_LABEL,
        ParamView::StrKey(_) => BIT_STRING_KEY,
        ParamView::DataKey(_) => BIT_DATA_KEY,
    }
}

/// The value of a digit in bases up to 16, or 16 for a char that is no digit.
pub open spec fn digit_of(c: char) -> int {
    if '0' <= c && c <= '9' {
        c as int - '0' as int
    } else if 'a' <= c && c <= 'f' {
        c as int - 'a' as int + 10
    } else if 'A' <= c && c <= 'F' {
        c as int - 'A' as int + 10
    } else {
        16
    }
}

pub open spec fn all_digits(s: Seq<char>, radix: int) -> bool {
    forall|i: int| 0 <= i < s.len() ==> digit_of(#[trigger] s[i]) < radix
}

/// The value of the numeral `s` in base `radix`.
pub open spec fn radix_value(s: Seq<char>, radix: int) -> int
    decreases s.len(),
{
    if s.len() == 0 {
        0
    } else {
        radix_value(s.drop_last(), radix) * radix + digit_of(s.last())
    }
}

/// `s` read as a non-empty numeral in base `radix` of value at most `max`.
pub open spec fn numeral(s: Seq<char>, radix: int, max: int) -> Option<int> {
    if s.len() > 0 && all_digits(s, radix) && radix_value(s, radix) <= max {
        Some(radix_value(s, radix))
    } else {
        None
    }
}

/// A number operand: decimal 0..=255, `x` and one or two hex digits, `b` and
/// exactly eight binary digits, or an ASCII char between single quotes.
pub open spec fn number_of(s: Seq<char>) -> Option<u8> {
    if s.len() > 0 && s[0] == 'x' {
        let h = s.drop_first();
        if h.len() <= 2 && numeral(h, 16, 255) is Some {
            Some(numeral(h, 16, 255)->0 as u8)
        } else {
            None
        }
    } else if s.len() > 0 && s[0] == 'b' {
        if s.len() == 9 && numeral(s.drop_first(), 2, 255) is Some {
            Some(numeral(s.drop_first(), 2, 255)->0 as u8)
        } else {
            None
        }
    } else if s.len() == 3 && s[0] == '\'' && s[2] == '\'' {
        if (s[1] as u32) < 128 {
            Some(s[1] as u8)
        } else {
            None
        }
    } else if numeral(s, 10, 255) is Some {
        Some(numeral(s, 10, 255)->0 as u8)
    } else {
        None
    }
}

/// An address operand: `@`, then decimal 0..=65535 or `x` and one to four hex digits.
pub open spec fn address_of(s: Seq<char>) -> Option<u16> {
    if s.len() == 0 || s[0] != '@' {
        None
    } else {
        let a = s.drop_first();
        if a.len() > 0 && a[0] == 'x' {
            let h = a.drop_first();
            if h.len() <= 4 && numeral(h, 16, 65535) is Some {
                Some(numeral(h, 16, 65535)->0 as u16)
            } else {
                None
            }
        } else if numeral(a, 10, 65535) is Some {
            Some(numeral(a, 10, 65535)->0 as u16)
        } else {
            None
        }
    }
}

pub open spec fn lower_char(c: char) -> char {
    if 'A' <= c && c <= 'Z' {
        (((c as u8) + 32) as u8) as char
    } else {
        c
    }
}

/// ASCII lower case of `s`, as `str::to_ascii_lowercase` gives it.
pub open spec fn lower(s: Seq<char>) -> Seq<char> {
    s.map_values(|c: char| lower_char(c))
}

/// A data register, named case-insensitively.
pub open spec fn data_reg_of(s: Seq<char>) -> Option<u8> {
    let l = lower(s);
    if l == "d0"@ {
        Some(REG_D0)
    } else if l == "d1"@ {
        Some(REG_D1)
    } else if l == "d2"@ {
        Some(REG_D2)
    } else if l == "d3"@ {
        Some(REG_D3)
    } else if l == "acc"@ {
        Some(REG_ACC)
    } else {
        None
    }
}

/// An address register, named case-insensitively.
pub open spec fn addr_reg_of(s: Seq<char>) -> Option<u8> {
    let l = lower(s);
    if l == "a0"@ {
        Some(REG_A0)
    } else if l == "a1"@ {
        Some(REG_A1)
    } else {
        None
    }
}

/// The token without a `#` comment and surrounding whitespace.
pub open spec fn strip_comment(s: Seq<char>) -> Seq<char> {
    if contains_char(s, '#') {
        trim(s.take(first_of(s, '#')))
    } else {
        trim(s)
    }
}

/// The operand that the stripped token `s` gives for slot kind `k`.
pub open spec fn param_of(k: Parameters, s: Seq<char>) -> Option<ParamView> {
    match k {
        Parameters::NUMBER => match number_of(s) {
            Some(n) => Some(ParamView::Number(n)),
            None => None,
        },
        Parameters::DATA_REG => match data_reg_of(s) {
            Some(r) => Some(ParamView::DataReg(r)),
            None => None,
        },
        Parameters::ADDR_REG => match addr_reg_of(s) {
            Some(r) => Some(ParamView::AddrReg(r)),
            None => None,
        },
        Parameters::ADDRESS => match address_of(s) {
            Some(a) => Some(ParamView::Addr(a)),
            None => None,
        },
        Parameters::LABEL => Some(ParamView::Label(s)),
        Parameters::DATA_KEY => Some(ParamView::DataKey(s)),
        Parameters::STRING_KEY => Some(ParamView::StrKey(s)),
        Parameters::REGISTERS => match data_reg_of(s) {
            Some(r) => Some(ParamView::DataReg(r)),
            None => match addr_reg_of(s) {
                Some(r) => Some(ParamView::AddrReg(r)),
                None => None,
            },
        },
        Parameters::ADDRESSES => match address_of(s) {
            Some(a) => Some(ParamView::Addr(a)),
            None => Some(ParamView::Label(s)),
        },
    }
}

/// The error kind for a token that kind `k` refuses.
pub open spec fn kind_error(k: Parameters) -> ErrorKind {
    match k {
        Parameters::NUMBER => ErrorKind::InvalidNumber,
        Parameters::ADDRESS => ErrorKind::InvalidAddress,
        _ => ErrorKind::InvalidRegister,
    }
}

proof fn lemma_radix_nonneg(s: Seq<char>, radix: int)
    requires
        radix >= 1,
        all_digits(s, radix),
    ensures
        radix_value(s, radix) >= 0,
    decreases s.len(),
{
    if s.len() > 0 {
        assert(all_digits(s.drop_last(), radix)) by {
            assert forall|i: int| 0 <= i < s.drop_last().len() implies digit_of(#[trigger] s.drop_last()[i]) < radix by {
                assert(s.drop_last()[i] == s[i]);
            }
        }
        lemma_radix_nonneg(s.drop_last(), radix);
        let v = radix_value(s.drop_last(), radix);
        assert(v * radix >= 0) by (nonlinear_arith)
            requires
                v >= 0,
                radix >= 1,
        ;
        assert(digit_of(s.last()) >= 0);
    }
}

/// A prefix of a numeral never reads larger than the whole.
proof fn lemma_radix_prefix(s: Seq<char>, i: int, radix: int)
    requires
        radix >= 1,
        all_digits(s, radix),
        0 <= i <= s.len(),
    ensures
        radix_value(s.take(i), radix) <= radix_value(s, radix),
    decreases s.len(),
{
    if i < s.len() {
        let t = s.drop_last();
        assert(all_digits(t, radix)) by {
            assert forall|j: int| 0 <= j < t.len() implies digit_of(#[trigger] t[j]) < radix by {
                assert(t[j] == s[j]);
            }
        }
        lemma_radix_prefix(t, i, radix);
        assert(t.take(i) =~= s.take(i));
        lemma_radix_nonneg(t, radix);
        let v = radix_value(t, radix);
        assert(v * radix >= v) by (nonlinear_arith)
            requires
                v >= 0,
                radix >= 1,
        ;
        assert(digit_of(s.last()) >= 0);
    } else {
        assert(s.take(i) =~= s);
    }
}

fn digit_value(c: char) -> (r: u32)
    ensures
        r == digit_of(c),
{
    if '0' <= c && c <= '9' {
        (c as u32) - ('0' as u32)
    } else if 'a' <= c && c <= 'f' {
        (c as u32) - ('a' as u32) + 10
    } else if 'A' <= c && c <= 'F' {
        (c as u32) - ('A' as u32) + 10
    } else {
        16
    }
}

/// Reads `s[lo..]` as a numeral in base `radix` of value at most `max`.
fn parse_numeral(s: &Vec<char>, lo: usize, radix: u32, max: u32) -> (r: Option<u32>)
    requires
        lo <= s@.len(),
        2 <= radix <= 16,
        max <= 65535,
    ensures
        r matches Some(v) ==> numeral(s@.skip(lo as int), radix as int, max as int) == Some(v as int) && v <= max,
        r is None ==> numeral(s@.skip(lo as int), radix as int, max as int) is None,
{
    let ghost whole = s@.skip(lo as int);
    let n = s.len();
    if lo == n {
        return None;
    }
    let mut i: usize = lo;
    let mut val: u32 = 0;
    proof {
        assert(s@.subrange(lo as int, lo as int) =~= Seq::<char>::empty());
    }
    while i < n
        invariant
            lo <= i <= n == s@.len(),
            whole == s@.skip(lo as int),
            2 <= radix <= 16,
            max <= 65535,
            val <= max,
            val as int == radix_value(s@.subrange(lo as int, i as int), radix as int),
            all_digits(s@.subrange(lo as int, i as int), radix as int),
        decreases n - i,
    {
        let d = digit_value(s[i]);
        let ghost pre = s@.subrange(lo as int, i as int);
        let ghost next = s@.subrange(lo as int, i + 1);
        proof {
            assert(next.drop_last() =~= pre);
            assert(next.last() == s@[i as int]);
            assert(whole[i - lo] == s@[i as int]);
        }
        if d >= radix {
            return None;
        }
        proof {
            assert(val * radix <= 65535 * 16) by (nonlinear_arith)
                requires
                    val <= 65535,
                    radix <= 16,
            ;
        }
        let nv = val * radix + d;
        proof {
            assert(all_digits(next, radix as int)) by {
                assert forall|j: int| 0 <= j < next.len() implies digit_of(#[trigger] next[j]) < radix by {
                    if j < pre.len() {
                        assert(next[j] == pre[j]);
                    }
                }
            }
        }
        if nv > max {
            proof {
                if all_digits(whole, radix as int) {
                    assert(whole.take(i + 1 - lo) =~= next);
                    lemma_radix_prefix(whole, i + 1 - lo, radix as int);
                }
            }
            return None;
        }
        val = nv;
        i = i + 1;
    }
    proof {
        assert(s@.subrange(lo as int, n as int) =~= whole);
    }
    Some(val)
}

/// Parses a number operand.
pub fn parse_number(input: &str) -> (r: Result<Param, AsmError>)
    ensures
        r matches Ok(p) ==> number_of(input@) == Some(p->Number_0) && p is Number,
        r is Err ==> number_of(input@) is None,
        r matches Err(e) ==> e.kind == ErrorKind::InvalidNumber,
{
    let s = chars_of(input);
    let n = s.len();
    let num: Option<u32> = if n > 0 && s[0] == 'x' {
        proof {
            assert(s@.skip(1) =~= s@.drop_first());
        }
        if n <= 3 {
            parse_numeral(&s, 1, 16, 255)
        } else {
            None
        }
    } else if n > 0 && s[0] == 'b' {
        proof {
            assert(s@.skip(1) =~= s@.drop_first());
        }
        if n == 9 {
            parse_numeral(&s, 1, 2, 255)
        } else {
            None
        }
    } else if n == 3 && s[0] == '\'' && s[2] == '\'' {
        if (s[1] as u32) < 128 {
            let v = s[1] as u8;
            Some(v as u32)
        } else {
            None
        }
    } else {
        proof {
            assert(s@.skip(0) =~= s@);
        }
        parse_numeral(&s, 0, 10, 255)
    };
    match num {
        Some(v) => Ok(Param::Number(v as u8)),
        None => Err(AsmError::new(ErrorKind::InvalidNumber, string_of(&s))),
    }
}

/// Parses an address operand.
pub fn parse_addr(input: &str) -> (r: Result<Param, AsmError>)
    ensures
        r matches Ok(p) ==> address_of(input@) == Some(p->Addr_0) && p is Addr,
        r is Err ==> address_of(input@) is None,
        r matches Err(e) ==> e.kind == ErrorKind::InvalidAddress,
{
    let s = chars_of(input);
    let n = s.len();
    let num: Option<u32> = if n == 0 || s[0] != '@' {
        None
    } else if n > 1 && s[1] == 'x' {
        proof {
            assert(s@.skip(2) =~= s@.drop_first().drop_first());
        }
        if n <= 6 {
            parse_numeral(&s, 2, 16, 65535)
        } else {
            None
        }
    } else {
        proof {
            assert(s@.skip(1) =~= s@.drop_first());
        }
        parse_numeral(&s, 1, 10, 65535)
    };
    match num {
        Some(v) => Ok(Param::Addr(v as u16)),
        None => Err(AsmError::new(ErrorKind::InvalidAddress, string_of(&s))),
    }
}

/// Whether the ASCII lower case of `c` is `lit`.
pub fn lower_eq(c: &Vec<char>, lit: &str) -> (r: bool)
    ensures
        r == (lower(c@) == lit@),
{
    let l = chars_of(lit);
    if c.len() != l.len() {
        return false;
    }
    let mut i: usize = 0;
    while i < c.len()
        invariant
            i <= c@.len() == l@.len(),
            l@ == lit@,
            forall|j: int| 0 <= j < i ==> lower_char(#[trigger] c@[j]) == l@[j],
        decreases c@.len() - i,
    {
        let ch = c[i];
        let lc = if 'A' <= ch && ch <= 'Z' {
            ((ch as u8) + 32) as char
        } else {
            ch
        };
        if lc != l[i] {
            proof {
                assert(lower(c@)[i as int] == lc);
            }
            return false;
        }
        i = i + 1;
    }
    proof {
        assert(lower(c@) =~= l@);
    }
    true
}

/// Parses a data register operand: `d0` to `d3` or `acc`, in any case.
pub fn parse_data_reg(input: &str) -> (r: Result<Param, AsmError>)
    ensures
        r matches Ok(p) ==> data_reg_of(input@) == Some(p->DataReg_0) && p is DataReg,
        r is Err ==> data_reg_of(input@) is None,
        r matches Err(e) ==> e.kind == ErrorKind::InvalidRegister,
{
    let s = chars_of(input);
    if lower_eq(&s, "d0") {
        Ok(Param::DataReg(REG_D0))
    } else if lower_eq(&s, "d1") {
        Ok(Param::DataReg(REG_D1))
    } else if lower_eq(&s, "d2") {
        Ok(Param::DataReg(REG_D2))
    } else if lower_eq(&s, "d3") {
        Ok(Param::DataReg(REG_D3))
    } else if lower_eq(&s, "acc") {
        Ok(Param::DataReg(REG_ACC))
    } else {
        Err(AsmError::new(ErrorKind::InvalidRegister, string_of(&s)))
    }
}

/// Parses an address register operand: `a0` or `a1`, in any case.
pub fn parse_addr_reg(input: &str) -> (r: Result<Param, AsmError>)
    ensures
        r matches Ok(p) ==> addr_reg_of(input@) == Some(p->AddrReg_0) && p is AddrReg,
        r is Err ==> addr_reg_of(input@) is None,
        r matches Err(e) ==> e.kind == ErrorKind::InvalidRegister,
{
    let s = chars_of(input);
    if lower_eq(&s, "a0") {
        Ok(Param::AddrReg(REG_A0))
    } else if lower_eq(&s, "a1") {
        Ok(Param::AddrReg(REG_A1))
    } else {
        Err(AsmError::new(ErrorKind::InvalidRegister, string_of(&s)))
    }
}

/// Drops a trailing `#` comment and the whitespace around the token.
pub fn strip_trailing_comment(input: &str) -> (r: String)
    ensures
        r@ == strip_comment(input@),
{
    let s = chars_of(input);
    let kept = match find_char(&s, '#') {
        Some(i) => {
            proof {
                assert(s@.take(i as int) =~= s@.subrange(0, i as int));
            }
            trim_chars(&slice_chars(&s, 0, i))
        },
        None => trim_chars(&s),
    };
    string_of(&kept)
}

impl Parameters {
    /// The bit-set of atomic kinds this slot accepts.
    pub fn bits(&self) -> (r: u32)
        ensures
            r == kind_bits(*self),
    {
        match self {
            Parameters::NUMBER => BIT_NUMBER,
            Parameters::ADDRESS => BIT_ADDRESS,
            Parameters::DATA_REG => BIT_DATA_REG,
            Parameters::ADDR_REG => BIT_ADDR_REG,
            Parameters::LABEL => BIT_LABEL,
            Parameters::STRING_KEY => BIT_STRING_KEY,
            Parameters::DATA_KEY => BIT_DATA_KEY,
            Parameters::ADDRESSES => BIT_LABEL | BIT_ADDRESS,
            Parameters::REGISTERS => BIT_DATA_REG | BIT_ADDR_REG,
        }
    }

    /// The kind's name as error messages show it.
    pub fn name(&self) -> (r: &'static str)
        ensures
            *self == Parameters::NUMBER ==> r@ == "byte"@,
            *self == Parameters::ADDRESS ==> r@ == "address"@,
            *self == Parameters::DATA_REG ==> r@ == "data_reg"@,
            *self == Parameters::DATA_KEY ==> r@ == "data_key"@,
            *self == Parameters::ADDR_REG ==> r@ == "addr_reg"@,
            *self == Parameters::LABEL ==> r@ == "label"@,
            *self == Parameters::STRING_KEY ==> r@ == "text_key"@,
            *self == Parameters::ADDRESSES ==> r@ == "(label|address)"@,
            *self == Parameters::REGISTERS ==> r@ == "(data_reg|addr_reg)"@,
    {
        match self {
            Parameters::NUMBER => "byte",
            Parameters::ADDRESS => "address",
            Parameters::DATA_REG => "data_reg",
            Parameters::DATA_KEY => "data_key",
            Parameters::ADDR_REG => "addr_reg",
            Parameters::LABEL => "label",
            Parameters::STRING_KEY => "text_key",
            Parameters::ADDRESSES => "(label|address)",
            Parameters::REGISTERS => "(data_reg|addr_reg)",
        }
    }

    /// Parses one operand token for this slot kind, after dropping a trailing
    /// comment and surrounding whitespace.
    pub fn parse(&self, input: &str) -> (r: Result<Param, AsmError>)
        ensures
            r matches Ok(p) ==> param_of(*self, strip_comment(input@)) == Some(p@),
            r is Err ==> param_of(*self, strip_comment(input@)) is None,
            r matches Err(e) ==> e.kind == kind_error(*self),
    {
        let stripped = strip_trailing_comment(input);
        let s = stripped.as_str();
        match self {
            Parameters::NUMBER => parse_number(s),
            Parameters::DATA_REG => parse_data_reg(s),
            Parameters::ADDR_REG => parse_addr_reg(s),
            Parameters::ADDRESS => parse_addr(s),
            Parameters::LABEL => Ok(Param::Label(s.to_owned())),
            Parameters::DATA_KEY => Ok(Param::DataKey(s.to_owned())),
            Parameters::STRING_KEY => Ok(Param::StrKey(s.to_owned())),
            Parameters::REGISTERS => {
                match parse_data_reg(s) {
                    Ok(p) => Ok(p),
                    Err(_) => parse_addr_reg(s),
                }
            },
            Parameters::ADDRESSES => {
                match parse_addr(s) {
                    Ok(p) => Ok(p),
                    Err(_) => Ok(Param::Label(s.to_owned())),
                }
            },
        }
    }
}

} // verus!
