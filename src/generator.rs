//! Code generation: lowers a `ProgramModel` into the tape. Ops are laid out
//! first, then strings, then data; every symbolic operand is written as a
//! zero placeholder, recorded as a site, and patched once addresses are known.
//!
//! Tape layout: `[H1][H2][VER][nameLen][name][verLen][ver][opsLen:2 BE][ops]
//! [strLen:2 BE][strings][data]`.
use crate::constants::{MAX_DATA_BYTES, MAX_OPS_BYTES, MAX_STRING_BYTES, PRG_VERSION, TAPE_HEADER_1, TAPE_HEADER_2};
use crate::error::{AsmError, ErrorKind};
use crate::language::param_views;
use crate::params::{Param, ParamView};
use crate::program_model::{DataModel, LabelModel, OpModel, ProgramModel, StringModel};
use crate::strings::append_bytes;
use crate::table::SymbolTable;
use vstd::prelude::*;
use vstd::utf8::encode_utf8;

verus! {

/// The namespace a symbolic operand refers to.
#[derive(Debug, Clone, Copy, PartialEq, Eq, Structural)]
pub enum SymbolKind {
    Label,
    Str,
    Data,
}

/// A placeholder in the tape: two bytes at `offset` that receive the address
/// of symbol `name` of kind `kind`.
#[derive(Debug)]
pub struct Site {
    pub kind: SymbolKind,
    pub name: String,
    pub offset: usize,
}

impl Site {
    pub fn new(kind: SymbolKind, name: String, offset: usize) -> (r: Site)
        ensures
            r.kind == kind,
            r.name@ == name@,
            r.offset == offset,
    {
        Site { kind, name, offset }
    }
}

pub open spec fn site_view(s: Site) -> (SymbolKind, Seq<char>, int) {
    (s.kind, s.name@, s.offset as int)
}

pub open spec fn site_views(s: Seq<Site>) -> Seq<(SymbolKind, Seq<char>, int)> {
    s.map_values(|x: Site| site_view(x))
}

/// Big-endian bytes of a 16-bit value.
pub open spec fn be16(v: u16) -> Seq<u8> {
    seq![(v / 256) as u8, (v % 256) as u8]
}

/// The bytes one operand occupies: registers and numbers one, addresses and
/// symbolic operands two (symbolic ones as a zero placeholder).
pub open spec fn param_bytes(p: ParamView) -> Seq<u8> {
    match p {
        ParamView::Number(n) => seq![n],
        ParamView::DataReg(r) => seq![r],
        ParamView::AddrReg(r) => seq![r],
        ParamView::Addr(a) => be16(a),
        _ => seq![0u8, 0u8],
    }
}

pub open spec fn params_bytes(ps: Seq<ParamView>) -> Seq<u8>
    decreases ps.len(),
{
    if ps.len() == 0 {
        seq![]
    } else {
        params_bytes(ps.drop_last()) + param_bytes(ps.last())
    }
}

/// Opcode byte, then the operands in order.
pub open spec fn op_bytes(op: OpModel) -> Seq<u8> {
    seq![op.opcode] + params_bytes(param_views(op.params@))
}

/// The ops segment.
pub open spec fn ops_bytes(ops: Seq<OpModel>) -> Seq<u8>
    decreases ops.len(),
{
    if ops.len() == 0 {
        seq![]
    } else {
        ops_bytes(ops.drop_last()) + op_bytes(ops.last())
    }
}

/// The symbol a symbolic operand names.
pub open spec fn symbol_of(p: ParamView) -> Option<(SymbolKind, Seq<char>)> {
    match p {
        ParamView::Label(k) => Some((SymbolKind::Label, k)),
        ParamView::StrKey(k) => Some((SymbolKind::Str, k)),
        ParamView::DataKey(k) => Some((SymbolKind::Data, k)),
        _ => None,
    }
}

/// The sites of the operands `ps`, whose bytes start at tape offset `base`.
pub open spec fn param_sites(ps: Seq<ParamView>, base: int) -> Seq<(SymbolKind, Seq<char>, int)>
    decreases ps.len(),
{
    if ps.len() == 0 {
        seq![]
    } else {
        param_sites(ps.drop_last(), base) + match symbol_of(ps.last()) {
            Some((k, n)) => seq![(k, n, base + params_bytes(ps.drop_last()).len())],
            None => seq![],
        }
    }
}

/// The sites of `ops`, whose segment starts at tape offset `start`.
pub open spec fn ops_sites(ops: Seq<OpModel>, start: int) -> Seq<(SymbolKind, Seq<char>, int)>
    decreases ops.len(),
{
    if ops.len() == 0 {
        seq![]
    } else {
        ops_sites(ops.drop_last(), start) + param_sites(
            param_views(ops.last().params@),
            start + ops_bytes(ops.drop_last()).len() + 1,
        )
    }
}

/// Index of the first op whose line is at or after `line`, from `i` on; the
/// number of ops where there is none.
pub open spec fn first_op_from(ops: Seq<OpModel>, line: usize, i: int) -> int
    decreases ops.len() - i,
{
    if i >= ops.len() || i < 0 {
        ops.len() as int
    } else if ops[i].line_num >= line {
        i
    } else {
        first_op_from(ops, line, i + 1)
    }
}

/// The address a label defined on `line` binds to: the ops-segment offset of
/// the first op at or after its line, or the end of the segment.
pub open spec fn label_address(ops: Seq<OpModel>, line: usize) -> int {
    ops_bytes(ops.take(first_op_from(ops, line, 0))).len() as int
}

/// Label addresses of the entries `labels`: only defined labels have one.
pub open spec fn label_map(labels: Seq<(String, LabelModel)>, ops: Seq<OpModel>) -> Map<Seq<char>, u16>
    decreases labels.len(),
{
    if labels.len() == 0 {
        Map::empty()
    } else {
        let m = label_map(labels.drop_last(), ops);
        match labels.last().1.definition {
            Some(d) => m.insert(labels.last().0@, label_address(ops, d.line_num) as u16),
            None => m,
        }
    }
}

/// The encoding of the operands, and the sites among them.
pub fn encode_params(ps: &Vec<Param>, base: usize, bytes: &mut Vec<u8>, sites: &mut Vec<Site>)
    requires
        base + 2 * ps@.len() <= usize::MAX,
    ensures
        final(bytes)@ == old(bytes)@ + params_bytes(param_views(ps@)),
        site_views(final(sites)@) == site_views(old(sites)@) + param_sites(param_views(ps@), base as int),
        ps@.len() <= params_bytes(param_views(ps@)).len() <= 2 * ps@.len(),
{
    let mut k: usize = 0;
    let mut width: usize = 0;
    while k < ps.len()
        invariant
            k <= ps@.len(),
            base + 2 * ps@.len() <= usize::MAX,
            width == params_bytes(param_views(ps@).take(k as int)).len(),
            k <= width <= 2 * k,
            bytes@ == old(bytes)@ + params_bytes(param_views(ps@).take(k as int)),
            site_views(sites@) == site_views(old(sites)@) + param_sites(param_views(ps@).take(k as int), base as int),
        decreases ps@.len() - k,
    {
        let ghost pv = param_views(ps@);
        let ghost tk = pv.take(k + 1);
        proof {
            assert(tk.drop_last() =~= pv.take(k as int));
            assert(tk.last() == ps@[k as int]@);
        }
        let ghost sb = site_views(sites@);
        let ghost bb = bytes@;
        match &ps[k] {
            Param::Number(n) => {
                bytes.push(*n);
                width = width + 1;
            },
            Param::DataReg(r) => {
                bytes.push(*r);
                width = width + 1;
            },
            Param::AddrReg(r) => {
                bytes.push(*r);
                width = width + 1;
            },
            Param::Addr(a) => {
                bytes.push((*a / 256) as u8);
                bytes.push((*a % 256) as u8);
                width = width + 2;
            },
            Param::Label(name) => {
                let off = base + width;
                sites.push(Site::new(SymbolKind::Label, name.clone(), off));
                proof {
                    assert(site_views(sites@) =~= sb.push((SymbolKind::Label, name@, off as int)));
                }
                bytes.push(0);
                bytes.push(0);
                width = width + 2;
            },
            Param::StrKey(name) => {
                let off = base + width;
                sites.push(Site::new(SymbolKind::Str, name.clone(), off));
                proof {
                    assert(site_views(sites@) =~= sb.push((SymbolKind::Str, name@, off as int)));
                }
                bytes.push(0);
                bytes.push(0);
                width = width + 2;
            },
            Param::DataKey(name) => {
                let off = base + width;
                sites.push(Site::new(SymbolKind::Data, name.clone(), off));
                proof {
                    assert(site_views(sites@) =~= sb.push((SymbolKind::Data, name@, off as int)));
                }
                bytes.push(0);
                bytes.push(0);
                width = width + 2;
            },
        }
        proof {
            assert(bytes@ =~= bb + param_bytes(tk.last()));
            assert(bytes@ =~= old(bytes)@ + params_bytes(tk));
            assert(site_views(sites@) =~= site_views(old(sites)@) + param_sites(tk, base as int));
        }
        k = k + 1;
    }
    proof {
        assert(param_views(ps@).take(ps@.len() as int) =~= param_views(ps@));
    }
}

/// The ops segment with its sites, and the address of each defined label.
#[derive(Debug)]
pub struct OpsOutput {
    pub bytes: Vec<u8>,
    pub sites: Vec<Site>,
    pub label_addresses: SymbolTable<u16>,
}

pub proof fn lemma_ops_bytes_step(ops: Seq<OpModel>, i: int)
    requires
        0 <= i < ops.len(),
    ensures
        ops_bytes(ops.take(i + 1)) == ops_bytes(ops.take(i)) + op_bytes(ops[i]),
{
    assert(ops.take(i + 1).drop_last() =~= ops.take(i));
}

proof fn lemma_ops_sites_shift(ops: Seq<OpModel>, i: int, start: int)
    requires
        0 <= i < ops.len(),
    ensures
        ops_sites(ops.take(i + 1), start) == ops_sites(ops.take(i), start) + param_sites(
            param_views(ops[i].params@),
            start + ops_bytes(ops.take(i)).len() + 1,
        ),
{
    assert(ops.take(i + 1).drop_last() =~= ops.take(i));
}

/// Lays out the ops segment. `offset` is the tape offset at which the segment
/// starts; sites are recorded at their tape offsets. Each defined label binds
/// to the segment offset of the first op on or after its line, or to the end of
/// the segment when no op follows it.
pub fn generate_ops_bytes(ops: &Vec<OpModel>, offset: usize, labels: &SymbolTable<LabelModel>) -> (r: Result<
    OpsOutput,
    AsmError,
>)
    requires
        labels.wf(),
        offset <= usize::MAX / 2,
    ensures
        r is Ok <==> ops_bytes(ops@).len() <= MAX_OPS_BYTES,
        r matches Ok(o) ==> {
            &&& o.bytes@ == ops_bytes(ops@)
            &&& site_views(o.sites@) == ops_sites(ops@, offset as int)
            &&& o.label_addresses.wf()
            &&& o.label_addresses.map() == label_map(labels.entries@, ops@)
        },
        r matches Err(e) ==> e.kind == ErrorKind::OpsTooLarge,
{
    let n = ops.len();
    let mut bytes: Vec<u8> = Vec::new();
    let mut sites: Vec<Site> = Vec::new();
    let mut starts: Vec<usize> = Vec::new();
    let mut i: usize = 0;
    while i < n
        invariant
            i <= n == ops@.len(),
            offset <= usize::MAX / 2,
            bytes@ == ops_bytes(ops@.take(i as int)),
            bytes@.len() <= MAX_OPS_BYTES,
            site_views(sites@) == ops_sites(ops@.take(i as int), offset as int),
            starts@.len() == i,
            forall|j: int| 0 <= j < i ==> #[trigger] starts@[j] == ops_bytes(ops@.take(j)).len(),
        decreases n - i,
    {
        let op = &ops[i];
        proof {
            lemma_ops_bytes_step(ops@, i as int);
            lemma_ops_sites_shift(ops@, i as int, offset as int);
        }
        if op.params.len() >= MAX_OPS_BYTES {
            proof {
                lemma_ops_prefix_len(ops@, i + 1);
            }
            return Err(AsmError::new(ErrorKind::OpsTooLarge, op.original_line.clone()));
        }
        starts.push(bytes.len());
        let mut op_enc: Vec<u8> = vec![op.opcode];
        let base = offset + bytes.len() + 1;
        encode_params(&op.params, base, &mut op_enc, &mut sites);
        if bytes.len() + op_enc.len() > MAX_OPS_BYTES {
            proof {
                lemma_ops_prefix_len(ops@, i + 1);
            }
            return Err(AsmError::new(ErrorKind::OpsTooLarge, op.original_line.clone()));
        }
        append_bytes(&mut bytes, op_enc.as_slice());
        i = i + 1;
    }
    proof {
        assert(ops@.take(n as int) =~= ops@);
    }
    let total = bytes.len();
    let mut table: SymbolTable<u16> = SymbolTable::new();
    let mut j: usize = 0;
    proof {
        assert(labels.entries@.take(0) =~= Seq::<(String, LabelModel)>::empty());
        assert(table.map() =~= label_map(labels.entries@.take(0), ops@));
    }
    while j < labels.entries.len()
        invariant
            j <= labels.entries@.len(),
            n == ops@.len(),
            total == ops_bytes(ops@).len(),
            total <= MAX_OPS_BYTES,
            starts@.len() == n,
            forall|k: int| 0 <= k < n ==> #[trigger] starts@[k] == ops_bytes(ops@.take(k)).len(),
            table.wf(),
            table.map() == label_map(labels.entries@.take(j as int), ops@),
        decreases labels.entries@.len() - j,
    {
        let ghost tj = labels.entries@.take(j + 1);
        proof {
            assert(tj.drop_last() =~= labels.entries@.take(j as int));
        }
        match &labels.entries[j].1.definition {
            Some(d) => {
                let line = d.line_num;
                let mut k: usize = 0;
                while k < n && ops[k].line_num < line
                    invariant
                        k <= n == ops@.len(),
                        first_op_from(ops@, line, 0) == first_op_from(ops@, line, k as int),
                    decreases n - k,
                {
                    k = k + 1;
                }
                let addr = if k < n {
                    starts[k]
                } else {
                    total
                };
                proof {
                    assert(first_op_from(ops@, line, 0) == k);
                    if k == n {
                        assert(ops@.take(n as int) =~= ops@);
                    }
                    lemma_ops_prefix_len(ops@, k as int);
                }
                table.insert(labels.entries[j].0.clone(), addr as u16);
            },
            None => {},
        }
        j = j + 1;
    }
    proof {
        assert(labels.entries@.take(labels.entries@.len() as int) =~= labels.entries@);
    }
    Ok(OpsOutput { bytes, sites, label_addresses: table })
}

/// The ops segment only grows along the ops.
pub proof fn lemma_ops_prefix_len(ops: Seq<OpModel>, i: int)
    requires
        0 <= i <= ops.len(),
    ensures
        ops_bytes(ops.take(i)).len() <= ops_bytes(ops).len(),
        i > 0 ==> ops_bytes(ops.take(i)).len() >= ops_bytes(ops.take(i - 1)).len() + 1
            + ops[i - 1].params@.len(),
    decreases ops.len() - i,
{
    if i > 0 {
        lemma_ops_bytes_step(ops, i - 1);
        lemma_params_bytes_len(param_views(ops[i - 1].params@));
    }
    if i < ops.len() {
        lemma_ops_prefix_len(ops, i + 1);
        lemma_ops_bytes_step(ops, i);
    } else {
        assert(ops.take(i) =~= ops);
    }
}

proof fn lemma_params_bytes_len(ps: Seq<ParamView>)
    ensures
        ps.len() <= params_bytes(ps).len() <= 2 * ps.len(),
    decreases ps.len(),
{
    if ps.len() > 0 {
        lemma_params_bytes_len(ps.drop_last());
    }
}

/// One strings-segment entry: a length byte, then the content bytes.
pub open spec fn string_entry(m: StringModel) -> Seq<u8> {
    seq![encode_utf8(m.content@).len() as u8] + encode_utf8(m.content@)
}

/// The strings segment: the entries in table order, which is key order.
pub open spec fn strings_bytes(es: Seq<(String, StringModel)>) -> Seq<u8>
    decreases es.len(),
{
    if es.len() == 0 {
        seq![]
    } else {
        strings_bytes(es.drop_last()) + string_entry(es.last().1)
    }
}

/// Each key's offset in the strings segment.
pub open spec fn string_map(es: Seq<(String, StringModel)>) -> Map<Seq<char>, u16>
    decreases es.len(),
{
    if es.len() == 0 {
        Map::empty()
    } else {
        string_map(es.drop_last()).insert(es.last().0@, strings_bytes(es.drop_last()).len() as u16)
    }
}

/// Every string content fits its length byte.
pub open spec fn strings_fit(es: Seq<(String, StringModel)>) -> bool {
    forall|i: int| 0 <= i < es.len() ==> encode_utf8((#[trigger] es[i]).1.content@).len() <= 255
}

/// The data segment: the blobs in key order, without length prefixes.
pub open spec fn data_bytes(es: Seq<(String, DataModel)>) -> Seq<u8>
    decreases es.len(),
{
    if es.len() == 0 {
        seq![]
    } else {
        data_bytes(es.drop_last()) + es.last().1.content@
    }
}

/// Each key's offset in the data segment.
pub open spec fn data_map(es: Seq<(String, DataModel)>) -> Map<Seq<char>, u16>
    decreases es.len(),
{
    if es.len() == 0 {
        Map::empty()
    } else {
        data_map(es.drop_last()).insert(es.last().0@, data_bytes(es.drop_last()).len() as u16)
    }
}

proof fn lemma_strings_prefix(es: Seq<(String, StringModel)>, i: int)
    requires
        0 <= i <= es.len(),
    ensures
        strings_bytes(es.take(i)).len() <= strings_bytes(es).len(),
    decreases es.len() - i,
{
    if i < es.len() {
        lemma_strings_prefix(es, i + 1);
        assert(es.take(i + 1).drop_last() =~= es.take(i));
    } else {
        assert(es.take(i) =~= es);
    }
}

proof fn lemma_data_prefix(es: Seq<(String, DataModel)>, i: int)
    requires
        0 <= i <= es.len(),
    ensures
        data_bytes(es.take(i)).len() <= data_bytes(es).len(),
    decreases es.len() - i,
{
    if i < es.len() {
        lemma_data_prefix(es, i + 1);
        assert(es.take(i + 1).drop_last() =~= es.take(i));
    } else {
        assert(es.take(i) =~= es);
    }
}

/// Lays out the strings segment in key order and gives each key's offset.
pub fn generate_string_bytes(strings: &SymbolTable<StringModel>) -> (r: Result<(Vec<u8>, SymbolTable<u16>), AsmError>)
    requires
        strings.wf(),
    ensures
        r is Ok <==> strings_fit(strings.entries@) && strings_bytes(strings.entries@).len() <= MAX_STRING_BYTES,
        r matches Ok((b, t)) ==> b@ == strings_bytes(strings.entries@) && t.wf() && t.map() == string_map(
            strings.entries@,
        ),
        r matches Err(e) ==> (e.kind == ErrorKind::StringTooLong && !strings_fit(strings.entries@)) || (e.kind
            == ErrorKind::StringsTooLarge && strings_bytes(strings.entries@).len() > MAX_STRING_BYTES),
{
    let ghost es = strings.entries@;
    let mut out: Vec<u8> = Vec::new();
    let mut table: SymbolTable<u16> = SymbolTable::new();
    let mut j: usize = 0;
    proof {
        assert(es.take(0) =~= Seq::<(String, StringModel)>::empty());
        assert(table.map() =~= string_map(es.take(0)));
    }
    while j < strings.entries.len()
        invariant
            j <= es.len(),
            es == strings.entries@,
            out@ == strings_bytes(es.take(j as int)),
            out@.len() <= MAX_STRING_BYTES,
            strings_fit(es.take(j as int)),
            table.wf(),
            table.map() == string_map(es.take(j as int)),
        decreases es.len() - j,
    {
        let ghost tj = es.take(j + 1);
        proof {
            assert(tj.drop_last() =~= es.take(j as int));
            assert(tj.last() == es[j as int]);
        }
        let entry = &strings.entries[j];
        let content = entry.1.content.as_str().as_bytes();
        if content.len() > 255 {
            proof {
                assert(encode_utf8((es[j as int]).1.content@).len() > 255);
            }
            return Err(AsmError::new(ErrorKind::StringTooLong, entry.0.clone()));
        }
        if out.len() + 1 + content.len() > MAX_STRING_BYTES {
            proof {
                lemma_strings_prefix(es, j + 1);
            }
            return Err(AsmError::new(ErrorKind::StringsTooLarge, entry.0.clone()));
        }
        let addr = out.len() as u16;
        table.insert(entry.0.clone(), addr);
        out.push(content.len() as u8);
        append_bytes(&mut out, content);
        proof {
            assert(out@ =~= strings_bytes(tj));
            assert forall|i: int| 0 <= i < tj.len() implies encode_utf8((#[trigger] tj[i]).1.content@).len() <= 255 by {
                if i < j {
                    assert(tj[i] == es.take(j as int)[i]);
                }
            }
        }
        j = j + 1;
    }
    proof {
        assert(es.take(es.len() as int) =~= es);
    }
    Ok((out, table))
}

/// Lays out the data segment in key order and gives each key's offset.
pub fn generate_data_bytes(data: &SymbolTable<DataModel>) -> (r: Result<(Vec<u8>, SymbolTable<u16>), AsmError>)
    requires
        data.wf(),
    ensures
        r is Ok <==> data_bytes(data.entries@).len() <= MAX_DATA_BYTES,
        r matches Ok((b, t)) ==> b@ == data_bytes(data.entries@) && t.wf() && t.map() == data_map(data.entries@),
        r matches Err(e) ==> e.kind == ErrorKind::DataTooLarge,
{
    let ghost es = data.entries@;
    let mut out: Vec<u8> = Vec::new();
    let mut table: SymbolTable<u16> = SymbolTable::new();
    let mut j: usize = 0;
    proof {
        assert(es.take(0) =~= Seq::<(String, DataModel)>::empty());
        assert(table.map() =~= data_map(es.take(0)));
    }
    while j < data.entries.len()
        invariant
            j <= es.len(),
            es == data.entries@,
            out@ == data_bytes(es.take(j as int)),
            out@.len() <= MAX_DATA_BYTES,
            table.wf(),
            table.map() == data_map(es.take(j as int)),
        decreases es.len() - j,
    {
        let ghost tj = es.take(j + 1);
        proof {
            assert(tj.drop_last() =~= es.take(j as int));
            assert(tj.last() == es[j as int]);
        }
        let entry = &data.entries[j];
        if entry.1.content.len() > MAX_DATA_BYTES - out.len() {
            proof {
                lemma_data_prefix(es, j + 1);
            }
            return Err(AsmError::new(ErrorKind::DataTooLarge, entry.0.clone()));
        }
        let addr = out.len() as u16;
        table.insert(entry.0.clone(), addr);
        append_bytes(&mut out, entry.1.content.as_slice());
        proof {
            assert(out@ =~= data_bytes(tj));
        }
        j = j + 1;
    }
    proof {
        assert(es.take(es.len() as int) =~= es);
    }
    Ok((out, table))
}

/// `t` with the sites of kind `kind` whose symbol `addrs` knows set to the
/// symbol's address, big-endian, in site order.
pub open spec fn patch_all(
    t: Seq<u8>,
    sites: Seq<(SymbolKind, Seq<char>, int)>,
    kind: SymbolKind,
    addrs: Map<Seq<char>, u16>,
) -> Seq<u8>
    decreases sites.len(),
{
    if sites.len() == 0 {
        t
    } else {
        let t0 = patch_all(t, sites.drop_last(), kind, addrs);
        let s = sites.last();
        if s.0 == kind && addrs.contains_key(s.1) && 0 <= s.2 && s.2 + 1 < t0.len() {
            t0.update(s.2, be16(addrs[s.1])[0]).update(s.2 + 1, be16(addrs[s.1])[1])
        } else {
            t0
        }
    }
}

pub proof fn lemma_patch_len(t: Seq<u8>, sites: Seq<(SymbolKind, Seq<char>, int)>, kind: SymbolKind, addrs: Map<Seq<char>, u16>)
    ensures
        patch_all(t, sites, kind, addrs).len() == t.len(),
    decreases sites.len(),
{
    if sites.len() > 0 {
        lemma_patch_len(t, sites.drop_last(), kind, addrs);
    }
}

/// Writes the address of each site's symbol, for the sites of kind `kind`
/// whose symbol `sources` holds; other sites are left as they are.
pub fn update_addresses(bytes: Vec<u8>, sites: &Vec<Site>, kind: SymbolKind, sources: &SymbolTable<u16>) -> (r: Vec<u8>)
    requires
        sources.wf(),
        forall|i: int| 0 <= i < sites@.len() ==> (#[trigger] sites@[i]).offset + 1 < bytes@.len(),
    ensures
        r@ == patch_all(bytes@, site_views(sites@), kind, sources.map()),
{
    let mut out = bytes;
    let ghost orig = out@;
    let len0 = out.len();
    let mut i: usize = 0;
    proof {
        lemma_patch_len(orig, site_views(sites@).take(0), kind, sources.map());
        assert(site_views(sites@).take(0) =~= Seq::<(SymbolKind, Seq<char>, int)>::empty());
    }
    while i < sites.len()
        invariant
            i <= sites@.len(),
            sources.wf(),
            out@.len() == orig.len() == len0,
            forall|k: int| 0 <= k < sites@.len() ==> (#[trigger] sites@[k]).offset + 1 < orig.len(),
            out@ == patch_all(orig, site_views(sites@).take(i as int), kind, sources.map()),
        decreases sites@.len() - i,
    {
        let ghost ti = site_views(sites@).take(i + 1);
        proof {
            assert(ti.drop_last() =~= site_views(sites@).take(i as int));
            assert(ti.last() == site_view(sites@[i as int]));
            lemma_patch_len(orig, site_views(sites@).take(i as int), kind, sources.map());
        }
        let site = &sites[i];
        if site.kind == kind {
            match sources.get(site.name.as_str()) {
                Some(a) => {
                    proof {
                        let w = choose|w: int| 0 <= w < sources.entries@.len() && sources.key_at(w) == site.name@ && *a == sources.value_at(w);
                        sources.lemma_lookup(w);
                    }
                    let o = site.offset;
                    assert(sites@[i as int].offset + 1 < orig.len());
                    out.set(o, (*a / 256) as u8);
                    out.set(o + 1, (*a % 256) as u8);
                },
                None => {},
            }
        }
        i = i + 1;
    }
    proof {
        assert(site_views(sites@).take(sites@.len() as int) =~= site_views(sites@));
    }
    out
}

pub proof fn lemma_param_sites_bounds(ps: Seq<ParamView>, base: int)
    ensures
        forall|k: int|
            0 <= k < param_sites(ps, base).len() ==> base <= (#[trigger] param_sites(ps, base)[k]).2
                && param_sites(ps, base)[k].2 + 2 <= base + params_bytes(ps).len(),
    decreases ps.len(),
{
    if ps.len() > 0 {
        lemma_param_sites_bounds(ps.drop_last(), base);
        let prev = param_sites(ps.drop_last(), base);
        assert forall|k: int| 0 <= k < param_sites(ps, base).len() implies base <= (#[trigger] param_sites(
            ps,
            base,
        )[k]).2 && param_sites(ps, base)[k].2 + 2 <= base + params_bytes(ps).len() by {
            if k < prev.len() {
                assert(param_sites(ps, base)[k] == prev[k]);
            }
        }
    }
}

pub proof fn lemma_ops_sites_bounds(ops: Seq<OpModel>, start: int)
    ensures
        forall|k: int|
            0 <= k < ops_sites(ops, start).len() ==> start + 1 <= (#[trigger] ops_sites(ops, start)[k]).2
                && ops_sites(ops, start)[k].2 + 2 <= start + ops_bytes(ops).len(),
    decreases ops.len(),
{
    if ops.len() > 0 {
        lemma_ops_sites_bounds(ops.drop_last(), start);
        let prev = ops_sites(ops.drop_last(), start);
        let base = start + ops_bytes(ops.drop_last()).len() + 1;
        let ps = param_views(ops.last().params@);
        lemma_param_sites_bounds(ps, base);
        assert forall|k: int| 0 <= k < ops_sites(ops, start).len() implies start + 1 <= (#[trigger] ops_sites(
            ops,
            start,
        )[k]).2 && ops_sites(ops, start)[k].2 + 2 <= start + ops_bytes(ops).len() by {
            if k < prev.len() {
                assert(ops_sites(ops, start)[k] == prev[k]);
            } else {
                assert(ops_sites(ops, start)[k] == param_sites(ps, base)[k - prev.len()]);
            }
        }
    }
}

/// The symbol of a site has an address in the table of its kind.
pub open spec fn resolves(
    s: (SymbolKind, Seq<char>, int),
    strings: Map<Seq<char>, u16>,
    data: Map<Seq<char>, u16>,
    labels: Map<Seq<char>, u16>,
) -> bool {
    match s.0 {
        SymbolKind::Label => labels.contains_key(s.1),
        SymbolKind::Str => strings.contains_key(s.1),
        SymbolKind::Data => data.contains_key(s.1),
    }
}

pub open spec fn all_resolve(
    sites: Seq<(SymbolKind, Seq<char>, int)>,
    strings: Map<Seq<char>, u16>,
    data: Map<Seq<char>, u16>,
    labels: Map<Seq<char>, u16>,
) -> bool {
    forall|i: int| 0 <= i < sites.len() ==> resolves(#[trigger] sites[i], strings, data, labels)
}

/// The first site whose symbol has no address, if any.
fn find_undefined(
    sites: &Vec<Site>,
    strings: &SymbolTable<u16>,
    data: &SymbolTable<u16>,
    labels: &SymbolTable<u16>,
) -> (r: Option<usize>)
    requires
        strings.wf(),
        data.wf(),
        labels.wf(),
    ensures
        r is None <==> all_resolve(site_views(sites@), strings.map(), data.map(), labels.map()),
        r matches Some(i) ==> i < sites@.len(),
{
    let mut i: usize = 0;
    while i < sites.len()
        invariant
            i <= sites@.len(),
            strings.wf(),
            data.wf(),
            labels.wf(),
            forall|k: int| 0 <= k < i ==> resolves(#[trigger] site_views(sites@)[k], strings.map(), data.map(), labels.map()),
        decreases sites@.len() - i,
    {
        let site = &sites[i];
        let table = match site.kind {
            SymbolKind::Label => labels,
            SymbolKind::Str => strings,
            SymbolKind::Data => data,
        };
        let found = table.find(site.name.as_str());
        proof {
            assert(site_views(sites@)[i as int] == site_view(sites@[i as int]));
            match found {
                Some(w) => {
                    table.lemma_lookup(w as int);
                },
                None => {},
            }
        }
        if found.is_none() {
            return Some(i);
        }
        i = i + 1;
    }
    None
}

/// The fixed header, then the length-prefixed name and version.
pub open spec fn header_bytes(name: Seq<char>, version: Seq<char>) -> Seq<u8> {
    seq![TAPE_HEADER_1, TAPE_HEADER_2, PRG_VERSION] + seq![encode_utf8(name).len() as u8] + encode_utf8(name)
        + seq![encode_utf8(version).len() as u8] + encode_utf8(version)
}

/// Tape offset at which the ops segment starts.
pub open spec fn ops_start(m: ProgramModel) -> int {
    header_bytes(m.name@, m.version@).len() + 2int
}

/// The tape with every placeholder still zero.
pub open spec fn unpatched_tape(m: ProgramModel) -> Seq<u8> {
    let ob = ops_bytes(m.ops@);
    let sb = strings_bytes(m.strings.entries@);
    header_bytes(m.name@, m.version@) + be16(ob.len() as u16) + ob + be16(sb.len() as u16) + sb + data_bytes(
        m.data.entries@,
    )
}

/// Every placeholder of the program's ops, at its tape offset.
pub open spec fn tape_sites(m: ProgramModel) -> Seq<(SymbolKind, Seq<char>, int)> {
    ops_sites(m.ops@, ops_start(m))
}

/// The finished tape: placeholders patched with string, data, then label addresses.
pub open spec fn tape_of(m: ProgramModel) -> Seq<u8> {
    let sites = tape_sites(m);
    patch_all(
        patch_all(
            patch_all(unpatched_tape(m), sites, SymbolKind::Str, string_map(m.strings.entries@)),
            sites,
            SymbolKind::Data,
            data_map(m.data.entries@),
        ),
        sites,
        SymbolKind::Label,
        label_map(m.labels.entries@, m.ops@),
    )
}

/// Whether the program breaks the rule that error kind `k` reports.
pub open spec fn tape_error(m: ProgramModel, k: ErrorKind) -> bool {
    ||| k == ErrorKind::NameTooLong && encode_utf8(m.name@).len() > 255
    ||| k == ErrorKind::VersionTooLong && encode_utf8(m.version@).len() > 255
    ||| k == ErrorKind::OpsTooLarge && ops_bytes(m.ops@).len() > MAX_OPS_BYTES
    ||| k == ErrorKind::StringTooLong && !strings_fit(m.strings.entries@)
    ||| k == ErrorKind::StringsTooLarge && strings_bytes(m.strings.entries@).len() > MAX_STRING_BYTES
    ||| k == ErrorKind::DataTooLarge && data_bytes(m.data.entries@).len() > MAX_DATA_BYTES
    ||| k == ErrorKind::UndefinedSymbol && !all_resolve(
        tape_sites(m),
        string_map(m.strings.entries@),
        data_map(m.data.entries@),
        label_map(m.labels.entries@, m.ops@),
    )
}

/// The program can be laid out: every rule holds.
pub open spec fn tape_ok(m: ProgramModel) -> bool {
    &&& encode_utf8(m.name@).len() <= 255
    &&& encode_utf8(m.version@).len() <= 255
    &&& ops_bytes(m.ops@).len() <= MAX_OPS_BYTES
    &&& strings_fit(m.strings.entries@)
    &&& strings_bytes(m.strings.entries@).len() <= MAX_STRING_BYTES
    &&& data_bytes(m.data.entries@).len() <= MAX_DATA_BYTES
    &&& all_resolve(
        tape_sites(m),
        string_map(m.strings.entries@),
        data_map(m.data.entries@),
        label_map(m.labels.entries@, m.ops@),
    )
}

/// Lowers a program into its tape.
pub fn generate_byte_code(model: ProgramModel) -> (r: Result<Vec<u8>, AsmError>)
    requires
        model.wf(),
    ensures
        r is Ok <==> tape_ok(model),
        r matches Ok(t) ==> t@ == tape_of(model),
        r matches Err(e) ==> tape_error(model, e.kind),
{
    let mut output: Vec<u8> = vec![TAPE_HEADER_1, TAPE_HEADER_2, PRG_VERSION];
    let name = model.name.as_str().as_bytes();
    if name.len() > 255 {
        return Err(AsmError::new(ErrorKind::NameTooLong, model.name.clone()));
    }
    output.push(name.len() as u8);
    append_bytes(&mut output, name);
    let version = model.version.as_str().as_bytes();
    if version.len() > 255 {
        return Err(AsmError::new(ErrorKind::VersionTooLong, model.version.clone()));
    }
    output.push(version.len() as u8);
    append_bytes(&mut output, version);
    proof {
        assert(output@ =~= header_bytes(model.name@, model.version@));
    }
    let ops_output = match generate_ops_bytes(&model.ops, output.len() + 2, &model.labels) {
        Ok(o) => o,
        Err(e) => {
            return Err(e);
        },
    };
    let ops_len = ops_output.bytes.len() as u16;
    output.push((ops_len / 256) as u8);
    output.push((ops_len % 256) as u8);
    append_bytes(&mut output, ops_output.bytes.as_slice());
    let (string_bytes, string_addresses) = match generate_string_bytes(&model.strings) {
        Ok(x) => x,
        Err(e) => {
            return Err(e);
        },
    };
    let strings_len = string_bytes.len() as u16;
    output.push((strings_len / 256) as u8);
    output.push((strings_len % 256) as u8);
    append_bytes(&mut output, string_bytes.as_slice());
    let (data_bytes_out, data_addresses) = match generate_data_bytes(&model.data) {
        Ok(x) => x,
        Err(e) => {
            return Err(e);
        },
    };
    append_bytes(&mut output, data_bytes_out.as_slice());
    proof {
        assert(output@ =~= unpatched_tape(model));
    }
    match find_undefined(&ops_output.sites, &string_addresses, &data_addresses, &ops_output.label_addresses) {
        Some(i) => {
            return Err(AsmError::new(ErrorKind::UndefinedSymbol, ops_output.sites[i].name.clone()));
        },
        None => {},
    }
    let ghost sites = tape_sites(model);
    let ghost t0 = output@;
    proof {
        lemma_ops_sites_bounds(model.ops@, ops_start(model));
        assert forall|i: int| 0 <= i < ops_output.sites@.len() implies (#[trigger] ops_output.sites@[i]).offset + 1
            < output@.len() by {
            assert(site_views(ops_output.sites@)[i] == site_view(ops_output.sites@[i]));
        }
        lemma_patch_len(t0, sites, SymbolKind::Str, string_addresses.map());
    }
    let output = update_addresses(output, &ops_output.sites, SymbolKind::Str, &string_addresses);
    let ghost t1 = output@;
    proof {
        lemma_patch_len(t1, sites, SymbolKind::Data, data_addresses.map());
    }
    let output = update_addresses(output, &ops_output.sites, SymbolKind::Data, &data_addresses);
    let output = update_addresses(output, &ops_output.sites, SymbolKind::Label, &ops_output.label_addresses);
    Ok(output)
}

/// Keys of the labels in `es` defined on line `line_num`, in table order.
pub open spec fn labels_on_line(es: Seq<(String, LabelModel)>, line_num: usize) -> Seq<Seq<char>>
    decreases es.len(),
{
    if es.len() == 0 {
        seq![]
    } else {
        labels_on_line(es.drop_last(), line_num) + match es.last().1.definition {
            Some(d) => if d.line_num == line_num {
                seq![es.last().0@]
            } else {
                seq![]
            },
            None => seq![],
        }
    }
}

/// The keys of the labels defined on line `line_num`.
pub fn get_label_keys_for_line(labels: &SymbolTable<LabelModel>, line_num: usize) -> (r: Vec<String>)
    ensures
        r@.map_values(|k: String| k@) == labels_on_line(labels.entries@, line_num),
{
    let ghost es = labels.entries@;
    let mut out: Vec<String> = Vec::new();
    let mut j: usize = 0;
    proof {
        assert(es.take(0) =~= Seq::<(String, LabelModel)>::empty());
        assert(out@.map_values(|k: String| k@) =~= labels_on_line(es.take(0), line_num));
    }
    while j < labels.entries.len()
        invariant
            j <= es.len(),
            es == labels.entries@,
            out@.map_values(|k: String| k@) == labels_on_line(es.take(j as int), line_num),
        decreases es.len() - j,
    {
        let ghost tj = es.take(j + 1);
        let ghost before = out@.map_values(|k: String| k@);
        proof {
            assert(tj.drop_last() =~= es.take(j as int));
            assert(tj.last() == es[j as int]);
        }
        match &labels.entries[j].1.definition {
            Some(d) => {
                if d.line_num == line_num {
                    out.push(labels.entries[j].0.clone());
                    proof {
                        assert(out@.map_values(|k: String| k@) =~= before + seq![es[j as int].0@]);
                    }
                } else {
                    proof {
                        assert(before + seq![] =~= before);
                    }
                }
            },
            None => {
                proof {
                    assert(before + seq![] =~= before);
                }
            },
        }
        j = j + 1;
    }
    proof {
        assert(es.take(es.len() as int) =~= es);
    }
    out
}

} // verus!
