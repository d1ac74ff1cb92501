//! What every generated tape satisfies, proved from the layout that
//! `generate_byte_code` produces.
use crate::generator::{
    be16, data_bytes, data_map, label_map, lemma_ops_sites_bounds, lemma_param_sites_bounds, lemma_patch_len,
    ops_bytes, ops_sites, ops_start, param_bytes, param_sites, params_bytes, patch_all, resolves, string_entry,
    string_map, strings_bytes, strings_fit, symbol_of, tape_of, tape_ok, tape_sites, unpatched_tape, SymbolKind,
};
use crate::language::{
    addr_operand_offset, first_address_from, is_address_kind, kinds_width, op_entry, param_views, signature_from,
    OP_COUNT,
};
use crate::params::{ParamView, Parameters};
use crate::program_model::{DataModel, OpModel, ProgramModel, StringModel};
use crate::table::SymbolTable;
use crate::text::{lemma_lex_irreflexive, lemma_lex_transitive, lex_lt, strictly_sorted};
use vstd::prelude::*;
use vstd::utf8::encode_utf8;

verus! {

/// Tape offset at which the strings segment starts.
pub open spec fn strings_start(m: ProgramModel) -> int {
    ops_start(m) + ops_bytes(m.ops@).len() + 2
}

/// The 16-bit big-endian value at offset `o`.
pub open spec fn read_u16_be(t: Seq<u8>, o: int) -> int {
    t[o] as int * 256 + t[o + 1] as int
}

/// The address of a symbol in the table of its kind.
pub open spec fn symbol_address(m: ProgramModel, kind: SymbolKind, name: Seq<char>) -> u16 {
    match kind {
        SymbolKind::Str => string_map(m.strings.entries@)[name],
        SymbolKind::Data => data_map(m.data.entries@)[name],
        SymbolKind::Label => label_map(m.labels.entries@, m.ops@)[name],
    }
}

/// Sites lie in ascending order, two bytes each, without overlap.
pub open spec fn disjoint(sites: Seq<(SymbolKind, Seq<char>, int)>) -> bool {
    forall|a: int, b: int| 0 <= a < b < sites.len() ==> (#[trigger] sites[a]).2 + 2 <= (#[trigger] sites[b]).2
}

/// The tape is a function of the program: two programs with the same name,
/// version, ops and tables give the same tape, and succeed or fail alike.
pub proof fn lemma_tape_deterministic(m1: ProgramModel, m2: ProgramModel)
    requires
        m1.name@ == m2.name@,
        m1.version@ == m2.version@,
        m1.ops@ == m2.ops@,
        m1.strings.entries@ == m2.strings.entries@,
        m1.data.entries@ == m2.data.entries@,
        m1.labels.entries@ == m2.labels.entries@,
    ensures
        tape_of(m1) == tape_of(m2),
        tape_ok(m1) == tape_ok(m2),
{
}

/// The tape is 9 bytes of header, length bytes and segment lengths, plus the
/// name, the version and the three segments.
pub proof fn lemma_tape_length(m: ProgramModel)
    ensures
        tape_of(m).len() == 9 + encode_utf8(m.name@).len() + encode_utf8(m.version@).len() + ops_bytes(
            m.ops@,
        ).len() + strings_bytes(m.strings.entries@).len() + data_bytes(m.data.entries@).len(),
{
    let sites = tape_sites(m);
    let t0 = unpatched_tape(m);
    lemma_patch_len(t0, sites, SymbolKind::Str, string_map(m.strings.entries@));
    let t1 = patch_all(t0, sites, SymbolKind::Str, string_map(m.strings.entries@));
    lemma_patch_len(t1, sites, SymbolKind::Data, data_map(m.data.entries@));
    let t2 = patch_all(t1, sites, SymbolKind::Data, data_map(m.data.entries@));
    lemma_patch_len(t2, sites, SymbolKind::Label, label_map(m.labels.entries@, m.ops@));
}

/// Patching leaves alone every byte that no site of the patched kind covers.
pub proof fn lemma_patch_unchanged(
    t: Seq<u8>,
    sites: Seq<(SymbolKind, Seq<char>, int)>,
    kind: SymbolKind,
    addrs: Map<Seq<char>, u16>,
    p: int,
)
    requires
        0 <= p < t.len(),
        forall|j: int| 0 <= j < sites.len() && (#[trigger] sites[j]).0 == kind ==> !(sites[j].2 <= p <= sites[j].2 + 1),
    ensures
        patch_all(t, sites, kind, addrs)[p] == t[p],
    decreases sites.len(),
{
    if sites.len() > 0 {
        let prev = sites.drop_last();
        assert forall|j: int| 0 <= j < prev.len() && (#[trigger] prev[j]).0 == kind implies !(prev[j].2 <= p <= prev[j].2
            + 1) by {
            assert(prev[j] == sites[j]);
        }
        lemma_patch_unchanged(t, prev, kind, addrs, p);
        lemma_patch_len(t, prev, kind, addrs);
        assert(sites.last() == sites[sites.len() - 1]);
    }
}

/// A site of the patched kind whose symbol has an address receives it.
pub proof fn lemma_patch_at(
    t: Seq<u8>,
    sites: Seq<(SymbolKind, Seq<char>, int)>,
    kind: SymbolKind,
    addrs: Map<Seq<char>, u16>,
    i: int,
)
    requires
        disjoint(sites),
        0 <= i < sites.len(),
        sites[i].0 == kind,
        addrs.contains_key(sites[i].1),
        0 <= sites[i].2,
        sites[i].2 + 1 < t.len(),
    ensures
        patch_all(t, sites, kind, addrs)[sites[i].2] == be16(addrs[sites[i].1])[0],
        patch_all(t, sites, kind, addrs)[sites[i].2 + 1] == be16(addrs[sites[i].1])[1],
    decreases sites.len(),
{
    let prev = sites.drop_last();
    lemma_patch_len(t, prev, kind, addrs);
    if i < sites.len() - 1 {
        assert(prev[i] == sites[i]);
        assert forall|a: int, b: int| 0 <= a < b < prev.len() implies (#[trigger] prev[a]).2 + 2 <= (#[trigger] prev[b]).2 by {
            assert(prev[a] == sites[a] && prev[b] == sites[b]);
        }
        lemma_patch_at(t, prev, kind, addrs, i);
        assert(sites[i].2 + 2 <= sites[sites.len() - 1].2);
    }
}

/// Sites of one op's operands are disjoint and lie within its operand bytes.
proof fn lemma_param_sites_disjoint(ps: Seq<ParamView>, base: int)
    ensures
        disjoint(param_sites(ps, base)),
    decreases ps.len(),
{
    if ps.len() > 0 {
        lemma_param_sites_disjoint(ps.drop_last(), base);
        lemma_param_sites_bounds(ps.drop_last(), base);
        let prev = param_sites(ps.drop_last(), base);
        let cur = param_sites(ps, base);
        assert forall|a: int, b: int| 0 <= a < b < cur.len() implies (#[trigger] cur[a]).2 + 2 <= (#[trigger] cur[b]).2 by {
            assert(cur[a] == prev[a]);
            if b < prev.len() {
                assert(cur[b] == prev[b]);
            }
        }
    }
}

/// The sites of the ops segment are disjoint.
pub proof fn lemma_ops_sites_disjoint(ops: Seq<OpModel>, start: int)
    ensures
        disjoint(ops_sites(ops, start)),
    decreases ops.len(),
{
    if ops.len() > 0 {
        lemma_ops_sites_disjoint(ops.drop_last(), start);
        lemma_ops_sites_bounds(ops.drop_last(), start);
        let base = start + ops_bytes(ops.drop_last()).len() + 1;
        let ps = param_views(ops.last().params@);
        lemma_param_sites_disjoint(ps, base);
        lemma_param_sites_bounds(ps, base);
        let prev = ops_sites(ops.drop_last(), start);
        let last = param_sites(ps, base);
        let cur = ops_sites(ops, start);
        assert(cur == prev + last);
        assert forall|a: int, b: int| 0 <= a < b < cur.len() implies (#[trigger] cur[a]).2 + 2 <= (#[trigger] cur[b]).2 by {
            if b < prev.len() {
                assert(cur[a] == prev[a] && cur[b] == prev[b]);
            } else if a < prev.len() {
                assert(cur[a] == prev[a] && cur[b] == last[b - prev.len()]);
            } else {
                assert(cur[a] == last[a - prev.len()] && cur[b] == last[b - prev.len()]);
            }
        }
    }
}

/// Every placeholder of a tape reads, big-endian, the
/// address of the symbol it names.
pub proof fn lemma_patch_correct(m: ProgramModel, i: int)
    requires
        tape_ok(m),
        0 <= i < tape_sites(m).len(),
    ensures
        read_u16_be(tape_of(m), tape_sites(m)[i].2) == symbol_address(m, tape_sites(m)[i].0, tape_sites(m)[i].1) as int,
{
    let sites = tape_sites(m);
    let s = sites[i];
    let sm = string_map(m.strings.entries@);
    let dm = data_map(m.data.entries@);
    let lm = label_map(m.labels.entries@, m.ops@);
    let t0 = unpatched_tape(m);
    let t1 = patch_all(t0, sites, SymbolKind::Str, sm);
    let t2 = patch_all(t1, sites, SymbolKind::Data, dm);
    lemma_ops_sites_bounds(m.ops@, ops_start(m));
    lemma_ops_sites_disjoint(m.ops@, ops_start(m));
    lemma_patch_len(t0, sites, SymbolKind::Str, sm);
    lemma_patch_len(t1, sites, SymbolKind::Data, dm);
    assert(resolves(sites[i], sm, dm, lm));
    assert(s.2 + 1 < t0.len());
    assert forall|j: int| 0 <= j < sites.len() && j != i implies !(#[trigger] sites[j].2 <= s.2 <= sites[j].2 + 1) && !(
    sites[j].2 <= s.2 + 1 <= sites[j].2 + 1) by {
        if j < i {
            assert(sites[j].2 + 2 <= sites[i].2);
        } else {
            assert(sites[i].2 + 2 <= sites[j].2);
        }
    }
    match s.0 {
        SymbolKind::Str => {
            lemma_patch_at(t0, sites, SymbolKind::Str, sm, i);
            lemma_patch_unchanged(t1, sites, SymbolKind::Data, dm, s.2);
            lemma_patch_unchanged(t1, sites, SymbolKind::Data, dm, s.2 + 1);
            lemma_patch_unchanged(t2, sites, SymbolKind::Label, lm, s.2);
            lemma_patch_unchanged(t2, sites, SymbolKind::Label, lm, s.2 + 1);
        },
        SymbolKind::Data => {
            lemma_patch_at(t1, sites, SymbolKind::Data, dm, i);
            lemma_patch_unchanged(t2, sites, SymbolKind::Label, lm, s.2);
            lemma_patch_unchanged(t2, sites, SymbolKind::Label, lm, s.2 + 1);
        },
        SymbolKind::Label => {
            lemma_patch_at(t2, sites, SymbolKind::Label, lm, i);
        },
    }
    let a = symbol_address(m, s.0, s.1);
    assert(a as int == (a / 256) as u8 as int * 256 + (a % 256) as u8 as int);
}

/// The strings segment of the first `i` entries starts the whole segment.
pub proof fn lemma_strings_prefix_bytes(es: Seq<(String, StringModel)>, i: int)
    requires
        0 <= i <= es.len(),
    ensures
        strings_bytes(es.take(i)).len() <= strings_bytes(es).len(),
        strings_bytes(es).subrange(0, strings_bytes(es.take(i)).len() as int) == strings_bytes(es.take(i)),
    decreases es.len(),
{
    if i == es.len() {
        assert(es.take(i) =~= es);
        assert(strings_bytes(es).subrange(0, strings_bytes(es).len() as int) =~= strings_bytes(es));
    } else {
        let prev = es.drop_last();
        lemma_strings_prefix_bytes(prev, i);
        assert(prev.take(i) =~= es.take(i));
        let pb = strings_bytes(prev);
        let n = strings_bytes(es.take(i)).len() as int;
        assert(strings_bytes(es).subrange(0, n) =~= pb.subrange(0, n));
    }
}

/// The data segment of the first `i` entries starts the whole segment.
pub proof fn lemma_data_prefix_bytes(es: Seq<(String, DataModel)>, i: int)
    requires
        0 <= i <= es.len(),
    ensures
        data_bytes(es.take(i)).len() <= data_bytes(es).len(),
        data_bytes(es).subrange(0, data_bytes(es.take(i)).len() as int) == data_bytes(es.take(i)),
    decreases es.len(),
{
    if i == es.len() {
        assert(es.take(i) =~= es);
        assert(data_bytes(es).subrange(0, data_bytes(es).len() as int) =~= data_bytes(es));
    } else {
        let prev = es.drop_last();
        lemma_data_prefix_bytes(prev, i);
        assert(prev.take(i) =~= es.take(i));
        let n = data_bytes(es.take(i)).len() as int;
        assert(data_bytes(es).subrange(0, n) =~= data_bytes(prev).subrange(0, n));
    }
}

pub open spec fn distinct_keys<V>(es: Seq<(String, V)>) -> bool {
    forall|a: int, b: int| 0 <= a < es.len() && 0 <= b < es.len() && a != b ==> (#[trigger] es[a]).0@ != (#[trigger] es[b]).0@
}

/// Entry `i` of the strings table sits at the end of the entries before it.
pub proof fn lemma_string_map_at(es: Seq<(String, StringModel)>, i: int)
    requires
        distinct_keys(es),
        0 <= i < es.len(),
    ensures
        string_map(es).contains_key(es[i].0@),
        string_map(es)[es[i].0@] == strings_bytes(es.take(i)).len() as u16,
    decreases es.len(),
{
    let prev = es.drop_last();
    if i == es.len() - 1 {
        assert(prev =~= es.take(i));
    } else {
        assert forall|a: int, b: int| 0 <= a < prev.len() && 0 <= b < prev.len() && a != b implies (#[trigger] prev[a]).0@
            != (#[trigger] prev[b]).0@ by {
            assert(prev[a] == es[a] && prev[b] == es[b]);
        }
        lemma_string_map_at(prev, i);
        assert(prev.take(i) =~= es.take(i));
        assert(prev[i] == es[i]);
        assert(es[i].0@ != es[es.len() - 1].0@);
    }
}

/// Entry `i` of the data table sits at the end of the blobs before it.
pub proof fn lemma_data_map_at(es: Seq<(String, DataModel)>, i: int)
    requires
        distinct_keys(es),
        0 <= i < es.len(),
    ensures
        data_map(es).contains_key(es[i].0@),
        data_map(es)[es[i].0@] == data_bytes(es.take(i)).len() as u16,
    decreases es.len(),
{
    let prev = es.drop_last();
    if i == es.len() - 1 {
        assert(prev =~= es.take(i));
    } else {
        assert forall|a: int, b: int| 0 <= a < prev.len() && 0 <= b < prev.len() && a != b implies (#[trigger] prev[a]).0@
            != (#[trigger] prev[b]).0@ by {
            assert(prev[a] == es[a] && prev[b] == es[b]);
        }
        lemma_data_map_at(prev, i);
        assert(prev.take(i) =~= es.take(i));
        assert(prev[i] == es[i]);
        assert(es[i].0@ != es[es.len() - 1].0@);
    }
}

pub proof fn lemma_table_distinct<V>(t: &SymbolTable<V>)
    requires
        t.wf(),
    ensures
        distinct_keys(t.entries@),
{
    assert forall|a: int, b: int| 0 <= a < t.entries@.len() && 0 <= b < t.entries@.len() && a != b implies (
    #[trigger] t.entries@[a]).0@ != (#[trigger] t.entries@[b]).0@ by {
        t.lemma_keys_distinct(a, b);
    }
}

/// At the strings-segment offset of each key the tape
/// holds the content's length, then the content's bytes.
pub proof fn lemma_string_round_trip(m: ProgramModel, i: int)
    requires
        m.wf(),
        tape_ok(m),
        0 <= i < m.strings.entries@.len(),
    ensures
        ({
            let es = m.strings.entries@;
            let content = encode_utf8(es[i].1.content@);
            let at = strings_start(m) + string_map(es)[es[i].0@] as int;
            &&& string_map(es).contains_key(es[i].0@)
            &&& tape_of(m)[at] as int == content.len()
            &&& tape_of(m).subrange(at + 1, at + 1 + content.len()) == content
        }),
{
    let es = m.strings.entries@;
    let content = encode_utf8(es[i].1.content@);
    lemma_table_distinct(&m.strings);
    lemma_string_map_at(es, i);
    lemma_strings_prefix_bytes(es, i + 1);
    lemma_strings_prefix_bytes(es, i);
    assert(es.take(i + 1).drop_last() =~= es.take(i));
    assert(es.take(i + 1).last() == es[i]);
    let pre = strings_bytes(es.take(i));
    let sb = strings_bytes(es);
    let a = string_map(es)[es[i].0@];
    assert(a as int == pre.len());
    let at = strings_start(m) + a as int;
    let sites = tape_sites(m);
    let sm = string_map(es);
    let dm = data_map(m.data.entries@);
    let lm = label_map(m.labels.entries@, m.ops@);
    let t0 = unpatched_tape(m);
    let t1 = patch_all(t0, sites, SymbolKind::Str, sm);
    let t2 = patch_all(t1, sites, SymbolKind::Data, dm);
    lemma_ops_sites_bounds(m.ops@, ops_start(m));
    lemma_patch_len(t0, sites, SymbolKind::Str, sm);
    lemma_patch_len(t1, sites, SymbolKind::Data, dm);
    assert(strings_fit(es));
    assert(encode_utf8(es[i].1.content@).len() <= 255);
    let entry = string_entry(es[i].1);
    assert(strings_bytes(es.take(i + 1)) == pre + entry);
    assert forall|x: int| 0 <= x < 1 + content.len() implies #[trigger] tape_of(m)[at + x] == entry[x] by {
        let p = at + x;
        assert(sb.subrange(0, (pre.len() + entry.len()) as int)[pre.len() + x] == entry[x]);
        assert(t0[p] == sb[pre.len() + x]);
        lemma_patch_unchanged(t0, sites, SymbolKind::Str, sm, p);
        lemma_patch_unchanged(t1, sites, SymbolKind::Data, dm, p);
        lemma_patch_unchanged(t2, sites, SymbolKind::Label, lm, p);
    }
    lemma_tape_length(m);
    assert(pre.len() + entry.len() <= sb.len());
    let z: int = 0;
    assert(tape_of(m)[at + z] == entry[z]);
    assert(tape_of(m).subrange(at + 1, at + 1 + content.len()) =~= content) by {
        assert forall|x: int| 0 <= x < content.len() implies tape_of(m).subrange(at + 1, at + 1 + content.len())[x]
            == content[x] by {
            let y = x + 1;
            assert(tape_of(m)[at + y] == entry[y]);
        }
    }
}

/// Walking the strings table by ascending offset visits the keys
/// in lexicographic order, and each key has its own offset.
pub proof fn lemma_string_order(es: Seq<(String, StringModel)>, i: int, j: int)
    requires
        strictly_sorted(es.map_values(|e: (String, StringModel)| e.0@)),
        strings_bytes(es).len() <= 65535,
        0 <= i < es.len(),
        0 <= j < es.len(),
    ensures
        lex_lt(es[i].0@, es[j].0@) <==> string_map(es)[es[i].0@] < string_map(es)[es[j].0@],
{
    let ks = es.map_values(|e: (String, StringModel)| e.0@);
    assert forall|a: int, b: int| 0 <= a < es.len() && 0 <= b < es.len() && a != b implies (#[trigger] es[a]).0@
        != (#[trigger] es[b]).0@ by {
        assert(ks[a] == es[a].0@ && ks[b] == es[b].0@);
        lemma_lex_irreflexive(ks[a]);
        if b < a {
            lemma_lex_irreflexive(ks[b]);
        }
    }
    lemma_string_map_at(es, i);
    lemma_string_map_at(es, j);
    lemma_strings_prefix_bytes(es, i);
    lemma_strings_prefix_bytes(es, j);
    assert(ks[i] == es[i].0@ && ks[j] == es[j].0@);
    lemma_lex_irreflexive(ks[i]);
    lemma_lex_irreflexive(ks[j]);
    if i < j {
        lemma_strings_grow(es, i, j);
        assert(lex_lt(ks[i], ks[j]));
    } else if j < i {
        lemma_strings_grow(es, j, i);
        assert(lex_lt(ks[j], ks[i]));
        if lex_lt(ks[i], ks[j]) {
            lemma_lex_transitive(ks[j], ks[i], ks[j]);
        }
    }
}

/// Each string entry takes at least its length byte.
proof fn lemma_strings_grow(es: Seq<(String, StringModel)>, i: int, j: int)
    requires
        0 <= i < j <= es.len(),
    ensures
        strings_bytes(es.take(i)).len() < strings_bytes(es.take(j)).len(),
    decreases j - i,
{
    assert(es.take(j).drop_last() =~= es.take(j - 1));
    if i < j - 1 {
        lemma_strings_grow(es, i, j - 1);
    }
}

/// The data segment never shrinks as entries are added.
proof fn lemma_data_grow(es: Seq<(String, DataModel)>, i: int, j: int)
    requires
        0 <= i <= j <= es.len(),
    ensures
        data_bytes(es.take(i)).len() <= data_bytes(es.take(j)).len(),
    decreases j - i,
{
    if i < j {
        assert(es.take(j).drop_last() =~= es.take(j - 1));
        lemma_data_grow(es, i, j - 1);
    }
}

/// In the data table a key that orders before another never has a larger
/// offset (empty blobs may share one).
pub proof fn lemma_data_order(es: Seq<(String, DataModel)>, i: int, j: int)
    requires
        strictly_sorted(es.map_values(|e: (String, DataModel)| e.0@)),
        data_bytes(es).len() <= 65535,
        0 <= i < es.len(),
        0 <= j < es.len(),
        lex_lt(es[i].0@, es[j].0@),
    ensures
        data_map(es)[es[i].0@] <= data_map(es)[es[j].0@],
{
    let ks = es.map_values(|e: (String, DataModel)| e.0@);
    assert forall|a: int, b: int| 0 <= a < es.len() && 0 <= b < es.len() && a != b implies (#[trigger] es[a]).0@
        != (#[trigger] es[b]).0@ by {
        assert(ks[a] == es[a].0@ && ks[b] == es[b].0@);
        lemma_lex_irreflexive(ks[a]);
        if b < a {
            lemma_lex_irreflexive(ks[b]);
        }
    }
    lemma_data_map_at(es, i);
    lemma_data_map_at(es, j);
    lemma_data_prefix_bytes(es, i);
    lemma_data_prefix_bytes(es, j);
    assert(ks[i] == es[i].0@ && ks[j] == es[j].0@);
    if j < i {
        assert(lex_lt(ks[j], ks[i]));
        lemma_lex_transitive(ks[i], ks[j], ks[i]);
        lemma_lex_irreflexive(ks[i]);
    } else if i == j {
        lemma_lex_irreflexive(ks[i]);
    } else {
        lemma_data_grow(es, i, j);
    }
}

/// Whether slot kind `k` accepts operand `p`.
pub open spec fn accepts(k: Parameters, p: ParamView) -> bool {
    match p {
        ParamView::Number(_) => k == Parameters::NUMBER,
        ParamView::DataReg(_) => k == Parameters::DATA_REG || k == Parameters::REGISTERS,
        ParamView::AddrReg(_) => k == Parameters::ADDR_REG || k == Parameters::REGISTERS,
        ParamView::Addr(_) => k == Parameters::ADDRESS || k == Parameters::ADDRESSES,
        ParamView::Label(_) => k == Parameters::LABEL || k == Parameters::ADDRESSES,
        ParamView::StrKey(_) => k == Parameters::STRING_KEY,
        ParamView::DataKey(_) => k == Parameters::DATA_KEY,
    }
}

/// Bytes an operand of kind `k` occupies.
pub open spec fn kind_width(k: Parameters) -> int {
    match k {
        Parameters::NUMBER | Parameters::DATA_REG | Parameters::ADDR_REG | Parameters::REGISTERS => 1,
        _ => 2,
    }
}

/// Reads operands of the kinds `kinds` back from their bytes. A register slot
/// that takes either class reads as a data register, an address slot as a
/// literal address: the symbol-free reading.
pub open spec fn decode_params(kinds: Seq<Parameters>, b: Seq<u8>) -> Seq<ParamView>
    decreases kinds.len(),
{
    if kinds.len() == 0 {
        seq![]
    } else {
        let p = match kinds[0] {
            Parameters::NUMBER => ParamView::Number(b[0]),
            Parameters::DATA_REG | Parameters::REGISTERS => ParamView::DataReg(b[0]),
            Parameters::ADDR_REG => ParamView::AddrReg(b[0]),
            _ => ParamView::Addr((b[0] as int * 256 + b[1] as int) as u16),
        };
        seq![p] + decode_params(kinds.drop_first(), b.skip(kind_width(kinds[0])))
    }
}

proof fn lemma_params_bytes_front(ps: Seq<ParamView>)
    requires
        ps.len() > 0,
    ensures
        params_bytes(ps) == param_bytes(ps[0]) + params_bytes(ps.drop_first()),
    decreases ps.len(),
{
    if ps.len() > 1 {
        lemma_params_bytes_front(ps.drop_last());
        assert(ps.drop_last().drop_first() =~= ps.drop_first().drop_last());
        assert(ps.drop_last()[0] == ps[0]);
        assert(ps.drop_first().last() == ps.last());
    } else {
        assert(ps.drop_last() =~= Seq::<ParamView>::empty());
        assert(ps.drop_first() =~= Seq::<ParamView>::empty());
    }
}

/// Reading symbol-free operands back from their
/// bytes by their slot kinds and encoding them again gives the same bytes.
pub proof fn lemma_reassembly_idempotent(kinds: Seq<Parameters>, ps: Seq<ParamView>)
    requires
        kinds.len() == ps.len(),
        forall|k: int| 0 <= k < ps.len() ==> accepts(#[trigger] kinds[k], ps[k]),
        forall|k: int| 0 <= k < ps.len() ==> symbol_of(#[trigger] ps[k]) is None,
    ensures
        params_bytes(decode_params(kinds, params_bytes(ps))) == params_bytes(ps),
    decreases ps.len(),
{
    if ps.len() > 0 {
        let d = decode_params(kinds, params_bytes(ps));
        lemma_params_bytes_front(ps);
        let rest = ps.drop_first();
        let krest = kinds.drop_first();
        assert(accepts(kinds[0], ps[0]));
        assert(symbol_of(ps[0]) is None);
        let w = kind_width(kinds[0]);
        assert(param_bytes(ps[0]).len() == w);
        assert(params_bytes(ps).skip(w) =~= params_bytes(rest));
        assert forall|k: int| 0 <= k < rest.len() implies accepts(#[trigger] krest[k], rest[k]) by {
            assert(krest[k] == kinds[k + 1] && rest[k] == ps[k + 1]);
        }
        assert forall|k: int| 0 <= k < rest.len() implies symbol_of(#[trigger] rest[k]) is None by {
            assert(rest[k] == ps[k + 1]);
        }
        lemma_reassembly_idempotent(krest, rest);
        assert(d.drop_first() =~= decode_params(krest, params_bytes(rest)));
        lemma_params_bytes_front(d);
        let v: u16 = match ps[0] {
            ParamView::Addr(a) => a,
            _ => 0,
        };
        assert(v as int == (v / 256) as u8 as int * 256 + (v % 256) as u8 as int);
        assert(param_bytes(d[0]) =~= param_bytes(ps[0]));
    }
}

/// At most one slot of `ks` takes an address.
pub open spec fn one_address_slot(ks: Seq<Parameters>) -> bool {
    forall|a: int, b: int|
        0 <= a < ks.len() && 0 <= b < ks.len() && is_address_kind(#[trigger] ks[a]) && is_address_kind(#[trigger] ks[b])
            ==> a == b
}

/// Every signature of the catalogue has at most one address slot.
pub proof fn lemma_catalogue_one_address(i: int)
    requires
        0 <= i < OP_COUNT,
    ensures
        one_address_slot(op_entry(i).2),
{
}

proof fn lemma_first_address(ks: Seq<Parameters>, j: int, from: int)
    requires
        one_address_slot(ks),
        0 <= from <= j < ks.len(),
        is_address_kind(ks[j]),
    ensures
        first_address_from(ks, from) == Some(j),
    decreases j - from,
{
    if from < j {
        assert(!is_address_kind(ks[from]));
        lemma_first_address(ks, j, from + 1);
    }
}

/// Accepted operands take exactly the bytes their slot kinds announce.
proof fn lemma_accepted_width(kinds: Seq<Parameters>, ps: Seq<ParamView>, j: int)
    requires
        kinds.len() == ps.len(),
        forall|k: int| 0 <= k < ps.len() ==> accepts(#[trigger] kinds[k], ps[k]),
        0 <= j <= ps.len(),
    ensures
        params_bytes(ps.take(j)).len() == kinds_width(kinds.take(j)),
    decreases j,
{
    if j > 0 {
        lemma_accepted_width(kinds, ps, j - 1);
        assert(ps.take(j).drop_last() =~= ps.take(j - 1));
        assert(kinds.take(j).drop_last() =~= kinds.take(j - 1));
        assert(accepts(kinds[j - 1], ps[j - 1]));
    }
}

/// Each site of the operands `ps` is the placeholder of a symbolic operand.
proof fn lemma_sites_from_params(ps: Seq<ParamView>, base: int, s: int)
    requires
        0 <= s < param_sites(ps, base).len(),
    ensures
        exists|j: int|
            0 <= j < ps.len() && symbol_of(#[trigger] ps[j]) is Some && param_sites(ps, base)[s].2 == base
                + params_bytes(ps.take(j)).len(),
    decreases ps.len(),
{
    let prev = param_sites(ps.drop_last(), base);
    let n = ps.len() - 1;
    if s < prev.len() {
        lemma_sites_from_params(ps.drop_last(), base, s);
        let j = choose|j: int|
            0 <= j < ps.drop_last().len() && symbol_of(#[trigger] ps.drop_last()[j]) is Some && prev[s].2 == base
                + params_bytes(ps.drop_last().take(j)).len();
        assert(ps.drop_last().take(j) =~= ps.take(j));
        assert(ps.drop_last()[j] == ps[j]);
        assert(param_sites(ps, base)[s] == prev[s]);
    } else {
        assert(ps.take(n) =~= ps.drop_last());
        assert(ps.last() == ps[n]);
    }
}

/// Placeholders sit where the opcode's address operand is: for an op whose
/// operands its opcode's catalogue signature accepts, every site of the op is
/// at the op's start plus the opcode's address-operand offset.
pub proof fn lemma_sites_at_address_offset(op: OpModel, start: int, s: int)
    requires
        signature_from(op.opcode, 0) < OP_COUNT,
        op_entry(signature_from(op.opcode, 0)).2.len() == op.params@.len(),
        forall|k: int|
            0 <= k < op.params@.len() ==> accepts(
                #[trigger] op_entry(signature_from(op.opcode, 0)).2[k],
                op.params@[k]@,
            ),
        0 <= s < param_sites(param_views(op.params@), start + 1).len(),
    ensures
        addr_operand_offset(op.opcode) is Some,
        param_sites(param_views(op.params@), start + 1)[s].2 == start + addr_operand_offset(op.opcode)->0,
{
    let i = signature_from(op.opcode, 0);
    let kinds = op_entry(i).2;
    let ps = param_views(op.params@);
    assert forall|k: int| 0 <= k < ps.len() implies accepts(#[trigger] kinds[k], ps[k]) by {
        assert(ps[k] == op.params@[k]@);
    }
    lemma_sites_from_params(ps, start + 1, s);
    let j = choose|j: int|
        0 <= j < ps.len() && symbol_of(#[trigger] ps[j]) is Some && param_sites(ps, start + 1)[s].2 == start + 1
            + params_bytes(ps.take(j)).len();
    assert(accepts(kinds[j], ps[j]));
    assert(is_address_kind(kinds[j]));
    lemma_catalogue_one_address(i);
    lemma_first_address(kinds, j, 0);
    lemma_accepted_width(kinds, ps, j);
}

} // verus!
