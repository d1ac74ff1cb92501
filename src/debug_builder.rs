//! Builds the debug model of a program: every op with its address and bytes,
//! every string, data blob and defined label with its address, and for each
//! symbol the ops that refer to it.
use crate::debug_model::{DebugData, DebugLabel, DebugModel, DebugOp, DebugString, DebugUsage};
use crate::error::{AsmError, ErrorKind};
use crate::generator::{
    data_map, encode_params, generate_data_bytes, generate_ops_bytes, generate_string_bytes, label_map, op_bytes,
    lemma_ops_bytes_step, lemma_ops_prefix_len, lemma_param_sites_bounds, ops_bytes, param_sites, site_views, string_map, strings_bytes, strings_fit, data_bytes, Site, SymbolKind,
};
use crate::constants::{MAX_DATA_BYTES, MAX_OPS_BYTES, MAX_STRING_BYTES};
use crate::generator::label_address;
use crate::guarantees::{distinct_keys, lemma_data_map_at, lemma_string_map_at, lemma_table_distinct};
use crate::language::param_views;
use crate::strings::append_bytes;
use crate::program_model::{LabelModel, OpModel, ProgramModel};
use vstd::prelude::*;

verus! {

/// A reference to a symbol: its kind and name, the op's segment address, the
/// operand's offset within the op, the op's line.
pub type UsageView = (SymbolKind, Seq<char>, u16, u8, usize);

pub open spec fn site_usages(sites: Seq<(SymbolKind, Seq<char>, int)>, start: int, line: usize) -> Seq<UsageView> {
    sites.map_values(|s: (SymbolKind, Seq<char>, int)| (s.0, s.1, start as u16, (s.2 - start) as u8, line))
}

/// Every symbol reference of `ops`, in op and operand order.
pub open spec fn op_usages(ops: Seq<OpModel>) -> Seq<UsageView>
    decreases ops.len(),
{
    if ops.len() == 0 {
        seq![]
    } else {
        let start = ops_bytes(ops.drop_last()).len() as int;
        op_usages(ops.drop_last()) + site_usages(
            param_sites(param_views(ops.last().params@), start + 1),
            start,
            ops.last().line_num,
        )
    }
}

/// The references to symbol `name` of kind `kind`, as (op address, offset, line).
pub open spec fn usage_of(us: Seq<UsageView>, kind: SymbolKind, name: Seq<char>) -> Seq<(u16, u8, usize)>
    decreases us.len(),
{
    if us.len() == 0 {
        seq![]
    } else {
        usage_of(us.drop_last(), kind, name) + if us.last().0 == kind && us.last().1 == name {
            seq![(us.last().2, us.last().3, us.last().4)]
        } else {
            seq![]
        }
    }
}

pub open spec fn usage_views(v: Seq<DebugUsage>) -> Seq<(u16, u8, usize)> {
    v.map_values(|u: DebugUsage| (u.op_addr, u.offset, u.line))
}

pub open spec fn defined_labels(es: Seq<(String, LabelModel)>) -> Seq<(String, LabelModel)> {
    es.filter(|e: (String, LabelModel)| e.1.definition is Some)
}

/// The usages of one symbol, picked from all references.
fn usages_for(all: &Vec<(SymbolKind, String, u16, u8, usize)>, kind: SymbolKind, name: &String) -> (r: Vec<DebugUsage>)
    ensures
        usage_views(r@) == usage_of(
            all@.map_values(|u: (SymbolKind, String, u16, u8, usize)| (u.0, u.1@, u.2, u.3, u.4)),
            kind,
            name@,
        ),
{
    let ghost uv = all@.map_values(|u: (SymbolKind, String, u16, u8, usize)| (u.0, u.1@, u.2, u.3, u.4));
    let mut out: Vec<DebugUsage> = Vec::new();
    let mut i: usize = 0;
    proof {
        assert(uv.take(0) =~= Seq::<UsageView>::empty());
        assert(usage_views(out@) =~= Seq::<(u16, u8, usize)>::empty());
    }
    while i < all.len()
        invariant
            i <= all@.len(),
            uv == all@.map_values(|u: (SymbolKind, String, u16, u8, usize)| (u.0, u.1@, u.2, u.3, u.4)),
            usage_views(out@) == usage_of(uv.take(i as int), kind, name@),
        decreases all@.len() - i,
    {
        let ghost before = usage_views(out@);
        proof {
            assert(uv.take(i + 1).drop_last() =~= uv.take(i as int));
            assert(uv.take(i + 1).last() == uv[i as int]);
        }
        let u = &all[i];
        if u.0 == kind && u.1 == *name {
            out.push(DebugUsage::new(u.2, u.3, u.4));
            proof {
                assert(usage_views(out@) =~= before + seq![(u.2, u.3, u.4)]);
            }
        } else {
            proof {
                assert(before + seq![] =~= before);
            }
        }
        i = i + 1;
    }
    proof {
        assert(uv.take(all@.len() as int) =~= uv);
    }
    out
}

pub open spec fn all_usage_views(v: Seq<(SymbolKind, String, u16, u8, usize)>) -> Seq<UsageView> {
    v.map_values(|u: (SymbolKind, String, u16, u8, usize)| (u.0, u.1@, u.2, u.3, u.4))
}

/// The debug entry of each op, and every symbol reference of the ops.
fn debug_ops(ops: &Vec<OpModel>) -> (r: Result<(Vec<DebugOp>, Vec<(SymbolKind, String, u16, u8, usize)>), AsmError>)
    ensures
        r is Ok <==> ops_bytes(ops@).len() <= MAX_OPS_BYTES,
        r matches Ok((d, us)) ==> {
            &&& d@.len() == ops@.len()
            &&& forall|i: int| 0 <= i < ops@.len() ==> {
                &&& (#[trigger] d@[i]).byte_addr as int == ops_bytes(ops@.take(i)).len()
                &&& d@[i].bytes@ == op_bytes(ops@[i])
                &&& d@[i].line_num == ops@[i].line_num
                &&& d@[i].original_line@ == ops@[i].original_line@
                &&& d@[i].processed_line@ == ops@[i].processed_line@
            }
            &&& all_usage_views(us@) == op_usages(ops@)
        },
        r matches Err(e) ==> e.kind == ErrorKind::OpsTooLarge,
{
    let n = ops.len();
    let mut d: Vec<DebugOp> = Vec::new();
    let mut us: Vec<(SymbolKind, String, u16, u8, usize)> = Vec::new();
    let mut cur: usize = 0;
    let mut i: usize = 0;
    proof {
        assert(all_usage_views(us@) =~= Seq::<UsageView>::empty());
    }
    while i < n
        invariant
            i <= n == ops@.len(),
            cur == ops_bytes(ops@.take(i as int)).len(),
            cur <= MAX_OPS_BYTES,
            d@.len() == i,
            forall|k: int| 0 <= k < i ==> {
                &&& (#[trigger] d@[k]).byte_addr as int == ops_bytes(ops@.take(k)).len()
                &&& d@[k].bytes@ == op_bytes(ops@[k])
                &&& d@[k].line_num == ops@[k].line_num
                &&& d@[k].original_line@ == ops@[k].original_line@
                &&& d@[k].processed_line@ == ops@[k].processed_line@
            },
            all_usage_views(us@) == op_usages(ops@.take(i as int)),
        decreases n - i,
    {
        let op = &ops[i];
        proof {
            lemma_ops_bytes_step(ops@, i as int);
            assert(ops@.take(i + 1).drop_last() =~= ops@.take(i as int));
            assert(ops@.take(i + 1).last() == ops@[i as int]);
        }
        if op.params.len() >= MAX_OPS_BYTES {
            proof {
                lemma_ops_prefix_len(ops@, i + 1);
            }
            return Err(AsmError::new(ErrorKind::OpsTooLarge, op.original_line.clone()));
        }
        let mut bytes: Vec<u8> = vec![op.opcode];
        let mut local: Vec<Site> = Vec::new();
        encode_params(&op.params, cur + 1, &mut bytes, &mut local);
        if cur + bytes.len() > MAX_OPS_BYTES {
            proof {
                lemma_ops_prefix_len(ops@, i + 1);
            }
            return Err(AsmError::new(ErrorKind::OpsTooLarge, op.original_line.clone()));
        }
        proof {
            assert(bytes@ =~= op_bytes(ops@[i as int]));
        }
        let ghost ps = param_sites(param_views(op.params@), cur + 1);
        proof {
            lemma_param_sites_bounds(param_views(op.params@), cur + 1);
            assert(site_views(local@) =~= ps);
        }
        let ghost base_us = all_usage_views(us@);
        let mut k: usize = 0;
        proof {
            assert(ps.take(0) =~= Seq::<(SymbolKind, Seq<char>, int)>::empty());
            assert(base_us + site_usages(ps.take(0), cur as int, op.line_num) =~= base_us);
        }
        while k < local.len()
            invariant
                k <= local@.len() == ps.len(),
                site_views(local@) == ps,
                forall|j: int| 0 <= j < ps.len() ==> cur + 1 <= (#[trigger] ps[j]).2,
                all_usage_views(us@) == base_us + site_usages(ps.take(k as int), cur as int, op.line_num),
                cur <= MAX_OPS_BYTES,
            decreases local@.len() - k,
        {
            let s = &local[k];
            proof {
                assert(site_views(local@)[k as int] == (s.kind, s.name@, s.offset as int));
                assert(ps.take(k + 1) =~= ps.take(k as int).push(ps[k as int]));
            }
            let ghost before = all_usage_views(us@);
            us.push((s.kind, s.name.clone(), cur as u16, (s.offset - cur) as u8, op.line_num));
            proof {
                assert(all_usage_views(us@) =~= before.push((s.kind, s.name@, cur as u16, (s.offset - cur) as u8, op.line_num)));
                assert(site_usages(ps.take(k + 1), cur as int, op.line_num) =~= site_usages(ps.take(k as int), cur as int, op.line_num).push(
                    (s.kind, s.name@, cur as u16, (s.offset - cur) as u8, op.line_num),
                ));
            }
            k = k + 1;
        }
        proof {
            assert(ps.take(ps.len() as int) =~= ps);
        }
        let w = bytes.len();
        let ghost dprev = d@;
        d.push(DebugOp::new(cur as u16, op.original_line.clone(), op.line_num, op.processed_line.clone(), bytes));
        proof {
            assert(forall|k: int| 0 <= k < i ==> d@[k] == dprev[k]);
        }
        cur = cur + w;
        i = i + 1;
    }
    proof {
        assert(ops@.take(n as int) =~= ops@);
    }
    Ok((d, us))
}

/// A defined label of the table sits in the label map at its bound address.
proof fn lemma_label_map_at(es: Seq<(String, LabelModel)>, ops: Seq<OpModel>, i: int)
    requires
        distinct_keys(es),
        0 <= i < es.len(),
        es[i].1.definition is Some,
    ensures
        label_map(es, ops).contains_key(es[i].0@),
        label_map(es, ops)[es[i].0@] == label_address(ops, es[i].1.definition->0.line_num) as u16,
    decreases es.len(),
{
    let prev = es.drop_last();
    if i < es.len() - 1 {
        assert forall|a: int, b: int| 0 <= a < prev.len() && 0 <= b < prev.len() && a != b implies (#[trigger] prev[a]).0@
            != (#[trigger] prev[b]).0@ by {
            assert(prev[a] == es[a] && prev[b] == es[b]);
        }
        assert(prev[i] == es[i]);
        lemma_label_map_at(prev, ops, i);
        assert(es[i].0@ != es[es.len() - 1].0@);
    }
}

fn copy_bytes(v: &Vec<u8>) -> (r: Vec<u8>)
    ensures
        r@ == v@,
{
    let mut out: Vec<u8> = Vec::new();
    append_bytes(&mut out, v.as_slice());
    proof {
        assert(out@ =~= v@);
    }
    out
}

/// Builds the debug model of a program: ops with their segment address,
/// bytes and lines; strings and data with their segment offsets; defined
/// labels with their address; and for every symbol the references to it.
pub fn build_debug_model(model: &ProgramModel) -> (r: Result<DebugModel, AsmError>)
    requires
        model.wf(),
    ensures
        r is Ok <==> ops_bytes(model.ops@).len() <= MAX_OPS_BYTES && strings_fit(model.strings.entries@)
            && strings_bytes(model.strings.entries@).len() <= MAX_STRING_BYTES && data_bytes(model.data.entries@).len()
            <= MAX_DATA_BYTES,
        r matches Ok(dm) ==> {
            let ops = model.ops@;
            let us = op_usages(ops);
            let ses = model.strings.entries@;
            let des = model.data.entries@;
            let les = defined_labels(model.labels.entries@);
            &&& dm.ops@.len() == ops.len()
            &&& forall|i: int| 0 <= i < ops.len() ==> {
                &&& (#[trigger] dm.ops@[i]).byte_addr as int == ops_bytes(ops.take(i)).len()
                &&& dm.ops@[i].bytes@ == op_bytes(ops[i])
                &&& dm.ops@[i].line_num == ops[i].line_num
                &&& dm.ops@[i].original_line@ == ops[i].original_line@
                &&& dm.ops@[i].processed_line@ == ops[i].processed_line@
            }
            &&& dm.strings@.len() == ses.len()
            &&& forall|j: int| 0 <= j < ses.len() ==> {
                &&& (#[trigger] dm.strings@[j]).addr == string_map(ses)[ses[j].0@]
                &&& dm.strings@[j].key@ == ses[j].0@
                &&& dm.strings@[j].content@ == ses[j].1.content@
                &&& dm.strings@[j].original_line@ == ses[j].1.definition.original_line@
                &&& dm.strings@[j].line_num == ses[j].1.definition.line_num
                &&& usage_views(dm.strings@[j].usage@) == usage_of(us, SymbolKind::Str, ses[j].0@)
            }
            &&& dm.data@.len() == des.len()
            &&& forall|j: int| 0 <= j < des.len() ==> {
                &&& (#[trigger] dm.data@[j]).addr == data_map(des)[des[j].0@]
                &&& dm.data@[j].key@ == des[j].0@
                &&& dm.data@[j].content@.len() == 1
                &&& dm.data@[j].content@[0]@ == des[j].1.content@
                &&& dm.data@[j].original_line@ == des[j].1.definition.original_line@
                &&& dm.data@[j].line_num == des[j].1.definition.line_num
                &&& usage_views(dm.data@[j].usage@) == usage_of(us, SymbolKind::Data, des[j].0@)
            }
            &&& dm.labels@.len() == les.len()
            &&& forall|j: int| 0 <= j < les.len() ==> {
                &&& (#[trigger] dm.labels@[j]).byte == label_map(model.labels.entries@, ops)[les[j].0@]
                &&& dm.labels@[j].name@ == les[j].0@
                &&& dm.labels@[j].original_line@ == les[j].1.definition->0.original_line@
                &&& dm.labels@[j].line_num == les[j].1.definition->0.line_num
                &&& usage_views(dm.labels@[j].usage@) == usage_of(us, SymbolKind::Label, les[j].0@)
            }
        },
        r matches Err(e) ==> {
            ||| e.kind == ErrorKind::OpsTooLarge && ops_bytes(model.ops@).len() > MAX_OPS_BYTES
            ||| e.kind == ErrorKind::StringTooLong && !strings_fit(model.strings.entries@)
            ||| e.kind == ErrorKind::StringsTooLarge && strings_bytes(model.strings.entries@).len() > MAX_STRING_BYTES
            ||| e.kind == ErrorKind::DataTooLarge && data_bytes(model.data.entries@).len() > MAX_DATA_BYTES
        },
{
    let (ops, us) = match debug_ops(&model.ops) {
        Ok(x) => x,
        Err(e) => {
            return Err(e);
        },
    };
    let ops_out = match generate_ops_bytes(&model.ops, 0, &model.labels) {
        Ok(x) => x,
        Err(e) => {
            return Err(e);
        },
    };
    let (_, string_addrs) = match generate_string_bytes(&model.strings) {
        Ok(x) => x,
        Err(e) => {
            return Err(e);
        },
    };
    let (_, data_addrs) = match generate_data_bytes(&model.data) {
        Ok(x) => x,
        Err(e) => {
            return Err(e);
        },
    };
    let ghost uv = op_usages(model.ops@);
    let ghost ses = model.strings.entries@;
    let ghost des = model.data.entries@;
    let ghost les = model.labels.entries@;
    proof {
        lemma_table_distinct(&model.strings);
        lemma_table_distinct(&model.data);
        lemma_table_distinct(&model.labels);
    }
    let mut strings: Vec<DebugString> = Vec::new();
    let mut j: usize = 0;
    while j < model.strings.entries.len()
        invariant
            j <= ses.len(),
            ses == model.strings.entries@,
            distinct_keys(ses),
            string_addrs.wf(),
            string_addrs.map() == string_map(ses),
            all_usage_views(us@) == uv,
            strings@.len() == j,
            forall|k: int| 0 <= k < j ==> {
                &&& (#[trigger] strings@[k]).addr == string_map(ses)[ses[k].0@]
                &&& strings@[k].key@ == ses[k].0@
                &&& strings@[k].content@ == ses[k].1.content@
                &&& strings@[k].original_line@ == ses[k].1.definition.original_line@
                &&& strings@[k].line_num == ses[k].1.definition.line_num
                &&& usage_views(strings@[k].usage@) == usage_of(uv, SymbolKind::Str, ses[k].0@)
            },
        decreases ses.len() - j,
    {
        let entry = &model.strings.entries[j];
        proof {
            lemma_string_map_at(ses, j as int);
        }
        let addr = match string_addrs.get(entry.0.as_str()) {
            Some(a) => {
                proof {
                    let w = choose|w: int| 0 <= w < string_addrs.entries@.len() && string_addrs.key_at(w) == entry.0@ && *a == string_addrs.value_at(w);
                    string_addrs.lemma_lookup(w);
                }
                *a
            },
            None => {
                return Err(AsmError::new(ErrorKind::UndefinedSymbol, entry.0.clone()));
            },
        };
        let mut ds = DebugString::new(
            addr,
            entry.0.clone(),
            entry.1.content.clone(),
            entry.1.definition.original_line.clone(),
            entry.1.definition.line_num,
        );
        ds.usage = usages_for(&us, SymbolKind::Str, &entry.0);
        let ghost prev = strings@;
        strings.push(ds);
        proof {
            assert(forall|k: int| 0 <= k < j ==> strings@[k] == prev[k]);
        }
        j = j + 1;
    }
    let mut data: Vec<DebugData> = Vec::new();
    let mut j: usize = 0;
    while j < model.data.entries.len()
        invariant
            j <= des.len(),
            des == model.data.entries@,
            distinct_keys(des),
            data_addrs.wf(),
            data_addrs.map() == data_map(des),
            all_usage_views(us@) == uv,
            data@.len() == j,
            forall|k: int| 0 <= k < j ==> {
                &&& (#[trigger] data@[k]).addr == data_map(des)[des[k].0@]
                &&& data@[k].key@ == des[k].0@
                &&& data@[k].content@.len() == 1
                &&& data@[k].content@[0]@ == des[k].1.content@
                &&& data@[k].original_line@ == des[k].1.definition.original_line@
                &&& data@[k].line_num == des[k].1.definition.line_num
                &&& usage_views(data@[k].usage@) == usage_of(uv, SymbolKind::Data, des[k].0@)
            },
        decreases des.len() - j,
    {
        let entry = &model.data.entries[j];
        proof {
            lemma_data_map_at(des, j as int);
        }
        let addr = match data_addrs.get(entry.0.as_str()) {
            Some(a) => {
                proof {
                    let w = choose|w: int| 0 <= w < data_addrs.entries@.len() && data_addrs.key_at(w) == entry.0@ && *a == data_addrs.value_at(w);
                    data_addrs.lemma_lookup(w);
                }
                *a
            },
            None => {
                return Err(AsmError::new(ErrorKind::UndefinedSymbol, entry.0.clone()));
            },
        };
        let rows = vec![copy_bytes(&entry.1.content)];
        let mut dd = DebugData::new(
            addr,
            entry.0.clone(),
            rows,
            entry.1.definition.original_line.clone(),
            entry.1.definition.line_num,
        );
        dd.usage = usages_for(&us, SymbolKind::Data, &entry.0);
        let ghost prev = data@;
        data.push(dd);
        proof {
            assert(forall|k: int| 0 <= k < j ==> data@[k] == prev[k]);
        }
        j = j + 1;
    }
    let mut labels: Vec<DebugLabel> = Vec::new();
    let mut j: usize = 0;
    proof {
        assert(les.take(0) =~= Seq::<(String, LabelModel)>::empty());
        assert(defined_labels(les.take(0)) =~= Seq::<(String, LabelModel)>::empty());
    }
    while j < model.labels.entries.len()
        invariant
            j <= les.len(),
            les == model.labels.entries@,
            distinct_keys(les),
            ops_out.label_addresses.wf(),
            ops_out.label_addresses.map() == label_map(les, model.ops@),
            all_usage_views(us@) == uv,
            labels@.len() == defined_labels(les.take(j as int)).len(),
            forall|k: int| 0 <= k < labels@.len() ==> {
                let dl = defined_labels(les.take(j as int));
                &&& (#[trigger] labels@[k]).byte == label_map(les, model.ops@)[dl[k].0@]
                &&& labels@[k].name@ == dl[k].0@
                &&& labels@[k].original_line@ == dl[k].1.definition->0.original_line@
                &&& labels@[k].line_num == dl[k].1.definition->0.line_num
                &&& usage_views(labels@[k].usage@) == usage_of(uv, SymbolKind::Label, dl[k].0@)
            },
        decreases les.len() - j,
    {
        let entry = &model.labels.entries[j];
        let ghost prev_dl = defined_labels(les.take(j as int));
        proof {
            assert(les.take(j + 1).drop_last() =~= les.take(j as int));
            assert(les.take(j + 1).last() == les[j as int]);
            reveal_with_fuel(Seq::filter, 2);
        }
        match &entry.1.definition {
            Some(def) => {
                proof {
                    lemma_label_map_at(les, model.ops@, j as int);
                }
                let byte = match ops_out.label_addresses.get(entry.0.as_str()) {
                    Some(a) => {
                        proof {
                            let w = choose|w: int| 0 <= w < ops_out.label_addresses.entries@.len() && ops_out.label_addresses.key_at(w) == entry.0@ && *a == ops_out.label_addresses.value_at(w);
                            ops_out.label_addresses.lemma_lookup(w);
                        }
                        *a
                    },
                    None => {
                        return Err(AsmError::new(ErrorKind::UndefinedSymbol, entry.0.clone()));
                    },
                };
                let mut dl = DebugLabel::new(byte, entry.0.clone(), def.original_line.clone(), def.line_num);
                dl.usage = usages_for(&us, SymbolKind::Label, &entry.0);
                let ghost prev = labels@;
                labels.push(dl);
                proof {
                    let cur_dl = defined_labels(les.take(j + 1));
                    assert(cur_dl == prev_dl.push(les[j as int]));
                    assert forall|k: int| 0 <= k < labels@.len() implies {
                        &&& (#[trigger] labels@[k]).byte == label_map(les, model.ops@)[cur_dl[k].0@]
                        &&& labels@[k].name@ == cur_dl[k].0@
                        &&& labels@[k].original_line@ == cur_dl[k].1.definition->0.original_line@
                        &&& labels@[k].line_num == cur_dl[k].1.definition->0.line_num
                        &&& usage_views(labels@[k].usage@) == usage_of(uv, SymbolKind::Label, cur_dl[k].0@)
                    } by {
                        if k < prev.len() {
                            assert(labels@[k] == prev[k]);
                            assert(cur_dl[k] == prev_dl[k]);
                        }
                    }
                }
            },
            None => {
                proof {
                    assert(defined_labels(les.take(j + 1)) == prev_dl);
                }
            },
        }
        j = j + 1;
    }
    proof {
        assert(les.take(les.len() as int) =~= les);
    }
    Ok(DebugModel::new(ops, strings, data, labels))
}

} // verus!
