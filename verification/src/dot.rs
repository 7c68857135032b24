//! The graph renderer: a deterministic textual directed-graph description
//! of one function's blocks and successor map.

use crate::blocks::{blocks_model, BasicBlock, BlockModel};
use crate::edges::edges_model;
use crate::ir::{strings_model, Function};
use vstd::prelude::*;

verus! {

/// A label made safe for the graph-description syntax: every `.` becomes
/// `_`.  The same substitution is applied to node declarations and to
/// both ends of every edge, so references stay internally consistent.
pub open spec fn spec_sanitize(s: Seq<char>) -> Seq<char> {
    s.map_values(|c: char| if c == '.' { '_' } else { c })
}

/// The first entry of `m` keyed `key`, searching from position `k` on.
pub open spec fn spec_lookup(
    m: Seq<(Seq<char>, Seq<Seq<char>>)>,
    key: Seq<char>,
    k: int,
) -> Option<Seq<Seq<char>>>
    decreases m.len() - k,
{
    if k < 0 || k >= m.len() {
        None
    } else if m[k].0 == key {
        Some(m[k].1)
    } else {
        spec_lookup(m, key, k + 1)
    }
}

/// One node declaration line per block, in block order, from block `j` on.
pub open spec fn spec_node_lines(bs: Seq<BlockModel>, j: int) -> Seq<char>
    decreases bs.len() - j,
{
    if j < 0 || j >= bs.len() {
        Seq::<char>::empty()
    } else {
        "\t"@ + spec_sanitize(bs[j].label) + ";\n"@ + spec_node_lines(bs, j + 1)
    }
}

/// One edge declaration line per target of `src`, in target order, from
/// target `k` on.  A target need not name a declared block: an edge to a
/// missing node is rendered as-is.
pub open spec fn spec_edge_lines_for(src: Seq<char>, ts: Seq<Seq<char>>, k: int) -> Seq<char>
    decreases ts.len() - k,
{
    if k < 0 || k >= ts.len() {
        Seq::<char>::empty()
    } else {
        "\t"@ + spec_sanitize(src) + " -> "@ + spec_sanitize(ts[k]) + ";\n"@
            + spec_edge_lines_for(src, ts, k + 1)
    }
}

/// The edge declaration lines of all blocks from `j` on: blocks in
/// order, targets within a block in the successor list's order; a block
/// without a successor entry contributes nothing.
pub open spec fn spec_edge_lines(
    bs: Seq<BlockModel>,
    succ: Seq<(Seq<char>, Seq<Seq<char>>)>,
    j: int,
) -> Seq<char>
    decreases bs.len() - j,
{
    if j < 0 || j >= bs.len() {
        Seq::<char>::empty()
    } else {
        (match spec_lookup(succ, bs[j].label, 0) {
            Some(ts) => spec_edge_lines_for(bs[j].label, ts, 0),
            None => Seq::<char>::empty(),
        }) + spec_edge_lines(bs, succ, j + 1)
    }
}

/// The whole graph description: a header named after the function, the
/// node declarations, the edge declarations, and the closing brace.
pub open spec fn spec_dot(
    name: Seq<char>,
    bs: Seq<BlockModel>,
    succ: Seq<(Seq<char>, Seq<Seq<char>>)>,
) -> Seq<char> {
    "digraph "@ + name + " {\n"@ + spec_node_lines(bs, 0) + spec_edge_lines(bs, succ, 0)
        + "}\n"@
}

/// Replaces `.` with `_` in a label.
fn sanitize(s: &String) -> (r: String)
    ensures
        r@ == spec_sanitize(s@),
{
    let n: usize = s.as_str().unicode_len();
    let mut r = String::new();
    proof {
        assert(r@ =~= spec_sanitize(s@).take(0));
    }
    let mut i: usize = 0;
    while i < n
        invariant
            i <= n,
            n == s@.len(),
            r@ == spec_sanitize(s@).take(i as int),
        decreases n - i,
    {
        let c = s.as_str().get_char(i);
        if c == '.' {
            r.append("_");
            proof {
                reveal_strlit("_");
                assert(r@ =~= spec_sanitize(s@).take(i as int + 1));
            }
        } else {
            let piece = s.as_str().substring_char(i, i + 1);
            r.append(piece);
            proof {
                assert(r@ =~= spec_sanitize(s@).take(i as int + 1));
            }
        }
        i = i + 1;
    }
    proof {
        assert(spec_sanitize(s@).take(n as int) =~= spec_sanitize(s@));
    }
    r
}

/// The targets of the first successor entry keyed `key`, if any.
fn lookup_targets<'a>(m: &'a Vec<(String, Vec<String>)>, key: &String) -> (r: Option<
    &'a Vec<String>,
>)
    ensures
        match r {
            Some(ts) => spec_lookup(edges_model(m@), key@, 0) == Some(strings_model(ts@)),
            None => spec_lookup(edges_model(m@), key@, 0) is None,
        },
{
    let n: usize = m.len();
    let mut k: usize = 0;
    while k < n
        invariant
            k <= n,
            n == m@.len(),
            spec_lookup(edges_model(m@), key@, 0) == spec_lookup(edges_model(m@), key@, k as int),
        decreases n - k,
    {
        if m[k].0 == *key {
            return Some(&m[k].1);
        }
        k = k + 1;
    }
    None
}

impl Function {
    /// Renders the directed-graph description of this function's
    /// control-flow graph: a header named after the function, one node
    /// declaration per block in block order, then one edge declaration
    /// per (source, target) pair, targets in successor-list order.
    /// Labels are sanitized (`.` to `_`) consistently throughout; an
    /// edge whose target matches no declared node is rendered as-is.
    pub fn cfg_dot(&self, basic_blocks: &Vec<BasicBlock>, successors: &Vec<(String, Vec<String>)>)
        -> (r: String)
        ensures
            r@ == spec_dot(self.name@, blocks_model(basic_blocks@), edges_model(successors@)),
    {
        let ghost bm = blocks_model(basic_blocks@);
        let ghost em = edges_model(successors@);
        let mut out = String::new();
        out.append("digraph ");
        out.append(self.name.as_str());
        out.append(" {\n");
        let ghost header = "digraph "@ + self.name@ + " {\n"@;
        proof {
            assert(out@ =~= header);
        }
        let m: usize = basic_blocks.len();
        let mut j: usize = 0;
        while j < m
            invariant
                j <= m,
                m == basic_blocks@.len(),
                bm == blocks_model(basic_blocks@),
                out@ + spec_node_lines(bm, j as int) == header + spec_node_lines(bm, 0),
            decreases m - j,
        {
            let ghost pre = out@;
            let clean = sanitize(&basic_blocks[j].label);
            out.append("\t");
            out.append(clean.as_str());
            out.append(";\n");
            proof {
                assert(out@ =~= pre + ("\t"@ + spec_sanitize(bm[j as int].label) + ";\n"@));
                assert(out@ + spec_node_lines(bm, j as int + 1) =~= pre + spec_node_lines(
                    bm,
                    j as int,
                ));
            }
            j = j + 1;
        }
        let ghost declared = header + spec_node_lines(bm, 0);
        proof {
            assert(out@ =~= declared);
        }
        let mut j: usize = 0;
        while j < m
            invariant
                j <= m,
                m == basic_blocks@.len(),
                bm == blocks_model(basic_blocks@),
                em == edges_model(successors@),
                out@ + spec_edge_lines(bm, em, j as int) == declared + spec_edge_lines(bm, em, 0),
            decreases m - j,
        {
            let ghost pre = out@;
            let current = &basic_blocks[j];
            match lookup_targets(successors, &current.label) {
                Some(ts) => {
                    let ghost tsv = strings_model(ts@);
                    let src = sanitize(&current.label);
                    let tn: usize = ts.len();
                    let mut k: usize = 0;
                    while k < tn
                        invariant
                            k <= tn,
                            tn == ts@.len(),
                            tsv == strings_model(ts@),
                            src@ == spec_sanitize(current.label@),
                            current == &basic_blocks@[j as int],
                            j < m == basic_blocks@.len(),
                            bm == blocks_model(basic_blocks@),
                            out@ + spec_edge_lines_for(bm[j as int].label, tsv, k as int) == pre
                                + spec_edge_lines_for(bm[j as int].label, tsv, 0),
                        decreases tn - k,
                    {
                        let ghost pre_k = out@;
                        let tgt = sanitize(&ts[k]);
                        out.append("\t");
                        out.append(src.as_str());
                        out.append(" -> ");
                        out.append(tgt.as_str());
                        out.append(";\n");
                        proof {
                            assert(out@ =~= pre_k + ("\t"@ + spec_sanitize(bm[j as int].label)
                                + " -> "@ + spec_sanitize(tsv[k as int]) + ";\n"@));
                            assert(out@ + spec_edge_lines_for(bm[j as int].label, tsv, k as int + 1)
                                =~= pre_k + spec_edge_lines_for(bm[j as int].label, tsv, k as int));
                        }
                        k = k + 1;
                    }
                    proof {
                        assert(spec_edge_lines_for(bm[j as int].label, tsv, tn as int)
                            =~= Seq::<char>::empty());
                        assert(out@ =~= pre + spec_edge_lines_for(bm[j as int].label, tsv, 0));
                        assert(out@ + spec_edge_lines(bm, em, j as int + 1) =~= pre
                            + spec_edge_lines(bm, em, j as int));
                    }
                },
                None => {
                    proof {
                        assert(out@ + spec_edge_lines(bm, em, j as int + 1) =~= pre
                            + spec_edge_lines(bm, em, j as int));
                    }
                },
            }
            j = j + 1;
        }
        out.append("}\n");
        proof {
            assert(out@ =~= spec_dot(self.name@, bm, em));
        }
        out
    }
}

} // verus!
