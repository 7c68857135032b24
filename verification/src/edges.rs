//! The edge builder: one pass over a function's ordered basic blocks that
//! computes the successor and predecessor adjacency maps of the
//! control-flow graph, keyed by block label.

use crate::blocks::{
    blocks_model, lemma_partition_shape, spec_basic_blocks, BasicBlock, BlockModel,
};
use crate::ir::{strings_model, Code, Function, Instruction};
use vstd::prelude::*;

verus! {

/// The model of an adjacency map: its ordered (label, targets) entries.
/// A label with no entry has no edges; absence, not an empty list, is the
/// "none" signal.
pub open spec fn edges_model(m: Seq<(String, Vec<String>)>) -> Seq<(Seq<char>, Seq<Seq<char>>)> {
    m.map_values(|e: (String, Vec<String>)| (e.0@, strings_model(e.1@)))
}

/// Appends `val` to the entry of `key` (searching from position `k` on),
/// creating the entry at the end if `key` has none.
pub open spec fn spec_record_pred(
    m: Seq<(Seq<char>, Seq<Seq<char>>)>,
    key: Seq<char>,
    val: Seq<char>,
    k: int,
) -> Seq<(Seq<char>, Seq<Seq<char>>)>
    decreases m.len() - k,
{
    if k < 0 || k >= m.len() {
        m.push((key, seq![val]))
    } else if m[k].0 == key {
        m.update(k, (m[k].0, m[k].1.push(val)))
    } else {
        spec_record_pred(m, key, val, k + 1)
    }
}

/// Records `src` as a predecessor of every target in `ts` (from position
/// `k` on), in declared order.
pub open spec fn spec_record_all(
    m: Seq<(Seq<char>, Seq<Seq<char>>)>,
    src: Seq<char>,
    ts: Seq<Seq<char>>,
    k: int,
) -> Seq<(Seq<char>, Seq<Seq<char>>)>
    decreases ts.len() - k,
{
    if k < 0 || k >= ts.len() {
        m
    } else {
        spec_record_all(spec_record_pred(m, ts[k], src, 0), src, ts, k + 1)
    }
}

/// The outgoing targets of block `b`, given the owning function's
/// instruction stream and the label of the textually next block, if any.
/// An empty block has no outgoing edge.  A block ending in `jmp` or `br`
/// targets exactly the declared labels, in order, not deduplicated.  A
/// block ending in `ret` exits the function: zero targets, whatever its
/// `labels` field holds.  Any other last instruction falls through to the
/// next block, and off the end of the function if there is none.
pub open spec fn spec_block_targets(
    instrs: Seq<Code>,
    b: BlockModel,
    next: Option<Seq<char>>,
) -> Option<Seq<Seq<char>>> {
    if b.instrs.len() == 0 {
        None
    } else {
        let last = instrs[b.instrs.last()];
        if last.spec_is_jump() {
            Some(last.spec_target_labels())
        } else if last.spec_is_terminator() {
            None
        } else {
            match next {
                Some(l) => Some(seq![l]),
                None => None,
            }
        }
    }
}

/// The edge builder's pass from block `j` on, carrying the successor and
/// predecessor maps built so far.
pub open spec fn spec_edges_from(
    instrs: Seq<Code>,
    bs: Seq<BlockModel>,
    j: int,
    succ: Seq<(Seq<char>, Seq<Seq<char>>)>,
    pred: Seq<(Seq<char>, Seq<Seq<char>>)>,
) -> (Seq<(Seq<char>, Seq<Seq<char>>)>, Seq<(Seq<char>, Seq<Seq<char>>)>)
    decreases bs.len() - j,
{
    if j < 0 || j >= bs.len() {
        (succ, pred)
    } else {
        let next = if j + 1 < bs.len() {
            Some(bs[j + 1].label)
        } else {
            None
        };
        match spec_block_targets(instrs, bs[j], next) {
            None => spec_edges_from(instrs, bs, j + 1, succ, pred),
            Some(ts) => spec_edges_from(
                instrs,
                bs,
                j + 1,
                succ.push((bs[j].label, ts)),
                spec_record_all(pred, bs[j].label, ts, 0),
            ),
        }
    }
}

/// The successor and predecessor maps of the ordered blocks `bs` of a
/// function whose instruction stream is `instrs`.
pub open spec fn spec_edges(instrs: Seq<Code>, bs: Seq<BlockModel>) -> (
    Seq<(Seq<char>, Seq<Seq<char>>)>,
    Seq<(Seq<char>, Seq<Seq<char>>)>,
) {
    spec_edges_from(
        instrs,
        bs,
        0,
        Seq::<(Seq<char>, Seq<Seq<char>>)>::empty(),
        Seq::<(Seq<char>, Seq<Seq<char>>)>::empty(),
    )
}

/// Every nonempty block's last position points into the instruction
/// stream.  The blocks the partitioner yields satisfy this by
/// construction.
pub open spec fn blocks_in_range(instrs: Seq<Code>, bs: Seq<BlockModel>) -> bool {
    forall|j: int|
        0 <= j < bs.len() && bs[j].instrs.len() > 0 ==> 0 <= bs[j].instrs.last()
            < instrs.len()
}

/// Appends `val` to the targets of the first entry keyed `key`, creating
/// the entry if none matches.
fn record_pred(pred: &mut Vec<(String, Vec<String>)>, key: &String, val: &String)
    ensures
        edges_model(final(pred)@) == spec_record_pred(edges_model(old(pred)@), key@, val@, 0),
{
    let n: usize = pred.len();
    let mut k: usize = 0;
    while k < n
        invariant
            k <= n,
            n == pred@.len(),
            pred@ == old(pred)@,
            spec_record_pred(edges_model(pred@), key@, val@, 0) == spec_record_pred(
                edges_model(pred@),
                key@,
                val@,
                k as int,
            ),
        decreases n - k,
    {
        if pred[k].0 == *key {
            let ghost before = edges_model(pred@);
            let mut entry = pred.remove(k);
            entry.1.push(val.clone());
            pred.insert(k, entry);
            proof {
                assert(edges_model(pred@) =~~= before.update(
                    k as int,
                    (before[k as int].0, before[k as int].1.push(val@)),
                ));
            }
            return ;
        }
        k = k + 1;
    }
    pred.push((key.clone(), vec![val.clone()]));
    proof {
        assert(edges_model(pred@) =~~= edges_model(old(pred)@).push((key@, seq![val@])));
    }
}

/// Records `src` as a predecessor of every label in `ts`, in order.
fn record_all(pred: &mut Vec<(String, Vec<String>)>, src: &String, ts: &Vec<String>)
    ensures
        edges_model(final(pred)@) == spec_record_all(
            edges_model(old(pred)@),
            src@,
            strings_model(ts@),
            0,
        ),
{
    let ghost tsv = strings_model(ts@);
    let n: usize = ts.len();
    let mut k: usize = 0;
    while k < n
        invariant
            k <= n,
            n == ts@.len(),
            tsv == strings_model(ts@),
            spec_record_all(edges_model(pred@), src@, tsv, k as int) == spec_record_all(
                edges_model(old(pred)@),
                src@,
                tsv,
                0,
            ),
        decreases n - k,
    {
        record_pred(pred, &ts[k], src);
        k = k + 1;
    }
}

/// The declared target labels of an effect instruction, copied out; the
/// empty list for every other item.
fn target_labels(c: &Code) -> (r: Vec<String>)
    ensures
        strings_model(r@) == c.spec_target_labels(),
{
    match c {
        Code::Instruction(Instruction::Effect { labels, .. }) => {
            let n: usize = labels.len();
            let mut r: Vec<String> = Vec::new();
            let mut k: usize = 0;
            while k < n
                invariant
                    k <= n,
                    n == labels@.len(),
                    strings_model(r@) == strings_model(labels@).take(k as int),
                decreases n - k,
            {
                let ghost old_r = r@;
                let item = labels[k].clone();
                proof {
                    assert(item == labels@[k as int]);
                }
                r.push(item);
                proof {
                    assert(r@ == old_r.push(labels@[k as int]));
                    assert(r@.len() == old_r.len() + 1);
                    assert(strings_model(old_r).len() == old_r.len());
                    assert(old_r.len() == k);
                    assert(strings_model(r@).len() == k + 1);
                    assert forall|t: int| 0 <= t < k + 1 implies strings_model(r@)[t]
                        == strings_model(labels@).take(k as int + 1)[t] by {
                        if t < k {
                            assert(strings_model(old_r)[t] == strings_model(labels@).take(
                                k as int,
                            )[t]);
                        }
                    }
                    assert(strings_model(r@) =~~= strings_model(labels@).take(k as int + 1));
                }
                k = k + 1;
            }
            proof {
                assert(strings_model(labels@).take(n as int) =~= strings_model(labels@));
            }
            r
        },
        _ => {
            let r: Vec<String> = Vec::new();
            proof {
                assert(strings_model(r@) =~= Seq::<Seq<char>>::empty());
            }
            r
        },
    }
}

impl Function {
    /// Computes the successor and predecessor maps of this function's
    /// ordered basic blocks, in one pass.  Edges leave a block according
    /// to its last instruction: the declared targets of a `jmp` or `br`
    /// (as-is, in order), nothing for a `ret` or an empty block, and the
    /// next block's label on fallthrough.  Every edge `A -> B` recorded
    /// in the successor map also records `A` as a predecessor of `B`, in
    /// discovery order; a block no edge reaches has no predecessor entry.
    pub fn get_edges(&self, basic_blocks: &Vec<BasicBlock>) -> (r: (
        Vec<(String, Vec<String>)>,
        Vec<(String, Vec<String>)>,
    ))
        requires
            blocks_in_range(self.instrs@, blocks_model(basic_blocks@)),
        ensures
            edges_model(r.0@) == spec_edges(self.instrs@, blocks_model(basic_blocks@)).0,
            edges_model(r.1@) == spec_edges(self.instrs@, blocks_model(basic_blocks@)).1,
    {
        let ghost bm = blocks_model(basic_blocks@);
        let m: usize = basic_blocks.len();
        let mut succ: Vec<(String, Vec<String>)> = Vec::new();
        let mut pred: Vec<(String, Vec<String>)> = Vec::new();
        proof {
            assert(edges_model(succ@) =~= Seq::<(Seq<char>, Seq<Seq<char>>)>::empty());
            assert(edges_model(pred@) =~= Seq::<(Seq<char>, Seq<Seq<char>>)>::empty());
        }
        let mut j: usize = 0;
        while j < m
            invariant
                j <= m,
                m == basic_blocks@.len(),
                bm == blocks_model(basic_blocks@),
                blocks_in_range(self.instrs@, bm),
                spec_edges_from(self.instrs@, bm, j as int, edges_model(succ@), edges_model(pred@))
                    == spec_edges(self.instrs@, bm),
            decreases m - j,
        {
            let current = &basic_blocks[j];
            let ghost next = if j + 1 < bm.len() {
                Some(bm[j as int + 1].label)
            } else {
                None
            };
            let ghost goal = spec_block_targets(self.instrs@, bm[j as int], next);
            let targets: Option<Vec<String>> = if current.instrs.len() == 0 {
                None
            } else {
                let li: usize = current.instrs[current.instrs.len() - 1];
                proof {
                    assert(bm[j as int].instrs.last() == li as int);
                }
                let last = &self.instrs[li];
                if last.is_jump() {
                    Some(target_labels(last))
                } else if last.is_terminator() {
                    None
                } else if j + 1 < m {
                    let one = vec![basic_blocks[j + 1].label.clone()];
                    proof {
                        assert(strings_model(one@) =~~= seq![bm[j as int + 1].label]);
                    }
                    Some(one)
                } else {
                    None
                }
            };
            match targets {
                Some(ts) => {
                    proof {
                        assert(goal == Some(strings_model(ts@)));
                    }
                    let ghost pre_succ = edges_model(succ@);
                    record_all(&mut pred, &current.label, &ts);
                    succ.push((current.label.clone(), ts));
                    proof {
                        assert(edges_model(succ@) =~= pre_succ.push(
                            (bm[j as int].label, goal->Some_0),
                        ));
                    }
                },
                None => {
                    proof {
                        assert(goal is None);
                    }
                },
            }
            j = j + 1;
        }
        (succ, pred)
    }
}

/// The partitioner's output satisfies the edge builder's precondition.
pub proof fn lemma_partition_blocks_in_range(instrs: Seq<Code>, name: Seq<char>)
    ensures
        blocks_in_range(instrs, spec_basic_blocks(instrs, name)),
{
    lemma_partition_shape(instrs, name);
    let bs = spec_basic_blocks(instrs, name);
    assert forall|j: int| 0 <= j < bs.len() && bs[j].instrs.len() > 0 implies 0 <= bs[j].instrs.last() < instrs.len() by {
        assert(bs[j].instrs[bs[j].instrs.len() - 1] == bs[j].instrs.last());
    }
}

impl Function {
    /// Partitions this function and builds both edge maps in one call,
    /// returning the blocks, the successor map, and the predecessor map.
    pub fn get_cfg(&self) -> (r: (
        Vec<BasicBlock>,
        Vec<(String, Vec<String>)>,
        Vec<(String, Vec<String>)>,
    ))
        ensures
            blocks_model(r.0@) == spec_basic_blocks(self.instrs@, self.name@),
            edges_model(r.1@) == spec_edges(
                self.instrs@,
                spec_basic_blocks(self.instrs@, self.name@),
            ).0,
            edges_model(r.2@) == spec_edges(
                self.instrs@,
                spec_basic_blocks(self.instrs@, self.name@),
            ).1,
    {
        let blocks = self.get_basic_blocks();
        proof {
            lemma_partition_blocks_in_range(self.instrs@, self.name@);
        }
        let (successors, predecessors) = self.get_edges(&blocks);
        (blocks, successors, predecessors)
    }
}

/// A block ends in a terminator iff it is nonempty and its last
/// instruction is `jmp`, `br`, or `ret`.
pub open spec fn ends_in_terminator(instrs: Seq<Code>, b: BlockModel) -> bool {
    b.instrs.len() > 0 && instrs[b.instrs.last()].spec_is_terminator()
}

proof fn lemma_edges_from_prefix(
    instrs: Seq<Code>,
    bs: Seq<BlockModel>,
    j: int,
    succ: Seq<(Seq<char>, Seq<Seq<char>>)>,
    pred: Seq<(Seq<char>, Seq<Seq<char>>)>,
)
    ensures
        spec_edges_from(instrs, bs, j, succ, pred).0.len() >= succ.len(),
        forall|x: int|
            0 <= x < succ.len() ==> #[trigger] spec_edges_from(instrs, bs, j, succ, pred).0[x]
                == succ[x],
    decreases bs.len() - j,
{
    if j < 0 || j >= bs.len() {
    } else {
        let next = if j + 1 < bs.len() {
            Some(bs[j + 1].label)
        } else {
            None
        };
        match spec_block_targets(instrs, bs[j], next) {
            None => {
                lemma_edges_from_prefix(instrs, bs, j + 1, succ, pred);
            },
            Some(ts) => {
                lemma_edges_from_prefix(
                    instrs,
                    bs,
                    j + 1,
                    succ.push((bs[j].label, ts)),
                    spec_record_all(pred, bs[j].label, ts, 0),
                );
            },
        }
    }
}

proof fn lemma_edges_from_closure(
    instrs: Seq<Code>,
    bs: Seq<BlockModel>,
    j0: int,
    succ: Seq<(Seq<char>, Seq<Seq<char>>)>,
    pred: Seq<(Seq<char>, Seq<Seq<char>>)>,
)
    requires
        0 <= j0 <= bs.len(),
        forall|j: int| 0 <= j < bs.len() && #[trigger] bs[j].instrs.len() == 0 ==> j == bs.len() - 1,
    ensures
        forall|j: int|
            j0 <= j < bs.len() - 1 && !(#[trigger] ends_in_terminator(instrs, bs[j]))
                ==> spec_edges_from(instrs, bs, j0, succ, pred).0.contains(
                (bs[j].label, seq![bs[j + 1].label]),
            ),
    decreases bs.len() - j0,
{
    if j0 >= bs.len() {
    } else {
        let next = if j0 + 1 < bs.len() {
            Some(bs[j0 + 1].label)
        } else {
            None
        };
        let goal = spec_block_targets(instrs, bs[j0], next);
        match goal {
            None => {
                lemma_edges_from_closure(instrs, bs, j0 + 1, succ, pred);
                if j0 < bs.len() - 1 && !ends_in_terminator(instrs, bs[j0]) {
                    assert(bs[j0].instrs.len() > 0);
                    assert(false);
                }
            },
            Some(ts) => {
                let succ2 = succ.push((bs[j0].label, ts));
                let pred2 = spec_record_all(pred, bs[j0].label, ts, 0);
                lemma_edges_from_closure(instrs, bs, j0 + 1, succ2, pred2);
                if j0 < bs.len() - 1 && !ends_in_terminator(instrs, bs[j0]) {
                    assert(ts == seq![bs[j0 + 1].label]);
                    lemma_edges_from_prefix(instrs, bs, j0 + 1, succ2, pred2);
                    let r = spec_edges_from(instrs, bs, j0 + 1, succ2, pred2).0;
                    assert(r[succ.len() as int] == (bs[j0].label, seq![bs[j0 + 1].label]));
                    assert(r.contains((bs[j0].label, seq![bs[j0 + 1].label])));
                }
            },
        }
    }
}

/// Terminator closure: every block except possibly the function's last
/// either ends in a terminator or has its fallthrough edge to the next
/// block's label recorded in the successor map.  A non-final block is
/// never left with neither.
pub proof fn lemma_terminator_closure(instrs: Seq<Code>, name: Seq<char>)
    ensures
        forall|j: int|
            0 <= j < spec_basic_blocks(instrs, name).len() - 1 && !(#[trigger] ends_in_terminator(
                instrs,
                spec_basic_blocks(instrs, name)[j],
            )) ==> spec_edges(instrs, spec_basic_blocks(instrs, name)).0.contains(
                (
                    spec_basic_blocks(instrs, name)[j].label,
                    seq![spec_basic_blocks(instrs, name)[j + 1].label],
                ),
            ),
{
    lemma_partition_shape(instrs, name);
    let bs = spec_basic_blocks(instrs, name);
    lemma_edges_from_closure(
        instrs,
        bs,
        0,
        Seq::<(Seq<char>, Seq<Seq<char>>)>::empty(),
        Seq::<(Seq<char>, Seq<Seq<char>>)>::empty(),
    );
}

/// An adjacency map records the edge (`key`, `val`) when some entry
/// keyed `key` lists `val` among its targets.
pub open spec fn map_has_edge(
    m: Seq<(Seq<char>, Seq<Seq<char>>)>,
    key: Seq<char>,
    val: Seq<char>,
) -> bool {
    exists|x: int| 0 <= x < m.len() && (#[trigger] m[x]).0 == key && m[x].1.contains(val)
}

proof fn lemma_record_pred_edges(
    m: Seq<(Seq<char>, Seq<Seq<char>>)>,
    key: Seq<char>,
    val: Seq<char>,
    k: int,
)
    requires
        0 <= k <= m.len(),
    ensures
        forall|a: Seq<char>, b: Seq<char>|
            #[trigger] map_has_edge(spec_record_pred(m, key, val, k), a, b) <==> (map_has_edge(
                m,
                a,
                b,
            ) || (a == key && b == val)),
    decreases m.len() - k,
{
    if k >= m.len() {
        let m2 = m.push((key, seq![val]));
        assert(spec_record_pred(m, key, val, k) == m2);
        assert forall|a: Seq<char>, b: Seq<char>|
            #[trigger] map_has_edge(spec_record_pred(m, key, val, k), a, b) <==> (map_has_edge(
            m,
            a,
            b,
        ) || (a == key && b == val)) by {
            if map_has_edge(m2, a, b) {
                let x = choose|x: int|
                    0 <= x < m2.len() && (#[trigger] m2[x]).0 == a && m2[x].1.contains(b);
                if x < m.len() {
                    assert(m2[x] == m[x]);
                    assert(map_has_edge(m, a, b));
                } else {
                    assert(m2[x] == (key, seq![val]));
                    let t = choose|t: int| 0 <= t < seq![val].len() && seq![val][t] == b;
                    assert(b == val);
                }
            }
            if map_has_edge(m, a, b) {
                let x = choose|x: int|
                    0 <= x < m.len() && (#[trigger] m[x]).0 == a && m[x].1.contains(b);
                assert(m2[x] == m[x]);
                assert(0 <= x < m2.len() && m2[x].0 == a && m2[x].1.contains(b));
                assert(map_has_edge(m2, a, b));
            }
            if a == key && b == val {
                assert(seq![val][0] == val);
                assert(seq![val].contains(val));
                assert(m2[m.len() as int] == (key, seq![val]));
                assert(0 <= m.len() < m2.len() && m2[m.len() as int].0 == key && m2[m.len() as int].1.contains(val));
                assert(map_has_edge(m2, a, b));
            }
        }
    } else if m[k].0 == key {
        let entry = (m[k].0, m[k].1.push(val));
        let m2 = m.update(k, entry);
        assert(spec_record_pred(m, key, val, k) == m2);
        assert forall|a: Seq<char>, b: Seq<char>|
            #[trigger] map_has_edge(spec_record_pred(m, key, val, k), a, b) <==> (map_has_edge(
            m,
            a,
            b,
        ) || (a == key && b == val)) by {
            if map_has_edge(m2, a, b) {
                let x = choose|x: int|
                    0 <= x < m2.len() && (#[trigger] m2[x]).0 == a && m2[x].1.contains(b);
                if x != k {
                    assert(m2[x] == m[x]);
                    assert(map_has_edge(m, a, b));
                } else {
                    let t = choose|t: int| 0 <= t < m2[k].1.len() && m2[k].1[t] == b;
                    if t < m[k].1.len() {
                        assert(m[k].1[t] == b);
                        assert(m[k].1.contains(b));
                        assert(map_has_edge(m, a, b));
                    } else {
                        assert(b == val);
                    }
                }
            }
            if map_has_edge(m, a, b) {
                let x = choose|x: int|
                    0 <= x < m.len() && (#[trigger] m[x]).0 == a && m[x].1.contains(b);
                if x != k {
                    assert(m2[x] == m[x]);
                    assert(0 <= x < m2.len() && m2[x].0 == a && m2[x].1.contains(b));
                    assert(map_has_edge(m2, a, b));
                } else {
                    let t = choose|t: int| 0 <= t < m[k].1.len() && m[k].1[t] == b;
                    assert(m2[k].1[t] == b);
                    assert(m2[k].1.contains(b));
                    assert(0 <= k < m2.len() && m2[k].0 == a && m2[k].1.contains(b));
                    assert(map_has_edge(m2, a, b));
                }
            }
            if a == key && b == val {
                assert(m2[k].1[m[k].1.len() as int] == val);
                assert(m2[k].1.contains(val));
                assert(0 <= k < m2.len() && m2[k].0 == key && m2[k].1.contains(val));
                assert(map_has_edge(m2, a, b));
            }
        }
    } else {
        lemma_record_pred_edges(m, key, val, k + 1);
        assert(spec_record_pred(m, key, val, k) == spec_record_pred(m, key, val, k + 1));
    }
}

proof fn lemma_record_all_edges(
    m: Seq<(Seq<char>, Seq<Seq<char>>)>,
    src: Seq<char>,
    ts: Seq<Seq<char>>,
    k: int,
)
    requires
        0 <= k <= ts.len(),
    ensures
        forall|a: Seq<char>, b: Seq<char>|
            #[trigger] map_has_edge(spec_record_all(m, src, ts, k), a, b) <==> (map_has_edge(
                m,
                a,
                b,
            ) || (b == src && (exists|t: int| k <= t < ts.len() && #[trigger] ts[t] == a))),
    decreases ts.len() - k,
{
    if k >= ts.len() {
    } else {
        let m1 = spec_record_pred(m, ts[k], src, 0);
        lemma_record_pred_edges(m, ts[k], src, 0);
        lemma_record_all_edges(m1, src, ts, k + 1);
        assert(spec_record_all(m, src, ts, k) == spec_record_all(m1, src, ts, k + 1));
        assert forall|a: Seq<char>, b: Seq<char>|
            #[trigger] map_has_edge(spec_record_all(m, src, ts, k), a, b) <==> (map_has_edge(
            m,
            a,
            b,
        ) || (b == src && (exists|t: int| k <= t < ts.len() && #[trigger] ts[t] == a))) by {
            if map_has_edge(spec_record_all(m1, src, ts, k + 1), a, b) {
                if map_has_edge(m1, a, b) {
                    if !map_has_edge(m, a, b) {
                        assert(a == ts[k] && b == src);
                        assert(k <= k < ts.len() && ts[k] == a);
                    }
                } else {
                    let t = choose|t: int| k + 1 <= t < ts.len() && #[trigger] ts[t] == a;
                    assert(k <= t < ts.len() && ts[t] == a);
                }
            }
            if map_has_edge(m, a, b) {
                assert(map_has_edge(m1, a, b));
                assert(map_has_edge(spec_record_all(m1, src, ts, k + 1), a, b));
            }
            if b == src && (exists|t: int| k <= t < ts.len() && #[trigger] ts[t] == a) {
                let t = choose|t: int| k <= t < ts.len() && #[trigger] ts[t] == a;
                if t == k {
                    assert(map_has_edge(m1, a, b));
                    assert(map_has_edge(spec_record_all(m1, src, ts, k + 1), a, b));
                } else {
                    assert(k + 1 <= t < ts.len() && ts[t] == a);
                    assert(map_has_edge(spec_record_all(m1, src, ts, k + 1), a, b));
                }
            }
        }
    }
}

proof fn lemma_edges_from_duality(
    instrs: Seq<Code>,
    bs: Seq<BlockModel>,
    j: int,
    succ: Seq<(Seq<char>, Seq<Seq<char>>)>,
    pred: Seq<(Seq<char>, Seq<Seq<char>>)>,
)
    requires
        forall|a: Seq<char>, b: Seq<char>|
            #[trigger] map_has_edge(succ, a, b) <==> map_has_edge(pred, b, a),
    ensures
        forall|a: Seq<char>, b: Seq<char>|
            #[trigger] map_has_edge(spec_edges_from(instrs, bs, j, succ, pred).0, a, b)
                <==> map_has_edge(spec_edges_from(instrs, bs, j, succ, pred).1, b, a),
    decreases bs.len() - j,
{
    if j < 0 || j >= bs.len() {
        assert(spec_edges_from(instrs, bs, j, succ, pred) == (succ, pred));
    } else {
        let next = if j + 1 < bs.len() {
            Some(bs[j + 1].label)
        } else {
            None
        };
        match spec_block_targets(instrs, bs[j], next) {
            None => {
                lemma_edges_from_duality(instrs, bs, j + 1, succ, pred);
                assert(spec_edges_from(instrs, bs, j, succ, pred) == spec_edges_from(
                    instrs,
                    bs,
                    j + 1,
                    succ,
                    pred,
                ));
            },
            Some(ts) => {
                let lbl = bs[j].label;
                let succ2 = succ.push((lbl, ts));
                let pred2 = spec_record_all(pred, lbl, ts, 0);
                lemma_record_all_edges(pred, lbl, ts, 0);
                assert forall|a: Seq<char>, b: Seq<char>| #[trigger] map_has_edge(succ2, a, b)
                    implies map_has_edge(pred2, b, a) by {
                    let x = choose|x: int|
                        0 <= x < succ2.len() && (#[trigger] succ2[x]).0 == a && succ2[x].1.contains(
                            b,
                        );
                    if x < succ.len() {
                        assert(succ2[x] == succ[x]);
                        assert(map_has_edge(succ, a, b));
                        assert(map_has_edge(pred, b, a));
                        assert(map_has_edge(pred2, b, a));
                    } else {
                        assert(succ2[x] == (lbl, ts));
                        let t = choose|t: int| 0 <= t < ts.len() && ts[t] == b;
                        assert(0 <= t < ts.len() && ts[t] == b && a == lbl);
                        assert(map_has_edge(pred2, b, a));
                    }
                }
                assert forall|a: Seq<char>, b: Seq<char>| #[trigger] map_has_edge(pred2, b, a)
                    implies map_has_edge(succ2, a, b) by {
                    if map_has_edge(pred, b, a) {
                        assert(map_has_edge(succ, a, b));
                        let x = choose|x: int|
                            0 <= x < succ.len() && (#[trigger] succ[x]).0 == a && succ[x].1.contains(b);
                        assert(succ2[x] == succ[x]);
                        assert(0 <= x < succ2.len() && succ2[x].0 == a && succ2[x].1.contains(b));
                    } else {
                        let t = choose|t: int| 0 <= t < ts.len() && #[trigger] ts[t] == b;
                        assert(a == lbl);
                        assert(ts.contains(b));
                        assert(succ2[succ.len() as int] == (lbl, ts));
                        assert(0 <= succ.len() < succ2.len() && succ2[succ.len() as int].0 == a
                            && succ2[succ.len() as int].1.contains(b));
                    }
                }
                lemma_edges_from_duality(instrs, bs, j + 1, succ2, pred2);
                assert(spec_edges_from(instrs, bs, j, succ, pred) == spec_edges_from(
                    instrs,
                    bs,
                    j + 1,
                    succ2,
                    pred2,
                ));
            },
        }
    }
}

/// Successor/predecessor duality: `B` is recorded among `A`'s successors
/// if and only if `A` is recorded among `B`'s predecessors.  This holds
/// of the two maps the edge builder returns for any block sequence.
pub proof fn lemma_edge_duality(instrs: Seq<Code>, bs: Seq<BlockModel>)
    ensures
        forall|a: Seq<char>, b: Seq<char>|
            #[trigger] map_has_edge(spec_edges(instrs, bs).0, a, b) <==> map_has_edge(
                spec_edges(instrs, bs).1,
                b,
                a,
            ),
{
    let e = Seq::<(Seq<char>, Seq<Seq<char>>)>::empty();
    lemma_edges_from_duality(instrs, bs, 0, e, e);
}

/// Determinism and idempotence: the partition and both edge maps are
/// functions of the instruction stream and the function name alone, so
/// two runs over the same function yield identical block lists and edge
/// maps.  `get_basic_blocks` and `get_edges` return exactly these
/// values, which carries the guarantee over to any two executions.
pub proof fn lemma_determinism(
    instrs: Seq<Code>,
    name: Seq<char>,
    bs1: Seq<BlockModel>,
    bs2: Seq<BlockModel>,
)
    requires
        bs1 == spec_basic_blocks(instrs, name),
        bs2 == spec_basic_blocks(instrs, name),
    ensures
        bs1 == bs2,
        spec_edges(instrs, bs1) == spec_edges(instrs, bs2),
{
}

} // verus!
