//! The basic-block partitioner: one forward pass over a function's
//! instruction stream that produces maximal straight-line blocks, naming
//! implicit blocks with synthesized labels.

use crate::ir::{Code, Function};
use vstd::prelude::*;

verus! {

/// A basic block: a label and the positions, in order, of the block's
/// instructions inside the owning function's instruction stream.  A block
/// refers into the stream rather than copying it; its positions never
/// point at label markers, which are consumed to name blocks.
#[derive(Debug, Clone, PartialEq, Eq, Hash)]
pub struct BasicBlock {
    pub label: String,
    pub instrs: Vec<usize>,
}

/// The mathematical shape of a basic block: its label text and the
/// positions of its instructions.
pub ghost struct BlockModel {
    pub label: Seq<char>,
    pub instrs: Seq<int>,
}

impl View for BasicBlock {
    type V = BlockModel;

    open spec fn view(&self) -> BlockModel {
        BlockModel { label: self.label@, instrs: self.instrs@.map_values(|p: usize| p as int) }
    }
}

/// The models of a sequence of blocks.
pub open spec fn blocks_model(bs: Seq<BasicBlock>) -> Seq<BlockModel> {
    bs.map_values(|b: BasicBlock| b@)
}

/// The decimal digit character for `k` < 10.
pub open spec fn spec_digit(k: nat) -> char {
    if k == 0 {
        '0'
    } else if k == 1 {
        '1'
    } else if k == 2 {
        '2'
    } else if k == 3 {
        '3'
    } else if k == 4 {
        '4'
    } else if k == 5 {
        '5'
    } else if k == 6 {
        '6'
    } else if k == 7 {
        '7'
    } else if k == 8 {
        '8'
    } else {
        '9'
    }
}

/// The decimal rendering of `k`, most significant digit first, with no
/// leading zeros (except for `k` = 0 itself).
pub open spec fn spec_decimal(k: nat) -> Seq<char>
    decreases k,
{
    if k < 10 {
        seq![spec_digit(k)]
    } else {
        spec_decimal(k / 10).push(spec_digit(k % 10))
    }
}

/// The label synthesized for the block at position `k` of a function
/// named `name` when no explicit label is available.
pub open spec fn spec_synth_label(name: Seq<char>, k: nat) -> Seq<char> {
    name + "_bb"@ + spec_decimal(k)
}

/// One decimal digit as a string slice.
fn digit_str(d: usize) -> (r: &'static str)
    requires
        d < 10,
    ensures
        r@ == seq![spec_digit(d as nat)],
{
    proof {
        reveal_strlit("0");
        reveal_strlit("1");
        reveal_strlit("2");
        reveal_strlit("3");
        reveal_strlit("4");
        reveal_strlit("5");
        reveal_strlit("6");
        reveal_strlit("7");
        reveal_strlit("8");
        reveal_strlit("9");
    }
    let r = match d {
        0 => "0",
        1 => "1",
        2 => "2",
        3 => "3",
        4 => "4",
        5 => "5",
        6 => "6",
        7 => "7",
        8 => "8",
        _ => "9",
    };
    proof {
        assert(r@ =~= seq![spec_digit(d as nat)]);
    }
    r
}

/// Renders `k` in decimal.
fn decimal_string(k: usize) -> (r: String)
    ensures
        r@ == spec_decimal(k as nat),
    decreases k,
{
    if k < 10 {
        let r = digit_str(k).to_owned();
        r
    } else {
        let mut r = decimal_string(k / 10);
        r.append(digit_str(k % 10));
        proof {
            assert(r@ =~= spec_decimal((k / 10) as nat).push(spec_digit((k % 10) as nat)));
            assert((k / 10) as nat == (k as nat) / 10 && (k % 10) as nat == (k as nat) % 10);
        }
        r
    }
}

/// Builds the synthesized label `<name>_bb<k>`.
fn synth_label(name: &String, k: usize) -> (r: String)
    ensures
        r@ == spec_synth_label(name@, k as nat),
{
    let mut r = name.clone();
    r.append("_bb");
    let digits = decimal_string(k);
    r.append(digits.as_str());
    r
}

/// One forward pass of the partitioner from position `i`, carrying the
/// not-yet-flushed block `pending`, whether its label was set since the
/// last flush (`named`), and the blocks flushed so far (`acc`).
///
/// A label marker renames the pending block (consecutive markers
/// overwrite, the last one wins).  An instruction is appended to the
/// pending block, which is then flushed when the stream ends, when a
/// label marker follows, or when the instruction is a terminator.  After
/// a flush caused by a terminator with no explicit label following, a
/// label is synthesized for the next block; after a trailing `ret`
/// nothing follows the function's exit, so no block is synthesized.  At
/// the end of the stream the pending block is emitted only if something
/// named it: a trailing explicit label, or a synthesized label after a
/// trailing jump.
pub open spec fn spec_partition_from(
    instrs: Seq<Code>,
    name: Seq<char>,
    i: int,
    pending: BlockModel,
    named: bool,
    acc: Seq<BlockModel>,
) -> Seq<BlockModel>
    decreases instrs.len() - i,
{
    if i < 0 || i >= instrs.len() {
        if named {
            acc.push(pending)
        } else {
            acc
        }
    } else if instrs[i].spec_is_label() {
        spec_partition_from(
            instrs,
            name,
            i + 1,
            BlockModel { label: instrs[i].spec_label_text(), instrs: pending.instrs },
            true,
            acc,
        )
    } else {
        let grown = BlockModel { label: pending.label, instrs: pending.instrs.push(i) };
        let is_last = i == instrs.len() - 1;
        let next_is_label = !is_last && instrs[i + 1].spec_is_label();
        let term = instrs[i].spec_is_terminator();
        if is_last || next_is_label || term {
            let flushed = acc.push(grown);
            let synth = term && !next_is_label && (!is_last || instrs[i].spec_is_jump());
            let label = if synth {
                spec_synth_label(name, flushed.len())
            } else {
                pending.label
            };
            spec_partition_from(
                instrs,
                name,
                i + 1,
                BlockModel { label: label, instrs: Seq::<int>::empty() },
                synth,
                flushed,
            )
        } else {
            spec_partition_from(instrs, name, i + 1, grown, named, acc)
        }
    }
}

/// The basic blocks of the instruction stream `instrs` of a function
/// named `name`: program order is preserved, every instruction lands in
/// exactly one block, and label markers only name blocks.
pub open spec fn spec_basic_blocks(instrs: Seq<Code>, name: Seq<char>) -> Seq<BlockModel> {
    spec_partition_from(
        instrs,
        name,
        0,
        BlockModel { label: "entry"@, instrs: Seq::<int>::empty() },
        false,
        Seq::<BlockModel>::empty(),
    )
}

impl Function {
    /// Partitions this function's instruction stream into its ordered
    /// basic blocks.  The first block is labeled `entry` unless an
    /// explicit label renames it; a block opened by a terminator with no
    /// label following is labeled `<name>_bb<position>`.  A function with
    /// no instructions yields no blocks; a trailing label yields a final
    /// block with no instructions.
    pub fn get_basic_blocks(&self) -> (blocks: Vec<BasicBlock>)
        ensures
            blocks_model(blocks@) == spec_basic_blocks(self.instrs@, self.name@),
    {
        let ghost target = spec_basic_blocks(self.instrs@, self.name@);
        let mut blocks: Vec<BasicBlock> = Vec::new();
        let mut pending_label: String = "entry".to_owned();
        let mut pending: Vec<usize> = Vec::new();
        let mut named: bool = false;
        let n: usize = self.instrs.len();
        let mut i: usize = 0;
        proof {
            assert(blocks_model(blocks@) =~= Seq::<BlockModel>::empty());
            assert(pending@.map_values(|p: usize| p as int) =~= Seq::<int>::empty());
        }
        while i < n
            invariant
                i <= n,
                n == self.instrs@.len(),
                spec_partition_from(
                    self.instrs@,
                    self.name@,
                    i as int,
                    (BlockModel {
                        label: pending_label@,
                        instrs: pending@.map_values(|p: usize| p as int),
                    }),
                    named,
                    blocks_model(blocks@),
                ) == target,
            decreases n - i,
        {
            let ghost pre_pending = pending@.map_values(|p: usize| p as int);
            let ghost pre_blocks = blocks_model(blocks@);
            let current = &self.instrs[i];
            if current.is_label() {
                pending_label = current.get_label();
                named = true;
            } else {
                pending.push(i);
                proof {
                    assert(pending@.map_values(|p: usize| p as int) =~= pre_pending.push(i as int));
                }
                let is_last = i + 1 == n;
                let next_is_label = !is_last && self.instrs[i + 1].is_label();
                let term = current.is_terminator();
                if is_last || next_is_label || term {
                    let finished = BasicBlock { label: pending_label.clone(), instrs: pending };
                    blocks.push(finished);
                    pending = Vec::new();
                    proof {
                        assert(blocks_model(blocks@) =~= pre_blocks.push(
                            BlockModel { label: pending_label@, instrs: pre_pending.push(i as int) },
                        ));
                        assert(pending@.map_values(|p: usize| p as int) =~= Seq::<int>::empty());
                    }
                    let synth = term && !next_is_label && (!is_last || current.is_jump());
                    if synth {
                        pending_label = synth_label(&self.name, blocks.len());
                        named = true;
                    } else {
                        named = false;
                    }
                }
            }
            i = i + 1;
        }
        if named {
            let ghost pre_blocks = blocks_model(blocks@);
            let ghost tail_model = BlockModel {
                label: pending_label@,
                instrs: pending@.map_values(|p: usize| p as int),
            };
            let last = BasicBlock { label: pending_label, instrs: pending };
            blocks.push(last);
            proof {
                assert(blocks_model(blocks@) =~= pre_blocks.push(tail_model));
            }
        }
        blocks
    }
}

/// The positions, from `i` on, of the items of `instrs` that are
/// instructions rather than label markers.
pub open spec fn spec_non_label_positions(instrs: Seq<Code>, i: int) -> Seq<int>
    decreases instrs.len() - i,
{
    if i < 0 || i >= instrs.len() {
        Seq::<int>::empty()
    } else if instrs[i].spec_is_label() {
        spec_non_label_positions(instrs, i + 1)
    } else {
        seq![i] + spec_non_label_positions(instrs, i + 1)
    }
}

/// The instruction positions of all blocks from `j` on, concatenated in
/// block order.
pub open spec fn spec_block_positions(bs: Seq<BlockModel>, j: int) -> Seq<int>
    decreases bs.len() - j,
{
    if j < 0 || j >= bs.len() {
        Seq::<int>::empty()
    } else {
        bs[j].instrs + spec_block_positions(bs, j + 1)
    }
}

/// The items of `instrs` at the positions `ps`, in order.
pub open spec fn spec_items_at(instrs: Seq<Code>, ps: Seq<int>) -> Seq<Code> {
    ps.map_values(|p: int| instrs[p])
}

/// The items of `instrs` from `i` on that are instructions rather than
/// label markers, in order.
pub open spec fn spec_non_labels_from(instrs: Seq<Code>, i: int) -> Seq<Code>
    decreases instrs.len() - i,
{
    if i < 0 || i >= instrs.len() {
        Seq::<Code>::empty()
    } else if instrs[i].spec_is_label() {
        spec_non_labels_from(instrs, i + 1)
    } else {
        seq![instrs[i]] + spec_non_labels_from(instrs, i + 1)
    }
}

/// The instruction stream with all its label markers removed.
pub open spec fn spec_non_labels(instrs: Seq<Code>) -> Seq<Code> {
    spec_non_labels_from(instrs, 0)
}

proof fn lemma_block_positions_push(bs: Seq<BlockModel>, b: BlockModel, j: int)
    requires
        0 <= j <= bs.len(),
    ensures
        spec_block_positions(bs.push(b), j) == spec_block_positions(bs, j) + b.instrs,
    decreases bs.len() - j,
{
    if j == bs.len() {
        assert(spec_block_positions(bs.push(b), j + 1) =~= Seq::<int>::empty());
        assert(spec_block_positions(bs.push(b), j) =~= spec_block_positions(bs, j) + b.instrs);
    } else {
        lemma_block_positions_push(bs, b, j + 1);
        assert(bs.push(b)[j] == bs[j]);
        assert(spec_block_positions(bs.push(b), j) =~= spec_block_positions(bs, j) + b.instrs);
    }
}

proof fn lemma_partition_from_positions(
    instrs: Seq<Code>,
    name: Seq<char>,
    i: int,
    pending: BlockModel,
    named: bool,
    acc: Seq<BlockModel>,
)
    requires
        0 <= i <= instrs.len(),
        pending.instrs.len() > 0 ==> i < instrs.len() && !instrs[i].spec_is_label(),
    ensures
        spec_block_positions(spec_partition_from(instrs, name, i, pending, named, acc), 0)
            == spec_block_positions(acc, 0) + pending.instrs + spec_non_label_positions(instrs, i),
    decreases instrs.len() - i,
{
    if i >= instrs.len() {
        assert(pending.instrs.len() == 0);
        if named {
            lemma_block_positions_push(acc, pending, 0);
        }
        assert(spec_block_positions(spec_partition_from(instrs, name, i, pending, named, acc), 0)
            =~= spec_block_positions(acc, 0) + pending.instrs + spec_non_label_positions(
            instrs,
            i,
        ));
    } else if instrs[i].spec_is_label() {
        assert(pending.instrs.len() == 0);
        let renamed = BlockModel { label: instrs[i].spec_label_text(), instrs: pending.instrs };
        lemma_partition_from_positions(instrs, name, i + 1, renamed, true, acc);
        assert(spec_block_positions(acc, 0) + renamed.instrs + spec_non_label_positions(
            instrs,
            i + 1,
        ) =~= spec_block_positions(acc, 0) + pending.instrs + spec_non_label_positions(instrs, i));
    } else {
        let grown = BlockModel { label: pending.label, instrs: pending.instrs.push(i) };
        let is_last = i == instrs.len() - 1;
        let next_is_label = !is_last && instrs[i + 1].spec_is_label();
        let term = instrs[i].spec_is_terminator();
        if is_last || next_is_label || term {
            let flushed = acc.push(grown);
            let synth = term && !next_is_label && (!is_last || instrs[i].spec_is_jump());
            let label = if synth {
                spec_synth_label(name, flushed.len())
            } else {
                pending.label
            };
            let fresh = BlockModel { label: label, instrs: Seq::<int>::empty() };
            lemma_partition_from_positions(instrs, name, i + 1, fresh, synth, flushed);
            lemma_block_positions_push(acc, grown, 0);
            assert(spec_block_positions(flushed, 0) + fresh.instrs + spec_non_label_positions(
                instrs,
                i + 1,
            ) =~= spec_block_positions(acc, 0) + pending.instrs + spec_non_label_positions(
                instrs,
                i,
            ));
        } else {
            lemma_partition_from_positions(instrs, name, i + 1, grown, named, acc);
            assert(spec_block_positions(acc, 0) + grown.instrs + spec_non_label_positions(
                instrs,
                i + 1,
            ) =~= spec_block_positions(acc, 0) + pending.instrs + spec_non_label_positions(
                instrs,
                i,
            ));
        }
    }
}

proof fn lemma_non_label_positions_items(instrs: Seq<Code>, i: int)
    requires
        0 <= i <= instrs.len(),
    ensures
        spec_items_at(instrs, spec_non_label_positions(instrs, i)) == spec_non_labels_from(
            instrs,
            i,
        ),
    decreases instrs.len() - i,
{
    if i >= instrs.len() {
        assert(spec_items_at(instrs, spec_non_label_positions(instrs, i)) =~= Seq::<
            Code,
        >::empty());
    } else {
        lemma_non_label_positions_items(instrs, i + 1);
        if instrs[i].spec_is_label() {
        } else {
            assert(spec_items_at(instrs, spec_non_label_positions(instrs, i)) =~= seq![instrs[i]]
                + spec_items_at(instrs, spec_non_label_positions(instrs, i + 1)));
        }
    }
}

/// Partition completeness: concatenating every block's instructions, in
/// block order, reproduces the function's instruction stream with all
/// label markers removed, exactly and losslessly.
pub proof fn lemma_partition_completeness(instrs: Seq<Code>, name: Seq<char>)
    ensures
        spec_items_at(
            instrs,
            spec_block_positions(spec_basic_blocks(instrs, name), 0),
        ) == spec_non_labels(instrs),
{
    let pending = BlockModel { label: "entry"@, instrs: Seq::<int>::empty() };
    lemma_partition_from_positions(instrs, name, 0, pending, false, Seq::<BlockModel>::empty());
    assert(spec_block_positions(Seq::<BlockModel>::empty(), 0) + pending.instrs
        + spec_non_label_positions(instrs, 0) =~= spec_non_label_positions(instrs, 0));
    lemma_non_label_positions_items(instrs, 0);
}

/// The shape the partitioner guarantees: every recorded position points
/// at a non-label item of the stream, and only the final block can be
/// empty.
pub open spec fn blocks_well_formed(instrs: Seq<Code>, bs: Seq<BlockModel>) -> bool {
    &&& forall|j: int, t: int|
        0 <= j < bs.len() && 0 <= t < bs[j].instrs.len() ==> 0 <= #[trigger] bs[j].instrs[t]
            < instrs.len() && !instrs[bs[j].instrs[t]].spec_is_label()
    &&& forall|j: int|
        0 <= j < bs.len() && #[trigger] bs[j].instrs.len() == 0 ==> j == bs.len() - 1
}

proof fn lemma_partition_from_shape(
    instrs: Seq<Code>,
    name: Seq<char>,
    i: int,
    pending: BlockModel,
    named: bool,
    acc: Seq<BlockModel>,
)
    requires
        0 <= i <= instrs.len(),
        forall|j: int, t: int|
            0 <= j < acc.len() && 0 <= t < acc[j].instrs.len() ==> 0 <= #[trigger] acc[j].instrs[t]
                < instrs.len() && !instrs[acc[j].instrs[t]].spec_is_label(),
        forall|j: int| 0 <= j < acc.len() ==> #[trigger] acc[j].instrs.len() > 0,
        forall|t: int|
            0 <= t < pending.instrs.len() ==> 0 <= #[trigger] pending.instrs[t] < instrs.len()
                && !instrs[pending.instrs[t]].spec_is_label(),
    ensures
        blocks_well_formed(instrs, spec_partition_from(instrs, name, i, pending, named, acc)),
    decreases instrs.len() - i,
{
    if i >= instrs.len() {
    } else if instrs[i].spec_is_label() {
        let renamed = BlockModel { label: instrs[i].spec_label_text(), instrs: pending.instrs };
        lemma_partition_from_shape(instrs, name, i + 1, renamed, true, acc);
    } else {
        let grown = BlockModel { label: pending.label, instrs: pending.instrs.push(i) };
        let is_last = i == instrs.len() - 1;
        let next_is_label = !is_last && instrs[i + 1].spec_is_label();
        let term = instrs[i].spec_is_terminator();
        if is_last || next_is_label || term {
            let flushed = acc.push(grown);
            let synth = term && !next_is_label && (!is_last || instrs[i].spec_is_jump());
            let label = if synth {
                spec_synth_label(name, flushed.len())
            } else {
                pending.label
            };
            let fresh = BlockModel { label: label, instrs: Seq::<int>::empty() };
            lemma_partition_from_shape(instrs, name, i + 1, fresh, synth, flushed);
        } else {
            lemma_partition_from_shape(instrs, name, i + 1, grown, named, acc);
        }
    }
}

/// The blocks the partitioner yields are well-formed: positions point at
/// non-label items, and only the final block can be empty.
pub proof fn lemma_partition_shape(instrs: Seq<Code>, name: Seq<char>)
    ensures
        blocks_well_formed(instrs, spec_basic_blocks(instrs, name)),
{
    let pending = BlockModel { label: "entry"@, instrs: Seq::<int>::empty() };
    lemma_partition_from_shape(instrs, name, 0, pending, false, Seq::<BlockModel>::empty());
}

proof fn lemma_decimal_len(k: nat)
    ensures
        spec_decimal(k).len() >= 1,
    decreases k,
{
    if k >= 10 {
        lemma_decimal_len(k / 10);
    }
}

proof fn lemma_digit_injective(d1: nat, d2: nat)
    requires
        d1 < 10,
        d2 < 10,
        spec_digit(d1) == spec_digit(d2),
    ensures
        d1 == d2,
{
}

proof fn lemma_decimal_injective(k1: nat, k2: nat)
    requires
        spec_decimal(k1) == spec_decimal(k2),
    ensures
        k1 == k2,
    decreases k1,
{
    if k1 < 10 && k2 < 10 {
        assert(spec_decimal(k1)[0] == spec_digit(k1));
        assert(spec_decimal(k2)[0] == spec_digit(k2));
    } else if k1 < 10 {
        lemma_decimal_len(k2 / 10);
        assert(spec_decimal(k2).len() >= 2);
        assert(false);
    } else if k2 < 10 {
        lemma_decimal_len(k1 / 10);
        assert(spec_decimal(k1).len() >= 2);
        assert(false);
    } else {
        let a = spec_decimal(k1 / 10);
        let b = spec_decimal(k2 / 10);
        assert(spec_decimal(k1).last() == spec_digit(k1 % 10));
        assert(spec_decimal(k2).last() == spec_digit(k2 % 10));
        lemma_digit_injective(k1 % 10, k2 % 10);
        assert(a.len() == b.len());
        assert forall|t: int| 0 <= t < a.len() implies a[t] == b[t] by {
            assert(a.push(spec_digit(k1 % 10))[t] == a[t]);
            assert(b.push(spec_digit(k2 % 10))[t] == b[t]);
        }
        assert(a =~= b);
        lemma_decimal_injective(k1 / 10, k2 / 10);
        assert(k1 == (k1 / 10) * 10 + k1 % 10);
        assert(k2 == (k2 / 10) * 10 + k2 % 10);
    }
}

proof fn lemma_synth_label_injective(name: Seq<char>, k1: nat, k2: nat)
    requires
        spec_synth_label(name, k1) == spec_synth_label(name, k2),
    ensures
        k1 == k2,
{
    let p = name + "_bb"@;
    let a = spec_decimal(k1);
    let b = spec_decimal(k2);
    assert((p + a).len() == (p + b).len());
    assert(a.len() == b.len());
    assert forall|t: int| 0 <= t < a.len() implies a[t] == b[t] by {
        assert((p + a)[p.len() + t] == a[t]);
        assert((p + b)[p.len() + t] == b[t]);
    }
    assert(a =~= b);
    lemma_decimal_injective(k1, k2);
}

proof fn lemma_synth_label_not_entry(name: Seq<char>, k: nat)
    ensures
        spec_synth_label(name, k) != "entry"@,
{
    reveal_strlit("entry");
    reveal_strlit("_bb");
    lemma_decimal_len(k);
    let s = spec_synth_label(name, k);
    if s == "entry"@ {
        assert(s.len() == 5);
        assert(name.len() + 3 + spec_decimal(k).len() == 5);
        if name.len() == 0 {
            assert(s[0] == (name + "_bb"@)[0]);
            assert(s[0] == '_');
            assert("entry"@[0] == 'e');
            assert(false);
        } else {
            assert(name.len() == 1);
            assert(s[1] == (name + "_bb"@)[1]);
            assert(s[1] == '_');
            assert("entry"@[1] == 'n');
            assert(false);
        }
    }
}

/// No two of the blocks share a label.
pub open spec fn labels_distinct(bs: Seq<BlockModel>) -> bool {
    forall|j1: int, j2: int|
        0 <= j1 < j2 < bs.len() ==> #[trigger] bs[j1].label != #[trigger] bs[j2].label
}

/// `l` is the text of an explicit label marker before position `i`.
spec fn from_explicit(instrs: Seq<Code>, i: int, l: Seq<char>) -> bool {
    exists|p: int|
        0 <= p < i && #[trigger] instrs[p].spec_is_label() && instrs[p].spec_label_text() == l
}

/// The hypotheses under which every block label is unique: the stream's
/// explicit label texts are pairwise distinct, none is the default
/// `entry` label, and none has the `<name>_bb<k>` shape of a synthesized
/// label.  A stream breaking one of these can name two blocks alike.
pub open spec fn explicit_labels_safe(instrs: Seq<Code>, name: Seq<char>) -> bool {
    &&& forall|p: int, q: int|
        0 <= p < q < instrs.len() && #[trigger] instrs[p].spec_is_label()
            && #[trigger] instrs[q].spec_is_label() ==> instrs[p].spec_label_text()
            != instrs[q].spec_label_text()
    &&& forall|p: int|
        0 <= p < instrs.len() && #[trigger] instrs[p].spec_is_label()
            ==> instrs[p].spec_label_text() != "entry"@
    &&& forall|p: int, k: nat|
        0 <= p < instrs.len() && #[trigger] instrs[p].spec_is_label()
            ==> instrs[p].spec_label_text() != #[trigger] spec_synth_label(name, k)
}

/// `l` differs from every block label of `acc`.
spec fn fresh_for(acc: Seq<BlockModel>, l: Seq<char>) -> bool {
    forall|j: int| 0 <= j < acc.len() ==> #[trigger] acc[j].label != l
}

/// The possible provenances of the pending block's label at position
/// `i`, with synthesized positions bounded by `cap`.
spec fn label_shape(instrs: Seq<Code>, name: Seq<char>, i: int, cap: int, l: Seq<char>) -> bool {
    ||| l == "entry"@
    ||| from_explicit(instrs, i, l)
    ||| exists|k: int| 0 <= k <= cap && l == #[trigger] spec_synth_label(name, k as nat)
}

/// The possible provenances of the flushed blocks' labels.
spec fn acc_labels_shaped(instrs: Seq<Code>, name: Seq<char>, i: int, acc: Seq<BlockModel>) -> bool {
    forall|j: int|
        0 <= j < acc.len() ==> (#[trigger] acc[j].label == "entry"@ || from_explicit(
            instrs,
            i,
            acc[j].label,
        ) || (exists|k: int|
            0 <= k && acc[j].label == #[trigger] spec_synth_label(name, k as nat)))
}

proof fn lemma_fresh_label(
    instrs: Seq<Code>,
    name: Seq<char>,
    i: int,
    acc: Seq<BlockModel>,
    l: Seq<char>,
)
    requires
        0 <= i <= instrs.len(),
        explicit_labels_safe(instrs, name),
        acc_labels_shaped(instrs, name, i, acc),
        i < instrs.len(),
        instrs[i].spec_is_label(),
        instrs[i].spec_label_text() == l,
    ensures
        fresh_for(acc, l),
{
    assert forall|j: int| 0 <= j < acc.len() implies acc[j].label != l by {
        if acc[j].label == "entry"@ {
        } else if from_explicit(instrs, i, acc[j].label) {
            let p = choose|p: int|
                0 <= p < i && #[trigger] instrs[p].spec_is_label() && instrs[p].spec_label_text()
                    == acc[j].label;
            assert(instrs[p].spec_label_text() != instrs[i].spec_label_text());
        } else {
            let k = choose|k: int|
                0 <= k && acc[j].label == #[trigger] spec_synth_label(name, k as nat);
            assert(instrs[i].spec_label_text() != spec_synth_label(name, k as nat));
        }
    }
}

proof fn lemma_partition_from_distinct(
    instrs: Seq<Code>,
    name: Seq<char>,
    i: int,
    pending: BlockModel,
    named: bool,
    acc: Seq<BlockModel>,
)
    requires
        0 <= i <= instrs.len(),
        explicit_labels_safe(instrs, name),
        labels_distinct(acc),
        named ==> fresh_for(acc, pending.label),
        i < instrs.len() && !instrs[i].spec_is_label() ==> fresh_for(acc, pending.label),
        forall|k: int|
            k >= acc.len() ==> fresh_for(acc, #[trigger] spec_synth_label(name, k as nat)),
        label_shape(instrs, name, i, acc.len() as int, pending.label),
        acc_labels_shaped(instrs, name, i, acc),
    ensures
        labels_distinct(spec_partition_from(instrs, name, i, pending, named, acc)),
    decreases instrs.len() - i,
{
    if i >= instrs.len() {
        if named {
            let out = acc.push(pending);
            assert forall|j1: int, j2: int| 0 <= j1 < j2 < out.len() implies out[j1].label
                != out[j2].label by {
                if j2 < acc.len() {
                } else {
                    assert(out[j2] == pending);
                    assert(acc[j1].label != pending.label);
                }
            }
        }
    } else if instrs[i].spec_is_label() {
        let renamed = BlockModel { label: instrs[i].spec_label_text(), instrs: pending.instrs };
        lemma_fresh_label(instrs, name, i, acc, renamed.label);
        assert(from_explicit(instrs, i + 1, renamed.label)) by {
            assert(instrs[i].spec_is_label() && instrs[i].spec_label_text() == renamed.label);
        }
        assert(acc_labels_shaped(instrs, name, i + 1, acc)) by {
            assert forall|j: int| 0 <= j < acc.len() implies (#[trigger] acc[j].label == "entry"@
                || from_explicit(instrs, i + 1, acc[j].label) || (exists|k: int|
                0 <= k && acc[j].label == #[trigger] spec_synth_label(name, k as nat))) by {
                if from_explicit(instrs, i, acc[j].label) {
                    let p = choose|p: int|
                        0 <= p < i && #[trigger] instrs[p].spec_is_label()
                            && instrs[p].spec_label_text() == acc[j].label;
                    assert(0 <= p < i + 1 && instrs[p].spec_is_label()
                        && instrs[p].spec_label_text() == acc[j].label);
                }
            }
        }
        lemma_partition_from_distinct(instrs, name, i + 1, renamed, true, acc);
    } else {
        let grown = BlockModel { label: pending.label, instrs: pending.instrs.push(i) };
        let is_last = i == instrs.len() - 1;
        let next_is_label = !is_last && instrs[i + 1].spec_is_label();
        let term = instrs[i].spec_is_terminator();
        assert(acc_labels_shaped(instrs, name, i + 1, acc)) by {
            assert forall|j: int| 0 <= j < acc.len() implies (#[trigger] acc[j].label == "entry"@
                || from_explicit(instrs, i + 1, acc[j].label) || (exists|k: int|
                0 <= k && acc[j].label == #[trigger] spec_synth_label(name, k as nat))) by {
                if from_explicit(instrs, i, acc[j].label) {
                    let p = choose|p: int|
                        0 <= p < i && #[trigger] instrs[p].spec_is_label()
                            && instrs[p].spec_label_text() == acc[j].label;
                    assert(0 <= p < i + 1 && instrs[p].spec_is_label()
                        && instrs[p].spec_label_text() == acc[j].label);
                }
            }
        }
        if is_last || next_is_label || term {
            let flushed = acc.push(grown);
            let synth = term && !next_is_label && (!is_last || instrs[i].spec_is_jump());
            let label = if synth {
                spec_synth_label(name, flushed.len())
            } else {
                pending.label
            };
            let fresh = BlockModel { label: label, instrs: Seq::<int>::empty() };
            assert(fresh_for(acc, pending.label));
            assert(labels_distinct(flushed)) by {
                assert forall|j1: int, j2: int| 0 <= j1 < j2 < flushed.len() implies flushed[j1].label != flushed[j2].label by {
                    if j2 < acc.len() {
                    } else {
                        assert(flushed[j2] == grown);
                        assert(acc[j1].label != pending.label);
                    }
                }
            }
            assert(acc_labels_shaped(instrs, name, i + 1, flushed)) by {
                assert forall|j: int| 0 <= j < flushed.len() implies (#[trigger] flushed[j].label
                    == "entry"@ || from_explicit(instrs, i + 1, flushed[j].label) || (exists|k: int|
                    0 <= k && flushed[j].label == #[trigger] spec_synth_label(name, k as nat))) by {
                    if j < acc.len() {
                    } else {
                        assert(flushed[j].label == pending.label);
                        assert(label_shape(instrs, name, i, acc.len() as int, pending.label));
                        if from_explicit(instrs, i, pending.label) {
                            let p = choose|p: int|
                                0 <= p < i && #[trigger] instrs[p].spec_is_label()
                                    && instrs[p].spec_label_text() == pending.label;
                            assert(0 <= p < i + 1 && instrs[p].spec_is_label()
                                && instrs[p].spec_label_text() == pending.label);
                        }
                    }
                }
            }
            assert(forall|k: int|
                k >= flushed.len() ==> fresh_for(
                    flushed,
                    #[trigger] spec_synth_label(name, k as nat),
                )) by {
                assert forall|k: int| k >= flushed.len() implies fresh_for(
                    flushed,
                    #[trigger] spec_synth_label(name, k as nat),
                ) by {
                    let sl = spec_synth_label(name, k as nat);
                    assert forall|j: int| 0 <= j < flushed.len() implies flushed[j].label
                        != sl by {
                        if j < acc.len() {
                            assert(fresh_for(acc, sl));
                        } else {
                            assert(flushed[j].label == pending.label);
                            if pending.label == "entry"@ {
                                lemma_synth_label_not_entry(name, k as nat);
                            } else if from_explicit(instrs, i, pending.label) {
                                let p = choose|p: int|
                                    0 <= p < i && #[trigger] instrs[p].spec_is_label()
                                        && instrs[p].spec_label_text() == pending.label;
                                assert(instrs[p].spec_label_text() != spec_synth_label(
                                    name,
                                    k as nat,
                                ));
                            } else {
                                let k0 = choose|k0: int|
                                    0 <= k0 <= acc.len() && pending.label
                                        == #[trigger] spec_synth_label(name, k0 as nat);
                                if pending.label == sl {
                                    lemma_synth_label_injective(name, k0 as nat, k as nat);
                                    assert(false);
                                }
                            }
                        }
                    }
                }
            }
            if synth {
                assert(fresh_for(flushed, fresh.label));
            }
            lemma_partition_from_distinct(instrs, name, i + 1, fresh, synth, flushed);
        } else {
            lemma_partition_from_distinct(instrs, name, i + 1, grown, named, acc);
        }
    }
}

/// Label uniqueness: no two blocks of the partition share a label,
/// explicit or synthesized.  The hypotheses exclude exactly the streams
/// on which uniqueness cannot hold: one whose explicit labels repeat,
/// shadow the default `entry` label, or collide with the synthesized
/// `<name>_bb<k>` shape.
pub proof fn lemma_label_uniqueness(instrs: Seq<Code>, name: Seq<char>)
    requires
        explicit_labels_safe(instrs, name),
    ensures
        labels_distinct(spec_basic_blocks(instrs, name)),
{
    let pending = BlockModel { label: "entry"@, instrs: Seq::<int>::empty() };
    lemma_partition_from_distinct(instrs, name, 0, pending, false, Seq::<BlockModel>::empty());
}

} // verus!
