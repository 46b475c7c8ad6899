//! The projected tree, the identifier scheme, and the calls handed to the
//! host tree view.
//!
//! A projector turns a document into a list of labelled [`TreeNode`]s; the
//! [`TreeEmitter`] walks that list and assigns every node a `u64` identifier
//! derived purely from its structural path: a child's identifier is its
//! parent's identifier shifted left by the level's reserved bit budget, plus
//! the child's one-based position among its siblings. Each document kind
//! declares its budget table once; under [`table_ok`] and [`wf_list`] the
//! scheme is collision-free ([`lemma_no_collision`]), the emitted calls nest
//! correctly ([`lemma_balanced`]), every root of the projected tree yields
//! exactly one top-level node ([`lemma_root_count`]), and identifiers and
//! structure depend only on the tree's shape, never on its label text
//! ([`lemma_shape_calls`]).

use vstd::prelude::*;

use vstd::arithmetic::power2::pow2;
use vstd::arithmetic::power2::lemma_pow2_adds;
use vstd::arithmetic::power2::lemma_pow2_pos;
use vstd::arithmetic::power2::lemma_pow2_strictly_increases;
use vstd::bits::lemma_u64_shl_is_mul;

verus! {

/// One call of the tree emitter contract, in document order.
#[derive(Debug, PartialEq, Eq)]
pub enum TreeCall {
    OpenDir { id: u64, label: String },
    Leaf { id: u64, label: String },
    CloseDir,
}

/// The mathematical value of one emitter call: the label as its character
/// sequence.
pub enum CallV {
    OpenDir { id: u64, label: Seq<char> },
    Leaf { id: u64, label: Seq<char> },
    CloseDir,
}

impl View for TreeCall {
    type V = CallV;

    open spec fn view(&self) -> CallV {
        match self {
            TreeCall::OpenDir { id, label } => CallV::OpenDir { id: *id, label: label@ },
            TreeCall::Leaf { id, label } => CallV::Leaf { id: *id, label: label@ },
            TreeCall::CloseDir => CallV::CloseDir,
        }
    }
}

/// The value of a whole call list.
pub open spec fn calls_view(s: Seq<TreeCall>) -> Seq<CallV> {
    s.map_values(|c: TreeCall| c@)
}

/// A projected node before identifiers are assigned: a labelled leaf or a
/// labelled directory with ordered children.
pub enum TreeNode {
    Leaf { label: String },
    Dir { label: String, children: Vec<TreeNode> },
}

/// The mathematical value of a projected node.
pub enum NodeV {
    Leaf { label: Seq<char> },
    Dir { label: Seq<char>, children: Seq<NodeV> },
}

/// The value of one projected node.
pub open spec fn node_view(n: TreeNode) -> NodeV
    decreases n,
{
    match n {
        TreeNode::Leaf { label } => NodeV::Leaf { label: label@ },
        TreeNode::Dir { label, children } => NodeV::Dir {
            label: label@,
            children: list_view(children@),
        },
    }
}

/// The value of a projected node list.
pub open spec fn list_view(ns: Seq<TreeNode>) -> Seq<NodeV>
    decreases ns,
{
    if ns.len() == 0 {
        Seq::empty()
    } else {
        seq![node_view(ns[0])] + list_view(ns.drop_first())
    }
}

/// The sum of a budget table's bit widths.
pub open spec fn sum_bits(bs: Seq<u64>) -> nat
    decreases bs,
{
    if bs.len() == 0 {
        0
    } else {
        (bs[0] + sum_bits(bs.drop_first())) as nat
    }
}

/// The sum of the first `r` bit widths.
pub open spec fn psum(bs: Seq<u64>, r: int) -> nat
    decreases r,
{
    if r <= 0 || bs.len() == 0 {
        0
    } else {
        (bs[0] + psum(bs.drop_first(), r - 1)) as nat
    }
}

/// A usable budget table: at least one level, every level between one and
/// sixty-three bits, no level narrower than the first, and sixty-four bits in
/// all, so that every identifier fits the machine word.
pub open spec fn table_ok(bs: Seq<u64>) -> bool {
    &&& 1 <= bs.len()
    &&& forall|i: int| 0 <= i < bs.len() ==> 1 <= #[trigger] bs[i] <= 63
    &&& forall|i: int| 1 <= i < bs.len() ==> bs[0] <= #[trigger] bs[i]
    &&& sum_bits(bs) <= 64
}

/// The tree fits the budget table: every sibling list leaves one slot free at
/// its level (positions are one-based), and nesting is no deeper than the
/// table.
pub open spec fn wf_node(n: NodeV, bs: Seq<u64>) -> bool
    decreases n,
{
    match n {
        NodeV::Leaf { .. } => true,
        NodeV::Dir { children, .. } => wf_list(children, bs),
    }
}

/// See [`wf_node`]; `bs` holds the budgets of this sibling level and all
/// levels below it.
pub open spec fn wf_list(ns: Seq<NodeV>, bs: Seq<u64>) -> bool
    decreases ns,
{
    ns.len() == 0 || {
        &&& bs.len() >= 1
        &&& ns.len() < pow2(bs[0] as nat)
        &&& forall|i: int| 0 <= i < ns.len() ==> wf_node(#[trigger] ns[i], bs.drop_first())
    }
}

/// The identifier of the child at zero-based position `k` under the parent
/// with identifier `p`, at a level reserving `b` bits.
pub open spec fn child_id(p: int, b: u64, k: int) -> int {
    p * pow2(b as nat) + k + 1
}

/// The calls emitted for one node whose identifier is `id`; `bs` holds the
/// budgets of the levels below the node.
pub open spec fn calls_of_node(n: NodeV, id: int, bs: Seq<u64>) -> Seq<CallV>
    decreases n,
{
    match n {
        NodeV::Leaf { label } => seq![CallV::Leaf { id: id as u64, label }],
        NodeV::Dir { label, children } => seq![CallV::OpenDir { id: id as u64, label }]
            + calls_of_list(children, id, bs, 0) + seq![CallV::CloseDir],
    }
}

/// The calls emitted for a sibling list starting at position `k0` under the
/// parent with identifier `p`; `bs` holds the budgets of this level and all
/// levels below it.
pub open spec fn calls_of_list(ns: Seq<NodeV>, p: int, bs: Seq<u64>, k0: int) -> Seq<CallV>
    decreases ns,
{
    if ns.len() == 0 || bs.len() == 0 {
        Seq::empty()
    } else {
        calls_of_node(ns[0], child_id(p, bs[0], k0), bs.drop_first()) + calls_of_list(
            ns.drop_first(),
            p,
            bs,
            k0 + 1,
        )
    }
}

/// The nesting depth after scanning `s` from depth `d`.
pub open spec fn end_depth(s: Seq<CallV>, d: int) -> int
    decreases s,
{
    if s.len() == 0 {
        d
    } else {
        match s[0] {
            CallV::OpenDir { .. } => end_depth(s.drop_first(), d + 1),
            CallV::CloseDir => end_depth(s.drop_first(), d - 1),
            CallV::Leaf { .. } => end_depth(s.drop_first(), d),
        }
    }
}

/// Scanning `s` from depth `d`, no close call ever takes the depth below
/// `floor`.
pub open spec fn never_below(s: Seq<CallV>, d: int, floor: int) -> bool
    decreases s,
{
    if s.len() == 0 {
        true
    } else {
        match s[0] {
            CallV::OpenDir { .. } => never_below(s.drop_first(), d + 1, floor),
            CallV::CloseDir => d - 1 >= floor && never_below(s.drop_first(), d - 1, floor),
            CallV::Leaf { .. } => never_below(s.drop_first(), d, floor),
        }
    }
}

/// The emitted calls nest correctly: scanning from depth zero, the depth
/// never goes negative and returns to zero at the end.
pub open spec fn balanced(s: Seq<CallV>) -> bool {
    end_depth(s, 0) == 0 && never_below(s, 0, 0)
}

/// The `(depth, identifier)` pair of every emitted node (directory or leaf)
/// in order, scanning from depth `d`.
pub open spec fn emitted(s: Seq<CallV>, d: int) -> Seq<(int, u64)>
    decreases s,
{
    if s.len() == 0 {
        Seq::empty()
    } else {
        match s[0] {
            CallV::OpenDir { id, .. } => seq![(d, id)] + emitted(s.drop_first(), d + 1),
            CallV::CloseDir => emitted(s.drop_first(), d - 1),
            CallV::Leaf { id, .. } => seq![(d, id)] + emitted(s.drop_first(), d),
        }
    }
}

/// How many emitted nodes sit at depth `d` exactly.
pub open spec fn count_at_depth(es: Seq<(int, u64)>, d: int) -> nat
    decreases es,
{
    if es.len() == 0 {
        0
    } else {
        (if es[0].0 == d {
            1nat
        } else {
            0nat
        }) + count_at_depth(es.drop_first(), d)
    }
}

/// Scanning distributes over concatenation.
pub proof fn lemma_scan_append(a: Seq<CallV>, b: Seq<CallV>, d: int, floor: int)
    ensures
        end_depth(a + b, d) == end_depth(b, end_depth(a, d)),
        never_below(a + b, d, floor) <==> (never_below(a, d, floor) && never_below(
            b,
            end_depth(a, d),
            floor,
        )),
        emitted(a + b, d) == emitted(a, d) + emitted(b, end_depth(a, d)),
    decreases a,
{
    if a.len() == 0 {
        assert(a + b =~= b);
        assert(emitted(a, d) + emitted(b, d) =~= emitted(b, d));
    } else {
        assert((a + b).drop_first() =~= a.drop_first() + b);
        assert((a + b)[0] == a[0]);
        match a[0] {
            CallV::OpenDir { id, .. } => {
                lemma_scan_append(a.drop_first(), b, d + 1, floor);
                assert(emitted(a + b, d) =~= emitted(a, d) + emitted(b, end_depth(a, d)));
            },
            CallV::CloseDir => {
                lemma_scan_append(a.drop_first(), b, d - 1, floor);
                assert(emitted(a + b, d) =~= emitted(a, d) + emitted(b, end_depth(a, d)));
            },
            CallV::Leaf { id, .. } => {
                lemma_scan_append(a.drop_first(), b, d, floor);
                assert(emitted(a + b, d) =~= emitted(a, d) + emitted(b, end_depth(a, d)));
            },
        }
    }
}

/// Counting at a depth distributes over concatenation.
pub proof fn lemma_count_append(a: Seq<(int, u64)>, b: Seq<(int, u64)>, d: int)
    ensures
        count_at_depth(a + b, d) == count_at_depth(a, d) + count_at_depth(b, d),
    decreases a,
{
    if a.len() == 0 {
        assert(a + b =~= b);
    } else {
        assert((a + b).drop_first() =~= a.drop_first() + b);
        lemma_count_append(a.drop_first(), b, d);
    }
}

/// The sink that gathers the emitter calls of one projection pass.
pub struct TreeEmitter {
    pub calls: Vec<TreeCall>,
}

impl TreeEmitter {
    /// A fresh sink with no calls.
    pub fn new() -> (r: TreeEmitter)
        ensures
            r.calls@.len() == 0,
    {
        TreeEmitter { calls: Vec::new() }
    }

    /// Walks the projected tree and appends one call per node, assigning
    /// identifiers by the budget table.
    pub fn emit(&mut self, nodes: Vec<TreeNode>, budgets: &Vec<u64>)
        requires
            table_ok(budgets@),
            wf_list(list_view(nodes@), budgets@),
        ensures
            calls_view(final(self).calls@) == calls_view(old(self).calls@) + calls_of_list(
                list_view(nodes@),
                0,
                budgets@,
                0,
            ),
    {
        proof {
            assert(budgets@.skip(0) =~= budgets@);
            lemma_pow2_mono(sum_bits(budgets@), 64);
            lemma_pow2_64();
        }
        emit_level(nodes, 0, budgets, 0, 0, &mut self.calls);
        proof {
            assert(budgets@.skip(0) =~= budgets@);
        }
    }
}

/// `pow2` is monotone.
pub proof fn lemma_pow2_mono(a: nat, b: nat)
    requires
        a <= b,
    ensures
        pow2(a) <= pow2(b),
{
    if a < b {
        lemma_pow2_strictly_increases(a, b);
    }
}

/// The value of `pow2(64)`.
pub proof fn lemma_pow2_64()
    ensures
        pow2(64) == 0x1_0000_0000_0000_0000,
{
    vstd::arithmetic::power2::lemma2_to64_rest();
}

/// A budget suffix drops its first element when the level advances.
proof fn lemma_skip_shift(bs: Seq<u64>, level: int)
    requires
        0 <= level < bs.len(),
    ensures
        bs.skip(level).drop_first() =~= bs.skip(level + 1),
        bs.skip(level).len() == bs.len() - level,
        bs.skip(level)[0] == bs[level],
{
}

fn emit_node(n: TreeNode, id: u64, bs: &Vec<u64>, sub: usize, out: &mut Vec<TreeCall>)
    requires
        table_ok(bs@),
        sub <= bs@.len(),
        wf_node(node_view(n), bs@.skip(sub as int)),
        1 <= id,
        (id + 1) * pow2(sum_bits(bs@.skip(sub as int))) <= 0x1_0000_0000_0000_0000,
    ensures
        calls_view(final(out)@) == calls_view(old(out)@) + calls_of_node(
            node_view(n),
            id as int,
            bs@.skip(sub as int),
        ),
    decreases n,
{
    broadcast use vstd::std_specs::vec::axiom_vec_decreases_to_view;

    match n {
        TreeNode::Leaf { label } => {
            let ghost before = out@;
            out.push(TreeCall::Leaf { id, label });
            proof {
                assert(calls_view(out@) =~= calls_view(before) + calls_of_node(
                    node_view(n),
                    id as int,
                    bs@.skip(sub as int),
                ));
            }
        },
        TreeNode::Dir { label, children } => {
            let ghost before = out@;
            let ghost nv = node_view(n);
            out.push(TreeCall::OpenDir { id, label });
            proof {
                assert(list_view(children@) == nv->Dir_children);
                let cv = list_view(children@);
                lemma_list_view_len(children@);
                assert(wf_list(cv, bs@.skip(sub as int)));
                if cv.len() > 0 {
                    assert(bs@.skip(sub as int).len() >= 1);
                    assert(sub < bs@.len());
                    lemma_skip_shift(bs@, sub as int);
                    assert(bs@.skip(sub as int)[0] == bs@[sub as int]);
                    assert(0 + cv.len() < pow2(bs@[sub as int] as nat));
                    assert(forall|i: int|
                        0 <= i < cv.len() ==> wf_node(
                            #[trigger] cv[i],
                            bs@.skip(sub as int + 1),
                        ));
                }
            }
            emit_level(children, id, bs, sub, 0, out);
            let ghost mid = out@;
            out.push(TreeCall::CloseDir);
            proof {
                assert(calls_view(out@) =~= calls_view(mid).push(CallV::CloseDir));
                assert(calls_view(before + seq![TreeCall::OpenDir {
                    id,
                    label: label,
                }]) =~= calls_view(before).push(CallV::OpenDir { id, label: label@ }));
                assert(calls_view(out@) =~= calls_view(before) + calls_of_node(
                    nv,
                    id as int,
                    bs@.skip(sub as int),
                ));
            }
        },
    }
}

fn emit_level(ns: Vec<TreeNode>, p: u64, bs: &Vec<u64>, level: usize, k0: u64, out: &mut Vec<
    TreeCall,
>)
    requires
        table_ok(bs@),
        level <= bs@.len(),
        ns@.len() > 0 ==> {
            &&& level < bs@.len()
            &&& k0 + list_view(ns@).len() < pow2(bs@[level as int] as nat)
            &&& forall|i: int|
                0 <= i < list_view(ns@).len() ==> wf_node(
                    #[trigger] list_view(ns@)[i],
                    bs@.skip(level as int + 1),
                )
        },
        (p + 1) * pow2(sum_bits(bs@.skip(level as int))) <= 0x1_0000_0000_0000_0000,
    ensures
        calls_view(final(out)@) == calls_view(old(out)@) + calls_of_list(
            list_view(ns@),
            p as int,
            bs@.skip(level as int),
            k0 as int,
        ),
    decreases ns@,
{
    let ghost ns0 = ns@;
    let ghost bsfx = bs@.skip(level as int);
    let ghost out0 = out@;
    if ns.len() == 0 {
        proof {
            assert(calls_view(out@) =~= calls_view(out0) + calls_of_list(
                list_view(ns0),
                p as int,
                bsfx,
                k0 as int,
            ));
        }
        return ;
    }
    // A non-empty list means this level exists in the table.
    proof {
        lemma_list_view_len(ns0);
        lemma_skip_shift(bs@, level as int);
    }
    let bs_len = bs.len();
    proof {
        assert(level < bs_len);
    }
    let b = bs[level];
    let sub = level + 1;
    proof {
        assert(sum_bits(bs@.skip(level as int)) == b + sum_bits(bs@.skip(level as int + 1)));
        lemma_level_arith(p as int, b, sum_bits(bs@.skip(level as int + 1)));
    }
    let shifted = p << b;
    proof {
        lemma_u64_shl_is_mul(p, b);
    }
    let mut ns = ns;
    let n = ns.remove(0);
    proof {
        assert(n == ns0[0]);
        lemma_list_view_index(ns0, 0);
        assert(wf_node(node_view(n), bsfx.drop_first()));
    }
    let id = shifted + k0 + 1;
    proof {
        assert(id as int == child_id(p as int, b, k0 as int));
        assert((id + 1) * pow2(sum_bits(bs@.skip(level as int + 1))) <= 0x1_0000_0000_0000_0000)
            by {
            lemma_child_cap(p as int, b, k0 as int, k0 + list_view(ns0).len() as int, bsfx);
        }
        assert(decreases_to!(ns0 => n));
    }
    emit_node(n, id, bs, sub, out);
    proof {
        assert(ns@ =~= ns0.drop_first());
        lemma_list_view_len(ns@);
        assert(list_view(ns0).drop_first() =~= list_view(ns@)) by {
            lemma_list_view_drop_first(ns0);
        }
        assert forall|i: int| 0 <= i < list_view(ns@).len() implies wf_node(
            #[trigger] list_view(ns@)[i],
            bs@.skip(level as int + 1),
        ) by {
            assert(list_view(ns@)[i] == list_view(ns0)[i + 1]);
        }
        assert(decreases_to!(ns0 => ns0.drop_first())) by {
            vstd::seq::axiom_seq_len_decreases(ns0, ns0.drop_first());
        }
    }
    emit_level(ns, p, bs, level, k0 + 1, out);
    proof {
        assert(calls_of_list(list_view(ns0), p as int, bsfx, k0 as int) =~= calls_of_node(
            node_view(n),
            id as int,
            bsfx.drop_first(),
        ) + calls_of_list(list_view(ns@), p as int, bsfx, k0 as int + 1));
        assert(calls_view(out@) =~= calls_view(out0) + calls_of_list(
            list_view(ns0),
            p as int,
            bsfx,
            k0 as int,
        ));
    }
}

/// Dropping a list's first node drops its value's first entry.
pub proof fn lemma_list_view_drop_first(ns: Seq<TreeNode>)
    requires
        ns.len() > 0,
    ensures
        list_view(ns).drop_first() =~= list_view(ns.drop_first()),
{
    lemma_list_view_len(ns);
}

/// A sibling list's value has its length.
pub proof fn lemma_list_view_len(ns: Seq<TreeNode>)
    ensures
        list_view(ns).len() == ns.len(),
    decreases ns,
{
    if ns.len() > 0 {
        lemma_list_view_len(ns.drop_first());
    }
}

/// A sibling list's value is taken member by member.
pub proof fn lemma_list_view_index(ns: Seq<TreeNode>, i: int)
    requires
        0 <= i < ns.len(),
    ensures
        list_view(ns).len() == ns.len(),
        list_view(ns)[i] == node_view(ns[i]),
    decreases ns,
{
    lemma_list_view_len(ns);
    if i > 0 {
        lemma_list_view_index(ns.drop_first(), i - 1);
    }
}

/// Appending a node to a list appends its value.
pub proof fn lemma_list_view_snoc(ns: Seq<TreeNode>, x: TreeNode)
    ensures
        list_view(ns.push(x)) =~= list_view(ns).push(node_view(x)),
    decreases ns,
{
    if ns.len() == 0 {
        assert(ns.push(x)[0] == x);
        assert(ns.push(x).drop_first() =~= Seq::<TreeNode>::empty());
        assert(list_view(ns.push(x).drop_first()) =~= Seq::<NodeV>::empty());
        assert(list_view(ns.push(x)) =~= seq![node_view(x)]);
        assert(list_view(ns).push(node_view(x)) =~= seq![node_view(x)]);
    } else {
        assert(ns.push(x)[0] == ns[0]);
        assert(ns.push(x).drop_first() =~= ns.drop_first().push(x));
        lemma_list_view_snoc(ns.drop_first(), x);
    }
}

/// Shared arithmetic of one level: the level's width fits the word, and a
/// parent capacity bound carries to each child position.
proof fn lemma_level_arith(p: int, b: u64, rest: nat)
    requires
        0 <= p,
        1 <= b <= 63,
        (p + 1) * pow2((b + rest) as nat) <= 0x1_0000_0000_0000_0000,
    ensures
        pow2(b as nat) * pow2(rest) == pow2((b + rest) as nat),
        p * pow2(b as nat) + pow2(b as nat) <= 0x1_0000_0000_0000_0000,
        p * pow2(b as nat) <= u64::MAX,
{
    lemma_pow2_adds(b as nat, rest);
    lemma_pow2_pos(b as nat);
    lemma_pow2_pos(rest);
    assert((p + 1) * pow2(b as nat) <= (p + 1) * (pow2(b as nat) * pow2(rest)))
        by (nonlinear_arith)
        requires
            0 <= p,
            1 <= pow2(rest),
            0 < pow2(b as nat),
    ;
    assert(p * pow2(b as nat) + pow2(b as nat) == (p + 1) * pow2(b as nat)) by (nonlinear_arith);
    assert(pow2(b as nat) >= 1);
}

/// The capacity bound for the child at position `k` of a level with `len`
/// siblings.
proof fn lemma_child_cap(p: int, b: u64, k: int, len: int, bs: Seq<u64>)
    requires
        0 <= p,
        0 <= k < len,
        bs.len() >= 1,
        bs[0] == b,
        1 <= b <= 63,
        len < pow2(b as nat),
        (p + 1) * pow2(sum_bits(bs)) <= 0x1_0000_0000_0000_0000,
    ensures
        (child_id(p, b, k) + 1) * pow2(sum_bits(bs.drop_first())) <= 0x1_0000_0000_0000_0000,
{
    let w = pow2(b as nat);
    let rest = pow2(sum_bits(bs.drop_first()));
    assert(sum_bits(bs) == b + sum_bits(bs.drop_first()));
    lemma_pow2_adds(b as nat, sum_bits(bs.drop_first()));
    assert(pow2(sum_bits(bs)) == w * rest);
    lemma_pow2_pos(b as nat);
    lemma_pow2_pos(sum_bits(bs.drop_first()));
    assert(child_id(p, b, k) + 1 == p * w + k + 2);
    assert(k + 2 <= w);
    assert((p * w + k + 2) * rest <= ((p + 1) * w) * rest) by (nonlinear_arith)
        requires
            0 <= p,
            0 < rest,
            k + 2 <= w,
    ;
    assert(((p + 1) * w) * rest == (p + 1) * (w * rest)) by (nonlinear_arith);
}

} // verus!
