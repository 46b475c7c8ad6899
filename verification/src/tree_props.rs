//! Proofs about the identifier scheme of [`crate::tree`]: collision freedom,
//! balanced nesting, one emitted node per projected root, and independence of
//! identifiers and structure from label text.

use vstd::prelude::*;

use vstd::arithmetic::power2::pow2;
use vstd::arithmetic::power2::lemma_pow2_adds;
use vstd::arithmetic::power2::lemma_pow2_pos;
use vstd::arithmetic::power2::lemma2_to64;

use crate::tree::CallV;
use crate::tree::NodeV;
use crate::tree::calls_of_list;
use crate::tree::calls_of_node;
use crate::tree::child_id;
use crate::tree::count_at_depth;
use crate::tree::emitted;
use crate::tree::end_depth;
use crate::tree::lemma_count_append;
use crate::tree::lemma_pow2_mono;
use crate::tree::lemma_pow2_64;
use crate::tree::lemma_scan_append;
use crate::tree::never_below;
use crate::tree::psum;
use crate::tree::sum_bits;
use crate::tree::table_ok;
use crate::tree::wf_list;
use crate::tree::wf_node;

verus! {

/// Partial sums never decrease as more levels are taken.
proof fn lemma_psum_mono(bs: Seq<u64>, q: int, r: int)
    requires
        q <= r,
    ensures
        psum(bs, q) <= psum(bs, r),
    decreases r,
{
    if q < r && r > 0 && bs.len() > 0 {
        if q <= 0 {
            lemma_psum_mono(bs.drop_first(), 0, r - 1);
        } else {
            lemma_psum_mono(bs.drop_first(), q - 1, r - 1);
        }
    }
}

/// Taking a further level adds at least that level's width.
proof fn lemma_psum_step(bs: Seq<u64>, q: int, r: int)
    requires
        0 <= q < r,
        q < bs.len(),
    ensures
        psum(bs, r) >= psum(bs, q) + bs[q],
    decreases q,
{
    if q == 0 {
        lemma_psum_mono(bs.drop_first(), 0, r - 1);
    } else {
        lemma_psum_step(bs.drop_first(), q - 1, r - 1);
    }
}

/// A floor below a kept floor is kept as well.
proof fn lemma_nb_mono(s: Seq<CallV>, d: int, f1: int, f2: int)
    requires
        never_below(s, d, f1),
        f2 <= f1,
    ensures
        never_below(s, d, f2),
    decreases s,
{
    if s.len() > 0 {
        match s[0] {
            CallV::OpenDir { .. } => lemma_nb_mono(s.drop_first(), d + 1, f1, f2),
            CallV::CloseDir => lemma_nb_mono(s.drop_first(), d - 1, f1, f2),
            CallV::Leaf { .. } => lemma_nb_mono(s.drop_first(), d, f1, f2),
        }
    }
}

/// A list of pairs none of which sits at depth `d` counts zero there.
proof fn lemma_count_zero(es: Seq<(int, u64)>, d: int)
    requires
        forall|t: int| 0 <= t < es.len() ==> (#[trigger] es[t]).0 != d,
    ensures
        count_at_depth(es, d) == 0,
    decreases es,
{
    if es.len() > 0 {
        lemma_count_zero(es.drop_first(), d);
    }
}

/// Two identifiers out of the cones of two distinct siblings differ: `a` sits
/// in the subtree of the sibling with identifier `base`, at relative depth
/// `r`, and `bb` in the subtree of a later sibling of the same parent `p`, at
/// relative depth `q`; `sub` holds the budgets below the sibling level and
/// `b0` the sibling level's own width.
proof fn lemma_sibling_separation(
    p: int,
    b0: u64,
    base: int,
    sub: Seq<u64>,
    r: int,
    q: int,
    a: int,
    bb: int,
)
    requires
        0 <= p,
        1 <= b0,
        1 <= base,
        base >= p * pow2(b0 as nat) + 1,
        forall|i: int| 0 <= i < sub.len() ==> 1 <= #[trigger] sub[i],
        p == 0 ==> forall|i: int| 0 <= i < sub.len() ==> b0 <= #[trigger] sub[i],
        0 <= r <= sub.len(),
        0 <= q <= sub.len(),
        r == 0 ==> a == base,
        r >= 1 ==> base * pow2(psum(sub, r)) + 1 <= a < (base + 1) * pow2(psum(sub, r)),
        q == 0 ==> base + 1 <= bb < (p + 1) * pow2(b0 as nat),
        q >= 1 ==> bb >= (base + 1) * pow2(psum(sub, q)) + 1,
        q >= 1 ==> bb < (p + 1) * pow2((b0 + psum(sub, q)) as nat),
    ensures
        a != bb,
{
    if r == 0 {
        if q == 0 {
        } else {
            lemma_pow2_pos(psum(sub, q));
            assert((base + 1) * pow2(psum(sub, q)) >= base + 1) by (nonlinear_arith)
                requires
                    base >= 1,
                    pow2(psum(sub, q)) >= 1,
            ;
        }
    } else {
        let sr = psum(sub, r);
        lemma_pow2_pos(sr);
        if q == 0 {
            // bb stays at the sibling level; a sits strictly above that range.
            if p >= 1 {
                assert(pow2(sr) >= 2) by {
                    lemma_psum_step(sub, 0, r);
                    lemma_pow2_mono(1, sr);
                    lemma2_to64();
                }
                assert(pow2(b0 as nat) >= 2) by {
                    lemma_pow2_mono(1, b0 as nat);
                    lemma2_to64();
                }
                assert(base * pow2(sr) >= 2 * base) by (nonlinear_arith)
                    requires
                        base >= 1,
                        pow2(sr) >= 2,
                ;
                assert(2 * base >= (p + 1) * pow2(b0 as nat)) by (nonlinear_arith)
                    requires
                        base >= p * pow2(b0 as nat) + 1,
                        p >= 1,
                        pow2(b0 as nat) >= 2,
                ;
            } else {
                // at the root the deeper levels are at least as wide
                assert(sr >= b0 as nat) by {
                    lemma_psum_step(sub, 0, r);
                }
                lemma_pow2_mono(b0 as nat, sr);
                assert(base * pow2(sr) >= pow2(sr)) by (nonlinear_arith)
                    requires
                        base >= 1,
                        pow2(sr) >= 1,
                ;
            }
        } else if q == r {
            assert((base + 1) * pow2(sr) >= base * pow2(sr) + 1) by (nonlinear_arith)
                requires
                    pow2(sr) >= 1,
            ;
        } else if q > r {
            let sq = psum(sub, q);
            lemma_psum_mono(sub, r, q);
            lemma_pow2_mono(sr, sq);
            assert((base + 1) * pow2(sq) >= (base + 1) * pow2(sr)) by (nonlinear_arith)
                requires
                    base + 1 >= 0,
                    pow2(sq) >= pow2(sr),
            ;
        } else {
            // q < r: the later sibling's shallower range ends before a.
            let sq = psum(sub, q);
            lemma_pow2_pos(sq);
            lemma_pow2_adds(b0 as nat, sq);
            assert(sr >= sq + sub[q]) by {
                lemma_psum_step(sub, q, r);
            }
            if p >= 1 {
                assert(sr >= sq + 1);
                lemma_pow2_adds(sq, (sr - sq) as nat);
                assert(pow2(sr) == pow2(sq) * pow2((sr - sq) as nat));
                assert(pow2((sr - sq) as nat) >= 2) by {
                    lemma_pow2_mono(1, (sr - sq) as nat);
                    lemma2_to64();
                }
                lemma_pow2_pos(b0 as nat);
                assert(base * pow2(sr) >= (p + 1) * (pow2(b0 as nat) * pow2(sq)))
                    by (nonlinear_arith)
                    requires
                        base >= p * pow2(b0 as nat) + 1,
                        p >= 1,
                        pow2(sr) == pow2(sq) * pow2((sr - sq) as nat),
                        pow2((sr - sq) as nat) >= 2,
                        pow2(sq) >= 1,
                        pow2(b0 as nat) >= 1,
                ;
            } else {
                assert(sr >= sq + b0);
                lemma_pow2_mono((sq + b0) as nat, sr);
                lemma_pow2_adds(b0 as nat, sq);
                assert(base * pow2(sr) >= pow2(sr)) by (nonlinear_arith)
                    requires
                        base >= 1,
                        pow2(sr) >= 1,
                ;
                assert(pow2((b0 + sq) as nat) == pow2(b0 as nat) * pow2(sq));
                assert(pow2(sr) >= pow2((b0 + sq) as nat));
            }
        }
    }
}

/// Everything [`lemma_list_props`] guarantees of the subtree of one node: the
/// scan returns to its starting depth without dipping below it, the node
/// itself is the first emitted pair, every deeper pair stays in the node's
/// identifier cone, and all identifiers are distinct.
pub proof fn lemma_node_props(n: NodeV, id: int, bs: Seq<u64>, d: int)
    requires
        wf_node(n, bs),
        1 <= id,
        forall|i: int| 0 <= i < bs.len() ==> 1 <= #[trigger] bs[i],
        (id + 1) * pow2(sum_bits(bs)) <= 0x1_0000_0000_0000_0000,
    ensures
        ({
            let cs = calls_of_node(n, id, bs);
            let es = emitted(cs, d);
            &&& end_depth(cs, d) == d
            &&& never_below(cs, d, d)
            &&& es.len() >= 1
            &&& es[0] == (d, id as u64)
            &&& forall|t: int|
                1 <= t < es.len() ==> {
                    let r = (#[trigger] es[t]).0 - d;
                    &&& 1 <= r <= bs.len()
                    &&& id * pow2(psum(bs, r)) + 1 <= es[t].1 as int
                    &&& (es[t].1 as int) < (id + 1) * pow2(psum(bs, r))
                }
            &&& forall|t1: int, t2: int|
                0 <= t1 < t2 < es.len() ==> (#[trigger] es[t1]).1 != (#[trigger] es[t2]).1
        }),
    decreases n,
{
    lemma_pow2_pos(sum_bits(bs));
    assert(id + 1 <= 0x1_0000_0000_0000_0000) by (nonlinear_arith)
        requires
            (id + 1) * pow2(sum_bits(bs)) <= 0x1_0000_0000_0000_0000,
            pow2(sum_bits(bs)) >= 1,
            id >= 0,
    ;
    assert((id as u64) as int == id);
    match n {
        NodeV::Leaf { label } => {
            let cs = calls_of_node(n, id, bs);
            assert(cs =~= seq![CallV::Leaf { id: id as u64, label }]);
            assert(cs.len() == 1);
            assert(cs[0] == (CallV::Leaf { id: id as u64, label }));
            assert(cs.drop_first() =~= Seq::<CallV>::empty());
            assert(emitted(cs.drop_first(), d) =~= Seq::<(int, u64)>::empty());
            assert(emitted(cs, d) =~= seq![(d, id as u64)] + emitted(cs.drop_first(), d));
            assert(emitted(cs, d) =~= seq![(d, id as u64)]);
            assert(end_depth(cs.drop_first(), d) == d);
            assert(never_below(cs.drop_first(), d, d));
        },
        NodeV::Dir { label, children } => {
            let open_seq = seq![CallV::OpenDir { id: id as u64, label }];
            let close_seq = seq![CallV::CloseDir];
            let inner = calls_of_list(children, id, bs, 0);
            let cs = calls_of_node(n, id, bs);
            assert(cs == open_seq + inner + close_seq);
            assert(open_seq.drop_first() =~= Seq::<CallV>::empty());
            assert(close_seq.drop_first() =~= Seq::<CallV>::empty());
            assert(open_seq[0] == (CallV::OpenDir { id: id as u64, label }));
            assert(close_seq[0] == CallV::CloseDir);
            assert(end_depth(open_seq.drop_first(), d + 1) == d + 1);
            assert(end_depth(open_seq, d) == d + 1);
            assert(never_below(open_seq.drop_first(), d + 1, d));
            assert(emitted(open_seq.drop_first(), d + 1) =~= Seq::<(int, u64)>::empty());
            assert(never_below(open_seq, d, d));
            assert(emitted(open_seq, d) =~= seq![(d, id as u64)]);
            if children.len() == 0 {
                assert(inner =~= Seq::<CallV>::empty());
                assert(end_depth(inner, d + 1) == d + 1);
                assert(never_below(inner, d + 1, d + 1));
                assert(emitted(inner, d + 1) =~= Seq::<(int, u64)>::empty());
            } else {
                assert(wf_list(children, bs));
                assert(0 + children.len() < pow2(bs[0] as nat));
                lemma_list_props(children, id, bs, 0, d + 1);
            }
            let es_in = emitted(inner, d + 1);
            lemma_nb_mono(inner, d + 1, d + 1, d);
            lemma_scan_append(open_seq, inner, d, d);
            lemma_scan_append(open_seq + inner, close_seq, d, d);
            assert((open_seq + inner) + close_seq =~= cs);
            assert(end_depth(close_seq.drop_first(), d) == d);
            assert(end_depth(close_seq, d + 1) == d);
            assert(never_below(close_seq.drop_first(), d, d));
            assert(never_below(close_seq, d + 1, d));
            assert(end_depth(cs, d) == d);
            assert(never_below(cs, d, d));
            let es = emitted(cs, d);
            assert(emitted(close_seq.drop_first(), d) =~= Seq::<(int, u64)>::empty());
            assert(emitted(close_seq, d + 1) =~= Seq::<(int, u64)>::empty());
            assert(es =~= seq![(d, id as u64)] + es_in);
            // translate the children's cones into the node's cone
            let base0 = child_id(id, bs[0], 0);
            assert forall|t: int| 1 <= t < es.len() implies {
                let r = (#[trigger] es[t]).0 - d;
                &&& 1 <= r <= bs.len()
                &&& id * pow2(psum(bs, r)) + 1 <= es[t].1 as int
                &&& (es[t].1 as int) < (id + 1) * pow2(psum(bs, r))
            } by {
                let pr = es_in[t - 1];
                assert(es[t] == pr);
                let rq = pr.0 - (d + 1);
                let r = pr.0 - d;
                assert(r == rq + 1);
                assert(0 <= rq < bs.len());
                assert(psum(bs, r) == bs[0] + psum(bs.drop_first(), rq));
                lemma_pow2_adds(bs[0] as nat, psum(bs.drop_first(), rq));
                let w0 = pow2(bs[0] as nat);
                let wq = pow2(psum(bs.drop_first(), rq));
                lemma_pow2_pos(bs[0] as nat);
                lemma_pow2_pos(psum(bs.drop_first(), rq));
                if rq == 0 {
                    assert(pr.1 as int >= base0);
                    assert(psum(bs.drop_first(), 0) == 0);
                    assert(wq == 1) by {
                        lemma2_to64();
                    }
                    assert(base0 == id * w0 + 1);
                } else {
                    assert(pr.1 as int >= base0 * wq + 1);
                    assert(base0 * wq == (id * w0 + 1) * wq);
                    assert((id * w0 + 1) * wq >= id * (w0 * wq) + 1) by (nonlinear_arith)
                        requires
                            wq >= 1,
                            id >= 0,
                            w0 >= 1,
                    ;
                }
                assert(pr.1 as int >= id * pow2(psum(bs, r)) + 1);
                assert((pr.1 as int) < (id + 1) * pow2((bs[0] + psum(bs.drop_first(), rq)) as nat));
            }
            // the node's own identifier is below every descendant's
            assert forall|t1: int, t2: int| 0 <= t1 < t2 < es.len() implies (#[trigger] es[t1]).1
                != (#[trigger] es[t2]).1 by {
                if t1 == 0 {
                    let r = es[t2].0 - d;
                    assert(1 <= r <= bs.len());
                    lemma_pow2_pos(psum(bs, r));
                    assert(id * pow2(psum(bs, r)) >= id) by (nonlinear_arith)
                        requires
                            id >= 0,
                            pow2(psum(bs, r)) >= 1,
                    ;
                    assert((es[t2].1 as int) > id);
                } else {
                    assert(es[t1] == es_in[t1 - 1]);
                    assert(es[t2] == es_in[t2 - 1]);
                }
            }
        },
    }
}

/// Everything the emitter guarantees of one sibling list: the scan is a
/// balanced segment, every emitted pair stays in the band of its relative
/// depth, identifiers are pairwise distinct, and the list's own level emits
/// exactly one pair per sibling.
pub proof fn lemma_list_props(ns: Seq<NodeV>, p: int, bs: Seq<u64>, k0: int, d: int)
    requires
        bs.len() >= 1,
        0 <= p,
        0 <= k0,
        k0 + ns.len() < pow2(bs[0] as nat),
        forall|i: int| 0 <= i < ns.len() ==> wf_node(#[trigger] ns[i], bs.drop_first()),
        forall|i: int| 0 <= i < bs.len() ==> 1 <= #[trigger] bs[i],
        p == 0 ==> forall|i: int| 1 <= i < bs.len() ==> bs[0] <= #[trigger] bs[i],
        (p + 1) * pow2(sum_bits(bs)) <= 0x1_0000_0000_0000_0000,
    ensures
        ({
            let cs = calls_of_list(ns, p, bs, k0);
            let es = emitted(cs, d);
            let base = child_id(p, bs[0], k0);
            &&& end_depth(cs, d) == d
            &&& never_below(cs, d, d)
            &&& forall|t: int|
                0 <= t < es.len() ==> {
                    let r = (#[trigger] es[t]).0 - d;
                    &&& 0 <= r < bs.len()
                    &&& r == 0 ==> base <= es[t].1 as int
                    &&& r >= 1 ==> base * pow2(psum(bs.drop_first(), r)) + 1 <= es[t].1 as int
                    &&& (es[t].1 as int) < (p + 1) * pow2(psum(bs, r + 1))
                }
            &&& forall|t1: int, t2: int|
                0 <= t1 < t2 < es.len() ==> (#[trigger] es[t1]).1 != (#[trigger] es[t2]).1
            &&& count_at_depth(es, d) == ns.len()
        }),
    decreases ns,
{
    let cs = calls_of_list(ns, p, bs, k0);
    let es = emitted(cs, d);
    let base = child_id(p, bs[0], k0);
    let b0 = bs[0];
    let sub = bs.drop_first();
    lemma_pow2_pos(b0 as nat);
    assert(base >= p * pow2(b0 as nat) + 1);
    assert(base >= 1) by (nonlinear_arith)
        requires
            p >= 0,
            k0 >= 0,
            pow2(b0 as nat) >= 1,
            base == p * pow2(b0 as nat) + k0 + 1,
    ;
    if ns.len() == 0 {
        assert(cs =~= Seq::<CallV>::empty());
        assert(es =~= Seq::<(int, u64)>::empty());
    } else {
        let node_cs = calls_of_node(ns[0], base, sub);
        let rest_cs = calls_of_list(ns.drop_first(), p, bs, k0 + 1);
        assert(cs == node_cs + rest_cs);
        assert(sum_bits(bs) == b0 + sum_bits(sub));
        lemma_pow2_adds(b0 as nat, sum_bits(sub));
        lemma_pow2_pos(sum_bits(sub));
        assert((base + 1) * pow2(sum_bits(sub)) <= 0x1_0000_0000_0000_0000) by (nonlinear_arith)
            requires
                base == p * pow2(b0 as nat) + k0 + 1,
                k0 + 2 <= pow2(b0 as nat),
                p >= 0,
                pow2(sum_bits(sub)) >= 1,
                pow2(b0 as nat) >= 1,
                (p + 1) * (pow2(b0 as nat) * pow2(sum_bits(sub))) <= 0x1_0000_0000_0000_0000,
                pow2(sum_bits(bs)) == pow2(b0 as nat) * pow2(sum_bits(sub)),
        ;
        assert(base + 1 <= 0x1_0000_0000_0000_0000) by (nonlinear_arith)
            requires
                (base + 1) * pow2(sum_bits(sub)) <= 0x1_0000_0000_0000_0000,
                pow2(sum_bits(sub)) >= 1,
                base >= 0,
        ;
        assert((base as u64) as int == base);
        lemma_node_props(ns[0], base, sub, d);
        assert(forall|i: int|
            0 <= i < ns.drop_first().len() ==> wf_node(#[trigger] ns.drop_first()[i], sub));
        lemma_list_props(ns.drop_first(), p, bs, k0 + 1, d);
        let es_n = emitted(node_cs, d);
        let es_r = emitted(rest_cs, d);
        lemma_scan_append(node_cs, rest_cs, d, d);
        assert(es =~= es_n + es_r);
        assert(end_depth(cs, d) == d);
        assert(never_below(cs, d, d));
        let base1 = child_id(p, b0, k0 + 1);
        assert(base1 == base + 1);
        // every pair fits the band of its relative depth
        assert forall|t: int| 0 <= t < es.len() implies {
            let r = (#[trigger] es[t]).0 - d;
            &&& 0 <= r < bs.len()
            &&& r == 0 ==> base <= es[t].1 as int
            &&& r >= 1 ==> base * pow2(psum(sub, r)) + 1 <= es[t].1 as int
            &&& (es[t].1 as int) < (p + 1) * pow2(psum(bs, r + 1))
        } by {
            if t < es_n.len() {
                let pr = es_n[t];
                assert(es[t] == pr);
                let r = pr.0 - d;
                if t == 0 {
                    assert(pr == (d, base as u64));
                    assert(r == 0);
                    assert(psum(bs, 1) == b0 + psum(sub, 0));
                    assert(psum(sub, 0) == 0);
                    assert(pow2(psum(bs, 1)) == pow2(b0 as nat));
                    assert(base < (p + 1) * pow2(b0 as nat)) by (nonlinear_arith)
                        requires
                            base == p * pow2(b0 as nat) + k0 + 1,
                            k0 + 1 < pow2(b0 as nat),
                            p >= 0,
                    ;
                } else {
                    assert(1 <= r <= sub.len());
                    assert(base * pow2(psum(sub, r)) + 1 <= pr.1 as int);
                    assert((pr.1 as int) < (base + 1) * pow2(psum(sub, r)));
                    assert(psum(bs, r + 1) == b0 + psum(sub, r));
                    lemma_pow2_adds(b0 as nat, psum(sub, r));
                    lemma_pow2_pos(psum(sub, r));
                    assert(base + 1 <= (p + 1) * pow2(b0 as nat)) by (nonlinear_arith)
                        requires
                            base == p * pow2(b0 as nat) + k0 + 1,
                            k0 + 2 <= pow2(b0 as nat),
                            p >= 0,
                    ;
                    assert((base + 1) * pow2(psum(sub, r)) <= (p + 1) * (pow2(b0 as nat) * pow2(
                        psum(sub, r),
                    ))) by (nonlinear_arith)
                        requires
                            base + 1 <= (p + 1) * pow2(b0 as nat),
                            pow2(psum(sub, r)) >= 1,
                            p >= 0,
                            pow2(b0 as nat) >= 1,
                    ;
                }
            } else {
                let pr = es_r[t - es_n.len()];
                assert(es[t] == pr);
                let r = pr.0 - d;
                assert(0 <= r < bs.len());
                if r == 0 {
                    assert(base1 <= pr.1 as int);
                } else {
                    assert(base1 * pow2(psum(sub, r)) + 1 <= pr.1 as int);
                    assert(base * pow2(psum(sub, r)) <= base1 * pow2(psum(sub, r)))
                        by (nonlinear_arith)
                        requires
                            base <= base1,
                            pow2(psum(sub, r)) >= 0,
                    ;
                }
            }
        }
        // pairwise distinct identifiers
        assert forall|t1: int, t2: int| 0 <= t1 < t2 < es.len() implies (#[trigger] es[t1]).1 != (
        #[trigger] es[t2]).1 by {
            let na = es_n.len() as int;
            if t2 < na {
                assert(es[t1] == es_n[t1] && es[t2] == es_n[t2]);
            } else if t1 >= na {
                assert(es[t1] == es_r[t1 - na] && es[t2] == es_r[t2 - na]);
            } else {
                let pa = es_n[t1];
                let pb = es_r[t2 - na];
                assert(es[t1] == pa && es[t2] == pb);
                let r = pa.0 - d;
                let q = pb.0 - d;
                if t1 == 0 {
                    assert(pa == (d, base as u64));
                }
                assert(r == 0 ==> (pa.1 as int) == base) by {
                    if r == 0 && t1 > 0 {
                        // impossible: deeper pairs of the node sit at depth >= d + 1
                        assert(1 <= pa.0 - d);
                    }
                }
                // the rest list's shallow pairs stay below the parent's first band
                assert(q == 0 ==> (pb.1 as int) < (p + 1) * pow2(b0 as nat)) by {
                    if q == 0 {
                        assert(psum(bs, 1) == b0 + psum(sub, 0));
                        assert(psum(sub, 0) == 0);
                    }
                }
                lemma_sibling_separation(
                    p,
                    b0,
                    base,
                    sub,
                    r,
                    q,
                    pa.1 as int,
                    pb.1 as int,
                );
            }
        }
        // exactly one pair per sibling at this level
        assert(count_at_depth(es_n, d) == 1) by {
            assert(es_n[0].0 == d);
            assert(es_n =~= seq![es_n[0]] + es_n.drop_first());
            assert(forall|t: int|
                0 <= t < es_n.drop_first().len() ==> (#[trigger] es_n.drop_first()[t]).0 != d);
            lemma_count_zero(es_n.drop_first(), d);
            lemma_count_append(seq![es_n[0]], es_n.drop_first(), d);
        }
        lemma_count_append(es_n, es_r, d);
        assert(count_at_depth(es, d) == ns.len());
    }
}

/// No collision: across the whole emitted call sequence of one projection
/// pass, no two emitted nodes (directories or leaves) share an identifier.
pub proof fn lemma_no_collision(ns: Seq<NodeV>, bs: Seq<u64>)
    requires
        table_ok(bs),
        wf_list(ns, bs),
    ensures
        ({
            let es = emitted(calls_of_list(ns, 0, bs, 0), 0);
            forall|t1: int, t2: int|
                0 <= t1 < t2 < es.len() ==> (#[trigger] es[t1]).1 != (#[trigger] es[t2]).1
        }),
{
    lemma_root_props(ns, bs);
}

/// Balanced structure: the emitted open and close calls of one projection
/// pass nest correctly and return to depth zero.
pub proof fn lemma_balanced(ns: Seq<NodeV>, bs: Seq<u64>)
    requires
        table_ok(bs),
        wf_list(ns, bs),
    ensures
        crate::tree::balanced(calls_of_list(ns, 0, bs, 0)),
{
    lemma_root_props(ns, bs);
}

/// Totality: one projection pass emits exactly one top-level node per root of
/// the projected tree.
pub proof fn lemma_root_count(ns: Seq<NodeV>, bs: Seq<u64>)
    requires
        table_ok(bs),
        wf_list(ns, bs),
    ensures
        count_at_depth(emitted(calls_of_list(ns, 0, bs, 0), 0), 0) == ns.len(),
{
    lemma_root_props(ns, bs);
}

/// The shared instantiation of [`lemma_list_props`] at the root.
proof fn lemma_root_props(ns: Seq<NodeV>, bs: Seq<u64>)
    requires
        table_ok(bs),
        wf_list(ns, bs),
    ensures
        ({
            let cs = calls_of_list(ns, 0, bs, 0);
            let es = emitted(cs, 0);
            &&& end_depth(cs, 0) == 0
            &&& never_below(cs, 0, 0)
            &&& forall|t1: int, t2: int|
                0 <= t1 < t2 < es.len() ==> (#[trigger] es[t1]).1 != (#[trigger] es[t2]).1
            &&& count_at_depth(es, 0) == ns.len()
        }),
{
    lemma_pow2_pos(bs[0] as nat);
    if ns.len() == 0 {
        assert(0 + ns.len() < pow2(bs[0] as nat)) by {
            lemma_pow2_pos(bs[0] as nat);
        }
    }
    lemma_pow2_mono(sum_bits(bs), 64);
    lemma_pow2_64();
    lemma_list_props(ns, 0, bs, 0, 0);
}

/// The shape of one call: its kind and identifier, with the label erased.
pub open spec fn call_shape(c: CallV) -> (int, u64) {
    match c {
        CallV::OpenDir { id, .. } => (0, id),
        CallV::Leaf { id, .. } => (1, id),
        CallV::CloseDir => (2, 0u64),
    }
}

/// The shapes of a whole call sequence.
pub open spec fn shape_calls(s: Seq<CallV>) -> Seq<(int, u64)> {
    s.map_values(|c: CallV| call_shape(c))
}

/// Shapes distribute over concatenation.
proof fn lemma_shape_append(x: Seq<CallV>, y: Seq<CallV>)
    ensures
        shape_calls(x + y) =~= shape_calls(x) + shape_calls(y),
{
}

/// Two projected nodes of the same shape: both leaves, or both directories
/// with children of the same shape; labels are free.
pub open spec fn same_shape_node(a: NodeV, b: NodeV) -> bool
    decreases a,
{
    match a {
        NodeV::Leaf { .. } => b is Leaf,
        NodeV::Dir { children, .. } => b is Dir && same_shape_list(children, b->Dir_children),
    }
}

/// Two node lists of the same shape, member by member.
pub open spec fn same_shape_list(a: Seq<NodeV>, b: Seq<NodeV>) -> bool
    decreases a,
{
    &&& a.len() == b.len()
    &&& (a.len() == 0 || {
        &&& same_shape_node(a[0], b[0])
        &&& same_shape_list(a.drop_first(), b.drop_first())
    })
}

/// Two nodes of the same shape emit calls of the same shape: the same kinds
/// with the same identifiers at the same positions; only labels may differ.
pub proof fn lemma_shape_calls_node(a: NodeV, b: NodeV, id: int, bs: Seq<u64>)
    requires
        same_shape_node(a, b),
    ensures
        shape_calls(calls_of_node(a, id, bs)) == shape_calls(calls_of_node(b, id, bs)),
    decreases a,
{
    match a {
        NodeV::Leaf { .. } => {
            assert(shape_calls(calls_of_node(a, id, bs)) =~= shape_calls(
                calls_of_node(b, id, bs),
            ));
        },
        NodeV::Dir { children, label } => {
            let cb = b->Dir_children;
            lemma_shape_calls(children, cb, id, bs, 0);
            let ia = calls_of_list(children, id, bs, 0);
            let ib = calls_of_list(cb, id, bs, 0);
            let oa = seq![CallV::OpenDir { id: id as u64, label }];
            let ob = seq![CallV::OpenDir { id: id as u64, label: b->Dir_label }];
            let cl = seq![CallV::CloseDir];
            assert(calls_of_node(a, id, bs) == oa + ia + cl);
            assert(calls_of_node(b, id, bs) == ob + ib + cl);
            lemma_shape_append(oa, ia);
            lemma_shape_append(oa + ia, cl);
            lemma_shape_append(ob, ib);
            lemma_shape_append(ob + ib, cl);
            assert(shape_calls(oa) =~= shape_calls(ob));
            assert(shape_calls(calls_of_node(a, id, bs)) =~= shape_calls(
                calls_of_node(b, id, bs),
            ));
        },
    }
}

/// See [`lemma_shape_calls_node`], for a sibling list.
pub proof fn lemma_shape_calls(a: Seq<NodeV>, b: Seq<NodeV>, p: int, bs: Seq<u64>, k0: int)
    requires
        same_shape_list(a, b),
    ensures
        shape_calls(calls_of_list(a, p, bs, k0)) == shape_calls(calls_of_list(b, p, bs, k0)),
    decreases a,
{
    if a.len() == 0 || bs.len() == 0 {
        assert(shape_calls(calls_of_list(a, p, bs, k0)) =~= shape_calls(
            calls_of_list(b, p, bs, k0),
        ));
    } else {
        lemma_shape_calls_node(a[0], b[0], child_id(p, bs[0], k0), bs.drop_first());
        lemma_shape_calls(a.drop_first(), b.drop_first(), p, bs, k0 + 1);
        let na = calls_of_node(a[0], child_id(p, bs[0], k0), bs.drop_first());
        let nb = calls_of_node(b[0], child_id(p, bs[0], k0), bs.drop_first());
        let ra = calls_of_list(a.drop_first(), p, bs, k0 + 1);
        let rb = calls_of_list(b.drop_first(), p, bs, k0 + 1);
        lemma_shape_append(na, ra);
        lemma_shape_append(nb, rb);
        assert(calls_of_list(a, p, bs, k0) == na + ra);
        assert(calls_of_list(b, p, bs, k0) == nb + rb);
        assert(shape_calls(calls_of_list(a, p, bs, k0)) =~= shape_calls(
            calls_of_list(b, p, bs, k0),
        ));
    }
}

/// Member-by-member same shape gives same shape for the lists.
pub proof fn lemma_same_shape_pointwise(a: Seq<NodeV>, b: Seq<NodeV>)
    requires
        a.len() == b.len(),
        forall|i: int| 0 <= i < a.len() ==> same_shape_node(#[trigger] a[i], #[trigger] b[i]),
    ensures
        same_shape_list(a, b),
    decreases a,
{
    if a.len() > 0 {
        assert(same_shape_node(a[0], b[0]));
        assert(forall|i: int|
            0 <= i < a.drop_first().len() ==> same_shape_node(
                #[trigger] a.drop_first()[i],
                #[trigger] b.drop_first()[i],
            ));
        lemma_same_shape_pointwise(a.drop_first(), b.drop_first());
    }
}

/// Same shape is reflexive.
pub proof fn lemma_same_shape_refl_node(n: NodeV)
    ensures
        same_shape_node(n, n),
    decreases n,
{
    match n {
        NodeV::Leaf { .. } => {},
        NodeV::Dir { children, .. } => {
            lemma_same_shape_refl_list(children);
        },
    }
}

/// Same shape is reflexive.
pub proof fn lemma_same_shape_refl_list(ns: Seq<NodeV>)
    ensures
        same_shape_list(ns, ns),
    decreases ns,
{
    if ns.len() > 0 {
        lemma_same_shape_refl_node(ns[0]);
        lemma_same_shape_refl_list(ns.drop_first());
    }
}

} // verus!
