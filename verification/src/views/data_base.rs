//! An interpreted database view over the flattened tileset table: one
//! directory per tileset, with only its meaningful fields shown.

use vstd::prelude::*;

use crate::code_page::CodePage;
use crate::text::dec;
use crate::text::dec_str;
use crate::text::decoded_text;
use crate::text::label_num;
use crate::text::label_text;
use crate::text::page_code;
use crate::tree::NodeV;
use crate::tree::TreeEmitter;
use crate::tree::TreeNode;
use crate::tree::calls_of_list;
use crate::tree::calls_view;
use crate::tree::lemma_list_view_snoc;
use crate::tree::list_view;
use crate::tree::node_view;
use crate::tree::table_ok;
use crate::tree::wf_list;
use crate::tree::wf_node;

verus! {

/// A database reduced to its decoded tileset records.
pub struct DataBase {
    pub chipsets: Vec<ChipSetRec>,
}

/// One decoded tileset record.
pub struct ChipSetRec {
    pub name: Vec<u8>,
    pub file: Vec<u8>,
    pub animation_type: u64,
    pub animation_speed: u64,
}

/// The bit budgets of this view: the single root, the tileset records, their
/// fields.
pub open spec fn table_v() -> Seq<u64> {
    seq![8u64, 16u64, 8u64]
}

/// The budget table as a vector.
pub fn budgets() -> (r: Vec<u64>)
    ensures
        r@ == table_v(),
{
    let mut v: Vec<u64> = Vec::new();
    v.push(8);
    v.push(16);
    v.push(8);
    proof {
        assert(v@ =~= table_v());
    }
    v
}

/// The budget table is usable.
pub proof fn lemma_table_ok()
    ensures
        table_ok(table_v()),
{
    let t = table_v();
    let t1 = seq![16u64, 8u64];
    let t2 = seq![8u64];
    assert(t.drop_first() =~= t1);
    assert(t1.drop_first() =~= t2);
    assert(t2.drop_first() =~= Seq::<u64>::empty());
    assert(crate::tree::sum_bits(Seq::<u64>::empty()) == 0);
    assert(crate::tree::sum_bits(t2) == 8);
    assert(crate::tree::sum_bits(t1) == 24);
    assert(crate::tree::sum_bits(t) == 32);
}

/// The fields shown for one tileset record: empty names and files and zero
/// animation settings are suppressed.
pub open spec fn chipset_fields_v(c: ChipSetRec, page: CodePage) -> Seq<NodeV> {
    (if c.name@.len() > 0 {
        seq![NodeV::Leaf { label: "Name: "@ + decoded_text(page_code(page), c.name@) }]
    } else {
        Seq::<NodeV>::empty()
    }) + (if c.file@.len() > 0 {
        seq![NodeV::Leaf { label: "File: "@ + decoded_text(page_code(page), c.file@) }]
    } else {
        Seq::<NodeV>::empty()
    }) + (if c.animation_type != 0 {
        seq![NodeV::Leaf { label: "Animation Type: "@ + dec_str(c.animation_type as nat) }]
    } else {
        Seq::<NodeV>::empty()
    }) + (if c.animation_speed != 0 {
        seq![NodeV::Leaf { label: "Animation Speed: "@ + dec_str(c.animation_speed as nat) }]
    } else {
        Seq::<NodeV>::empty()
    })
}

/// One tileset record: a directory labelled with its one-based position.
pub open spec fn chipset_entry_v(i: int, c: ChipSetRec, page: CodePage) -> NodeV {
    NodeV::Dir { label: dec_str((i + 1) as nat), children: chipset_fields_v(c, page) }
}

/// The tileset records in order.
pub open spec fn chipsets_v(cs: Seq<ChipSetRec>, page: CodePage) -> Seq<NodeV> {
    Seq::new(cs.len(), |i: int| chipset_entry_v(i, cs[i], page))
}

/// The single projected root: the `ChipSets` directory.
pub open spec fn nodes_v(doc: DataBase, page: CodePage) -> Seq<NodeV> {
    seq![NodeV::Dir { label: "ChipSets"@, children: chipsets_v(doc.chipsets@, page) }]
}

/// The full emitter call sequence of one pass of this view.
pub open spec fn update_calls(doc: DataBase, page: CodePage) -> Seq<crate::tree::CallV> {
    calls_of_list(nodes_v(doc, page), 0, table_v(), 0)
}

/// The document fits the schema's bit budgets.
pub open spec fn wf(doc: DataBase) -> bool {
    doc.chipsets@.len() < 0x10000
}

fn chipset_fields_nodes(c: &ChipSetRec, page: CodePage) -> (r: Vec<TreeNode>)
    ensures
        list_view(r@) == chipset_fields_v(*c, page),
{
    let mut out: Vec<TreeNode> = Vec::new();
    if c.name.len() > 0 {
        let ghost before = out@;
        out.push(TreeNode::Leaf { label: label_text("Name: ", page, c.name.as_slice()) });
        proof {
            lemma_list_view_snoc(before, out@[out@.len() - 1]);
        }
    }
    if c.file.len() > 0 {
        let ghost before = out@;
        out.push(TreeNode::Leaf { label: label_text("File: ", page, c.file.as_slice()) });
        proof {
            lemma_list_view_snoc(before, out@[out@.len() - 1]);
        }
    }
    if c.animation_type != 0 {
        let ghost before = out@;
        out.push(TreeNode::Leaf { label: label_num("Animation Type: ", c.animation_type) });
        proof {
            lemma_list_view_snoc(before, out@[out@.len() - 1]);
        }
    }
    if c.animation_speed != 0 {
        let ghost before = out@;
        out.push(TreeNode::Leaf { label: label_num("Animation Speed: ", c.animation_speed) });
        proof {
            lemma_list_view_snoc(before, out@[out@.len() - 1]);
        }
    }
    proof {
        assert(list_view(out@) =~= chipset_fields_v(*c, page));
    }
    out
}

/// Projects this view: the tileset table under a single root directory.
pub fn update(database: &DataBase, builder: &mut TreeEmitter, encoding: CodePage)
    requires
        wf(*database),
    ensures
        calls_view(final(builder).calls@) == calls_view(old(builder).calls@) + update_calls(
            *database,
            encoding,
        ),
{
    let mut entries: Vec<TreeNode> = Vec::new();
    let mut i: usize = 0;
    proof {
        assert(list_view(entries@) =~= chipsets_v(database.chipsets@, encoding).take(0));
    }
    while i < database.chipsets.len()
        invariant
            i <= database.chipsets@.len(),
            database.chipsets@.len() < 0x10000,
            list_view(entries@) =~= chipsets_v(database.chipsets@, encoding).take(i as int),
        decreases database.chipsets@.len() - i,
    {
        let ghost before = entries@;
        let children = chipset_fields_nodes(&database.chipsets[i], encoding);
        entries.push(TreeNode::Dir { label: dec(i as u64 + 1), children });
        proof {
            lemma_list_view_snoc(before, entries@[entries@.len() - 1]);
            assert(node_view(entries@[entries@.len() - 1]) == chipset_entry_v(
                i as int,
                database.chipsets@[i as int],
                encoding,
            ));
            assert(list_view(entries@) =~= chipsets_v(database.chipsets@, encoding).take(
                i + 1 as int,
            ));
        }
        i = i + 1;
    }
    let mut nodes: Vec<TreeNode> = Vec::new();
    nodes.push(TreeNode::Dir { label: String::from_str("ChipSets"), children: entries });
    proof {
        assert(chipsets_v(database.chipsets@, encoding).take(database.chipsets@.len() as int)
            =~= chipsets_v(database.chipsets@, encoding));
        lemma_list_view_snoc(Seq::<TreeNode>::empty(), nodes@[0]);
        assert(list_view(nodes@) =~= nodes_v(*database, encoding));
        lemma_table_ok();
        lemma_wf_nodes(*database, encoding);
    }
    let table = budgets();
    builder.emit(nodes, &table);
}

/// The projected tree fits the budget table.
pub proof fn lemma_wf_nodes(doc: DataBase, page: CodePage)
    requires
        wf(doc),
    ensures
        wf_list(nodes_v(doc, page), table_v()),
{
    let t = table_v();
    let t1 = t.drop_first();
    let t2 = t1.drop_first();
    assert(t1 =~= seq![16u64, 8u64]);
    assert(t2 =~= seq![8u64]);
    vstd::arithmetic::power2::lemma2_to64();
    let ch = chipsets_v(doc.chipsets@, page);
    assert forall|j: int| 0 <= j < ch.len() implies wf_node(#[trigger] ch[j], t2) by {
        assert(ch[j] == chipset_entry_v(j, doc.chipsets@[j], page));
        assert(chipset_fields_v(doc.chipsets@[j], page).len() <= 4);
        assert(wf_list(chipset_fields_v(doc.chipsets@[j], page), t2));
    }
    assert(wf_list(ch, t1));
    assert(wf_list(nodes_v(doc, page), t));
}

/// No collision: one pass of this view never emits two nodes with one
/// identifier.
pub proof fn lemma_update_no_collision(doc: DataBase, page: CodePage)
    requires
        wf(doc),
    ensures
        ({
            let es = crate::tree::emitted(update_calls(doc, page), 0);
            forall|t1: int, t2: int|
                0 <= t1 < t2 < es.len() ==> (#[trigger] es[t1]).1 != (#[trigger] es[t2]).1
        }),
{
    lemma_table_ok();
    lemma_wf_nodes(doc, page);
    crate::tree_props::lemma_no_collision(nodes_v(doc, page), table_v());
}

/// Balanced structure: the open and close calls of one pass of this view
/// nest correctly.
pub proof fn lemma_update_balanced(doc: DataBase, page: CodePage)
    requires
        wf(doc),
    ensures
        crate::tree::balanced(update_calls(doc, page)),
{
    lemma_table_ok();
    lemma_wf_nodes(doc, page);
    crate::tree_props::lemma_balanced(nodes_v(doc, page), table_v());
}

/// Code page isolation: changing only the code page changes only label text.
pub proof fn lemma_update_page_isolation(doc: DataBase, p1: CodePage, p2: CodePage)
    ensures
        crate::tree_props::shape_calls(update_calls(doc, p1)) == crate::tree_props::shape_calls(
            update_calls(doc, p2),
        ),
{
    let a = nodes_v(doc, p1);
    let b = nodes_v(doc, p2);
    let x = chipsets_v(doc.chipsets@, p1);
    let y = chipsets_v(doc.chipsets@, p2);
    assert forall|j: int| 0 <= j < x.len() implies crate::tree_props::same_shape_node(
        #[trigger] x[j],
        #[trigger] y[j],
    ) by {
        let fx = chipset_fields_v(doc.chipsets@[j], p1);
        let fy = chipset_fields_v(doc.chipsets@[j], p2);
        assert(fx.len() == fy.len());
        assert forall|k: int| 0 <= k < fx.len() implies crate::tree_props::same_shape_node(
            #[trigger] fx[k],
            #[trigger] fy[k],
        ) by {
            assert(fx[k] is Leaf && fy[k] is Leaf);
        }
        crate::tree_props::lemma_same_shape_pointwise(fx, fy);
    }
    crate::tree_props::lemma_same_shape_pointwise(x, y);
    assert forall|i: int| 0 <= i < a.len() implies crate::tree_props::same_shape_node(
        #[trigger] a[i],
        #[trigger] b[i],
    ) by {
        assert(a[0] is Dir && b[0] is Dir);
    }
    crate::tree_props::lemma_same_shape_pointwise(a, b);
    crate::tree_props::lemma_shape_calls(a, b, 0, table_v(), 0);
}

} // verus!
