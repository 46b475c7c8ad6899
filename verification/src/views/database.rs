//! The interpreted view of a database document: semantically decoded tileset
//! records, with a tag-only fallback for undecoded chunks.

use vstd::prelude::*;

use crate::code_page::CodePage;
use crate::project::ChunkList;
use crate::text::byte_list;
use crate::text::byte_list_str;
use crate::text::dec_str;
use crate::text::decoded_text;
use crate::text::label_num;
use crate::text::label_text;
use crate::text::page_code;
use crate::tree::NodeV;
use crate::tree::TreeEmitter;
use crate::tree::TreeNode;
use crate::tree::calls_of_list;
use crate::tree::calls_view;
use crate::tree::lemma_list_view_snoc;
use crate::tree::list_view;
use crate::tree::node_view;
use crate::tree::table_ok;
use crate::tree::wf_list;
use crate::tree::wf_node;

verus! {

/// An interpreted database document: its decoded chunk list.
pub struct LcfDataBase(pub ChunkList<DbChunk>);

/// One interpreted database chunk.
pub enum DbChunk {
    ChipSet(ChipSet),
    Unknown { id: u64, bytes: Vec<u8> },
}

/// The decoded tileset table.
pub struct ChipSet {
    pub data: Vec<ChipSetEntry>,
}

/// One decoded tileset record: its identifier and its fields.
pub struct ChipSetEntry {
    pub index: u64,
    pub chunks: ChunkList<ChipSetField>,
}

/// One field of a decoded tileset record.
pub enum ChipSetField {
    Name(Vec<u8>),
    File(Vec<u8>),
    Unknown { id: u64, bytes: Vec<u8> },
}

/// The bit budgets of the interpreted database schema.
pub open spec fn table_v() -> Seq<u64> {
    seq![8u64, 16u64, 8u64]
}

/// The budget table as a vector.
pub fn budgets() -> (r: Vec<u64>)
    ensures
        r@ == table_v(),
{
    let mut v: Vec<u64> = Vec::new();
    v.push(8);
    v.push(16);
    v.push(8);
    proof {
        assert(v@ =~= table_v());
    }
    v
}

/// The budget table is usable.
pub proof fn lemma_table_ok()
    ensures
        table_ok(table_v()),
{
    let t = table_v();
    let t1 = seq![16u64, 8u64];
    let t2 = seq![8u64];
    assert(t.drop_first() =~= t1);
    assert(t1.drop_first() =~= t2);
    assert(t2.drop_first() =~= Seq::<u64>::empty());
    assert(crate::tree::sum_bits(Seq::<u64>::empty()) == 0);
    assert(crate::tree::sum_bits(t2) == 8);
    assert(crate::tree::sum_bits(t1) == 24);
    assert(crate::tree::sum_bits(t) == 32);
}

/// One tileset field.
pub open spec fn chipset_field_v(f: ChipSetField, page: CodePage) -> NodeV {
    match f {
        ChipSetField::Name(b) => NodeV::Leaf {
            label: "Name: "@ + decoded_text(page_code(page), b@),
        },
        ChipSetField::File(b) => NodeV::Leaf {
            label: "File: "@ + decoded_text(page_code(page), b@),
        },
        ChipSetField::Unknown { id, bytes } => NodeV::Leaf {
            label: "Field "@ + dec_str(id as nat) + ": ["@ + byte_list_str(bytes@) + "]"@,
        },
    }
}

/// One tileset record: a directory labelled with its identifier.
pub open spec fn chipset_entry_v(e: ChipSetEntry, page: CodePage) -> NodeV {
    NodeV::Dir {
        label: "ChipSet "@ + dec_str(e.index as nat),
        children: Seq::new(e.chunks.items@.len(), |i: int| chipset_field_v(
            e.chunks.items@[i],
            page,
        )),
    }
}

/// The tileset records in order.
pub open spec fn chipsets_v(cs: Seq<ChipSetEntry>, page: CodePage) -> Seq<NodeV> {
    Seq::new(cs.len(), |i: int| chipset_entry_v(cs[i], page))
}

/// Projects the tileset table; each record becomes a directory of field
/// leaves.
pub fn update_chipset(chipset: &ChipSet, page: CodePage) -> (r: Vec<TreeNode>)
    ensures
        list_view(r@) == chipsets_v(chipset.data@, page),
{
    let mut out: Vec<TreeNode> = Vec::new();
    let mut i: usize = 0;
    proof {
        assert(list_view(out@) =~= chipsets_v(chipset.data@, page).take(0));
    }
    while i < chipset.data.len()
        invariant
            i <= chipset.data@.len(),
            list_view(out@) =~= chipsets_v(chipset.data@, page).take(i as int),
        decreases chipset.data@.len() - i,
    {
        let ghost before = out@;
        let entry = &chipset.data[i];
        let mut children: Vec<TreeNode> = Vec::new();
        let mut j: usize = 0;
        proof {
            assert(list_view(children@) =~= Seq::new(0nat, |k: int| chipset_field_v(
                entry.chunks.items@[k],
                page,
            )));
        }
        while j < entry.chunks.items.len()
            invariant
                j <= entry.chunks.items@.len(),
                list_view(children@) =~= Seq::new(j as nat, |k: int| chipset_field_v(
                    entry.chunks.items@[k],
                    page,
                )),
            decreases entry.chunks.items@.len() - j,
        {
            let ghost cb = children@;
            let node = match &entry.chunks.items[j] {
                ChipSetField::Name(b) => TreeNode::Leaf {
                    label: label_text("Name: ", page, b.as_slice()),
                },
                ChipSetField::File(b) => TreeNode::Leaf {
                    label: label_text("File: ", page, b.as_slice()),
                },
                ChipSetField::Unknown { id, bytes } => {
                    let label = label_num("Field ", *id).concat(": [").concat(
                        byte_list(bytes.as_slice()).as_str(),
                    ).concat("]");
                    proof {
                        assert(label@ =~= "Field "@ + dec_str(*id as nat) + ": ["@ + byte_list_str(
                            bytes@,
                        ) + "]"@);
                    }
                    TreeNode::Leaf { label }
                },
            };
            children.push(node);
            proof {
                lemma_list_view_snoc(cb, children@[children@.len() - 1]);
                assert(node_view(children@[children@.len() - 1]) == chipset_field_v(
                    entry.chunks.items@[j as int],
                    page,
                ));
                assert(list_view(children@) =~= Seq::new((j + 1) as nat, |k: int| chipset_field_v(
                    entry.chunks.items@[k],
                    page,
                )));
            }
            j = j + 1;
        }
        out.push(TreeNode::Dir { label: label_num("ChipSet ", entry.index), children });
        proof {
            lemma_list_view_snoc(before, out@[out@.len() - 1]);
            assert(node_view(out@[out@.len() - 1]) == chipset_entry_v(
                chipset.data@[i as int],
                page,
            ));
            assert(list_view(out@) =~= chipsets_v(chipset.data@, page).take(i + 1 as int));
        }
        i = i + 1;
    }
    proof {
        assert(chipsets_v(chipset.data@, page).take(chipset.data@.len() as int) =~= chipsets_v(
            chipset.data@,
            page,
        ));
    }
    out
}

/// The node projected for one interpreted chunk.
pub open spec fn chunk_v(c: DbChunk, page: CodePage) -> NodeV {
    match c {
        DbChunk::ChipSet(cs) => NodeV::Dir {
            label: "Chipset"@,
            children: chipsets_v(cs.data@, page),
        },
        DbChunk::Unknown { id, .. } => NodeV::Leaf { label: "Chunk "@ + dec_str(id as nat) },
    }
}

/// The projected roots of the whole document, one per chunk.
pub open spec fn nodes_v(doc: LcfDataBase, page: CodePage) -> Seq<NodeV> {
    Seq::new(doc.0.items@.len(), |i: int| chunk_v(doc.0.items@[i], page))
}

/// The full emitter call sequence of one interpreted database projection
/// pass.
pub open spec fn update_calls(doc: LcfDataBase, page: CodePage) -> Seq<crate::tree::CallV> {
    calls_of_list(nodes_v(doc, page), 0, table_v(), 0)
}

/// The document fits the schema's bit budgets.
pub open spec fn wf(doc: LcfDataBase) -> bool {
    &&& doc.0.items@.len() < 0x100
    &&& forall|i: int|
        0 <= i < doc.0.items@.len() ==> match #[trigger] doc.0.items@[i] {
            DbChunk::ChipSet(cs) => cs.data@.len() < 0x10000 && forall|j: int|
                0 <= j < cs.data@.len() ==> (#[trigger] cs.data@[j]).chunks.items@.len() < 0x100,
            _ => true,
        }
}

/// The projected tree fits the budget table.
pub proof fn lemma_wf_nodes(doc: LcfDataBase, page: CodePage)
    requires
        wf(doc),
    ensures
        wf_list(nodes_v(doc, page), table_v()),
{
    let t = table_v();
    let t1 = t.drop_first();
    let t2 = t1.drop_first();
    assert(t1 =~= seq![16u64, 8u64]);
    assert(t2 =~= seq![8u64]);
    vstd::arithmetic::power2::lemma2_to64();
    let ns = nodes_v(doc, page);
    assert forall|i: int| 0 <= i < ns.len() implies wf_node(#[trigger] ns[i], t1) by {
        match doc.0.items@[i] {
            DbChunk::ChipSet(cs) => {
                let ch = chipsets_v(cs.data@, page);
                assert forall|j: int| 0 <= j < ch.len() implies wf_node(#[trigger] ch[j], t2) by {
                    assert(ch[j] == chipset_entry_v(cs.data@[j], page));
                    assert(wf_list(
                        Seq::new(cs.data@[j].chunks.items@.len(), |k: int| chipset_field_v(
                            cs.data@[j].chunks.items@[k],
                            page,
                        )),
                        t2,
                    ));
                }
                assert(wf_list(ch, t1));
            },
            _ => {},
        }
    }
    assert(wf_list(ns, t));
}

/// Projects the interpreted view of a database document.
pub fn update(database: &LcfDataBase, builder: &mut TreeEmitter, encoding: CodePage)
    requires
        wf(*database),
    ensures
        calls_view(final(builder).calls@) == calls_view(old(builder).calls@) + update_calls(
            *database,
            encoding,
        ),
{
    let mut out: Vec<TreeNode> = Vec::new();
    let mut i: usize = 0;
    proof {
        assert(list_view(out@) =~= nodes_v(*database, encoding).take(0));
    }
    while i < database.0.items.len()
        invariant
            i <= database.0.items@.len(),
            wf(*database),
            list_view(out@) =~= nodes_v(*database, encoding).take(i as int),
        decreases database.0.items@.len() - i,
    {
        let ghost before = out@;
        let node = match &database.0.items[i] {
            DbChunk::ChipSet(cs) => TreeNode::Dir {
                label: String::from_str("Chipset"),
                children: update_chipset(cs, encoding),
            },
            DbChunk::Unknown { id, .. } => TreeNode::Leaf { label: label_num("Chunk ", *id) },
        };
        out.push(node);
        proof {
            lemma_list_view_snoc(before, out@[out@.len() - 1]);
            assert(node_view(out@[out@.len() - 1]) == chunk_v(
                database.0.items@[i as int],
                encoding,
            ));
            assert(list_view(out@) =~= nodes_v(*database, encoding).take(i + 1 as int));
        }
        i = i + 1;
    }
    proof {
        assert(nodes_v(*database, encoding).take(database.0.items@.len() as int) =~= nodes_v(
            *database,
            encoding,
        ));
        lemma_table_ok();
        lemma_wf_nodes(*database, encoding);
    }
    let table = budgets();
    builder.emit(out, &table);
}

/// No collision: one interpreted database pass never emits two nodes with
/// one identifier.
pub proof fn lemma_update_no_collision(doc: LcfDataBase, page: CodePage)
    requires
        wf(doc),
    ensures
        ({
            let es = crate::tree::emitted(update_calls(doc, page), 0);
            forall|t1: int, t2: int|
                0 <= t1 < t2 < es.len() ==> (#[trigger] es[t1]).1 != (#[trigger] es[t2]).1
        }),
{
    lemma_table_ok();
    lemma_wf_nodes(doc, page);
    crate::tree_props::lemma_no_collision(nodes_v(doc, page), table_v());
}

/// Balanced structure: the open and close calls of one interpreted database
/// pass nest correctly.
pub proof fn lemma_update_balanced(doc: LcfDataBase, page: CodePage)
    requires
        wf(doc),
    ensures
        crate::tree::balanced(update_calls(doc, page)),
{
    lemma_table_ok();
    lemma_wf_nodes(doc, page);
    crate::tree_props::lemma_balanced(nodes_v(doc, page), table_v());
}

/// Code page isolation: changing only the code page changes only label text.
pub proof fn lemma_update_page_isolation(doc: LcfDataBase, p1: CodePage, p2: CodePage)
    ensures
        crate::tree_props::shape_calls(update_calls(doc, p1)) == crate::tree_props::shape_calls(
            update_calls(doc, p2),
        ),
{
    let a = nodes_v(doc, p1);
    let b = nodes_v(doc, p2);
    assert forall|i: int| 0 <= i < a.len() implies crate::tree_props::same_shape_node(
        #[trigger] a[i],
        #[trigger] b[i],
    ) by {
        match doc.0.items@[i] {
            DbChunk::ChipSet(cs) => {
                let x = chipsets_v(cs.data@, p1);
                let y = chipsets_v(cs.data@, p2);
                assert forall|j: int| 0 <= j < x.len() implies crate::tree_props::same_shape_node(
                    #[trigger] x[j],
                    #[trigger] y[j],
                ) by {
                    crate::tree_props::lemma_same_shape_pointwise(
                        Seq::new(cs.data@[j].chunks.items@.len(), |k: int| chipset_field_v(
                            cs.data@[j].chunks.items@[k],
                            p1,
                        )),
                        Seq::new(cs.data@[j].chunks.items@.len(), |k: int| chipset_field_v(
                            cs.data@[j].chunks.items@[k],
                            p2,
                        )),
                    );
                }
                crate::tree_props::lemma_same_shape_pointwise(x, y);
            },
            _ => {},
        }
    }
    crate::tree_props::lemma_same_shape_pointwise(a, b);
    crate::tree_props::lemma_shape_calls(a, b, 0, table_v(), 0);
}


/// Totality: every interpreted chunk yields exactly one top-level node.
pub proof fn lemma_update_total(doc: LcfDataBase, page: CodePage)
    requires
        wf(doc),
    ensures
        crate::tree::count_at_depth(crate::tree::emitted(update_calls(doc, page), 0), 0)
            == doc.0.items@.len(),
{
    lemma_table_ok();
    lemma_wf_nodes(doc, page);
    crate::tree_props::lemma_root_count(nodes_v(doc, page), table_v());
}

} // verus!
