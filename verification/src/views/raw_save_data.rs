//! The raw (wire-level) view of a save-data document.

use vstd::prelude::*;

use crate::code_page::CodePage;
use crate::project::ChunkList;
use crate::project::unknown_chunk_leaf;
use crate::project::unknown_chunk_v;
use crate::text::bool_str;
use crate::text::byte_list_str;
use crate::text::dec;
use crate::text::dec_str;
use crate::text::label_bytes;
use crate::text::label_num;
use crate::tree::NodeV;
use crate::tree::TreeEmitter;
use crate::tree::TreeNode;
use crate::tree::calls_of_list;
use crate::tree::calls_view;
use crate::tree::lemma_list_view_snoc;
use crate::tree::list_view;
use crate::tree::node_view;
use crate::tree::table_ok;
use crate::tree::wf_list;
use crate::tree::wf_node;

verus! {

/// A raw save-data document: its top-level chunk stream.
pub struct RawSaveData(pub ChunkList<SaveChunk>);

/// One top-level save-data chunk, by wire tag.
pub enum SaveChunk {
    Title(Vec<u8>),
    System(Vec<SaveSystemField>),
    Screen(Vec<u8>),
    Pictures(Vec<u8>),
    PartyLocation(Vec<u8>),
    BoatLocation(Vec<u8>),
    ShipLocation(Vec<u8>),
    AirshipLocation(Vec<u8>),
    Actors(Vec<u8>),
    Inventory(Vec<u8>),
    Targets(Vec<u8>),
    MapInfo(Vec<u8>),
    Panorama(Vec<u8>),
    ExecutionState(Vec<u8>),
    CommonEvents(Vec<u8>),
    EasyRPG(Vec<u8>),
    Unknown { id: u64, bytes: Vec<u8> },
}

/// One field of the save-system record.
pub enum SaveSystemField {
    SwitchesSize(u64),
    Switches(Vec<u64>),
    VariablesSize(u64),
    Variables(Vec<u64>),
    Unknown { id: u64, bytes: Vec<u8> },
}

/// The bit budgets of the raw save-data schema: top-level chunks, system
/// fields, switch and variable entries.
pub open spec fn table_v() -> Seq<u64> {
    seq![8u64, 16u64, 16u64]
}

/// The budget table as a vector.
pub fn budgets() -> (r: Vec<u64>)
    ensures
        r@ == table_v(),
{
    let mut v: Vec<u64> = Vec::new();
    v.push(8);
    v.push(16);
    v.push(16);
    proof {
        assert(v@ =~= table_v());
    }
    v
}

/// The budget table is usable.
pub proof fn lemma_table_ok()
    ensures
        table_ok(table_v()),
{
    let t = table_v();
    let t1 = seq![16u64, 16u64];
    let t2 = seq![16u64];
    assert(t.drop_first() =~= t1);
    assert(t1.drop_first() =~= t2);
    assert(t2.drop_first() =~= Seq::<u64>::empty());
    assert(crate::tree::sum_bits(Seq::<u64>::empty()) == 0);
    assert(crate::tree::sum_bits(t2) == 16);
    assert(crate::tree::sum_bits(t1) == 32);
    assert(crate::tree::sum_bits(t) == 40);
}

/// The switch leaves: one per entry, as `index: state`.
pub open spec fn switch_leaves_v(v: Seq<u64>) -> Seq<NodeV> {
    Seq::new(
        v.len(),
        |i: int| NodeV::Leaf { label: dec_str(i as nat) + ": "@ + bool_str(v[i] != 0) },
    )
}

/// The variable leaves: one per entry, as `index: value`.
pub open spec fn variable_leaves_v(v: Seq<u64>) -> Seq<NodeV> {
    Seq::new(
        v.len(),
        |i: int| NodeV::Leaf { label: dec_str(i as nat) + ": "@ + dec_str(v[i] as nat) },
    )
}

fn switch_leaves(v: &Vec<u64>) -> (r: Vec<TreeNode>)
    requires
        v@.len() < 0x1_0000_0000_0000_0000,
    ensures
        list_view(r@) == switch_leaves_v(v@),
{
    let mut out: Vec<TreeNode> = Vec::new();
    let mut i: usize = 0;
    proof {
        assert(list_view(out@) =~= switch_leaves_v(v@).take(0));
    }
    while i < v.len()
        invariant
            i <= v@.len(),
            v@.len() < 0x1_0000_0000_0000_0000,
            list_view(out@) =~= switch_leaves_v(v@).take(i as int),
        decreases v@.len() - i,
    {
        let ghost before = out@;
        let label = dec(i as u64).concat(": ").concat(crate::text::bool_text(v[i] != 0));
        proof {
            assert(label@ =~= dec_str(i as nat) + ": "@ + bool_str(v@[i as int] != 0));
        }
        out.push(TreeNode::Leaf { label });
        proof {
            lemma_list_view_snoc(before, out@[out@.len() - 1]);
            assert(list_view(out@) =~= switch_leaves_v(v@).take(i + 1 as int));
        }
        i = i + 1;
    }
    proof {
        assert(switch_leaves_v(v@).take(v@.len() as int) =~= switch_leaves_v(v@));
    }
    out
}

fn variable_leaves(v: &Vec<u64>) -> (r: Vec<TreeNode>)
    requires
        v@.len() < 0x1_0000_0000_0000_0000,
    ensures
        list_view(r@) == variable_leaves_v(v@),
{
    let mut out: Vec<TreeNode> = Vec::new();
    let mut i: usize = 0;
    proof {
        assert(list_view(out@) =~= variable_leaves_v(v@).take(0));
    }
    while i < v.len()
        invariant
            i <= v@.len(),
            v@.len() < 0x1_0000_0000_0000_0000,
            list_view(out@) =~= variable_leaves_v(v@).take(i as int),
        decreases v@.len() - i,
    {
        let ghost before = out@;
        let label = dec(i as u64).concat(": ").concat(dec(v[i]).as_str());
        proof {
            assert(label@ =~= dec_str(i as nat) + ": "@ + dec_str(v@[i as int] as nat));
        }
        out.push(TreeNode::Leaf { label });
        proof {
            lemma_list_view_snoc(before, out@[out@.len() - 1]);
            assert(list_view(out@) =~= variable_leaves_v(v@).take(i + 1 as int));
        }
        i = i + 1;
    }
    proof {
        assert(variable_leaves_v(v@).take(v@.len() as int) =~= variable_leaves_v(v@));
    }
    out
}

/// One save-system field.
pub open spec fn system_field_v(f: SaveSystemField) -> NodeV {
    match f {
        SaveSystemField::SwitchesSize(v) => NodeV::Leaf {
            label: "Switches Size: "@ + dec_str(v as nat),
        },
        SaveSystemField::Switches(v) => NodeV::Dir {
            label: "Switches"@,
            children: switch_leaves_v(v@),
        },
        SaveSystemField::VariablesSize(v) => NodeV::Leaf {
            label: "Variables Size: "@ + dec_str(v as nat),
        },
        SaveSystemField::Variables(v) => NodeV::Dir {
            label: "Variables"@,
            children: variable_leaves_v(v@),
        },
        SaveSystemField::Unknown { id, bytes } => unknown_chunk_v(id, bytes@),
    }
}

/// The save-system fields in order.
pub open spec fn system_fields_v(fs: Seq<SaveSystemField>) -> Seq<NodeV> {
    Seq::new(fs.len(), |i: int| system_field_v(fs[i]))
}

fn system_fields_nodes(fs: &Vec<SaveSystemField>) -> (r: Vec<TreeNode>)
    requires
        forall|i: int|
            0 <= i < fs@.len() ==> match #[trigger] fs@[i] {
                SaveSystemField::Switches(v) => v@.len() < 0x10000,
                SaveSystemField::Variables(v) => v@.len() < 0x10000,
                _ => true,
            },
    ensures
        list_view(r@) == system_fields_v(fs@),
{
    let mut out: Vec<TreeNode> = Vec::new();
    let mut i: usize = 0;
    proof {
        assert(list_view(out@) =~= system_fields_v(fs@).take(0));
    }
    while i < fs.len()
        invariant
            i <= fs@.len(),
            forall|k: int|
                0 <= k < fs@.len() ==> match #[trigger] fs@[k] {
                    SaveSystemField::Switches(v) => v@.len() < 0x10000,
                    SaveSystemField::Variables(v) => v@.len() < 0x10000,
                    _ => true,
                },
            list_view(out@) =~= system_fields_v(fs@).take(i as int),
        decreases fs@.len() - i,
    {
        let ghost before = out@;
        let node = match &fs[i] {
            SaveSystemField::SwitchesSize(v) => TreeNode::Leaf {
                label: label_num("Switches Size: ", *v),
            },
            SaveSystemField::Switches(v) => TreeNode::Dir {
                label: String::from_str("Switches"),
                children: switch_leaves(v),
            },
            SaveSystemField::VariablesSize(v) => TreeNode::Leaf {
                label: label_num("Variables Size: ", *v),
            },
            SaveSystemField::Variables(v) => TreeNode::Dir {
                label: String::from_str("Variables"),
                children: variable_leaves(v),
            },
            SaveSystemField::Unknown { id, bytes } => unknown_chunk_leaf(*id, bytes),
        };
        out.push(node);
        proof {
            lemma_list_view_snoc(before, out@[out@.len() - 1]);
            assert(node_view(out@[out@.len() - 1]) == system_field_v(fs@[i as int]));
            assert(list_view(out@) =~= system_fields_v(fs@).take(i + 1 as int));
        }
        i = i + 1;
    }
    proof {
        assert(system_fields_v(fs@).take(fs@.len() as int) =~= system_fields_v(fs@));
    }
    out
}

/// The node projected for one top-level chunk.
pub open spec fn chunk_v(c: SaveChunk) -> NodeV {
    match c {
        SaveChunk::Title(b) => NodeV::Leaf { label: "Title: "@ + byte_list_str(b@) },
        SaveChunk::System(fs) => NodeV::Dir { label: "System"@, children: system_fields_v(fs@) },
        SaveChunk::Screen(b) => NodeV::Leaf { label: "Screen: "@ + byte_list_str(b@) },
        SaveChunk::Pictures(b) => NodeV::Leaf { label: "Pictures: "@ + byte_list_str(b@) },
        SaveChunk::PartyLocation(b) => NodeV::Leaf {
            label: "Party Location: "@ + byte_list_str(b@),
        },
        SaveChunk::BoatLocation(b) => NodeV::Leaf {
            label: "Boat Location: "@ + byte_list_str(b@),
        },
        SaveChunk::ShipLocation(b) => NodeV::Leaf {
            label: "Ship Location: "@ + byte_list_str(b@),
        },
        SaveChunk::AirshipLocation(b) => NodeV::Leaf {
            label: "Airship Location: "@ + byte_list_str(b@),
        },
        SaveChunk::Actors(b) => NodeV::Leaf { label: "Actors: "@ + byte_list_str(b@) },
        SaveChunk::Inventory(b) => NodeV::Leaf { label: "Inventory: "@ + byte_list_str(b@) },
        SaveChunk::Targets(b) => NodeV::Leaf { label: "Targets: "@ + byte_list_str(b@) },
        SaveChunk::MapInfo(b) => NodeV::Leaf { label: "Map Info: "@ + byte_list_str(b@) },
        SaveChunk::Panorama(b) => NodeV::Leaf { label: "Panorama: "@ + byte_list_str(b@) },
        SaveChunk::ExecutionState(b) => NodeV::Leaf {
            label: "Execution State: "@ + byte_list_str(b@),
        },
        SaveChunk::CommonEvents(b) => NodeV::Leaf {
            label: "Common Events: "@ + byte_list_str(b@),
        },
        SaveChunk::EasyRPG(b) => NodeV::Leaf { label: "EasyRPG: "@ + byte_list_str(b@) },
        SaveChunk::Unknown { id, bytes } => unknown_chunk_v(id, bytes@),
    }
}

/// The projected roots of the whole document, one per chunk.
pub open spec fn nodes_v(doc: RawSaveData) -> Seq<NodeV> {
    Seq::new(doc.0.items@.len(), |i: int| chunk_v(doc.0.items@[i]))
}

/// The full emitter call sequence of one raw save-data projection pass. The
/// save-data chunks carry no code-page dependent text, so the sequence
/// depends on the document alone.
pub open spec fn update_calls(doc: RawSaveData) -> Seq<crate::tree::CallV> {
    calls_of_list(nodes_v(doc), 0, table_v(), 0)
}

/// One chunk fits the schema's bit budgets.
pub open spec fn wf_chunk(c: SaveChunk) -> bool {
    match c {
        SaveChunk::System(fs) => fs@.len() < 0x10000 && forall|i: int|
            0 <= i < fs@.len() ==> match #[trigger] fs@[i] {
                SaveSystemField::Switches(v) => v@.len() < 0x10000,
                SaveSystemField::Variables(v) => v@.len() < 0x10000,
                _ => true,
            },
        _ => true,
    }
}

/// The document fits the schema's bit budgets.
pub open spec fn wf(doc: RawSaveData) -> bool {
    &&& doc.0.items@.len() < 0x100
    &&& forall|i: int| 0 <= i < doc.0.items@.len() ==> wf_chunk(#[trigger] doc.0.items@[i])
}

/// The projected tree fits the budget table.
pub proof fn lemma_wf_nodes(doc: RawSaveData)
    requires
        wf(doc),
    ensures
        wf_list(nodes_v(doc), table_v()),
{
    let t = table_v();
    let t1 = t.drop_first();
    let t2 = t1.drop_first();
    assert(t1 =~= seq![16u64, 16u64]);
    assert(t2 =~= seq![16u64]);
    vstd::arithmetic::power2::lemma2_to64();
    let ns = nodes_v(doc);
    assert forall|i: int| 0 <= i < ns.len() implies wf_node(#[trigger] ns[i], t1) by {
        let c = doc.0.items@[i];
        assert(wf_chunk(c));
        match c {
            SaveChunk::System(fs) => {
                let ch = system_fields_v(fs@);
                assert forall|j: int| 0 <= j < ch.len() implies wf_node(#[trigger] ch[j], t2) by {
                    assert(ch[j] == system_field_v(fs@[j]));
                    match fs@[j] {
                        SaveSystemField::Switches(v) => {
                            assert(wf_list(switch_leaves_v(v@), t2));
                        },
                        SaveSystemField::Variables(v) => {
                            assert(wf_list(variable_leaves_v(v@), t2));
                        },
                        _ => {},
                    }
                }
                assert(wf_list(ch, t1));
            },
            _ => {},
        }
    }
    assert(wf_list(ns, t));
}

/// Projects the raw view of a save-data document: one tree node per chunk,
/// appended to the emitter in document order. The code page is accepted for
/// uniformity with the other views; no save-data label depends on it.
pub fn update(save_data: &RawSaveData, builder: &mut TreeEmitter, _encoding: CodePage)
    requires
        wf(*save_data),
    ensures
        calls_view(final(builder).calls@) == calls_view(old(builder).calls@) + update_calls(
            *save_data,
        ),
{
    let mut out: Vec<TreeNode> = Vec::new();
    let mut i: usize = 0;
    proof {
        assert(list_view(out@) =~= nodes_v(*save_data).take(0));
    }
    while i < save_data.0.items.len()
        invariant
            i <= save_data.0.items@.len(),
            wf(*save_data),
            list_view(out@) =~= nodes_v(*save_data).take(i as int),
        decreases save_data.0.items@.len() - i,
    {
        let ghost before = out@;
        let node = match &save_data.0.items[i] {
            SaveChunk::Title(b) => TreeNode::Leaf { label: label_bytes("Title: ", b.as_slice()) },
            SaveChunk::System(fs) => TreeNode::Dir {
                label: String::from_str("System"),
                children: system_fields_nodes(fs),
            },
            SaveChunk::Screen(b) => TreeNode::Leaf { label: label_bytes("Screen: ", b.as_slice()) },
            SaveChunk::Pictures(b) => TreeNode::Leaf {
                label: label_bytes("Pictures: ", b.as_slice()),
            },
            SaveChunk::PartyLocation(b) => TreeNode::Leaf {
                label: label_bytes("Party Location: ", b.as_slice()),
            },
            SaveChunk::BoatLocation(b) => TreeNode::Leaf {
                label: label_bytes("Boat Location: ", b.as_slice()),
            },
            SaveChunk::ShipLocation(b) => TreeNode::Leaf {
                label: label_bytes("Ship Location: ", b.as_slice()),
            },
            SaveChunk::AirshipLocation(b) => TreeNode::Leaf {
                label: label_bytes("Airship Location: ", b.as_slice()),
            },
            SaveChunk::Actors(b) => TreeNode::Leaf { label: label_bytes("Actors: ", b.as_slice()) },
            SaveChunk::Inventory(b) => TreeNode::Leaf {
                label: label_bytes("Inventory: ", b.as_slice()),
            },
            SaveChunk::Targets(b) => TreeNode::Leaf {
                label: label_bytes("Targets: ", b.as_slice()),
            },
            SaveChunk::MapInfo(b) => TreeNode::Leaf {
                label: label_bytes("Map Info: ", b.as_slice()),
            },
            SaveChunk::Panorama(b) => TreeNode::Leaf {
                label: label_bytes("Panorama: ", b.as_slice()),
            },
            SaveChunk::ExecutionState(b) => TreeNode::Leaf {
                label: label_bytes("Execution State: ", b.as_slice()),
            },
            SaveChunk::CommonEvents(b) => TreeNode::Leaf {
                label: label_bytes("Common Events: ", b.as_slice()),
            },
            SaveChunk::EasyRPG(b) => TreeNode::Leaf {
                label: label_bytes("EasyRPG: ", b.as_slice()),
            },
            SaveChunk::Unknown { id, bytes } => unknown_chunk_leaf(*id, bytes),
        };
        out.push(node);
        proof {
            lemma_list_view_snoc(before, out@[out@.len() - 1]);
            assert(node_view(out@[out@.len() - 1]) == chunk_v(save_data.0.items@[i as int]));
            assert(list_view(out@) =~= nodes_v(*save_data).take(i + 1 as int));
        }
        i = i + 1;
    }
    proof {
        assert(nodes_v(*save_data).take(save_data.0.items@.len() as int) =~= nodes_v(*save_data));
        lemma_table_ok();
        lemma_wf_nodes(*save_data);
    }
    let table = budgets();
    builder.emit(out, &table);
}

/// No collision: one raw save-data pass never emits two nodes with one
/// identifier.
pub proof fn lemma_update_no_collision(doc: RawSaveData)
    requires
        wf(doc),
    ensures
        ({
            let es = crate::tree::emitted(update_calls(doc), 0);
            forall|t1: int, t2: int|
                0 <= t1 < t2 < es.len() ==> (#[trigger] es[t1]).1 != (#[trigger] es[t2]).1
        }),
{
    lemma_table_ok();
    lemma_wf_nodes(doc);
    crate::tree_props::lemma_no_collision(nodes_v(doc), table_v());
}

/// Balanced structure: the open and close calls of one raw save-data pass
/// nest correctly.
pub proof fn lemma_update_balanced(doc: RawSaveData)
    requires
        wf(doc),
    ensures
        crate::tree::balanced(update_calls(doc)),
{
    lemma_table_ok();
    lemma_wf_nodes(doc);
    crate::tree_props::lemma_balanced(nodes_v(doc), table_v());
}

/// Totality: every chunk of the stream, known or unknown, yields exactly one
/// top-level node.
pub proof fn lemma_update_total(doc: RawSaveData)
    requires
        wf(doc),
    ensures
        crate::tree::count_at_depth(crate::tree::emitted(update_calls(doc), 0), 0)
            == doc.0.items@.len(),
{
    lemma_table_ok();
    lemma_wf_nodes(doc);
    crate::tree_props::lemma_root_count(nodes_v(doc), table_v());
}

} // verus!
