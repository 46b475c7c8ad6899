//! The interpreted view of a map-tree document: the active map, the map
//! order, the party start positions, and the decoded per-map records.

use vstd::prelude::*;

use crate::code_page::CodePage;
use crate::project::ChunkList;
use crate::project::unknown_field_leaf;
use crate::project::unknown_field_v;
use crate::text::byte_list;
use crate::text::byte_list_str;
use crate::text::dec;
use crate::text::dec_str;
use crate::text::decoded_text;
use crate::text::label_bytes;
use crate::text::label_num;
use crate::text::label_text;
use crate::text::page_code;
use crate::tree::NodeV;
use crate::tree::TreeEmitter;
use crate::tree::TreeNode;
use crate::tree::calls_of_list;
use crate::tree::calls_view;
use crate::tree::lemma_list_view_snoc;
use crate::tree::list_view;
use crate::tree::node_view;
use crate::tree::table_ok;
use crate::tree::wf_list;
use crate::tree::wf_node;

verus! {

/// An interpreted map-tree document.
pub struct LcfMapTree {
    /// The identifier of the active map.
    pub active: u64,
    /// The display order of the maps.
    pub order: Vec<u64>,
    /// The start-position fields.
    pub start: ChunkList<StartField>,
    /// The per-map records, each with its wire identifier.
    pub maps: Vec<(u64, ChunkList<MapField>)>,
}

/// One start-position field, by wire tag.
pub enum StartField {
    PartyMapID(u64),
    PartyX(u64),
    PartyY(u64),
    BoatMapID(u64),
    BoatX(u64),
    BoatY(u64),
    ShipMapID(u64),
    ShipX(u64),
    ShipY(u64),
    AirshipMapID(u64),
    AirshipX(u64),
    AirshipY(u64),
    Unknown { id: u64, bytes: Vec<u8> },
}

/// One per-map field, by wire tag.
pub enum MapField {
    Name(Vec<u8>),
    Parent(u64),
    Kind(u64),
    HorizontalScrollBar(u64),
    VerticalScrollBar(u64),
    ExtractedNode(u64),
    BGM(u64),
    Backdrop(u64),
    BackdropFile(Vec<u8>),
    Teleport(u64),
    Escape(u64),
    Save(u64),
    EncounterEnemyGroup(Vec<u8>),
    EnemyAppearStep(u64),
    AreaRange { begin_x: u64, begin_y: u64, end_x: u64, end_y: u64 },
    BGMData(ChunkList<BgmField>),
    Unknown { id: u64, bytes: Vec<u8> },
}

/// One background-music field, by wire tag.
pub enum BgmField {
    FileName(Vec<u8>),
    FadeInTime(u64),
    Volume(u64),
    Tempo(u64),
    Balance(u64),
    Unknown { id: u64, bytes: Vec<u8> },
}

/// The bit budgets of the interpreted map-tree schema: the four fixed roots, order
/// and start entries and map records, per-map fields, and the small fixed
/// sub-records.
pub open spec fn table_v() -> Seq<u64> {
    seq![4u64, 16u64, 16u64, 8u64]
}

/// The budget table as a vector.
pub fn budgets() -> (r: Vec<u64>)
    ensures
        r@ == table_v(),
{
    let mut v: Vec<u64> = Vec::new();
    v.push(4);
    v.push(16);
    v.push(16);
    v.push(8);
    proof {
        assert(v@ =~= table_v());
    }
    v
}

/// The budget table is usable.
pub proof fn lemma_table_ok()
    ensures
        table_ok(table_v()),
{
    let t = table_v();
    let t1 = seq![16u64, 16u64, 8u64];
    let t2 = seq![16u64, 8u64];
    let t3 = seq![8u64];
    assert(t.drop_first() =~= t1);
    assert(t1.drop_first() =~= t2);
    assert(t2.drop_first() =~= t3);
    assert(t3.drop_first() =~= Seq::<u64>::empty());
    assert(crate::tree::sum_bits(Seq::<u64>::empty()) == 0);
    assert(crate::tree::sum_bits(t3) == 8);
    assert(crate::tree::sum_bits(t2) == 24);
    assert(crate::tree::sum_bits(t1) == 40);
    assert(crate::tree::sum_bits(t) == 44);
}

/// The order leaves: one per entry, as `index: map identifier`.
pub open spec fn order_leaves_v(v: Seq<u64>) -> Seq<NodeV> {
    Seq::new(
        v.len(),
        |i: int| NodeV::Leaf { label: dec_str(i as nat) + ": "@ + dec_str(v[i] as nat) },
    )
}

fn order_leaves(v: &Vec<u64>) -> (r: Vec<TreeNode>)
    requires
        v@.len() < 0x1_0000_0000_0000_0000,
    ensures
        list_view(r@) == order_leaves_v(v@),
{
    let mut out: Vec<TreeNode> = Vec::new();
    let mut i: usize = 0;
    proof {
        assert(list_view(out@) =~= order_leaves_v(v@).take(0));
    }
    while i < v.len()
        invariant
            i <= v@.len(),
            v@.len() < 0x1_0000_0000_0000_0000,
            list_view(out@) =~= order_leaves_v(v@).take(i as int),
        decreases v@.len() - i,
    {
        let ghost before = out@;
        let label = dec(i as u64).concat(": ").concat(dec(v[i]).as_str());
        proof {
            assert(label@ =~= dec_str(i as nat) + ": "@ + dec_str(v@[i as int] as nat));
        }
        out.push(TreeNode::Leaf { label });
        proof {
            lemma_list_view_snoc(before, out@[out@.len() - 1]);
            assert(list_view(out@) =~= order_leaves_v(v@).take(i + 1 as int));
        }
        i = i + 1;
    }
    proof {
        assert(order_leaves_v(v@).take(v@.len() as int) =~= order_leaves_v(v@));
    }
    out
}

/// One start-position field.
pub open spec fn start_field_v(f: StartField) -> NodeV {
    match f {
        StartField::PartyMapID(v) => NodeV::Leaf { label: "Party Map ID: "@ + dec_str(v as nat) },
        StartField::PartyX(v) => NodeV::Leaf { label: "Party X: "@ + dec_str(v as nat) },
        StartField::PartyY(v) => NodeV::Leaf { label: "Party Y: "@ + dec_str(v as nat) },
        StartField::BoatMapID(v) => NodeV::Leaf { label: "Boat Map ID: "@ + dec_str(v as nat) },
        StartField::BoatX(v) => NodeV::Leaf { label: "Boat X: "@ + dec_str(v as nat) },
        StartField::BoatY(v) => NodeV::Leaf { label: "Boat Y: "@ + dec_str(v as nat) },
        StartField::ShipMapID(v) => NodeV::Leaf { label: "Ship Map ID: "@ + dec_str(v as nat) },
        StartField::ShipX(v) => NodeV::Leaf { label: "Ship X: "@ + dec_str(v as nat) },
        StartField::ShipY(v) => NodeV::Leaf { label: "Ship Y: "@ + dec_str(v as nat) },
        StartField::AirshipMapID(v) => NodeV::Leaf {
            label: "Airship Map ID: "@ + dec_str(v as nat),
        },
        StartField::AirshipX(v) => NodeV::Leaf { label: "AirshipX: "@ + dec_str(v as nat) },
        StartField::AirshipY(v) => NodeV::Leaf { label: "AirshipY: "@ + dec_str(v as nat) },
        StartField::Unknown { id, bytes } => NodeV::Leaf {
            label: "Field "@ + dec_str(id as nat) + ": ["@ + byte_list_str(bytes@) + "]"@,
        },
    }
}

/// The start-position fields in order.
pub open spec fn start_fields_v(fs: Seq<StartField>) -> Seq<NodeV> {
    Seq::new(fs.len(), |i: int| start_field_v(fs[i]))
}

fn start_field_node(f: &StartField) -> (r: TreeNode)
    ensures
        node_view(r) == start_field_v(*f),
{
    match f {
        StartField::PartyMapID(v) => TreeNode::Leaf { label: label_num("Party Map ID: ", *v) },
        StartField::PartyX(v) => TreeNode::Leaf { label: label_num("Party X: ", *v) },
        StartField::PartyY(v) => TreeNode::Leaf { label: label_num("Party Y: ", *v) },
        StartField::BoatMapID(v) => TreeNode::Leaf { label: label_num("Boat Map ID: ", *v) },
        StartField::BoatX(v) => TreeNode::Leaf { label: label_num("Boat X: ", *v) },
        StartField::BoatY(v) => TreeNode::Leaf { label: label_num("Boat Y: ", *v) },
        StartField::ShipMapID(v) => TreeNode::Leaf { label: label_num("Ship Map ID: ", *v) },
        StartField::ShipX(v) => TreeNode::Leaf { label: label_num("Ship X: ", *v) },
        StartField::ShipY(v) => TreeNode::Leaf { label: label_num("Ship Y: ", *v) },
        StartField::AirshipMapID(v) => TreeNode::Leaf { label: label_num("Airship Map ID: ", *v) },
        StartField::AirshipX(v) => TreeNode::Leaf { label: label_num("AirshipX: ", *v) },
        StartField::AirshipY(v) => TreeNode::Leaf { label: label_num("AirshipY: ", *v) },
        StartField::Unknown { id, bytes } => {
            let label = label_num("Field ", *id).concat(": [").concat(
                byte_list(bytes.as_slice()).as_str(),
            ).concat("]");
            proof {
                assert(label@ =~= "Field "@ + dec_str(*id as nat) + ": ["@ + byte_list_str(bytes@)
                    + "]"@);
            }
            TreeNode::Leaf { label }
        },
    }
}

fn start_fields_nodes(fs: &Vec<StartField>) -> (r: Vec<TreeNode>)
    ensures
        list_view(r@) == start_fields_v(fs@),
{
    let mut out: Vec<TreeNode> = Vec::new();
    let mut i: usize = 0;
    proof {
        assert(list_view(out@) =~= start_fields_v(fs@).take(0));
    }
    while i < fs.len()
        invariant
            i <= fs@.len(),
            list_view(out@) =~= start_fields_v(fs@).take(i as int),
        decreases fs@.len() - i,
    {
        let ghost before = out@;
        out.push(start_field_node(&fs[i]));
        proof {
            lemma_list_view_snoc(before, out@[out@.len() - 1]);
            assert(list_view(out@) =~= start_fields_v(fs@).take(i + 1 as int));
        }
        i = i + 1;
    }
    proof {
        assert(start_fields_v(fs@).take(fs@.len() as int) =~= start_fields_v(fs@));
    }
    out
}

/// The four fixed leaves of an area-range record.
pub open spec fn area_range_v(begin_x: u64, begin_y: u64, end_x: u64, end_y: u64) -> Seq<NodeV> {
    seq![
        NodeV::Leaf { label: "Begin X: "@ + dec_str(begin_x as nat) },
        NodeV::Leaf { label: "Begin Y: "@ + dec_str(begin_y as nat) },
        NodeV::Leaf { label: "End X: "@ + dec_str(end_x as nat) },
        NodeV::Leaf { label: "End Y: "@ + dec_str(end_y as nat) },
    ]
}

/// One background-music field.
pub open spec fn bgm_field_v(f: BgmField, page: CodePage) -> NodeV {
    match f {
        BgmField::FileName(b) => NodeV::Leaf {
            label: "File Name: "@ + decoded_text(page_code(page), b@),
        },
        BgmField::FadeInTime(v) => NodeV::Leaf { label: "Fade-in Time: "@ + dec_str(v as nat) },
        BgmField::Volume(v) => NodeV::Leaf { label: "Volume: "@ + dec_str(v as nat) },
        BgmField::Tempo(v) => NodeV::Leaf { label: "Tempo: "@ + dec_str(v as nat) },
        BgmField::Balance(v) => NodeV::Leaf { label: "Balance: "@ + dec_str(v as nat) },
        BgmField::Unknown { id, bytes } => unknown_field_v(id, bytes@),
    }
}

/// One per-map field.
pub open spec fn map_field_v(f: MapField, page: CodePage) -> NodeV {
    match f {
        MapField::Name(b) => NodeV::Leaf { label: "Name: "@ + decoded_text(page_code(page), b@) },
        MapField::Parent(v) => NodeV::Leaf { label: "Parent: "@ + dec_str(v as nat) },
        MapField::Kind(v) => NodeV::Leaf { label: "Type: "@ + dec_str(v as nat) },
        MapField::HorizontalScrollBar(v) => NodeV::Leaf {
            label: "Horizontal Scroll Bar: "@ + dec_str(v as nat),
        },
        MapField::VerticalScrollBar(v) => NodeV::Leaf {
            label: "Vertical Scroll Bar: "@ + dec_str(v as nat),
        },
        MapField::ExtractedNode(v) => NodeV::Leaf {
            label: "Extracted Node: "@ + dec_str(v as nat),
        },
        MapField::BGM(v) => NodeV::Leaf { label: "BGM: "@ + dec_str(v as nat) },
        MapField::Backdrop(v) => NodeV::Leaf { label: "Backdrop: "@ + dec_str(v as nat) },
        MapField::BackdropFile(b) => NodeV::Leaf {
            label: "Backdrop File: "@ + byte_list_str(b@),
        },
        MapField::Teleport(v) => NodeV::Leaf { label: "Teleport: "@ + dec_str(v as nat) },
        MapField::Escape(v) => NodeV::Leaf { label: "Escape: "@ + dec_str(v as nat) },
        MapField::Save(v) => NodeV::Leaf { label: "Save: "@ + dec_str(v as nat) },
        MapField::EncounterEnemyGroup(b) => NodeV::Leaf {
            label: "Encounter Enemy Group: "@ + byte_list_str(b@),
        },
        MapField::EnemyAppearStep(v) => NodeV::Leaf {
            label: "Enemy Appear Step: "@ + dec_str(v as nat),
        },
        MapField::AreaRange { begin_x, begin_y, end_x, end_y } => NodeV::Dir {
            label: "Area Range"@,
            children: area_range_v(begin_x, begin_y, end_x, end_y),
        },
        MapField::BGMData(c) => NodeV::Dir {
            label: "BGM Data"@,
            children: Seq::new(c.items@.len(), |i: int| bgm_field_v(c.items@[i], page)),
        },
        MapField::Unknown { id, bytes } => unknown_field_v(id, bytes@),
    }
}

fn map_field_node(f: &MapField, page: CodePage) -> (r: TreeNode)
    ensures
        node_view(r) == map_field_v(*f, page),
{
    match f {
        MapField::Name(b) => TreeNode::Leaf { label: label_text("Name: ", page, b.as_slice()) },
        MapField::Parent(v) => TreeNode::Leaf { label: label_num("Parent: ", *v) },
        MapField::Kind(v) => TreeNode::Leaf { label: label_num("Type: ", *v) },
        MapField::HorizontalScrollBar(v) => TreeNode::Leaf {
            label: label_num("Horizontal Scroll Bar: ", *v),
        },
        MapField::VerticalScrollBar(v) => TreeNode::Leaf {
            label: label_num("Vertical Scroll Bar: ", *v),
        },
        MapField::ExtractedNode(v) => TreeNode::Leaf { label: label_num("Extracted Node: ", *v) },
        MapField::BGM(v) => TreeNode::Leaf { label: label_num("BGM: ", *v) },
        MapField::Backdrop(v) => TreeNode::Leaf { label: label_num("Backdrop: ", *v) },
        MapField::BackdropFile(b) => TreeNode::Leaf {
            label: label_bytes("Backdrop File: ", b.as_slice()),
        },
        MapField::Teleport(v) => TreeNode::Leaf { label: label_num("Teleport: ", *v) },
        MapField::Escape(v) => TreeNode::Leaf { label: label_num("Escape: ", *v) },
        MapField::Save(v) => TreeNode::Leaf { label: label_num("Save: ", *v) },
        MapField::EncounterEnemyGroup(b) => TreeNode::Leaf {
            label: label_bytes("Encounter Enemy Group: ", b.as_slice()),
        },
        MapField::EnemyAppearStep(v) => TreeNode::Leaf {
            label: label_num("Enemy Appear Step: ", *v),
        },
        MapField::AreaRange { begin_x, begin_y, end_x, end_y } => {
            let mut children: Vec<TreeNode> = Vec::new();
            children.push(TreeNode::Leaf { label: label_num("Begin X: ", *begin_x) });
            children.push(TreeNode::Leaf { label: label_num("Begin Y: ", *begin_y) });
            children.push(TreeNode::Leaf { label: label_num("End X: ", *end_x) });
            children.push(TreeNode::Leaf { label: label_num("End Y: ", *end_y) });
            proof {
                assert(list_view(children@) =~= area_range_v(*begin_x, *begin_y, *end_x, *end_y))
                    by {
                    assert(children@.len() == 4);
                    lemma_list_view_snoc(children@.take(3), children@[3]);
                    lemma_list_view_snoc(children@.take(2), children@[2]);
                    lemma_list_view_snoc(children@.take(1), children@[1]);
                    lemma_list_view_snoc(children@.take(0), children@[0]);
                    assert(children@.take(3).push(children@[3]) =~= children@);
                    assert(children@.take(2).push(children@[2]) =~= children@.take(3));
                    assert(children@.take(1).push(children@[1]) =~= children@.take(2));
                    assert(children@.take(0).push(children@[0]) =~= children@.take(1));
                    assert(list_view(children@.take(0)) =~= Seq::<NodeV>::empty());
                }
            }
            TreeNode::Dir { label: String::from_str("Area Range"), children }
        },
        MapField::BGMData(c) => {
            let mut children: Vec<TreeNode> = Vec::new();
            let mut j: usize = 0;
            proof {
                assert(list_view(children@) =~= Seq::new(0nat, |k: int| bgm_field_v(
                    c.items@[k],
                    page,
                )));
            }
            while j < c.items.len()
                invariant
                    j <= c.items@.len(),
                    list_view(children@) =~= Seq::new(j as nat, |k: int| bgm_field_v(
                        c.items@[k],
                        page,
                    )),
                decreases c.items@.len() - j,
            {
                let ghost cb = children@;
                let node = match &c.items[j] {
                    BgmField::FileName(b) => TreeNode::Leaf {
                        label: label_text("File Name: ", page, b.as_slice()),
                    },
                    BgmField::FadeInTime(v) => TreeNode::Leaf {
                        label: label_num("Fade-in Time: ", *v),
                    },
                    BgmField::Volume(v) => TreeNode::Leaf { label: label_num("Volume: ", *v) },
                    BgmField::Tempo(v) => TreeNode::Leaf { label: label_num("Tempo: ", *v) },
                    BgmField::Balance(v) => TreeNode::Leaf { label: label_num("Balance: ", *v) },
                    BgmField::Unknown { id, bytes } => unknown_field_leaf(*id, bytes),
                };
                children.push(node);
                proof {
                    lemma_list_view_snoc(cb, children@[children@.len() - 1]);
                    assert(node_view(children@[children@.len() - 1]) == bgm_field_v(
                        c.items@[j as int],
                        page,
                    ));
                    assert(list_view(children@) =~= Seq::new((j + 1) as nat, |k: int| bgm_field_v(
                        c.items@[k],
                        page,
                    )));
                }
                j = j + 1;
            }
            TreeNode::Dir { label: String::from_str("BGM Data"), children }
        },
        MapField::Unknown { id, bytes } => unknown_field_leaf(*id, bytes),
    }
}

/// One per-map record: a directory labelled with the map's wire identifier.
pub open spec fn map_entry_v(e: (u64, ChunkList<MapField>), page: CodePage) -> NodeV {
    NodeV::Dir {
        label: "Map "@ + dec_str(e.0 as nat),
        children: Seq::new(e.1.items@.len(), |i: int| map_field_v(e.1.items@[i], page)),
    }
}

/// The map records in order.
pub open spec fn maps_v(ms: Seq<(u64, ChunkList<MapField>)>, page: CodePage) -> Seq<NodeV> {
    Seq::new(ms.len(), |i: int| map_entry_v(ms[i], page))
}

/// The single root projected for the map list: the `Maps` directory.
pub open spec fn maps_dir_v(ms: Seq<(u64, ChunkList<MapField>)>, page: CodePage) -> NodeV {
    NodeV::Dir { label: "Maps"@, children: maps_v(ms, page) }
}

fn maps_dir_node(maps: &Vec<(u64, ChunkList<MapField>)>, page: CodePage) -> (r: TreeNode)
    ensures
        node_view(r) == maps_dir_v(maps@, page),
{
    let mut out: Vec<TreeNode> = Vec::new();
    let mut i: usize = 0;
    proof {
        assert(list_view(out@) =~= maps_v(maps@, page).take(0));
    }
    while i < maps.len()
        invariant
            i <= maps@.len(),
            list_view(out@) =~= maps_v(maps@, page).take(i as int),
        decreases maps@.len() - i,
    {
        let ghost before = out@;
        let entry = &maps[i];
        let mut children: Vec<TreeNode> = Vec::new();
        let mut j: usize = 0;
        proof {
            assert(list_view(children@) =~= Seq::new(0nat, |k: int| map_field_v(
                entry.1.items@[k],
                page,
            )));
        }
        while j < entry.1.items.len()
            invariant
                j <= entry.1.items@.len(),
                list_view(children@) =~= Seq::new(j as nat, |k: int| map_field_v(
                    entry.1.items@[k],
                    page,
                )),
            decreases entry.1.items@.len() - j,
        {
            let ghost cb = children@;
            children.push(map_field_node(&entry.1.items[j], page));
            proof {
                lemma_list_view_snoc(cb, children@[children@.len() - 1]);
                assert(list_view(children@) =~= Seq::new((j + 1) as nat, |k: int| map_field_v(
                    entry.1.items@[k],
                    page,
                )));
            }
            j = j + 1;
        }
        out.push(TreeNode::Dir { label: label_num("Map ", entry.0), children });
        proof {
            lemma_list_view_snoc(before, out@[out@.len() - 1]);
            assert(node_view(out@[out@.len() - 1]) == map_entry_v(maps@[i as int], page));
            assert(list_view(out@) =~= maps_v(maps@, page).take(i + 1 as int));
        }
        i = i + 1;
    }
    proof {
        assert(maps_v(maps@, page).take(maps@.len() as int) =~= maps_v(maps@, page));
    }
    TreeNode::Dir { label: String::from_str("Maps"), children: out }
}

/// The four projected roots of the document: the active-map leaf and the
/// order, start and map directories.
pub open spec fn nodes_v(doc: LcfMapTree, page: CodePage) -> Seq<NodeV> {
    seq![
        NodeV::Leaf { label: "Active: "@ + dec_str(doc.active as nat) },
        NodeV::Dir { label: "Order"@, children: order_leaves_v(doc.order@) },
        NodeV::Dir { label: "Start"@, children: start_fields_v(doc.start.items@) },
        maps_dir_v(doc.maps@, page),
    ]
}

/// The full emitter call sequence of one raw map-tree projection pass.
pub open spec fn update_calls(doc: LcfMapTree, page: CodePage) -> Seq<crate::tree::CallV> {
    calls_of_list(nodes_v(doc, page), 0, table_v(), 0)
}

/// The call sequence of a pass over the map list alone.
pub open spec fn update_maps_calls(ms: Seq<(u64, ChunkList<MapField>)>, page: CodePage) -> Seq<
    crate::tree::CallV,
> {
    calls_of_list(seq![maps_dir_v(ms, page)], 0, table_v(), 0)
}

/// The document fits the schema's bit budgets.
pub open spec fn wf(doc: LcfMapTree) -> bool {
    &&& doc.order@.len() < 0x10000
    &&& doc.start.items@.len() < 0x10000
    &&& doc.maps@.len() < 0x10000
    &&& forall|i: int|
        0 <= i < doc.maps@.len() ==> {
            &&& (#[trigger] doc.maps@[i]).1.items@.len() < 0x10000
            &&& forall|j: int|
                0 <= j < doc.maps@[i].1.items@.len() && doc.maps@[i].1.items@[j] is BGMData ==> (
                #[trigger] doc.maps@[i].1.items@[j])->BGMData_0.items@.len() < 0x100
        }
}

/// The projected tree fits the budget table.
pub proof fn lemma_wf_nodes(doc: LcfMapTree, page: CodePage)
    requires
        wf(doc),
    ensures
        wf_list(nodes_v(doc, page), table_v()),
{
    let t = table_v();
    let t1 = t.drop_first();
    let t2 = t1.drop_first();
    let t3 = t2.drop_first();
    assert(t1 =~= seq![16u64, 16u64, 8u64]);
    assert(t2 =~= seq![16u64, 8u64]);
    assert(t3 =~= seq![8u64]);
    vstd::arithmetic::power2::lemma2_to64();
    let ns = nodes_v(doc, page);
    assert(wf_node(ns[0], t1));
    assert(wf_list(order_leaves_v(doc.order@), t1));
    assert(wf_node(ns[1], t1));
    assert(wf_list(start_fields_v(doc.start.items@), t1));
    assert(wf_node(ns[2], t1));
    let ms = maps_v(doc.maps@, page);
    assert forall|i: int| 0 <= i < ms.len() implies wf_node(#[trigger] ms[i], t2) by {
        assert(ms[i] == map_entry_v(doc.maps@[i], page));
        let fields = Seq::new(doc.maps@[i].1.items@.len(), |k: int| map_field_v(
            doc.maps@[i].1.items@[k],
            page,
        ));
        assert forall|k: int| 0 <= k < fields.len() implies wf_node(#[trigger] fields[k], t3) by {
            assert(fields[k] == map_field_v(doc.maps@[i].1.items@[k], page));
            match doc.maps@[i].1.items@[k] {
                MapField::AreaRange { begin_x, begin_y, end_x, end_y } => {
                    assert(wf_list(area_range_v(begin_x, begin_y, end_x, end_y), t3));
                },
                MapField::BGMData(c) => {
                    assert(doc.maps@[i].1.items@[k] is BGMData);
                    assert(c.items@.len() < 0x100);
                    assert(wf_list(
                        Seq::new(c.items@.len(), |kk: int| bgm_field_v(c.items@[kk], page)),
                        t3,
                    ));
                },
                _ => {},
            }
        }
        assert(wf_list(fields, t2));
    }
    assert(wf_list(ms, t1));
    assert(wf_node(ns[3], t1));
    assert(wf_list(ns, t));
}

/// Projects the interpreted view of a map-tree document.
pub fn update(map_tree: &LcfMapTree, builder: &mut TreeEmitter, encoding: CodePage)
    requires
        wf(*map_tree),
    ensures
        calls_view(final(builder).calls@) == calls_view(old(builder).calls@) + update_calls(
            *map_tree,
            encoding,
        ),
{
    let mut nodes: Vec<TreeNode> = Vec::new();
    nodes.push(TreeNode::Leaf { label: label_num("Active: ", map_tree.active) });
    nodes.push(
        TreeNode::Dir { label: String::from_str("Order"), children: order_leaves(&map_tree.order) },
    );
    nodes.push(
        TreeNode::Dir {
            label: String::from_str("Start"),
            children: start_fields_nodes(&map_tree.start.items),
        },
    );
    nodes.push(maps_dir_node(&map_tree.maps, encoding));
    proof {
        lemma_list_view_snoc(nodes@.take(3), nodes@[3]);
        lemma_list_view_snoc(nodes@.take(2), nodes@[2]);
        lemma_list_view_snoc(nodes@.take(1), nodes@[1]);
        lemma_list_view_snoc(nodes@.take(0), nodes@[0]);
        assert(nodes@.take(3).push(nodes@[3]) =~= nodes@);
        assert(nodes@.take(2).push(nodes@[2]) =~= nodes@.take(3));
        assert(nodes@.take(1).push(nodes@[1]) =~= nodes@.take(2));
        assert(nodes@.take(0).push(nodes@[0]) =~= nodes@.take(1));
        assert(list_view(nodes@.take(0)) =~= Seq::<NodeV>::empty());
        assert(list_view(nodes@) =~= nodes_v(*map_tree, encoding));
        lemma_table_ok();
        lemma_wf_nodes(*map_tree, encoding);
    }
    let table = budgets();
    builder.emit(nodes, &table);
}

/// Projects the map list alone, as its `Maps` directory.
pub fn update_maps(
    maps: &Vec<(u64, ChunkList<MapField>)>,
    builder: &mut TreeEmitter,
    encoding: CodePage,
)
    requires
        maps@.len() < 0x10000,
        forall|i: int|
            0 <= i < maps@.len() ==> {
                &&& (#[trigger] maps@[i]).1.items@.len() < 0x10000
                &&& forall|j: int|
                    0 <= j < maps@[i].1.items@.len() && maps@[i].1.items@[j] is BGMData ==> (
                    #[trigger] maps@[i].1.items@[j])->BGMData_0.items@.len() < 0x100
            },
    ensures
        calls_view(final(builder).calls@) == calls_view(old(builder).calls@) + update_maps_calls(
            maps@,
            encoding,
        ),
{
    let mut nodes: Vec<TreeNode> = Vec::new();
    nodes.push(maps_dir_node(maps, encoding));
    proof {
        lemma_list_view_snoc(Seq::<TreeNode>::empty(), nodes@[0]);
        assert(list_view(nodes@) =~= seq![maps_dir_v(maps@, encoding)]);
        lemma_table_ok();
        let t = table_v();
        let t1 = t.drop_first();
        let t2 = t1.drop_first();
        let t3 = t2.drop_first();
        assert(t1 =~= seq![16u64, 16u64, 8u64]);
        assert(t2 =~= seq![16u64, 8u64]);
        assert(t3 =~= seq![8u64]);
        vstd::arithmetic::power2::lemma2_to64();
        let ms = maps_v(maps@, encoding);
        assert forall|i: int| 0 <= i < ms.len() implies wf_node(#[trigger] ms[i], t2) by {
            assert(ms[i] == map_entry_v(maps@[i], encoding));
            let fields = Seq::new(maps@[i].1.items@.len(), |k: int| map_field_v(
                maps@[i].1.items@[k],
                encoding,
            ));
            assert forall|k: int| 0 <= k < fields.len() implies wf_node(
                #[trigger] fields[k],
                t3,
            ) by {
                assert(fields[k] == map_field_v(maps@[i].1.items@[k], encoding));
                match maps@[i].1.items@[k] {
                    MapField::AreaRange { begin_x, begin_y, end_x, end_y } => {
                        assert(wf_list(area_range_v(begin_x, begin_y, end_x, end_y), t3));
                    },
                    MapField::BGMData(c) => {
                        assert(maps@[i].1.items@[k] is BGMData);
                        assert(c.items@.len() < 0x100);
                        assert(wf_list(
                            Seq::new(c.items@.len(), |kk: int| bgm_field_v(c.items@[kk], encoding)),
                            t3,
                        ));
                    },
                    _ => {},
                }
            }
            assert(wf_list(fields, t2));
        }
        assert(wf_list(ms, t1));
        assert(wf_node(maps_dir_v(maps@, encoding), t1));
        assert(wf_list(seq![maps_dir_v(maps@, encoding)], t));
    }
    let table = budgets();
    builder.emit(nodes, &table);
}

/// No collision: one interpreted map-tree pass never emits two nodes with one
/// identifier.
pub proof fn lemma_update_no_collision(doc: LcfMapTree, page: CodePage)
    requires
        wf(doc),
    ensures
        ({
            let es = crate::tree::emitted(update_calls(doc, page), 0);
            forall|t1: int, t2: int|
                0 <= t1 < t2 < es.len() ==> (#[trigger] es[t1]).1 != (#[trigger] es[t2]).1
        }),
{
    lemma_table_ok();
    lemma_wf_nodes(doc, page);
    crate::tree_props::lemma_no_collision(nodes_v(doc, page), table_v());
}

/// Balanced structure: the open and close calls of one interpreted map-tree
/// pass nest correctly.
pub proof fn lemma_update_balanced(doc: LcfMapTree, page: CodePage)
    requires
        wf(doc),
    ensures
        crate::tree::balanced(update_calls(doc, page)),
{
    lemma_table_ok();
    lemma_wf_nodes(doc, page);
    crate::tree_props::lemma_balanced(nodes_v(doc, page), table_v());
}

/// Code page isolation: changing only the code page changes only label text;
/// the emitted call kinds and identifiers stay the same.
pub proof fn lemma_update_page_isolation(doc: LcfMapTree, p1: CodePage, p2: CodePage)
    ensures
        crate::tree_props::shape_calls(update_calls(doc, p1)) == crate::tree_props::shape_calls(
            update_calls(doc, p2),
        ),
{
    let a = nodes_v(doc, p1);
    let b = nodes_v(doc, p2);
    assert forall|i: int| 0 <= i < a.len() implies crate::tree_props::same_shape_node(
        #[trigger] a[i],
        #[trigger] b[i],
    ) by {
        if i == 1 {
            crate::tree_props::lemma_same_shape_refl_list(order_leaves_v(doc.order@));
        } else if i == 2 {
            crate::tree_props::lemma_same_shape_refl_list(start_fields_v(doc.start.items@));
        } else if i == 3 {
            let x = maps_v(doc.maps@, p1);
            let y = maps_v(doc.maps@, p2);
            assert forall|j: int| 0 <= j < x.len() implies crate::tree_props::same_shape_node(
                #[trigger] x[j],
                #[trigger] y[j],
            ) by {
                let fx = Seq::new(doc.maps@[j].1.items@.len(), |k: int| map_field_v(
                    doc.maps@[j].1.items@[k],
                    p1,
                ));
                let fy = Seq::new(doc.maps@[j].1.items@.len(), |k: int| map_field_v(
                    doc.maps@[j].1.items@[k],
                    p2,
                ));
                assert forall|k: int| 0 <= k < fx.len() implies crate::tree_props::same_shape_node(
                    #[trigger] fx[k],
                    #[trigger] fy[k],
                ) by {
                    match doc.maps@[j].1.items@[k] {
                        MapField::AreaRange { begin_x, begin_y, end_x, end_y } => {
                            crate::tree_props::lemma_same_shape_refl_list(
                                area_range_v(begin_x, begin_y, end_x, end_y),
                            );
                        },
                        MapField::BGMData(c) => {
                            crate::tree_props::lemma_same_shape_pointwise(
                                Seq::new(c.items@.len(), |kk: int| bgm_field_v(c.items@[kk], p1)),
                                Seq::new(c.items@.len(), |kk: int| bgm_field_v(c.items@[kk], p2)),
                            );
                        },
                        _ => {},
                    }
                }
                crate::tree_props::lemma_same_shape_pointwise(fx, fy);
            }
            crate::tree_props::lemma_same_shape_pointwise(x, y);
        }
    }
    crate::tree_props::lemma_same_shape_pointwise(a, b);
    crate::tree_props::lemma_shape_calls(a, b, 0, table_v(), 0);
}


/// Totality: the document's four fixed groups — the active map, the order,
/// the start positions and the map list — each yield exactly one root node.
pub proof fn lemma_update_total(doc: LcfMapTree, page: CodePage)
    requires
        wf(doc),
    ensures
        crate::tree::count_at_depth(crate::tree::emitted(update_calls(doc, page), 0), 0) == 4,
{
    lemma_table_ok();
    lemma_wf_nodes(doc, page);
    crate::tree_props::lemma_root_count(nodes_v(doc, page), table_v());
}

} // verus!
