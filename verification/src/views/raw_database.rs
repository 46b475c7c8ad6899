//! The raw (wire-level) view of a database document: every chunk of the
//! stream is shown, dispatching on its numeric tag, with a byte-dump fallback
//! for tags the projector does not model.

use vstd::prelude::*;

use crate::code_page::CodePage;
use crate::project::ChunkList;
use crate::project::Command;
use crate::project::UnknownField;
use crate::project::commands_nodes;
use crate::project::commands_v;
use crate::project::null_leaf;
use crate::project::null_leaf_v;
use crate::project::unknown_chunk_leaf;
use crate::project::unknown_chunk_v;
use crate::project::unknown_field_leaf;
use crate::project::unknown_field_v;
use crate::text::bool_str;
use crate::text::byte_list_str;
use crate::text::dec;
use crate::text::dec_str;
use crate::text::decoded_text;
use crate::text::label_bool;
use crate::text::label_bytes;
use crate::text::label_num;
use crate::text::label_text;
use crate::text::num_list;
use crate::text::num_list_str;
use crate::text::page_code;
use crate::tree::NodeV;
use crate::tree::TreeEmitter;
use crate::tree::TreeNode;
use crate::tree::calls_of_list;
use crate::tree::calls_view;
use crate::tree::lemma_list_view_snoc;
use crate::tree::list_view;
use crate::tree::node_view;
use crate::tree::table_ok;
use crate::tree::wf_list;
use crate::tree::wf_node;

verus! {

/// A raw database document: its top-level chunk stream.
pub struct RawDataBase(pub ChunkList<DbChunk>);

/// One top-level database chunk, by wire tag.
pub enum DbChunk {
    Actors(Vec<u8>),
    Skills(Vec<u8>),
    Items(Vec<u8>),
    Enemies(Vec<(u64, ChunkList<UnknownField>)>),
    Troops(ChunkList<UnknownField>),
    Terrain(Vec<u8>),
    Attributes(ChunkList<UnknownField>),
    States(ChunkList<UnknownField>),
    Animations(Vec<u8>),
    ChipSet(Vec<(u64, ChunkList<ChipSetField>)>),
    Terms(ChunkList<TermField>),
    System(ChunkList<UnknownField>),
    Switches(Vec<(u64, ChunkList<SwitchField>)>),
    Variables(Vec<(u64, ChunkList<VariableField>)>),
    CommonEvents(Vec<(u64, ChunkList<CommonEventField>)>),
    Version(Vec<u8>),
    Unknown { id: u64, bytes: Vec<u8> },
}

/// One field of a tileset record.
pub enum ChipSetField {
    Name(Vec<u8>),
    File(Vec<u8>),
    Terrain(Vec<u64>),
    PassabilityLower(Vec<u64>),
    PassabilityUpper(Vec<u64>),
    AnimationType(u64),
    AnimationSpeed(u64),
    Unknown { id: u64, bytes: Vec<u8> },
}

/// One vocabulary term: its wire tag and its encoded text.
pub struct TermField {
    pub id: u64,
    pub bytes: Vec<u8>,
}

/// One field of a switch record.
pub enum SwitchField {
    Name(Vec<u8>),
    Unknown { id: u64, bytes: Vec<u8> },
}

/// One field of a variable record.
pub enum VariableField {
    Name(Vec<u8>),
    Unknown { id: u64, bytes: Vec<u8> },
}

/// One field of a common-event record.
pub enum CommonEventField {
    Name(Vec<u8>),
    Trigger(u64),
    SwitchState(u64),
    SwitchID(u64),
    CommandsSize(u64),
    Commands(Vec<Command>),
    Unknown { id: u64, bytes: Vec<u8> },
}

/// The bit budgets of the raw database schema: top-level chunks, collection
/// entries, entry fields, script instructions.
pub open spec fn table_v() -> Seq<u64> {
    seq![8u64, 16u64, 16u64, 16u64]
}

/// The budget table as a vector.
pub fn budgets() -> (r: Vec<u64>)
    ensures
        r@ == table_v(),
{
    let mut v: Vec<u64> = Vec::new();
    v.push(8);
    v.push(16);
    v.push(16);
    v.push(16);
    proof {
        assert(v@ =~= table_v());
    }
    v
}

/// The budget table is usable.
pub proof fn lemma_table_ok()
    ensures
        table_ok(table_v()),
{
    let t = table_v();
    let t1 = seq![16u64, 16u64, 16u64];
    let t2 = seq![16u64, 16u64];
    let t3 = seq![16u64];
    assert(t.drop_first() =~= t1);
    assert(t1.drop_first() =~= t2);
    assert(t2.drop_first() =~= t3);
    assert(t3.drop_first() =~= Seq::<u64>::empty());
    assert(crate::tree::sum_bits(Seq::<u64>::empty()) == 0);
    assert(crate::tree::sum_bits(t3) == 16);
    assert(crate::tree::sum_bits(t2) == 32);
    assert(crate::tree::sum_bits(t1) == 48);
    assert(crate::tree::sum_bits(t) == 56);
}

/// The children of an unknown-field collection: the termination leaf, then
/// one leaf per field.
pub open spec fn draw_chunks_v(c: ChunkList<UnknownField>) -> Seq<NodeV> {
    seq![null_leaf_v(c.null_terminated)] + Seq::new(
        c.items@.len(),
        |i: int| unknown_field_v(c.items@[i].id, c.items@[i].bytes@),
    )
}

/// Projects an unknown-field collection; see [`draw_chunks_v`].
pub fn draw_chunks(chunks: &ChunkList<UnknownField>) -> (r: Vec<TreeNode>)
    ensures
        list_view(r@) == draw_chunks_v(*chunks),
{
    let mut out: Vec<TreeNode> = Vec::new();
    out.push(null_leaf(chunks.null_terminated));
    proof {
        lemma_list_view_snoc(Seq::<TreeNode>::empty(), out@[0]);
        assert(list_view(out@) =~= seq![null_leaf_v(chunks.null_terminated)]);
    }
    let mut i: usize = 0;
    while i < chunks.items.len()
        invariant
            i <= chunks.items@.len(),
            list_view(out@) =~= seq![null_leaf_v(chunks.null_terminated)] + Seq::new(
                i as nat,
                |j: int| unknown_field_v(chunks.items@[j].id, chunks.items@[j].bytes@),
            ),
        decreases chunks.items@.len() - i,
    {
        let ghost before = out@;
        let f = &chunks.items[i];
        out.push(unknown_field_leaf(f.id, &f.bytes));
        proof {
            lemma_list_view_snoc(before, out@[out@.len() - 1]);
            assert(list_view(out@) =~= seq![null_leaf_v(chunks.null_terminated)] + Seq::new(
                (i + 1) as nat,
                |j: int| unknown_field_v(chunks.items@[j].id, chunks.items@[j].bytes@),
            ));
        }
        i = i + 1;
    }
    proof {
        assert(list_view(out@) =~= draw_chunks_v(*chunks));
    }
    out
}

/// One enemy entry: a directory labelled with its zero-based position.
pub open spec fn enemy_entry_v(i: int, e: (u64, ChunkList<UnknownField>)) -> NodeV {
    NodeV::Dir { label: dec_str(i as nat), children: draw_chunks_v(e.1) }
}

/// The enemy entries in order.
pub open spec fn enemies_v(es: Seq<(u64, ChunkList<UnknownField>)>) -> Seq<NodeV> {
    Seq::new(es.len(), |i: int| enemy_entry_v(i, es[i]))
}

fn enemies_nodes(es: &Vec<(u64, ChunkList<UnknownField>)>) -> (r: Vec<TreeNode>)
    requires
        es@.len() < 0x1_0000_0000_0000_0000,
    ensures
        list_view(r@) == enemies_v(es@),
{
    let mut out: Vec<TreeNode> = Vec::new();
    let mut i: usize = 0;
    proof {
        assert(list_view(out@) =~= enemies_v(es@).take(0));
    }
    while i < es.len()
        invariant
            i <= es@.len(),
            es@.len() < 0x1_0000_0000_0000_0000,
            list_view(out@) =~= enemies_v(es@).take(i as int),
        decreases es@.len() - i,
    {
        let ghost before = out@;
        let children = draw_chunks(&es[i].1);
        out.push(TreeNode::Dir { label: dec(i as u64), children });
        proof {
            lemma_list_view_snoc(before, out@[out@.len() - 1]);
            assert(node_view(out@[out@.len() - 1]) == enemy_entry_v(i as int, es@[i as int]));
            assert(list_view(out@) =~= enemies_v(es@).take(i + 1 as int));
        }
        i = i + 1;
    }
    proof {
        assert(enemies_v(es@).take(es@.len() as int) =~= enemies_v(es@));
    }
    out
}

/// The label of one tileset field.
pub open spec fn chipset_field_v(f: ChipSetField, page: CodePage) -> NodeV {
    match f {
        ChipSetField::Name(b) => NodeV::Leaf {
            label: "Name: "@ + decoded_text(page_code(page), b@),
        },
        ChipSetField::File(b) => NodeV::Leaf {
            label: "File: "@ + decoded_text(page_code(page), b@),
        },
        ChipSetField::Terrain(v) => NodeV::Leaf { label: "Terrain: "@ + num_list_str(v@) },
        ChipSetField::PassabilityLower(v) => NodeV::Leaf {
            label: "Passable (Lower): "@ + num_list_str(v@),
        },
        ChipSetField::PassabilityUpper(v) => NodeV::Leaf {
            label: "Passable (Upper): "@ + num_list_str(v@),
        },
        ChipSetField::AnimationType(v) => NodeV::Leaf {
            label: "Animation Type: "@ + dec_str(v as nat),
        },
        ChipSetField::AnimationSpeed(v) => NodeV::Leaf {
            label: "Animation Speed: "@ + dec_str(v as nat),
        },
        ChipSetField::Unknown { id, bytes } => unknown_field_v(id, bytes@),
    }
}

fn chipset_field_node(f: &ChipSetField, page: CodePage) -> (r: TreeNode)
    ensures
        node_view(r) == chipset_field_v(*f, page),
{
    match f {
        ChipSetField::Name(b) => TreeNode::Leaf { label: label_text("Name: ", page, b.as_slice()) },
        ChipSetField::File(b) => TreeNode::Leaf { label: label_text("File: ", page, b.as_slice()) },
        ChipSetField::Terrain(v) => TreeNode::Leaf {
            label: String::from_str("Terrain: ").concat(num_list(v.as_slice()).as_str()),
        },
        ChipSetField::PassabilityLower(v) => TreeNode::Leaf {
            label: String::from_str("Passable (Lower): ").concat(num_list(v.as_slice()).as_str()),
        },
        ChipSetField::PassabilityUpper(v) => TreeNode::Leaf {
            label: String::from_str("Passable (Upper): ").concat(num_list(v.as_slice()).as_str()),
        },
        ChipSetField::AnimationType(v) => TreeNode::Leaf { label: label_num("Animation Type: ", *v) },
        ChipSetField::AnimationSpeed(v) => TreeNode::Leaf {
            label: label_num("Animation Speed: ", *v),
        },
        ChipSetField::Unknown { id, bytes } => unknown_field_leaf(*id, bytes),
    }
}

/// One tileset record: a directory labelled with its wire identifier.
pub open spec fn chipset_entry_v(e: (u64, ChunkList<ChipSetField>), page: CodePage) -> NodeV {
    NodeV::Dir {
        label: "ChipSet "@ + dec_str(e.0 as nat),
        children: Seq::new(e.1.items@.len(), |i: int| chipset_field_v(e.1.items@[i], page)),
    }
}

/// The tileset records in order.
pub open spec fn chipsets_v(cs: Seq<(u64, ChunkList<ChipSetField>)>, page: CodePage) -> Seq<
    NodeV,
> {
    Seq::new(cs.len(), |i: int| chipset_entry_v(cs[i], page))
}

/// Projects the tileset records; each becomes a directory of field leaves.
pub fn update_chipset(chipsets: &Vec<(u64, ChunkList<ChipSetField>)>, page: CodePage) -> (r: Vec<
    TreeNode,
>)
    ensures
        list_view(r@) == chipsets_v(chipsets@, page),
{
    let mut out: Vec<TreeNode> = Vec::new();
    let mut i: usize = 0;
    proof {
        assert(list_view(out@) =~= chipsets_v(chipsets@, page).take(0));
    }
    while i < chipsets.len()
        invariant
            i <= chipsets@.len(),
            list_view(out@) =~= chipsets_v(chipsets@, page).take(i as int),
        decreases chipsets@.len() - i,
    {
        let ghost before = out@;
        let entry = &chipsets[i];
        let mut children: Vec<TreeNode> = Vec::new();
        let mut j: usize = 0;
        proof {
            assert(list_view(children@) =~= Seq::new(0nat, |k: int| chipset_field_v(
                entry.1.items@[k],
                page,
            )));
        }
        while j < entry.1.items.len()
            invariant
                j <= entry.1.items@.len(),
                list_view(children@) =~= Seq::new(j as nat, |k: int| chipset_field_v(
                    entry.1.items@[k],
                    page,
                )),
            decreases entry.1.items@.len() - j,
        {
            let ghost cb = children@;
            children.push(chipset_field_node(&entry.1.items[j], page));
            proof {
                lemma_list_view_snoc(cb, children@[children@.len() - 1]);
                assert(list_view(children@) =~= Seq::new((j + 1) as nat, |k: int| chipset_field_v(
                    entry.1.items@[k],
                    page,
                )));
            }
            j = j + 1;
        }
        out.push(TreeNode::Dir { label: label_num("ChipSet ", entry.0), children });
        proof {
            lemma_list_view_snoc(before, out@[out@.len() - 1]);
            assert(node_view(out@[out@.len() - 1]) == chipset_entry_v(chipsets@[i as int], page));
            assert(list_view(out@) =~= chipsets_v(chipsets@, page).take(i + 1 as int));
        }
        i = i + 1;
    }
    proof {
        assert(chipsets_v(chipsets@, page).take(chipsets@.len() as int) =~= chipsets_v(
            chipsets@,
            page,
        ));
    }
    out
}

/// The children of the vocabulary chunk: the termination leaf, then one leaf
/// per term with its tag and decoded text.
pub open spec fn terms_children_v(t: ChunkList<TermField>, page: CodePage) -> Seq<NodeV> {
    seq![null_leaf_v(t.null_terminated)] + Seq::new(
        t.items@.len(),
        |i: int| NodeV::Leaf {
            label: "Term "@ + dec_str(t.items@[i].id as nat) + ": "@ + decoded_text(
                page_code(page),
                t.items@[i].bytes@,
            ),
        },
    )
}

fn terms_children(t: &ChunkList<TermField>, page: CodePage) -> (r: Vec<TreeNode>)
    ensures
        list_view(r@) == terms_children_v(*t, page),
{
    let mut out: Vec<TreeNode> = Vec::new();
    out.push(null_leaf(t.null_terminated));
    proof {
        lemma_list_view_snoc(Seq::<TreeNode>::empty(), out@[0]);
        assert(list_view(out@) =~= terms_children_v(*t, page).take(1));
    }
    let mut i: usize = 0;
    while i < t.items.len()
        invariant
            i <= t.items@.len(),
            list_view(out@) =~= terms_children_v(*t, page).take(i + 1),
        decreases t.items@.len() - i,
    {
        let ghost before = out@;
        let f = &t.items[i];
        let label = label_num("Term ", f.id).concat(": ").concat(
            crate::text::decode_bytes(page, f.bytes.as_slice()).as_str(),
        );
        proof {
            assert(label@ =~= "Term "@ + dec_str(f.id as nat) + ": "@ + decoded_text(
                page_code(page),
                f.bytes@,
            ));
        }
        out.push(TreeNode::Leaf { label });
        proof {
            lemma_list_view_snoc(before, out@[out@.len() - 1]);
            assert(list_view(out@) =~= terms_children_v(*t, page).take(i + 2));
        }
        i = i + 1;
    }
    proof {
        assert(terms_children_v(*t, page).take(t.items@.len() as int + 1) =~= terms_children_v(*t, page));
    }
    out
}

/// One switch or variable field: a name decodes to its bare text, an unknown
/// tag to its byte dump.
pub open spec fn switch_field_v(f: SwitchField, page: CodePage) -> NodeV {
    match f {
        SwitchField::Name(b) => NodeV::Leaf { label: decoded_text(page_code(page), b@) },
        SwitchField::Unknown { id, bytes } => unknown_field_v(id, bytes@),
    }
}

/// See [`switch_field_v`].
pub open spec fn variable_field_v(f: VariableField, page: CodePage) -> NodeV {
    match f {
        VariableField::Name(b) => NodeV::Leaf { label: decoded_text(page_code(page), b@) },
        VariableField::Unknown { id, bytes } => unknown_field_v(id, bytes@),
    }
}

/// One switch entry: a directory labelled with its wire identifier, holding
/// the termination leaf and the entry's fields.
pub open spec fn switch_entry_v(e: (u64, ChunkList<SwitchField>), page: CodePage) -> NodeV {
    NodeV::Dir {
        label: dec_str(e.0 as nat),
        children: seq![null_leaf_v(e.1.null_terminated)] + Seq::new(
            e.1.items@.len(),
            |i: int| switch_field_v(e.1.items@[i], page),
        ),
    }
}

/// The switch entries in order.
pub open spec fn switches_v(es: Seq<(u64, ChunkList<SwitchField>)>, page: CodePage) -> Seq<NodeV> {
    Seq::new(es.len(), |i: int| switch_entry_v(es[i], page))
}

fn switches_nodes(es: &Vec<(u64, ChunkList<SwitchField>)>, page: CodePage) -> (r: Vec<TreeNode>)
    ensures
        list_view(r@) == switches_v(es@, page),
{
    let mut out: Vec<TreeNode> = Vec::new();
    let mut i: usize = 0;
    proof {
        assert(list_view(out@) =~= switches_v(es@, page).take(0));
    }
    while i < es.len()
        invariant
            i <= es@.len(),
            list_view(out@) =~= switches_v(es@, page).take(i as int),
        decreases es@.len() - i,
    {
        let ghost before = out@;
        let entry = &es[i];
        let mut children: Vec<TreeNode> = Vec::new();
        children.push(null_leaf(entry.1.null_terminated));
        proof {
            lemma_list_view_snoc(Seq::<TreeNode>::empty(), children@[0]);
            assert(list_view(children@) =~= (seq![null_leaf_v(entry.1.null_terminated)] + Seq::new(
                entry.1.items@.len(),
                |k: int| switch_field_v(entry.1.items@[k], page),
            )).take(1));
        }
        let mut j: usize = 0;
        while j < entry.1.items.len()
            invariant
                j <= entry.1.items@.len(),
                list_view(children@) =~= (seq![null_leaf_v(entry.1.null_terminated)] + Seq::new(
                    entry.1.items@.len(),
                    |k: int| switch_field_v(entry.1.items@[k], page),
                )).take(j + 1),
            decreases entry.1.items@.len() - j,
        {
            let ghost cb = children@;
            let node = match &entry.1.items[j] {
                SwitchField::Name(b) => TreeNode::Leaf {
                    label: crate::text::decode_bytes(page, b.as_slice()),
                },
                SwitchField::Unknown { id, bytes } => unknown_field_leaf(*id, bytes),
            };
            children.push(node);
            proof {
                lemma_list_view_snoc(cb, children@[children@.len() - 1]);
                assert(node_view(children@[children@.len() - 1]) == switch_field_v(
                    entry.1.items@[j as int],
                    page,
                ));
                assert(list_view(children@) =~= (seq![null_leaf_v(entry.1.null_terminated)]
                    + Seq::new(entry.1.items@.len(), |k: int| switch_field_v(
                    entry.1.items@[k],
                    page,
                ))).take(j + 2));
            }
            j = j + 1;
        }
        out.push(TreeNode::Dir { label: dec(entry.0), children });
        proof {
            assert((seq![null_leaf_v(entry.1.null_terminated)] + Seq::new(
                entry.1.items@.len(),
                |k: int| switch_field_v(entry.1.items@[k], page),
            )).take(entry.1.items@.len() as int + 1) =~= seq![null_leaf_v(entry.1.null_terminated)]
                + Seq::new(entry.1.items@.len(), |k: int| switch_field_v(
                entry.1.items@[k],
                page,
            )));
            lemma_list_view_snoc(before, out@[out@.len() - 1]);
            assert(node_view(out@[out@.len() - 1]) == switch_entry_v(es@[i as int], page));
            assert(list_view(out@) =~= switches_v(es@, page).take(i + 1 as int));
        }
        i = i + 1;
    }
    proof {
        assert(switches_v(es@, page).take(es@.len() as int) =~= switches_v(es@, page));
    }
    out
}

/// One variable entry; see [`switch_entry_v`].
pub open spec fn variable_entry_v(e: (u64, ChunkList<VariableField>), page: CodePage) -> NodeV {
    NodeV::Dir {
        label: dec_str(e.0 as nat),
        children: seq![null_leaf_v(e.1.null_terminated)] + Seq::new(
            e.1.items@.len(),
            |i: int| variable_field_v(e.1.items@[i], page),
        ),
    }
}

/// The variable entries in order.
pub open spec fn variables_v(es: Seq<(u64, ChunkList<VariableField>)>, page: CodePage) -> Seq<
    NodeV,
> {
    Seq::new(es.len(), |i: int| variable_entry_v(es[i], page))
}

fn variables_nodes(es: &Vec<(u64, ChunkList<VariableField>)>, page: CodePage) -> (r: Vec<TreeNode>)
    ensures
        list_view(r@) == variables_v(es@, page),
{
    let mut out: Vec<TreeNode> = Vec::new();
    let mut i: usize = 0;
    proof {
        assert(list_view(out@) =~= variables_v(es@, page).take(0));
    }
    while i < es.len()
        invariant
            i <= es@.len(),
            list_view(out@) =~= variables_v(es@, page).take(i as int),
        decreases es@.len() - i,
    {
        let ghost before = out@;
        let entry = &es[i];
        let mut children: Vec<TreeNode> = Vec::new();
        children.push(null_leaf(entry.1.null_terminated));
        proof {
            lemma_list_view_snoc(Seq::<TreeNode>::empty(), children@[0]);
            assert(list_view(children@) =~= (seq![null_leaf_v(entry.1.null_terminated)] + Seq::new(
                entry.1.items@.len(),
                |k: int| variable_field_v(entry.1.items@[k], page),
            )).take(1));
        }
        let mut j: usize = 0;
        while j < entry.1.items.len()
            invariant
                j <= entry.1.items@.len(),
                list_view(children@) =~= (seq![null_leaf_v(entry.1.null_terminated)] + Seq::new(
                    entry.1.items@.len(),
                    |k: int| variable_field_v(entry.1.items@[k], page),
                )).take(j + 1),
            decreases entry.1.items@.len() - j,
        {
            let ghost cb = children@;
            let node = match &entry.1.items[j] {
                VariableField::Name(b) => TreeNode::Leaf {
                    label: crate::text::decode_bytes(page, b.as_slice()),
                },
                VariableField::Unknown { id, bytes } => unknown_field_leaf(*id, bytes),
            };
            children.push(node);
            proof {
                lemma_list_view_snoc(cb, children@[children@.len() - 1]);
                assert(node_view(children@[children@.len() - 1]) == variable_field_v(
                    entry.1.items@[j as int],
                    page,
                ));
                assert(list_view(children@) =~= (seq![null_leaf_v(entry.1.null_terminated)]
                    + Seq::new(entry.1.items@.len(), |k: int| variable_field_v(
                    entry.1.items@[k],
                    page,
                ))).take(j + 2));
            }
            j = j + 1;
        }
        out.push(TreeNode::Dir { label: dec(entry.0), children });
        proof {
            assert((seq![null_leaf_v(entry.1.null_terminated)] + Seq::new(
                entry.1.items@.len(),
                |k: int| variable_field_v(entry.1.items@[k], page),
            )).take(entry.1.items@.len() as int + 1) =~= seq![null_leaf_v(entry.1.null_terminated)]
                + Seq::new(entry.1.items@.len(), |k: int| variable_field_v(
                entry.1.items@[k],
                page,
            )));
            lemma_list_view_snoc(before, out@[out@.len() - 1]);
            assert(node_view(out@[out@.len() - 1]) == variable_entry_v(es@[i as int], page));
            assert(list_view(out@) =~= variables_v(es@, page).take(i + 1 as int));
        }
        i = i + 1;
    }
    proof {
        assert(variables_v(es@, page).take(es@.len() as int) =~= variables_v(es@, page));
    }
    out
}

/// The human-readable name of a common-event trigger value; out-of-range
/// values fall back to the bare number.
pub open spec fn trigger_text(v: u64) -> Seq<char> {
    if v == 0 {
        "Action Button"@
    } else if v == 1 {
        "Player Touch"@
    } else if v == 2 {
        "Event Touch"@
    } else if v == 3 {
        "Autorun"@
    } else if v == 4 {
        "Parallel process"@
    } else {
        dec_str(v as nat)
    }
}

fn trigger_label(v: u64) -> (r: String)
    ensures
        r@ == "Trigger: "@ + trigger_text(v),
{
    let name: String = if v == 0 {
        String::from_str("Action Button")
    } else if v == 1 {
        String::from_str("Player Touch")
    } else if v == 2 {
        String::from_str("Event Touch")
    } else if v == 3 {
        String::from_str("Autorun")
    } else if v == 4 {
        String::from_str("Parallel process")
    } else {
        dec(v)
    };
    String::from_str("Trigger: ").concat(name.as_str())
}

/// One common-event field.
pub open spec fn ce_field_v(f: CommonEventField, page: CodePage) -> NodeV {
    match f {
        CommonEventField::Name(b) => NodeV::Leaf { label: decoded_text(page_code(page), b@) },
        CommonEventField::Trigger(v) => NodeV::Leaf { label: "Trigger: "@ + trigger_text(v) },
        CommonEventField::SwitchState(v) => NodeV::Leaf {
            label: "Switch state: "@ + bool_str(v != 0),
        },
        CommonEventField::SwitchID(v) => NodeV::Leaf { label: "Switch: "@ + dec_str(v as nat) },
        CommonEventField::CommandsSize(v) => NodeV::Leaf {
            label: "Commands size: "@ + dec_str(v as nat),
        },
        CommonEventField::Commands(cmds) => NodeV::Dir {
            label: "Commands"@,
            children: commands_v(cmds@, page),
        },
        CommonEventField::Unknown { id, bytes } => unknown_field_v(id, bytes@),
    }
}

fn ce_field_node(f: &CommonEventField, page: CodePage) -> (r: TreeNode)
    requires
        f is Commands ==> f->Commands_0@.len() < 0x1_0000_0000_0000_0000,
    ensures
        node_view(r) == ce_field_v(*f, page),
{
    match f {
        CommonEventField::Name(b) => TreeNode::Leaf {
            label: crate::text::decode_bytes(page, b.as_slice()),
        },
        CommonEventField::Trigger(v) => TreeNode::Leaf { label: trigger_label(*v) },
        CommonEventField::SwitchState(v) => TreeNode::Leaf {
            label: label_bool("Switch state: ", *v != 0),
        },
        CommonEventField::SwitchID(v) => TreeNode::Leaf { label: label_num("Switch: ", *v) },
        CommonEventField::CommandsSize(v) => TreeNode::Leaf {
            label: label_num("Commands size: ", *v),
        },
        CommonEventField::Commands(cmds) => TreeNode::Dir {
            label: String::from_str("Commands"),
            children: commands_nodes(cmds, page),
        },
        CommonEventField::Unknown { id, bytes } => unknown_field_leaf(*id, bytes),
    }
}

/// One common-event entry: a directory labelled with its wire identifier,
/// holding the termination leaf and the event's fields.
pub open spec fn ce_entry_v(e: (u64, ChunkList<CommonEventField>), page: CodePage) -> NodeV {
    NodeV::Dir {
        label: dec_str(e.0 as nat),
        children: seq![null_leaf_v(e.1.null_terminated)] + Seq::new(
            e.1.items@.len(),
            |i: int| ce_field_v(e.1.items@[i], page),
        ),
    }
}

/// The common-event entries in order.
pub open spec fn common_events_v(es: Seq<(u64, ChunkList<CommonEventField>)>, page: CodePage) -> Seq<
    NodeV,
> {
    Seq::new(es.len(), |i: int| ce_entry_v(es[i], page))
}

fn common_events_nodes(es: &Vec<(u64, ChunkList<CommonEventField>)>, page: CodePage) -> (r: Vec<
    TreeNode,
>)
    requires
        forall|i: int, j: int|
            0 <= i < es@.len() && 0 <= j < es@[i].1.items@.len() && es@[i].1.items@[j] is Commands
                ==> (#[trigger] es@[i].1.items@[j])->Commands_0@.len() < 0x1_0000_0000_0000_0000,
    ensures
        list_view(r@) == common_events_v(es@, page),
{
    let mut out: Vec<TreeNode> = Vec::new();
    let mut i: usize = 0;
    proof {
        assert(list_view(out@) =~= common_events_v(es@, page).take(0));
    }
    while i < es.len()
        invariant
            i <= es@.len(),
            forall|a: int, j: int|
                0 <= a < es@.len() && 0 <= j < es@[a].1.items@.len() && es@[a].1.items@[j] is Commands
                    ==> (#[trigger] es@[a].1.items@[j])->Commands_0@.len()
                    < 0x1_0000_0000_0000_0000,
            list_view(out@) =~= common_events_v(es@, page).take(i as int),
        decreases es@.len() - i,
    {
        let ghost before = out@;
        let entry = &es[i];
        let mut children: Vec<TreeNode> = Vec::new();
        children.push(null_leaf(entry.1.null_terminated));
        proof {
            lemma_list_view_snoc(Seq::<TreeNode>::empty(), children@[0]);
            assert(list_view(children@) =~= (seq![null_leaf_v(entry.1.null_terminated)] + Seq::new(
                entry.1.items@.len(),
                |k: int| ce_field_v(entry.1.items@[k], page),
            )).take(1));
        }
        let mut j: usize = 0;
        while j < entry.1.items.len()
            invariant
                j <= entry.1.items@.len(),
                0 <= i < es@.len(),
                entry == &es@[i as int],
                forall|jj: int|
                    0 <= jj < entry.1.items@.len() && entry.1.items@[jj] is Commands ==> (
                    #[trigger] entry.1.items@[jj])->Commands_0@.len() < 0x1_0000_0000_0000_0000,
                list_view(children@) =~= (seq![null_leaf_v(entry.1.null_terminated)] + Seq::new(
                    entry.1.items@.len(),
                    |k: int| ce_field_v(entry.1.items@[k], page),
                )).take(j + 1),
            decreases entry.1.items@.len() - j,
        {
            let ghost cb = children@;
            children.push(ce_field_node(&entry.1.items[j], page));
            proof {
                lemma_list_view_snoc(cb, children@[children@.len() - 1]);
                assert(node_view(children@[children@.len() - 1]) == ce_field_v(
                    entry.1.items@[j as int],
                    page,
                ));
                assert(list_view(children@) =~= (seq![null_leaf_v(entry.1.null_terminated)]
                    + Seq::new(entry.1.items@.len(), |k: int| ce_field_v(
                    entry.1.items@[k],
                    page,
                ))).take(j + 2));
            }
            j = j + 1;
        }
        out.push(TreeNode::Dir { label: dec(entry.0), children });
        proof {
            assert((seq![null_leaf_v(entry.1.null_terminated)] + Seq::new(
                entry.1.items@.len(),
                |k: int| ce_field_v(entry.1.items@[k], page),
            )).take(entry.1.items@.len() as int + 1) =~= seq![null_leaf_v(entry.1.null_terminated)]
                + Seq::new(entry.1.items@.len(), |k: int| ce_field_v(entry.1.items@[k], page)));
            lemma_list_view_snoc(before, out@[out@.len() - 1]);
            assert(node_view(out@[out@.len() - 1]) == ce_entry_v(es@[i as int], page));
            assert(list_view(out@) =~= common_events_v(es@, page).take(i + 1 as int));
        }
        i = i + 1;
    }
    proof {
        assert(common_events_v(es@, page).take(es@.len() as int) =~= common_events_v(es@, page));
    }
    out
}

/// The node projected for one top-level chunk.
pub open spec fn chunk_v(c: DbChunk, page: CodePage) -> NodeV {
    match c {
        DbChunk::Actors(b) => NodeV::Leaf { label: "Actors: "@ + byte_list_str(b@) },
        DbChunk::Skills(b) => NodeV::Leaf { label: "Skills: "@ + byte_list_str(b@) },
        DbChunk::Items(b) => NodeV::Leaf { label: "Items: "@ + byte_list_str(b@) },
        DbChunk::Enemies(es) => NodeV::Dir { label: "Enemies"@, children: enemies_v(es@) },
        DbChunk::Troops(t) => NodeV::Dir { label: "Troops"@, children: draw_chunks_v(t) },
        DbChunk::Terrain(b) => NodeV::Leaf { label: "Terrain: "@ + byte_list_str(b@) },
        DbChunk::Attributes(t) => NodeV::Dir { label: "Attributes"@, children: draw_chunks_v(t) },
        DbChunk::States(t) => NodeV::Dir { label: "States"@, children: draw_chunks_v(t) },
        DbChunk::Animations(b) => NodeV::Leaf { label: "Animations: "@ + byte_list_str(b@) },
        DbChunk::ChipSet(cs) => NodeV::Dir {
            label: "Chipset"@,
            children: chipsets_v(cs@, page),
        },
        DbChunk::Terms(t) => NodeV::Dir { label: "Terms"@, children: terms_children_v(t, page) },
        DbChunk::System(t) => NodeV::Dir { label: "System"@, children: draw_chunks_v(t) },
        DbChunk::Switches(es) => NodeV::Dir {
            label: "Switches"@,
            children: switches_v(es@, page),
        },
        DbChunk::Variables(es) => NodeV::Dir {
            label: "Variables"@,
            children: variables_v(es@, page),
        },
        DbChunk::CommonEvents(es) => NodeV::Dir {
            label: "Common Events"@,
            children: common_events_v(es@, page),
        },
        DbChunk::Version(b) => NodeV::Leaf { label: "Version: "@ + byte_list_str(b@) },
        DbChunk::Unknown { id, bytes } => unknown_chunk_v(id, bytes@),
    }
}

/// The projected roots of the whole document, one per chunk.
pub open spec fn nodes_v(doc: RawDataBase, page: CodePage) -> Seq<NodeV> {
    Seq::new(doc.0.items@.len(), |i: int| chunk_v(doc.0.items@[i], page))
}

/// The full emitter call sequence of one raw database projection pass.
pub open spec fn update_calls(doc: RawDataBase, page: CodePage) -> Seq<crate::tree::CallV> {
    calls_of_list(nodes_v(doc, page), 0, table_v(), 0)
}

fn chunk_node(c: &DbChunk, page: CodePage) -> (r: TreeNode)
    requires
        wf_chunk(*c),
    ensures
        node_view(r) == chunk_v(*c, page),
{
    match c {
        DbChunk::Actors(b) => TreeNode::Leaf { label: label_bytes("Actors: ", b.as_slice()) },
        DbChunk::Skills(b) => TreeNode::Leaf { label: label_bytes("Skills: ", b.as_slice()) },
        DbChunk::Items(b) => TreeNode::Leaf { label: label_bytes("Items: ", b.as_slice()) },
        DbChunk::Enemies(es) => TreeNode::Dir {
            label: String::from_str("Enemies"),
            children: enemies_nodes(es),
        },
        DbChunk::Troops(t) => TreeNode::Dir {
            label: String::from_str("Troops"),
            children: draw_chunks(t),
        },
        DbChunk::Terrain(b) => TreeNode::Leaf { label: label_bytes("Terrain: ", b.as_slice()) },
        DbChunk::Attributes(t) => TreeNode::Dir {
            label: String::from_str("Attributes"),
            children: draw_chunks(t),
        },
        DbChunk::States(t) => TreeNode::Dir {
            label: String::from_str("States"),
            children: draw_chunks(t),
        },
        DbChunk::Animations(b) => TreeNode::Leaf {
            label: label_bytes("Animations: ", b.as_slice()),
        },
        DbChunk::ChipSet(cs) => TreeNode::Dir {
            label: String::from_str("Chipset"),
            children: update_chipset(cs, page),
        },
        DbChunk::Terms(t) => TreeNode::Dir {
            label: String::from_str("Terms"),
            children: terms_children(t, page),
        },
        DbChunk::System(t) => TreeNode::Dir {
            label: String::from_str("System"),
            children: draw_chunks(t),
        },
        DbChunk::Switches(es) => TreeNode::Dir {
            label: String::from_str("Switches"),
            children: switches_nodes(es, page),
        },
        DbChunk::Variables(es) => TreeNode::Dir {
            label: String::from_str("Variables"),
            children: variables_nodes(es, page),
        },
        DbChunk::CommonEvents(es) => TreeNode::Dir {
            label: String::from_str("Common Events"),
            children: common_events_nodes(es, page),
        },
        DbChunk::Version(b) => TreeNode::Leaf { label: label_bytes("Version: ", b.as_slice()) },
        DbChunk::Unknown { id, bytes } => unknown_chunk_leaf(*id, bytes),
    }
}

/// One chunk fits the schema's bit budgets.
pub open spec fn wf_chunk(c: DbChunk) -> bool {
    match c {
        DbChunk::Enemies(es) => es@.len() < 0x10000 && forall|i: int|
            0 <= i < es@.len() ==> (#[trigger] es@[i]).1.items@.len() < 0xFFFF,
        DbChunk::Troops(t) => t.items@.len() < 0xFFFF,
        DbChunk::Attributes(t) => t.items@.len() < 0xFFFF,
        DbChunk::States(t) => t.items@.len() < 0xFFFF,
        DbChunk::ChipSet(cs) => cs@.len() < 0x10000 && forall|i: int|
            0 <= i < cs@.len() ==> (#[trigger] cs@[i]).1.items@.len() < 0x10000,
        DbChunk::Terms(t) => t.items@.len() < 0xFFFF,
        DbChunk::System(t) => t.items@.len() < 0xFFFF,
        DbChunk::Switches(es) => es@.len() < 0x10000 && forall|i: int|
            0 <= i < es@.len() ==> (#[trigger] es@[i]).1.items@.len() < 0xFFFF,
        DbChunk::Variables(es) => es@.len() < 0x10000 && forall|i: int|
            0 <= i < es@.len() ==> (#[trigger] es@[i]).1.items@.len() < 0xFFFF,
        DbChunk::CommonEvents(es) => es@.len() < 0x10000 && forall|i: int|
            0 <= i < es@.len() ==> ((#[trigger] es@[i]).1.items@.len() < 0xFFFF && forall|j: int|
                0 <= j < es@[i].1.items@.len() && es@[i].1.items@[j] is Commands ==> (
                #[trigger] es@[i].1.items@[j])->Commands_0@.len() < 0x10000),
        _ => true,
    }
}

/// The document fits the schema's bit budgets; see section on the budget
/// table.
pub open spec fn wf(doc: RawDataBase) -> bool {
    &&& doc.0.items@.len() < 0x100
    &&& forall|i: int| 0 <= i < doc.0.items@.len() ==> wf_chunk(#[trigger] doc.0.items@[i])
}

/// The projected tree fits the budget table.
pub proof fn lemma_wf_nodes(doc: RawDataBase, page: CodePage)
    requires
        wf(doc),
    ensures
        wf_list(nodes_v(doc, page), table_v()),
{
    let t = table_v();
    let t1 = t.drop_first();
    let t2 = t1.drop_first();
    let t3 = t2.drop_first();
    assert(t1 =~= seq![16u64, 16u64, 16u64]);
    assert(t2 =~= seq![16u64, 16u64]);
    assert(t3 =~= seq![16u64]);
    vstd::arithmetic::power2::lemma2_to64();
    let ns = nodes_v(doc, page);
    assert forall|i: int| 0 <= i < ns.len() implies wf_node(#[trigger] ns[i], t1) by {
        let c = doc.0.items@[i];
        assert(wf_chunk(c));
        match c {
            DbChunk::Enemies(es) => {
                let ch = enemies_v(es@);
                assert forall|j: int| 0 <= j < ch.len() implies wf_node(#[trigger] ch[j], t2) by {
                    assert(ch[j] == enemy_entry_v(j, es@[j]));
                    assert(draw_chunks_v(es@[j].1).len() == es@[j].1.items@.len() + 1);
                    assert(wf_list(draw_chunks_v(es@[j].1), t2));
                }
                assert(wf_list(ch, t1));
            },
            DbChunk::Troops(tt) => {
                assert(wf_list(draw_chunks_v(tt), t1));
            },
            DbChunk::Attributes(tt) => {
                assert(wf_list(draw_chunks_v(tt), t1));
            },
            DbChunk::States(tt) => {
                assert(wf_list(draw_chunks_v(tt), t1));
            },
            DbChunk::ChipSet(cs) => {
                let ch = chipsets_v(cs@, page);
                assert forall|j: int| 0 <= j < ch.len() implies wf_node(#[trigger] ch[j], t2) by {
                    assert(ch[j] == chipset_entry_v(cs@[j], page));
                    assert(wf_list(
                        Seq::new(cs@[j].1.items@.len(), |k: int| chipset_field_v(
                            cs@[j].1.items@[k],
                            page,
                        )),
                        t2,
                    ));
                }
                assert(wf_list(ch, t1));
            },
            DbChunk::Terms(tt) => {
                assert(wf_list(terms_children_v(tt, page), t1));
            },
            DbChunk::System(tt) => {
                assert(wf_list(draw_chunks_v(tt), t1));
            },
            DbChunk::Switches(es) => {
                let ch = switches_v(es@, page);
                assert forall|j: int| 0 <= j < ch.len() implies wf_node(#[trigger] ch[j], t2) by {
                    assert(ch[j] == switch_entry_v(es@[j], page));
                    assert(wf_list(
                        seq![null_leaf_v(es@[j].1.null_terminated)] + Seq::new(
                            es@[j].1.items@.len(),
                            |k: int| switch_field_v(es@[j].1.items@[k], page),
                        ),
                        t2,
                    ));
                }
                assert(wf_list(ch, t1));
            },
            DbChunk::Variables(es) => {
                let ch = variables_v(es@, page);
                assert forall|j: int| 0 <= j < ch.len() implies wf_node(#[trigger] ch[j], t2) by {
                    assert(ch[j] == variable_entry_v(es@[j], page));
                    assert(wf_list(
                        seq![null_leaf_v(es@[j].1.null_terminated)] + Seq::new(
                            es@[j].1.items@.len(),
                            |k: int| variable_field_v(es@[j].1.items@[k], page),
                        ),
                        t2,
                    ));
                }
                assert(wf_list(ch, t1));
            },
            DbChunk::CommonEvents(es) => {
                let ch = common_events_v(es@, page);
                assert forall|j: int| 0 <= j < ch.len() implies wf_node(#[trigger] ch[j], t2) by {
                    assert(ch[j] == ce_entry_v(es@[j], page));
                    let fields = seq![null_leaf_v(es@[j].1.null_terminated)] + Seq::new(
                        es@[j].1.items@.len(),
                        |k: int| ce_field_v(es@[j].1.items@[k], page),
                    );
                    assert forall|k: int| 0 <= k < fields.len() implies wf_node(
                        #[trigger] fields[k],
                        t3,
                    ) by {
                        if k > 0 {
                            assert(fields[k] == ce_field_v(es@[j].1.items@[k - 1], page));
                            if es@[j].1.items@[k - 1] is Commands {
                                let cmds = es@[j].1.items@[k - 1]->Commands_0@;
                                assert(commands_v(cmds, page).len() < 0x10000);
                                assert(wf_list(commands_v(cmds, page), t3));
                            }
                        }
                    }
                    assert(wf_list(fields, t2));
                }
                assert(wf_list(ch, t1));
            },
            _ => {},
        }
    }
        assert(wf_list(ns, t));
}

/// Projects the whole document into its tree.
fn project(doc: &RawDataBase, page: CodePage) -> (r: Vec<TreeNode>)
    requires
        wf(*doc),
    ensures
        list_view(r@) == nodes_v(*doc, page),
{
    let mut out: Vec<TreeNode> = Vec::new();
    let mut i: usize = 0;
    proof {
        assert(list_view(out@) =~= nodes_v(*doc, page).take(0));
    }
    while i < doc.0.items.len()
        invariant
            i <= doc.0.items@.len(),
            wf(*doc),
            list_view(out@) =~= nodes_v(*doc, page).take(i as int),
        decreases doc.0.items@.len() - i,
    {
        let ghost before = out@;
        out.push(chunk_node(&doc.0.items[i], page));
        proof {
            lemma_list_view_snoc(before, out@[out@.len() - 1]);
            assert(list_view(out@) =~= nodes_v(*doc, page).take(i + 1 as int));
        }
        i = i + 1;
    }
    proof {
        assert(nodes_v(*doc, page).take(doc.0.items@.len() as int) =~= nodes_v(*doc, page));
    }
    out
}

/// Projects the raw view of a database document: one tree node per chunk,
/// appended to the emitter in document order.
pub fn update(database: &RawDataBase, builder: &mut TreeEmitter, encoding: CodePage)
    requires
        wf(*database),
    ensures
        calls_view(final(builder).calls@) == calls_view(old(builder).calls@) + update_calls(
            *database,
            encoding,
        ),
{
    let nodes = project(database, encoding);
    let table = budgets();
    proof {
        lemma_table_ok();
        lemma_wf_nodes(*database, encoding);
    }
    builder.emit(nodes, &table);
}


/// The projected trees of two code pages share their shape: only label text
/// may differ.
pub proof fn lemma_nodes_same_shape(doc: RawDataBase, p1: CodePage, p2: CodePage)
    ensures
        crate::tree_props::same_shape_list(nodes_v(doc, p1), nodes_v(doc, p2)),
{
    let a = nodes_v(doc, p1);
    let b = nodes_v(doc, p2);
    assert forall|i: int| 0 <= i < a.len() implies crate::tree_props::same_shape_node(
        #[trigger] a[i],
        #[trigger] b[i],
    ) by {
        let c = doc.0.items@[i];
        match c {
            DbChunk::Enemies(es) => {
                crate::tree_props::lemma_same_shape_refl_list(enemies_v(es@));
            },
            DbChunk::Troops(t) => {
                crate::tree_props::lemma_same_shape_refl_list(draw_chunks_v(t));
            },
            DbChunk::Attributes(t) => {
                crate::tree_props::lemma_same_shape_refl_list(draw_chunks_v(t));
            },
            DbChunk::States(t) => {
                crate::tree_props::lemma_same_shape_refl_list(draw_chunks_v(t));
            },
            DbChunk::ChipSet(cs) => {
                let x = chipsets_v(cs@, p1);
                let y = chipsets_v(cs@, p2);
                assert forall|j: int| 0 <= j < x.len() implies crate::tree_props::same_shape_node(
                    #[trigger] x[j],
                    #[trigger] y[j],
                ) by {
                    crate::tree_props::lemma_same_shape_pointwise(
                        Seq::new(cs@[j].1.items@.len(), |k: int| chipset_field_v(
                            cs@[j].1.items@[k],
                            p1,
                        )),
                        Seq::new(cs@[j].1.items@.len(), |k: int| chipset_field_v(
                            cs@[j].1.items@[k],
                            p2,
                        )),
                    );
                }
                crate::tree_props::lemma_same_shape_pointwise(x, y);
            },
            DbChunk::Terms(t) => {
                crate::tree_props::lemma_same_shape_pointwise(
                    terms_children_v(t, p1),
                    terms_children_v(t, p2),
                );
            },
            DbChunk::System(t) => {
                crate::tree_props::lemma_same_shape_refl_list(draw_chunks_v(t));
            },
            DbChunk::Switches(es) => {
                let x = switches_v(es@, p1);
                let y = switches_v(es@, p2);
                assert forall|j: int| 0 <= j < x.len() implies crate::tree_props::same_shape_node(
                    #[trigger] x[j],
                    #[trigger] y[j],
                ) by {
                    crate::tree_props::lemma_same_shape_pointwise(
                        seq![null_leaf_v(es@[j].1.null_terminated)] + Seq::new(
                            es@[j].1.items@.len(),
                            |k: int| switch_field_v(es@[j].1.items@[k], p1),
                        ),
                        seq![null_leaf_v(es@[j].1.null_terminated)] + Seq::new(
                            es@[j].1.items@.len(),
                            |k: int| switch_field_v(es@[j].1.items@[k], p2),
                        ),
                    );
                }
                crate::tree_props::lemma_same_shape_pointwise(x, y);
            },
            DbChunk::Variables(es) => {
                let x = variables_v(es@, p1);
                let y = variables_v(es@, p2);
                assert forall|j: int| 0 <= j < x.len() implies crate::tree_props::same_shape_node(
                    #[trigger] x[j],
                    #[trigger] y[j],
                ) by {
                    crate::tree_props::lemma_same_shape_pointwise(
                        seq![null_leaf_v(es@[j].1.null_terminated)] + Seq::new(
                            es@[j].1.items@.len(),
                            |k: int| variable_field_v(es@[j].1.items@[k], p1),
                        ),
                        seq![null_leaf_v(es@[j].1.null_terminated)] + Seq::new(
                            es@[j].1.items@.len(),
                            |k: int| variable_field_v(es@[j].1.items@[k], p2),
                        ),
                    );
                }
                crate::tree_props::lemma_same_shape_pointwise(x, y);
            },
            DbChunk::CommonEvents(es) => {
                let x = common_events_v(es@, p1);
                let y = common_events_v(es@, p2);
                assert forall|j: int| 0 <= j < x.len() implies crate::tree_props::same_shape_node(
                    #[trigger] x[j],
                    #[trigger] y[j],
                ) by {
                    let fx = seq![null_leaf_v(es@[j].1.null_terminated)] + Seq::new(
                        es@[j].1.items@.len(),
                        |k: int| ce_field_v(es@[j].1.items@[k], p1),
                    );
                    let fy = seq![null_leaf_v(es@[j].1.null_terminated)] + Seq::new(
                        es@[j].1.items@.len(),
                        |k: int| ce_field_v(es@[j].1.items@[k], p2),
                    );
                    assert forall|k: int| 0 <= k < fx.len() implies
                        crate::tree_props::same_shape_node(#[trigger] fx[k], #[trigger] fy[k]) by {
                        if k > 0 && es@[j].1.items@[k - 1] is Commands {
                            let cmds = es@[j].1.items@[k - 1]->Commands_0@;
                            crate::tree_props::lemma_same_shape_pointwise(
                                commands_v(cmds, p1),
                                commands_v(cmds, p2),
                            );
                        }
                    }
                    crate::tree_props::lemma_same_shape_pointwise(fx, fy);
                }
                crate::tree_props::lemma_same_shape_pointwise(x, y);
            },
            _ => {},
        }
    }
    crate::tree_props::lemma_same_shape_pointwise(a, b);
}

/// No collision: one raw database pass never emits two nodes with one
/// identifier.
pub proof fn lemma_update_no_collision(doc: RawDataBase, page: CodePage)
    requires
        wf(doc),
    ensures
        ({
            let es = crate::tree::emitted(update_calls(doc, page), 0);
            forall|t1: int, t2: int|
                0 <= t1 < t2 < es.len() ==> (#[trigger] es[t1]).1 != (#[trigger] es[t2]).1
        }),
{
    lemma_table_ok();
    lemma_wf_nodes(doc, page);
    crate::tree_props::lemma_no_collision(nodes_v(doc, page), table_v());
}

/// Balanced structure: the open and close calls of one raw database pass
/// nest correctly.
pub proof fn lemma_update_balanced(doc: RawDataBase, page: CodePage)
    requires
        wf(doc),
    ensures
        crate::tree::balanced(update_calls(doc, page)),
{
    lemma_table_ok();
    lemma_wf_nodes(doc, page);
    crate::tree_props::lemma_balanced(nodes_v(doc, page), table_v());
}

/// Totality: every chunk of the stream, known or unknown, yields exactly one
/// top-level node.
pub proof fn lemma_update_total(doc: RawDataBase, page: CodePage)
    requires
        wf(doc),
    ensures
        crate::tree::count_at_depth(crate::tree::emitted(update_calls(doc, page), 0), 0)
            == doc.0.items@.len(),
{
    lemma_table_ok();
    lemma_wf_nodes(doc, page);
    crate::tree_props::lemma_root_count(nodes_v(doc, page), table_v());
}

/// Code page isolation: changing only the code page changes only label text;
/// the emitted call kinds and identifiers stay the same.
pub proof fn lemma_update_page_isolation(doc: RawDataBase, p1: CodePage, p2: CodePage)
    ensures
        crate::tree_props::shape_calls(update_calls(doc, p1)) == crate::tree_props::shape_calls(
            update_calls(doc, p2),
        ),
{
    lemma_nodes_same_shape(doc, p1, p2);
    crate::tree_props::lemma_shape_calls(nodes_v(doc, p1), nodes_v(doc, p2), 0, table_v(), 0);
}

/// Determinism: the projector is a function of the document and the code
/// page alone, so re-running it yields the identical call sequence.
pub proof fn lemma_update_deterministic(
    doc: RawDataBase,
    page: CodePage,
    c1: Seq<crate::tree::CallV>,
    c2: Seq<crate::tree::CallV>,
)
    requires
        c1 == update_calls(doc, page),
        c2 == update_calls(doc, page),
    ensures
        c1 == c2,
{
}

} // verus!
