//! The raw (wire-level) view of a map-unit document: map settings, panorama
//! options, the event table with its pages, conditions, movement routes and
//! command scripts, and the tile layers.

use vstd::prelude::*;

use crate::code_page::CodePage;
use crate::project::ChunkList;
use crate::project::Command;
use crate::project::commands_nodes;
use crate::project::commands_v;
use crate::project::unknown_chunk_leaf;
use crate::project::unknown_chunk_v;
use crate::project::unknown_field_leaf;
use crate::project::unknown_field_v;
use crate::text::bool_str;
use crate::text::dec;
use crate::text::dec_str;
use crate::text::decoded_text;
use crate::text::label_bool;
use crate::text::label_num;
use crate::text::label_text;
use crate::text::num_list;
use crate::text::num_list_str;
use crate::text::page_code;
use crate::tree::NodeV;
use crate::tree::TreeEmitter;
use crate::tree::TreeNode;
use crate::tree::calls_of_list;
use crate::tree::calls_view;
use crate::tree::lemma_list_view_snoc;
use crate::tree::list_view;
use crate::tree::node_view;
use crate::tree::table_ok;
use crate::tree::wf_list;
use crate::tree::wf_node;

verus! {

/// A raw map-unit document: its top-level chunk stream.
pub struct RawMapUnit(pub ChunkList<MapUnitChunk>);

/// One top-level map-unit chunk, by wire tag.
pub enum MapUnitChunk {
    ChipSet(u64),
    Width(u64),
    Height(u64),
    ScrollType(u64),
    PanoramaEnabled(u64),
    PanoramaFile(Vec<u8>),
    PanoramaHorizontalLoop(u64),
    PanoramaVerticalLoop(u64),
    PanoramaHorizontalAutoScroll(u64),
    PanoramaHorizontalAutoScrollSpeed(u64),
    PanoramaVerticalAutoScroll(u64),
    PanoramaVerticalAutoScrollSpeed(u64),
    Events(Vec<(u64, Vec<EventField>)>),
    Lower(Vec<u64>),
    Upper(Vec<u64>),
    SaveTime(u64),
    Unknown { id: u64, bytes: Vec<u8> },
}

/// One field of an event record.
pub enum EventField {
    Name(Vec<u8>),
    PositionX(u64),
    PositionY(u64),
    Pages(Vec<(u64, ChunkList<EventPageField>)>),
    Unknown { id: u64, bytes: Vec<u8> },
}

/// One field of an event page.
pub enum EventPageField {
    Condition(ChunkList<ConditionField>),
    GraphicFile(Vec<u8>),
    GraphicIndex(u64),
    GraphicDirection(u64),
    GraphicPattern(u64),
    GraphicTransparent(u64),
    MovementType(u64),
    MovementFrequency(u64),
    MovementRoute(ChunkList<MoveRouteField>),
    Trigger(u64),
    Priority(u64),
    PriorityForbidEventOverlap(u64),
    AnimationType(u64),
    MoveSpeed(u64),
    CommandsSize(u64),
    Commands(Vec<Command>),
    Unknown { id: u64, bytes: Vec<u8> },
}

/// One field of an event-page condition.
pub enum ConditionField {
    Flags(u64),
    SwitchA(u64),
    SwitchB(u64),
    Variable(u64),
    Value(u64),
    Item(u64),
    Actor(u64),
    Timer(u64),
    Unknown { id: u64, bytes: Vec<u8> },
}

/// One field of an event movement route.
pub enum MoveRouteField {
    CommandsSize(u64),
    Commands(Vec<u64>),
    Repeat(u64),
    Skippable(u64),
    Unknown { id: u64, bytes: Vec<u8> },
}

/// The bit budgets of the raw map-unit schema: top-level chunks, events,
/// event fields, pages, page fields, and the wide leaf collections
/// (conditions, routes, command scripts).
pub open spec fn table_v() -> Seq<u64> {
    seq![8u64, 16u64, 8u64, 8u64, 8u64, 16u64]
}

/// The budget table as a vector.
pub fn budgets() -> (r: Vec<u64>)
    ensures
        r@ == table_v(),
{
    let mut v: Vec<u64> = Vec::new();
    v.push(8);
    v.push(16);
    v.push(8);
    v.push(8);
    v.push(8);
    v.push(16);
    proof {
        assert(v@ =~= table_v());
    }
    v
}

/// The budget table is usable.
pub proof fn lemma_table_ok()
    ensures
        table_ok(table_v()),
{
    let t = table_v();
    let t1 = seq![16u64, 8u64, 8u64, 8u64, 16u64];
    let t2 = seq![8u64, 8u64, 8u64, 16u64];
    let t3 = seq![8u64, 8u64, 16u64];
    let t4 = seq![8u64, 16u64];
    let t5 = seq![16u64];
    assert(t.drop_first() =~= t1);
    assert(t1.drop_first() =~= t2);
    assert(t2.drop_first() =~= t3);
    assert(t3.drop_first() =~= t4);
    assert(t4.drop_first() =~= t5);
    assert(t5.drop_first() =~= Seq::<u64>::empty());
    assert(crate::tree::sum_bits(Seq::<u64>::empty()) == 0);
    assert(crate::tree::sum_bits(t5) == 16);
    assert(crate::tree::sum_bits(t4) == 24);
    assert(crate::tree::sum_bits(t3) == 32);
    assert(crate::tree::sum_bits(t2) == 40);
    assert(crate::tree::sum_bits(t1) == 56);
    assert(crate::tree::sum_bits(t) == 64);
}

/// An out-of-range enumerated value: the marker and the literal number.
pub open spec fn unknown_enum_str(v: u64) -> Seq<char> {
    "Unknown ("@ + dec_str(v as nat) + ")"@
}

fn unknown_enum_text(v: u64) -> (r: String)
    ensures
        r@ == unknown_enum_str(v),
{
    let r = String::from_str("Unknown (").concat(dec(v).as_str()).concat(")");
    proof {
        assert(r@ =~= unknown_enum_str(v));
    }
    r
}

/// The name of a scroll-type value; out-of-range values keep their number
/// next to an explicit marker.
pub open spec fn scroll_text(v: u64) -> Seq<char> {
    if v == 0 {
        "No Loop"@
    } else if v == 1 {
        "Vertical Loop Only"@
    } else if v == 2 {
        "Horizontal Loop Only"@
    } else if v == 3 {
        "Vertical and Horizontal Loop"@
    } else {
        "Invalid ("@ + dec_str(v as nat) + ")"@
    }
}

fn scroll_label(v: u64) -> (r: String)
    ensures
        r@ == "Scroll Type: "@ + scroll_text(v),
{
    let name: String = if v == 0 {
        String::from_str("No Loop")
    } else if v == 1 {
        String::from_str("Vertical Loop Only")
    } else if v == 2 {
        String::from_str("Horizontal Loop Only")
    } else if v == 3 {
        String::from_str("Vertical and Horizontal Loop")
    } else {
        let r = String::from_str("Invalid (").concat(dec(v).as_str()).concat(")");
        proof {
            assert(r@ =~= "Invalid ("@ + dec_str(v as nat) + ")"@);
        }
        r
    };
    String::from_str("Scroll Type: ").concat(name.as_str())
}

/// The name of a graphic direction value.
pub open spec fn direction_text(v: u64) -> Seq<char> {
    if v == 0 {
        "Up"@
    } else if v == 1 {
        "Right"@
    } else if v == 2 {
        "Down"@
    } else if v == 3 {
        "Left"@
    } else {
        unknown_enum_str(v)
    }
}

fn direction_label(v: u64) -> (r: String)
    ensures
        r@ == "Graphic Direction: "@ + direction_text(v),
{
    let name: String = if v == 0 {
        String::from_str("Up")
    } else if v == 1 {
        String::from_str("Right")
    } else if v == 2 {
        String::from_str("Down")
    } else if v == 3 {
        String::from_str("Left")
    } else {
        unknown_enum_text(v)
    };
    String::from_str("Graphic Direction: ").concat(name.as_str())
}

/// The name of a movement-type value.
pub open spec fn movement_text(v: u64) -> Seq<char> {
    if v == 0 {
        "Fixed"@
    } else if v == 1 {
        "Random"@
    } else if v == 2 {
        "Vertical"@
    } else if v == 3 {
        "Horizontal"@
    } else if v == 4 {
        "Approach Player"@
    } else if v == 5 {
        "Away from Player"@
    } else if v == 6 {
        "Custom"@
    } else {
        unknown_enum_str(v)
    }
}

fn movement_label(v: u64) -> (r: String)
    ensures
        r@ == "Movement Type: "@ + movement_text(v),
{
    let name: String = if v == 0 {
        String::from_str("Fixed")
    } else if v == 1 {
        String::from_str("Random")
    } else if v == 2 {
        String::from_str("Vertical")
    } else if v == 3 {
        String::from_str("Horizontal")
    } else if v == 4 {
        String::from_str("Approach Player")
    } else if v == 5 {
        String::from_str("Away from Player")
    } else if v == 6 {
        String::from_str("Custom")
    } else {
        unknown_enum_text(v)
    };
    String::from_str("Movement Type: ").concat(name.as_str())
}

/// The name of a trigger value.
pub open spec fn trigger_text(v: u64) -> Seq<char> {
    if v == 0 {
        "Action Button"@
    } else if v == 1 {
        "Player Touch"@
    } else if v == 2 {
        "Event Touch"@
    } else if v == 3 {
        "Autorun"@
    } else if v == 4 {
        "Parallel process"@
    } else {
        unknown_enum_str(v)
    }
}

fn trigger_label(v: u64) -> (r: String)
    ensures
        r@ == "Trigger: "@ + trigger_text(v),
{
    let name: String = if v == 0 {
        String::from_str("Action Button")
    } else if v == 1 {
        String::from_str("Player Touch")
    } else if v == 2 {
        String::from_str("Event Touch")
    } else if v == 3 {
        String::from_str("Autorun")
    } else if v == 4 {
        String::from_str("Parallel process")
    } else {
        unknown_enum_text(v)
    };
    String::from_str("Trigger: ").concat(name.as_str())
}

/// The name of a priority value.
pub open spec fn priority_text(v: u64) -> Seq<char> {
    if v == 0 {
        "Below Characters"@
    } else if v == 1 {
        "Same as Characters"@
    } else if v == 2 {
        "Above Characters"@
    } else {
        unknown_enum_str(v)
    }
}

fn priority_label(v: u64) -> (r: String)
    ensures
        r@ == "Priority: "@ + priority_text(v),
{
    let name: String = if v == 0 {
        String::from_str("Below Characters")
    } else if v == 1 {
        String::from_str("Same as Characters")
    } else if v == 2 {
        String::from_str("Above Characters")
    } else {
        unknown_enum_text(v)
    };
    String::from_str("Priority: ").concat(name.as_str())
}

/// The name of an animation-type value.
pub open spec fn animation_text(v: u64) -> Seq<char> {
    if v == 0 {
        "Standing Animation"@
    } else if v == 1 {
        "Walking Animation"@
    } else if v == 2 {
        "Direction Fix/Inanimated"@
    } else if v == 3 {
        "Direction Fix/Animated"@
    } else if v == 4 {
        "Fixed Graphic"@
    } else if v == 5 {
        "Spin"@
    } else {
        unknown_enum_str(v)
    }
}

fn animation_label(v: u64) -> (r: String)
    ensures
        r@ == "Animation Type: "@ + animation_text(v),
{
    let name: String = if v == 0 {
        String::from_str("Standing Animation")
    } else if v == 1 {
        String::from_str("Walking Animation")
    } else if v == 2 {
        String::from_str("Direction Fix/Inanimated")
    } else if v == 3 {
        String::from_str("Direction Fix/Animated")
    } else if v == 4 {
        String::from_str("Fixed Graphic")
    } else if v == 5 {
        String::from_str("Spin")
    } else {
        unknown_enum_text(v)
    };
    String::from_str("Animation Type: ").concat(name.as_str())
}

/// One condition field.
pub open spec fn condition_field_v(f: ConditionField) -> NodeV {
    match f {
        ConditionField::Flags(v) => NodeV::Leaf { label: "Flags: "@ + dec_str(v as nat) },
        ConditionField::SwitchA(v) => NodeV::Leaf { label: "Switch A: "@ + dec_str(v as nat) },
        ConditionField::SwitchB(v) => NodeV::Leaf { label: "Switch B: "@ + dec_str(v as nat) },
        ConditionField::Variable(v) => NodeV::Leaf { label: "Variable: "@ + dec_str(v as nat) },
        ConditionField::Value(v) => NodeV::Leaf { label: "Value: "@ + dec_str(v as nat) },
        ConditionField::Item(v) => NodeV::Leaf { label: "Item: "@ + dec_str(v as nat) },
        ConditionField::Actor(v) => NodeV::Leaf { label: "Actor: "@ + dec_str(v as nat) },
        ConditionField::Timer(v) => NodeV::Leaf { label: "Timer: "@ + dec_str(v as nat) },
        ConditionField::Unknown { id, bytes } => unknown_field_v(id, bytes@),
    }
}

/// The condition fields in order.
pub open spec fn condition_children_v(c: ChunkList<ConditionField>) -> Seq<NodeV> {
    Seq::new(c.items@.len(), |i: int| condition_field_v(c.items@[i]))
}

fn condition_children(c: &ChunkList<ConditionField>) -> (r: Vec<TreeNode>)
    ensures
        list_view(r@) == condition_children_v(*c),
{
    let mut out: Vec<TreeNode> = Vec::new();
    let mut i: usize = 0;
    proof {
        assert(list_view(out@) =~= condition_children_v(*c).take(0));
    }
    while i < c.items.len()
        invariant
            i <= c.items@.len(),
            list_view(out@) =~= condition_children_v(*c).take(i as int),
        decreases c.items@.len() - i,
    {
        let ghost before = out@;
        let node = match &c.items[i] {
            ConditionField::Flags(v) => TreeNode::Leaf { label: label_num("Flags: ", *v) },
            ConditionField::SwitchA(v) => TreeNode::Leaf { label: label_num("Switch A: ", *v) },
            ConditionField::SwitchB(v) => TreeNode::Leaf { label: label_num("Switch B: ", *v) },
            ConditionField::Variable(v) => TreeNode::Leaf { label: label_num("Variable: ", *v) },
            ConditionField::Value(v) => TreeNode::Leaf { label: label_num("Value: ", *v) },
            ConditionField::Item(v) => TreeNode::Leaf { label: label_num("Item: ", *v) },
            ConditionField::Actor(v) => TreeNode::Leaf { label: label_num("Actor: ", *v) },
            ConditionField::Timer(v) => TreeNode::Leaf { label: label_num("Timer: ", *v) },
            ConditionField::Unknown { id, bytes } => unknown_field_leaf(*id, bytes),
        };
        out.push(node);
        proof {
            lemma_list_view_snoc(before, out@[out@.len() - 1]);
            assert(node_view(out@[out@.len() - 1]) == condition_field_v(c.items@[i as int]));
            assert(list_view(out@) =~= condition_children_v(*c).take(i + 1 as int));
        }
        i = i + 1;
    }
    proof {
        assert(condition_children_v(*c).take(c.items@.len() as int) =~= condition_children_v(*c));
    }
    out
}

/// One movement-route field.
pub open spec fn move_route_field_v(f: MoveRouteField) -> NodeV {
    match f {
        MoveRouteField::CommandsSize(v) => NodeV::Leaf {
            label: "CommandsSize: "@ + dec_str(v as nat),
        },
        MoveRouteField::Commands(v) => NodeV::Leaf { label: "Commands: "@ + num_list_str(v@) },
        MoveRouteField::Repeat(v) => NodeV::Leaf { label: "Repeat: "@ + dec_str(v as nat) },
        MoveRouteField::Skippable(v) => NodeV::Leaf { label: "Skippable: "@ + dec_str(v as nat) },
        MoveRouteField::Unknown { id, bytes } => unknown_field_v(id, bytes@),
    }
}

/// The movement-route fields in order.
pub open spec fn move_route_children_v(c: ChunkList<MoveRouteField>) -> Seq<NodeV> {
    Seq::new(c.items@.len(), |i: int| move_route_field_v(c.items@[i]))
}

fn move_route_children(c: &ChunkList<MoveRouteField>) -> (r: Vec<TreeNode>)
    ensures
        list_view(r@) == move_route_children_v(*c),
{
    let mut out: Vec<TreeNode> = Vec::new();
    let mut i: usize = 0;
    proof {
        assert(list_view(out@) =~= move_route_children_v(*c).take(0));
    }
    while i < c.items.len()
        invariant
            i <= c.items@.len(),
            list_view(out@) =~= move_route_children_v(*c).take(i as int),
        decreases c.items@.len() - i,
    {
        let ghost before = out@;
        let node = match &c.items[i] {
            MoveRouteField::CommandsSize(v) => TreeNode::Leaf {
                label: label_num("CommandsSize: ", *v),
            },
            MoveRouteField::Commands(v) => TreeNode::Leaf {
                label: String::from_str("Commands: ").concat(num_list(v.as_slice()).as_str()),
            },
            MoveRouteField::Repeat(v) => TreeNode::Leaf { label: label_num("Repeat: ", *v) },
            MoveRouteField::Skippable(v) => TreeNode::Leaf { label: label_num("Skippable: ", *v) },
            MoveRouteField::Unknown { id, bytes } => unknown_field_leaf(*id, bytes),
        };
        out.push(node);
        proof {
            lemma_list_view_snoc(before, out@[out@.len() - 1]);
            assert(node_view(out@[out@.len() - 1]) == move_route_field_v(c.items@[i as int]));
            assert(list_view(out@) =~= move_route_children_v(*c).take(i + 1 as int));
        }
        i = i + 1;
    }
    proof {
        assert(move_route_children_v(*c).take(c.items@.len() as int) =~= move_route_children_v(
            *c,
        ));
    }
    out
}

/// One event-page field.
pub open spec fn page_field_v(f: EventPageField, page: CodePage) -> NodeV {
    match f {
        EventPageField::Condition(c) => NodeV::Dir {
            label: "Condition"@,
            children: condition_children_v(c),
        },
        EventPageField::GraphicFile(b) => NodeV::Leaf {
            label: "Graphic: "@ + decoded_text(page_code(page), b@),
        },
        EventPageField::GraphicIndex(v) => NodeV::Leaf {
            label: "Graphic Index: "@ + dec_str(v as nat),
        },
        EventPageField::GraphicDirection(v) => NodeV::Leaf {
            label: "Graphic Direction: "@ + direction_text(v),
        },
        EventPageField::GraphicPattern(v) => NodeV::Leaf {
            label: "Graphic Pattern: "@ + dec_str(v as nat),
        },
        EventPageField::GraphicTransparent(v) => NodeV::Leaf {
            label: "Graphic Transparent: "@ + bool_str(v != 0),
        },
        EventPageField::MovementType(v) => NodeV::Leaf {
            label: "Movement Type: "@ + movement_text(v),
        },
        EventPageField::MovementFrequency(v) => NodeV::Leaf {
            label: "Movement Frequency: "@ + dec_str(v as nat),
        },
        EventPageField::MovementRoute(c) => NodeV::Dir {
            label: "Move Route"@,
            children: move_route_children_v(c),
        },
        EventPageField::Trigger(v) => NodeV::Leaf { label: "Trigger: "@ + trigger_text(v) },
        EventPageField::Priority(v) => NodeV::Leaf { label: "Priority: "@ + priority_text(v) },
        EventPageField::PriorityForbidEventOverlap(v) => NodeV::Leaf {
            label: "Forbid Event Overlap: "@ + dec_str(v as nat),
        },
        EventPageField::AnimationType(v) => NodeV::Leaf {
            label: "Animation Type: "@ + animation_text(v),
        },
        EventPageField::MoveSpeed(v) => NodeV::Leaf {
            label: "Movement Speed: "@ + dec_str(v as nat),
        },
        EventPageField::CommandsSize(v) => NodeV::Leaf {
            label: "Commands size: "@ + dec_str(v as nat),
        },
        EventPageField::Commands(cmds) => NodeV::Dir {
            label: "Commands"@,
            children: commands_v(cmds@, page),
        },
        EventPageField::Unknown { id, bytes } => unknown_field_v(id, bytes@),
    }
}

/// One event-page field fits the schema's bit budgets.
pub open spec fn wf_page_field(f: EventPageField) -> bool {
    match f {
        EventPageField::Condition(c) => c.items@.len() < 0x10000,
        EventPageField::MovementRoute(c) => c.items@.len() < 0x10000,
        EventPageField::Commands(cmds) => cmds@.len() < 0x10000,
        _ => true,
    }
}

fn page_field_node(f: &EventPageField, page: CodePage) -> (r: TreeNode)
    requires
        wf_page_field(*f),
    ensures
        node_view(r) == page_field_v(*f, page),
{
    match f {
        EventPageField::Condition(c) => TreeNode::Dir {
            label: String::from_str("Condition"),
            children: condition_children(c),
        },
        EventPageField::GraphicFile(b) => TreeNode::Leaf {
            label: label_text("Graphic: ", page, b.as_slice()),
        },
        EventPageField::GraphicIndex(v) => TreeNode::Leaf {
            label: label_num("Graphic Index: ", *v),
        },
        EventPageField::GraphicDirection(v) => TreeNode::Leaf { label: direction_label(*v) },
        EventPageField::GraphicPattern(v) => TreeNode::Leaf {
            label: label_num("Graphic Pattern: ", *v),
        },
        EventPageField::GraphicTransparent(v) => TreeNode::Leaf {
            label: label_bool("Graphic Transparent: ", *v != 0),
        },
        EventPageField::MovementType(v) => TreeNode::Leaf { label: movement_label(*v) },
        EventPageField::MovementFrequency(v) => TreeNode::Leaf {
            label: label_num("Movement Frequency: ", *v),
        },
        EventPageField::MovementRoute(c) => TreeNode::Dir {
            label: String::from_str("Move Route"),
            children: move_route_children(c),
        },
        EventPageField::Trigger(v) => TreeNode::Leaf { label: trigger_label(*v) },
        EventPageField::Priority(v) => TreeNode::Leaf { label: priority_label(*v) },
        EventPageField::PriorityForbidEventOverlap(v) => TreeNode::Leaf {
            label: label_num("Forbid Event Overlap: ", *v),
        },
        EventPageField::AnimationType(v) => TreeNode::Leaf { label: animation_label(*v) },
        EventPageField::MoveSpeed(v) => TreeNode::Leaf { label: label_num("Movement Speed: ", *v) },
        EventPageField::CommandsSize(v) => TreeNode::Leaf {
            label: label_num("Commands size: ", *v),
        },
        EventPageField::Commands(cmds) => TreeNode::Dir {
            label: String::from_str("Commands"),
            children: commands_nodes(cmds, page),
        },
        EventPageField::Unknown { id, bytes } => unknown_field_leaf(*id, bytes),
    }
}

/// One event page: a directory labelled with the page's wire identifier.
pub open spec fn page_entry_v(e: (u64, ChunkList<EventPageField>), page: CodePage) -> NodeV {
    NodeV::Dir {
        label: "Page "@ + dec_str(e.0 as nat),
        children: Seq::new(e.1.items@.len(), |i: int| page_field_v(e.1.items@[i], page)),
    }
}

/// One event page fits the schema's bit budgets.
pub open spec fn wf_page(e: (u64, ChunkList<EventPageField>)) -> bool {
    &&& e.1.items@.len() < 0x100
    &&& forall|i: int| 0 <= i < e.1.items@.len() ==> wf_page_field(#[trigger] e.1.items@[i])
}

/// One event field.
pub open spec fn event_field_v(f: EventField, page: CodePage) -> NodeV {
    match f {
        EventField::Name(b) => NodeV::Leaf {
            label: "Name: "@ + decoded_text(page_code(page), b@),
        },
        EventField::PositionX(v) => NodeV::Leaf { label: "X: "@ + dec_str(v as nat) },
        EventField::PositionY(v) => NodeV::Leaf { label: "Y: "@ + dec_str(v as nat) },
        EventField::Pages(ps) => NodeV::Dir {
            label: "Pages"@,
            children: Seq::new(ps@.len(), |i: int| page_entry_v(ps@[i], page)),
        },
        EventField::Unknown { id, bytes } => unknown_field_v(id, bytes@),
    }
}

/// One event field fits the schema's bit budgets.
pub open spec fn wf_event_field(f: EventField) -> bool {
    match f {
        EventField::Pages(ps) => ps@.len() < 0x100 && forall|i: int|
            0 <= i < ps@.len() ==> wf_page(#[trigger] ps@[i]),
        _ => true,
    }
}

fn event_field_node(f: &EventField, page: CodePage) -> (r: TreeNode)
    requires
        wf_event_field(*f),
    ensures
        node_view(r) == event_field_v(*f, page),
{
    match f {
        EventField::Name(b) => TreeNode::Leaf { label: label_text("Name: ", page, b.as_slice()) },
        EventField::PositionX(v) => TreeNode::Leaf { label: label_num("X: ", *v) },
        EventField::PositionY(v) => TreeNode::Leaf { label: label_num("Y: ", *v) },
        EventField::Pages(ps) => {
            let mut out: Vec<TreeNode> = Vec::new();
            let mut i: usize = 0;
            proof {
                assert(list_view(out@) =~= Seq::new(0nat, |k: int| page_entry_v(ps@[k], page)));
            }
            while i < ps.len()
                invariant
                    i <= ps@.len(),
                    forall|k: int| 0 <= k < ps@.len() ==> wf_page(#[trigger] ps@[k]),
                    list_view(out@) =~= Seq::new(i as nat, |k: int| page_entry_v(ps@[k], page)),
                decreases ps@.len() - i,
            {
                let ghost before = out@;
                let entry = &ps[i];
                let mut children: Vec<TreeNode> = Vec::new();
                let mut j: usize = 0;
                proof {
                    assert(list_view(children@) =~= Seq::new(0nat, |k: int| page_field_v(
                        entry.1.items@[k],
                        page,
                    )));
                }
                while j < entry.1.items.len()
                    invariant
                        j <= entry.1.items@.len(),
                        0 <= i < ps@.len(),
                        entry == &ps@[i as int],
                        wf_page(ps@[i as int]),
                        list_view(children@) =~= Seq::new(j as nat, |k: int| page_field_v(
                            entry.1.items@[k],
                            page,
                        )),
                    decreases entry.1.items@.len() - j,
                {
                    let ghost cb = children@;
                    children.push(page_field_node(&entry.1.items[j], page));
                    proof {
                        lemma_list_view_snoc(cb, children@[children@.len() - 1]);
                        assert(list_view(children@) =~= Seq::new(
                            (j + 1) as nat,
                            |k: int| page_field_v(entry.1.items@[k], page),
                        ));
                    }
                    j = j + 1;
                }
                out.push(TreeNode::Dir { label: label_num("Page ", entry.0), children });
                proof {
                    lemma_list_view_snoc(before, out@[out@.len() - 1]);
                    assert(node_view(out@[out@.len() - 1]) == page_entry_v(ps@[i as int], page));
                    assert(list_view(out@) =~= Seq::new((i + 1) as nat, |k: int| page_entry_v(
                        ps@[k],
                        page,
                    )));
                }
                i = i + 1;
            }
            TreeNode::Dir { label: String::from_str("Pages"), children: out }
        },
        EventField::Unknown { id, bytes } => unknown_field_leaf(*id, bytes),
    }
}

/// One event: a directory labelled with the event's wire identifier.
pub open spec fn event_entry_v(e: (u64, Vec<EventField>), page: CodePage) -> NodeV {
    NodeV::Dir {
        label: "Event "@ + dec_str(e.0 as nat),
        children: Seq::new(e.1@.len(), |i: int| event_field_v(e.1@[i], page)),
    }
}

/// One event fits the schema's bit budgets.
pub open spec fn wf_event(e: (u64, Vec<EventField>)) -> bool {
    &&& e.1@.len() < 0x100
    &&& forall|i: int| 0 <= i < e.1@.len() ==> wf_event_field(#[trigger] e.1@[i])
}

/// The events in order.
pub open spec fn events_v(es: Seq<(u64, Vec<EventField>)>, page: CodePage) -> Seq<NodeV> {
    Seq::new(es.len(), |i: int| event_entry_v(es[i], page))
}

fn events_nodes(es: &Vec<(u64, Vec<EventField>)>, page: CodePage) -> (r: Vec<TreeNode>)
    requires
        forall|i: int| 0 <= i < es@.len() ==> wf_event(#[trigger] es@[i]),
    ensures
        list_view(r@) == events_v(es@, page),
{
    let mut out: Vec<TreeNode> = Vec::new();
    let mut i: usize = 0;
    proof {
        assert(list_view(out@) =~= events_v(es@, page).take(0));
    }
    while i < es.len()
        invariant
            i <= es@.len(),
            forall|k: int| 0 <= k < es@.len() ==> wf_event(#[trigger] es@[k]),
            list_view(out@) =~= events_v(es@, page).take(i as int),
        decreases es@.len() - i,
    {
        let ghost before = out@;
        let entry = &es[i];
        let mut children: Vec<TreeNode> = Vec::new();
        let mut j: usize = 0;
        proof {
            assert(list_view(children@) =~= Seq::new(0nat, |k: int| event_field_v(
                entry.1@[k],
                page,
            )));
        }
        while j < entry.1.len()
            invariant
                j <= entry.1@.len(),
                0 <= i < es@.len(),
                entry == &es@[i as int],
                wf_event(es@[i as int]),
                list_view(children@) =~= Seq::new(j as nat, |k: int| event_field_v(
                    entry.1@[k],
                    page,
                )),
            decreases entry.1@.len() - j,
        {
            let ghost cb = children@;
            children.push(event_field_node(&entry.1[j], page));
            proof {
                lemma_list_view_snoc(cb, children@[children@.len() - 1]);
                assert(list_view(children@) =~= Seq::new((j + 1) as nat, |k: int| event_field_v(
                    entry.1@[k],
                    page,
                )));
            }
            j = j + 1;
        }
        out.push(TreeNode::Dir { label: label_num("Event ", entry.0), children });
        proof {
            lemma_list_view_snoc(before, out@[out@.len() - 1]);
            assert(node_view(out@[out@.len() - 1]) == event_entry_v(es@[i as int], page));
            assert(list_view(out@) =~= events_v(es@, page).take(i + 1 as int));
        }
        i = i + 1;
    }
    proof {
        assert(events_v(es@, page).take(es@.len() as int) =~= events_v(es@, page));
    }
    out
}

/// The node projected for one top-level chunk.
pub open spec fn chunk_v(c: MapUnitChunk, page: CodePage) -> NodeV {
    match c {
        MapUnitChunk::ChipSet(v) => NodeV::Leaf { label: "ChipSet: "@ + dec_str(v as nat) },
        MapUnitChunk::Width(v) => NodeV::Leaf { label: "Width: "@ + dec_str(v as nat) },
        MapUnitChunk::Height(v) => NodeV::Leaf { label: "Height: "@ + dec_str(v as nat) },
        MapUnitChunk::ScrollType(v) => NodeV::Leaf { label: "Scroll Type: "@ + scroll_text(v) },
        MapUnitChunk::PanoramaEnabled(v) => NodeV::Leaf {
            label: "Panorama Enabled: "@ + bool_str(v != 0),
        },
        MapUnitChunk::PanoramaFile(b) => NodeV::Leaf {
            label: "Panorama File: "@ + decoded_text(page_code(page), b@),
        },
        MapUnitChunk::PanoramaHorizontalLoop(v) => NodeV::Leaf {
            label: "Panorama Horizontal Loop: "@ + bool_str(v != 0),
        },
        MapUnitChunk::PanoramaVerticalLoop(v) => NodeV::Leaf {
            label: "Panorama Vertical Loop: "@ + bool_str(v != 0),
        },
        MapUnitChunk::PanoramaHorizontalAutoScroll(v) => NodeV::Leaf {
            label: "Panorama Horizontal Auto Scroll: "@ + bool_str(v != 0),
        },
        MapUnitChunk::PanoramaHorizontalAutoScrollSpeed(v) => NodeV::Leaf {
            label: "Panorama Horizontal Auto Scroll Speed: "@ + dec_str(v as nat),
        },
        MapUnitChunk::PanoramaVerticalAutoScroll(v) => NodeV::Leaf {
            label: "Panorama Vertical Auto Scroll: "@ + bool_str(v != 0),
        },
        MapUnitChunk::PanoramaVerticalAutoScrollSpeed(v) => NodeV::Leaf {
            label: "Panorama Vertical Auto Scroll Speed: "@ + dec_str(v as nat),
        },
        MapUnitChunk::Events(es) => NodeV::Dir {
            label: "Events"@,
            children: events_v(es@, page),
        },
        MapUnitChunk::Lower(v) => NodeV::Leaf { label: "Lower: "@ + num_list_str(v@) },
        MapUnitChunk::Upper(v) => NodeV::Leaf { label: "Upper: "@ + num_list_str(v@) },
        MapUnitChunk::SaveTime(v) => NodeV::Leaf { label: "Save Time: "@ + dec_str(v as nat) },
        MapUnitChunk::Unknown { id, bytes } => unknown_chunk_v(id, bytes@),
    }
}

/// One chunk fits the schema's bit budgets.
pub open spec fn wf_chunk(c: MapUnitChunk) -> bool {
    match c {
        MapUnitChunk::Events(es) => es@.len() < 0x10000 && forall|i: int|
            0 <= i < es@.len() ==> wf_event(#[trigger] es@[i]),
        _ => true,
    }
}

/// The document fits the schema's bit budgets.
pub open spec fn wf(doc: RawMapUnit) -> bool {
    &&& doc.0.items@.len() < 0x100
    &&& forall|i: int| 0 <= i < doc.0.items@.len() ==> wf_chunk(#[trigger] doc.0.items@[i])
}

/// The projected roots of the whole document, one per chunk.
pub open spec fn nodes_v(doc: RawMapUnit, page: CodePage) -> Seq<NodeV> {
    Seq::new(doc.0.items@.len(), |i: int| chunk_v(doc.0.items@[i], page))
}

/// The full emitter call sequence of one raw map-unit projection pass.
pub open spec fn update_calls(doc: RawMapUnit, page: CodePage) -> Seq<crate::tree::CallV> {
    calls_of_list(nodes_v(doc, page), 0, table_v(), 0)
}

/// The projected tree fits the budget table.
pub proof fn lemma_wf_nodes(doc: RawMapUnit, page: CodePage)
    requires
        wf(doc),
    ensures
        wf_list(nodes_v(doc, page), table_v()),
{
    let t = table_v();
    let t1 = t.drop_first();
    let t2 = t1.drop_first();
    let t3 = t2.drop_first();
    let t4 = t3.drop_first();
    let t5 = t4.drop_first();
    assert(t1 =~= seq![16u64, 8u64, 8u64, 8u64, 16u64]);
    assert(t2 =~= seq![8u64, 8u64, 8u64, 16u64]);
    assert(t3 =~= seq![8u64, 8u64, 16u64]);
    assert(t4 =~= seq![8u64, 16u64]);
    assert(t5 =~= seq![16u64]);
    vstd::arithmetic::power2::lemma2_to64();
    let ns = nodes_v(doc, page);
    assert forall|i: int| 0 <= i < ns.len() implies wf_node(#[trigger] ns[i], t1) by {
        let c = doc.0.items@[i];
        assert(wf_chunk(c));
        match c {
            MapUnitChunk::Events(es) => {
                let ch = events_v(es@, page);
                assert forall|j: int| 0 <= j < ch.len() implies wf_node(#[trigger] ch[j], t2) by {
                    assert(ch[j] == event_entry_v(es@[j], page));
                    let fields = Seq::new(es@[j].1@.len(), |k: int| event_field_v(
                        es@[j].1@[k],
                        page,
                    ));
                    assert forall|k: int| 0 <= k < fields.len() implies wf_node(
                        #[trigger] fields[k],
                        t3,
                    ) by {
                        assert(fields[k] == event_field_v(es@[j].1@[k], page));
                        assert(wf_event_field(es@[j].1@[k]));
                        match es@[j].1@[k] {
                            EventField::Pages(ps) => {
                                let pages = Seq::new(ps@.len(), |m: int| page_entry_v(
                                    ps@[m],
                                    page,
                                ));
                                assert forall|m: int| 0 <= m < pages.len() implies wf_node(
                                    #[trigger] pages[m],
                                    t4,
                                ) by {
                                    assert(pages[m] == page_entry_v(ps@[m], page));
                                    assert(wf_page(ps@[m]));
                                    let pf = Seq::new(ps@[m].1.items@.len(), |q: int| page_field_v(
                                        ps@[m].1.items@[q],
                                        page,
                                    ));
                                    assert forall|q: int| 0 <= q < pf.len() implies wf_node(
                                        #[trigger] pf[q],
                                        t5,
                                    ) by {
                                        assert(pf[q] == page_field_v(ps@[m].1.items@[q], page));
                                        assert(wf_page_field(ps@[m].1.items@[q]));
                                        match ps@[m].1.items@[q] {
                                            EventPageField::Condition(cc) => {
                                                assert(wf_list(condition_children_v(cc), t5));
                                            },
                                            EventPageField::MovementRoute(cc) => {
                                                assert(wf_list(move_route_children_v(cc), t5));
                                            },
                                            EventPageField::Commands(cmds) => {
                                                assert(wf_list(commands_v(cmds@, page), t5));
                                            },
                                            _ => {},
                                        }
                                    }
                                    assert(wf_list(pf, t4));
                                }
                                assert(wf_list(pages, t3));
                            },
                            _ => {},
                        }
                    }
                    assert(wf_list(fields, t2));
                }
                assert(wf_list(ch, t1));
            },
            _ => {},
        }
    }
    assert(wf_list(ns, t));
}

/// Projects the raw view of a map-unit document: one tree node per chunk,
/// appended to the emitter in document order.
pub fn update(map_unit: &RawMapUnit, builder: &mut TreeEmitter, encoding: CodePage)
    requires
        wf(*map_unit),
    ensures
        calls_view(final(builder).calls@) == calls_view(old(builder).calls@) + update_calls(
            *map_unit,
            encoding,
        ),
{
    let mut out: Vec<TreeNode> = Vec::new();
    let mut i: usize = 0;
    proof {
        assert(list_view(out@) =~= nodes_v(*map_unit, encoding).take(0));
    }
    while i < map_unit.0.items.len()
        invariant
            i <= map_unit.0.items@.len(),
            wf(*map_unit),
            list_view(out@) =~= nodes_v(*map_unit, encoding).take(i as int),
        decreases map_unit.0.items@.len() - i,
    {
        let ghost before = out@;
        proof {
            assert(wf_chunk(map_unit.0.items@[i as int]));
        }
        let node = match &map_unit.0.items[i] {
            MapUnitChunk::ChipSet(v) => TreeNode::Leaf { label: label_num("ChipSet: ", *v) },
            MapUnitChunk::Width(v) => TreeNode::Leaf { label: label_num("Width: ", *v) },
            MapUnitChunk::Height(v) => TreeNode::Leaf { label: label_num("Height: ", *v) },
            MapUnitChunk::ScrollType(v) => TreeNode::Leaf { label: scroll_label(*v) },
            MapUnitChunk::PanoramaEnabled(v) => TreeNode::Leaf {
                label: label_bool("Panorama Enabled: ", *v != 0),
            },
            MapUnitChunk::PanoramaFile(b) => TreeNode::Leaf {
                label: label_text("Panorama File: ", encoding, b.as_slice()),
            },
            MapUnitChunk::PanoramaHorizontalLoop(v) => TreeNode::Leaf {
                label: label_bool("Panorama Horizontal Loop: ", *v != 0),
            },
            MapUnitChunk::PanoramaVerticalLoop(v) => TreeNode::Leaf {
                label: label_bool("Panorama Vertical Loop: ", *v != 0),
            },
            MapUnitChunk::PanoramaHorizontalAutoScroll(v) => TreeNode::Leaf {
                label: label_bool("Panorama Horizontal Auto Scroll: ", *v != 0),
            },
            MapUnitChunk::PanoramaHorizontalAutoScrollSpeed(v) => TreeNode::Leaf {
                label: label_num("Panorama Horizontal Auto Scroll Speed: ", *v),
            },
            MapUnitChunk::PanoramaVerticalAutoScroll(v) => TreeNode::Leaf {
                label: label_bool("Panorama Vertical Auto Scroll: ", *v != 0),
            },
            MapUnitChunk::PanoramaVerticalAutoScrollSpeed(v) => TreeNode::Leaf {
                label: label_num("Panorama Vertical Auto Scroll Speed: ", *v),
            },
            MapUnitChunk::Events(es) => TreeNode::Dir {
                label: String::from_str("Events"),
                children: events_nodes(es, encoding),
            },
            MapUnitChunk::Lower(v) => TreeNode::Leaf {
                label: String::from_str("Lower: ").concat(num_list(v.as_slice()).as_str()),
            },
            MapUnitChunk::Upper(v) => TreeNode::Leaf {
                label: String::from_str("Upper: ").concat(num_list(v.as_slice()).as_str()),
            },
            MapUnitChunk::SaveTime(v) => TreeNode::Leaf { label: label_num("Save Time: ", *v) },
            MapUnitChunk::Unknown { id, bytes } => unknown_chunk_leaf(*id, bytes),
        };
        out.push(node);
        proof {
            lemma_list_view_snoc(before, out@[out@.len() - 1]);
            assert(node_view(out@[out@.len() - 1]) == chunk_v(
                map_unit.0.items@[i as int],
                encoding,
            ));
            assert(list_view(out@) =~= nodes_v(*map_unit, encoding).take(i + 1 as int));
        }
        i = i + 1;
    }
    proof {
        assert(nodes_v(*map_unit, encoding).take(map_unit.0.items@.len() as int) =~= nodes_v(
            *map_unit,
            encoding,
        ));
        lemma_table_ok();
        lemma_wf_nodes(*map_unit, encoding);
    }
    let table = budgets();
    builder.emit(out, &table);
}

/// No collision: one raw map-unit pass never emits two nodes with one
/// identifier.
pub proof fn lemma_update_no_collision(doc: RawMapUnit, page: CodePage)
    requires
        wf(doc),
    ensures
        ({
            let es = crate::tree::emitted(update_calls(doc, page), 0);
            forall|t1: int, t2: int|
                0 <= t1 < t2 < es.len() ==> (#[trigger] es[t1]).1 != (#[trigger] es[t2]).1
        }),
{
    lemma_table_ok();
    lemma_wf_nodes(doc, page);
    crate::tree_props::lemma_no_collision(nodes_v(doc, page), table_v());
}

/// Balanced structure: the open and close calls of one raw map-unit pass
/// nest correctly.
pub proof fn lemma_update_balanced(doc: RawMapUnit, page: CodePage)
    requires
        wf(doc),
    ensures
        crate::tree::balanced(update_calls(doc, page)),
{
    lemma_table_ok();
    lemma_wf_nodes(doc, page);
    crate::tree_props::lemma_balanced(nodes_v(doc, page), table_v());
}

/// Totality: every chunk of the stream, known or unknown, yields exactly one
/// top-level node.
pub proof fn lemma_update_total(doc: RawMapUnit, page: CodePage)
    requires
        wf(doc),
    ensures
        crate::tree::count_at_depth(crate::tree::emitted(update_calls(doc, page), 0), 0)
            == doc.0.items@.len(),
{
    lemma_table_ok();
    lemma_wf_nodes(doc, page);
    crate::tree_props::lemma_root_count(nodes_v(doc, page), table_v());
}

/// Code page isolation: changing only the code page changes only label text;
/// the emitted call kinds and identifiers stay the same.
pub proof fn lemma_update_page_isolation(doc: RawMapUnit, p1: CodePage, p2: CodePage)
    ensures
        crate::tree_props::shape_calls(update_calls(doc, p1)) == crate::tree_props::shape_calls(
            update_calls(doc, p2),
        ),
{
    let a = nodes_v(doc, p1);
    let b = nodes_v(doc, p2);
    assert forall|i: int| 0 <= i < a.len() implies crate::tree_props::same_shape_node(
        #[trigger] a[i],
        #[trigger] b[i],
    ) by {
        let c = doc.0.items@[i];
        match c {
            MapUnitChunk::Events(es) => {
                let x = events_v(es@, p1);
                let y = events_v(es@, p2);
                assert forall|j: int| 0 <= j < x.len() implies crate::tree_props::same_shape_node(
                    #[trigger] x[j],
                    #[trigger] y[j],
                ) by {
                    let fx = Seq::new(es@[j].1@.len(), |k: int| event_field_v(es@[j].1@[k], p1));
                    let fy = Seq::new(es@[j].1@.len(), |k: int| event_field_v(es@[j].1@[k], p2));
                    assert forall|k: int| 0 <= k < fx.len() implies
                        crate::tree_props::same_shape_node(#[trigger] fx[k], #[trigger] fy[k]) by {
                        match es@[j].1@[k] {
                            EventField::Pages(ps) => {
                                let px = Seq::new(ps@.len(), |m: int| page_entry_v(ps@[m], p1));
                                let py = Seq::new(ps@.len(), |m: int| page_entry_v(ps@[m], p2));
                                assert forall|m: int| 0 <= m < px.len() implies
                                    crate::tree_props::same_shape_node(
                                    #[trigger] px[m],
                                    #[trigger] py[m],
                                ) by {
                                    let qx = Seq::new(ps@[m].1.items@.len(), |q: int| page_field_v(
                                        ps@[m].1.items@[q],
                                        p1,
                                    ));
                                    let qy = Seq::new(ps@[m].1.items@.len(), |q: int| page_field_v(
                                        ps@[m].1.items@[q],
                                        p2,
                                    ));
                                    assert forall|q: int| 0 <= q < qx.len() implies
                                        crate::tree_props::same_shape_node(
                                        #[trigger] qx[q],
                                        #[trigger] qy[q],
                                    ) by {
                                        match ps@[m].1.items@[q] {
                                            EventPageField::Condition(cc) => {
                                                crate::tree_props::lemma_same_shape_refl_list(
                                                    condition_children_v(cc),
                                                );
                                            },
                                            EventPageField::MovementRoute(cc) => {
                                                crate::tree_props::lemma_same_shape_refl_list(
                                                    move_route_children_v(cc),
                                                );
                                            },
                                            EventPageField::Commands(cmds) => {
                                                crate::tree_props::lemma_same_shape_pointwise(
                                                    commands_v(cmds@, p1),
                                                    commands_v(cmds@, p2),
                                                );
                                            },
                                            _ => {},
                                        }
                                    }
                                    crate::tree_props::lemma_same_shape_pointwise(qx, qy);
                                }
                                crate::tree_props::lemma_same_shape_pointwise(px, py);
                            },
                            _ => {},
                        }
                    }
                    crate::tree_props::lemma_same_shape_pointwise(fx, fy);
                }
                crate::tree_props::lemma_same_shape_pointwise(x, y);
            },
            _ => {},
        }
    }
    crate::tree_props::lemma_same_shape_pointwise(a, b);
    crate::tree_props::lemma_shape_calls(a, b, 0, table_v(), 0);
}

} // verus!
