//! The interpreted view of a map-unit document: decoded map settings,
//! panorama options, and the event table with typed pages, conditions,
//! graphics, movement and command scripts.

use vstd::prelude::*;

use crate::code_page::CodePage;
use crate::project::Command;
use crate::project::commands_nodes;
use crate::project::commands_v;
use crate::text::bool_str;
use crate::text::bool_text;
use crate::text::dec;
use crate::text::dec_str;
use crate::text::decoded_text;
use crate::text::decode_bytes;
use crate::text::label_bool;
use crate::text::label_num;
use crate::text::label_text;
use crate::text::num_list;
use crate::text::num_list_str;
use crate::text::page_code;
use crate::tree::NodeV;
use crate::tree::TreeEmitter;
use crate::tree::TreeNode;
use crate::tree::calls_of_list;
use crate::tree::calls_view;
use crate::tree::lemma_list_view_snoc;
use crate::tree::list_view;
use crate::tree::node_view;
use crate::tree::table_ok;
use crate::tree::wf_list;
use crate::tree::wf_node;

verus! {

/// An interpreted map-unit document.
pub struct LcfMapUnit {
    /// The tileset in use, when one was given.
    pub chipset: Option<u64>,
    pub width: u64,
    pub height: u64,
    pub scroll_type: ScrollType,
    pub panorama: Panorama,
    pub events: Vec<Event>,
    pub lower: Vec<u64>,
    pub upper: Vec<u64>,
    pub save_time: u64,
}

/// How the map scrolls at its edges.
pub enum ScrollType {
    NoLoop,
    Vertical,
    Horizontal,
    Both,
}

/// The decoded panorama settings.
pub struct Panorama {
    pub enabled: bool,
    pub file: Option<Vec<u8>>,
    pub horizontal_loop: bool,
    pub horizontal_auto_scroll: bool,
    pub horizontal_auto_scroll_speed: u64,
    pub vertical_loop: bool,
    pub vertical_auto_scroll: bool,
    pub vertical_auto_scroll_speed: u64,
}

/// One decoded map event.
pub struct Event {
    pub id: u64,
    pub name: Vec<u8>,
    pub x: u64,
    pub y: u64,
    pub pages: Vec<Page>,
}

/// One decoded event page.
pub struct Page {
    pub condition: Condition,
    pub graphic: Graphic,
    pub movement: Movement,
    pub trigger: Trigger,
    pub priority: Priority,
    pub forbid_event_overlap: bool,
    pub animation_type: AnimationType,
    pub commands: Vec<Command>,
}

/// A page's start condition: each tested value with its enabled flag.
pub struct Condition {
    pub switch_a: (u64, bool),
    pub switch_b: (u64, bool),
    pub variable: (u64, bool),
    pub value: u64,
    pub item: (u64, bool),
    pub actor: (u64, bool),
    pub timer: (u64, bool),
}

/// A page's graphic settings.
pub struct Graphic {
    pub file: Vec<u8>,
    pub index: u64,
    pub direction: u64,
    pub pattern: u64,
    pub transparent: bool,
}

/// A page's movement settings.
pub struct Movement {
    pub kind: u64,
    pub frequency: u64,
    pub speed: u64,
}

/// What starts a page.
pub enum Trigger {
    ActionButton,
    PlayerTouch,
    EventTouch,
    Autorun,
    Parallel,
}

/// A page's drawing priority.
pub enum Priority {
    BelowCharacters,
    SameAsCharacters,
    AboveCharacters,
}

/// A page's animation behaviour.
pub enum AnimationType {
    Standing,
    Walking,
    DirectionFixInanimated,
    DirectionFixAnimated,
    FixedGraphic,
    Spin,
}

/// The bit budgets of the interpreted map-unit schema.
pub open spec fn table_v() -> Seq<u64> {
    seq![8u64, 16u64, 8u64, 8u64, 8u64, 16u64]
}

/// The budget table as a vector.
pub fn budgets() -> (r: Vec<u64>)
    ensures
        r@ == table_v(),
{
    let mut v: Vec<u64> = Vec::new();
    v.push(8);
    v.push(16);
    v.push(8);
    v.push(8);
    v.push(8);
    v.push(16);
    proof {
        assert(v@ =~= table_v());
    }
    v
}

/// The budget table is usable.
pub proof fn lemma_table_ok()
    ensures
        table_ok(table_v()),
{
    let t = table_v();
    let t1 = seq![16u64, 8u64, 8u64, 8u64, 16u64];
    let t2 = seq![8u64, 8u64, 8u64, 16u64];
    let t3 = seq![8u64, 8u64, 16u64];
    let t4 = seq![8u64, 16u64];
    let t5 = seq![16u64];
    assert(t.drop_first() =~= t1);
    assert(t1.drop_first() =~= t2);
    assert(t2.drop_first() =~= t3);
    assert(t3.drop_first() =~= t4);
    assert(t4.drop_first() =~= t5);
    assert(t5.drop_first() =~= Seq::<u64>::empty());
    assert(crate::tree::sum_bits(Seq::<u64>::empty()) == 0);
    assert(crate::tree::sum_bits(t5) == 16);
    assert(crate::tree::sum_bits(t4) == 24);
    assert(crate::tree::sum_bits(t3) == 32);
    assert(crate::tree::sum_bits(t2) == 40);
    assert(crate::tree::sum_bits(t1) == 56);
    assert(crate::tree::sum_bits(t) == 64);
}

/// A number padded with leading zeroes to at least four digits.
pub open spec fn pad4_str(n: nat) -> Seq<char> {
    if n < 10 {
        "000"@ + dec_str(n)
    } else if n < 100 {
        "00"@ + dec_str(n)
    } else if n < 1000 {
        "0"@ + dec_str(n)
    } else {
        dec_str(n)
    }
}

fn pad4(n: u64) -> (r: String)
    ensures
        r@ == pad4_str(n as nat),
{
    if n < 10 {
        String::from_str("000").concat(dec(n).as_str())
    } else if n < 100 {
        String::from_str("00").concat(dec(n).as_str())
    } else if n < 1000 {
        String::from_str("0").concat(dec(n).as_str())
    } else {
        dec(n)
    }
}

/// The name of a scroll type.
pub open spec fn scroll_text(s: ScrollType) -> Seq<char> {
    match s {
        ScrollType::NoLoop => "No Loop"@,
        ScrollType::Vertical => "Vertical Loop Only"@,
        ScrollType::Horizontal => "Horizontal Loop Only"@,
        ScrollType::Both => "Vertical and Horizontal Loop"@,
    }
}

/// The name of a trigger.
pub open spec fn trigger_text(t: Trigger) -> Seq<char> {
    match t {
        Trigger::ActionButton => "Action Button"@,
        Trigger::PlayerTouch => "Player Touch"@,
        Trigger::EventTouch => "Event Touch"@,
        Trigger::Autorun => "Autorun"@,
        Trigger::Parallel => "Parallel process"@,
    }
}

/// The name of a priority.
pub open spec fn priority_text(p: Priority) -> Seq<char> {
    match p {
        Priority::BelowCharacters => "Below Characters"@,
        Priority::SameAsCharacters => "Same as Characters"@,
        Priority::AboveCharacters => "Above Characters"@,
    }
}

/// The name of an animation type.
pub open spec fn animation_text(a: AnimationType) -> Seq<char> {
    match a {
        AnimationType::Standing => "Standing Animation"@,
        AnimationType::Walking => "Walking Animation"@,
        AnimationType::DirectionFixInanimated => "Direction Fix/Inanimated"@,
        AnimationType::DirectionFixAnimated => "Direction Fix/Animated"@,
        AnimationType::FixedGraphic => "Fixed Graphic"@,
        AnimationType::Spin => "Spin"@,
    }
}

/// A condition pair: its value and its enabled flag in parentheses.
pub open spec fn pair_str(prefix: Seq<char>, p: (u64, bool)) -> Seq<char> {
    prefix + dec_str(p.0 as nat) + " ("@ + bool_str(p.1) + ")"@
}

fn pair_label(prefix: &str, p: (u64, bool)) -> (r: String)
    ensures
        r@ == pair_str(prefix@, p),
{
    let r = String::from_str(prefix).concat(dec(p.0).as_str()).concat(" (").concat(
        bool_text(p.1),
    ).concat(")");
    proof {
        assert(r@ =~= pair_str(prefix@, p));
    }
    r
}

/// The seven leaves of a page condition.
pub open spec fn condition_children_v(c: Condition) -> Seq<NodeV> {
    seq![
        NodeV::Leaf { label: pair_str("Switch A: "@, c.switch_a) },
        NodeV::Leaf { label: pair_str("Switch B: "@, c.switch_b) },
        NodeV::Leaf { label: pair_str("Variable: "@, c.variable) },
        NodeV::Leaf { label: "Value: "@ + dec_str(c.value as nat) },
        NodeV::Leaf { label: pair_str("Item: "@, c.item) },
        NodeV::Leaf { label: pair_str("Actor: "@, c.actor) },
        NodeV::Leaf { label: pair_str("Timer: "@, c.timer) },
    ]
}

/// The five leaves of a page graphic.
pub open spec fn graphic_children_v(g: Graphic, page: CodePage) -> Seq<NodeV> {
    seq![
        NodeV::Leaf { label: "File: "@ + decoded_text(page_code(page), g.file@) },
        NodeV::Leaf { label: "Index: "@ + dec_str(g.index as nat) },
        NodeV::Leaf { label: "Direction: "@ + dec_str(g.direction as nat) },
        NodeV::Leaf { label: "Pattern: "@ + dec_str(g.pattern as nat) },
        NodeV::Leaf { label: "Transparent: "@ + bool_str(g.transparent) },
    ]
}

/// The three leaves of a page movement.
pub open spec fn movement_children_v(m: Movement) -> Seq<NodeV> {
    seq![
        NodeV::Leaf { label: "Type: "@ + dec_str(m.kind as nat) },
        NodeV::Leaf { label: "Frequency: "@ + dec_str(m.frequency as nat) },
        NodeV::Leaf { label: "Speed: "@ + dec_str(m.speed as nat) },
    ]
}

/// One event page: its condition, graphic, movement, enumerated settings and
/// command script, under a directory labelled with its one-based position.
pub open spec fn page_entry_v(i: int, p: Page, page: CodePage) -> NodeV {
    NodeV::Dir {
        label: "Page "@ + dec_str((i + 1) as nat),
        children: seq![
            NodeV::Dir { label: "Condition"@, children: condition_children_v(p.condition) },
            NodeV::Dir { label: "Graphic"@, children: graphic_children_v(p.graphic, page) },
            NodeV::Dir { label: "Movement"@, children: movement_children_v(p.movement) },
            NodeV::Leaf { label: "Trigger: "@ + trigger_text(p.trigger) },
            NodeV::Leaf { label: "Priority: "@ + priority_text(p.priority) },
            NodeV::Leaf { label: "Forbid Event Overlap: "@ + bool_str(p.forbid_event_overlap) },
            NodeV::Leaf { label: "Animation Type: "@ + animation_text(p.animation_type) },
            NodeV::Dir { label: "Commands"@, children: commands_v(p.commands@, page) },
        ],
    }
}

/// One event: its position and pages, under a directory labelled with its
/// zero-padded identifier and decoded name.
pub open spec fn event_entry_v(e: Event, page: CodePage) -> NodeV {
    NodeV::Dir {
        label: "E"@ + pad4_str(e.id as nat) + ": "@ + decoded_text(page_code(page), e.name@),
        children: seq![
            NodeV::Leaf { label: "X: "@ + dec_str(e.x as nat) },
            NodeV::Leaf { label: "Y: "@ + dec_str(e.y as nat) },
            NodeV::Dir {
                label: "Pages"@,
                children: Seq::new(e.pages@.len(), |i: int| page_entry_v(i, e.pages@[i], page)),
            },
        ],
    }
}

/// The events in order.
pub open spec fn events_v(es: Seq<Event>, page: CodePage) -> Seq<NodeV> {
    Seq::new(es.len(), |i: int| event_entry_v(es[i], page))
}

/// The children of the panorama directory.
pub open spec fn panorama_children_v(p: Panorama, page: CodePage) -> Seq<NodeV> {
    seq![
        NodeV::Leaf { label: "Enabled: "@ + bool_str(p.enabled) },
        NodeV::Leaf {
            label: "File: "@ + decoded_text(
                page_code(page),
                match p.file {
                    Option::Some(b) => b@,
                    Option::None => Seq::<u8>::empty(),
                },
            ),
        },
        NodeV::Dir {
            label: "Horizontal"@,
            children: seq![
                NodeV::Leaf { label: "Looping: "@ + bool_str(p.horizontal_loop) },
                NodeV::Leaf { label: "Auto Scroll: "@ + bool_str(p.horizontal_auto_scroll) },
                NodeV::Leaf {
                    label: "Auto Scroll Speed: "@ + dec_str(p.horizontal_auto_scroll_speed as nat),
                },
            ],
        },
        NodeV::Dir {
            label: "Vertical"@,
            children: seq![
                NodeV::Leaf { label: "Looping: "@ + bool_str(p.vertical_loop) },
                NodeV::Leaf { label: "Auto Scroll: "@ + bool_str(p.vertical_auto_scroll) },
                NodeV::Leaf {
                    label: "Auto Scroll Speed: "@ + dec_str(p.vertical_auto_scroll_speed as nat),
                },
            ],
        },
    ]
}

/// The projected roots: the optional tileset leaf, the map settings, the
/// panorama and event directories, the tile layers and the save counter.
pub open spec fn nodes_v(doc: LcfMapUnit, page: CodePage) -> Seq<NodeV> {
    (match doc.chipset {
        Option::Some(v) => seq![NodeV::Leaf { label: "ChipSet: "@ + dec_str(v as nat) }],
        Option::None => Seq::<NodeV>::empty(),
    }) + seq![
        NodeV::Leaf { label: "Width: "@ + dec_str(doc.width as nat) },
        NodeV::Leaf { label: "Height: "@ + dec_str(doc.height as nat) },
        NodeV::Leaf { label: "Scroll Type: "@ + scroll_text(doc.scroll_type) },
        NodeV::Dir { label: "Panorama"@, children: panorama_children_v(doc.panorama, page) },
        NodeV::Dir { label: "Events"@, children: events_v(doc.events@, page) },
        NodeV::Leaf { label: "Lower: "@ + num_list_str(doc.lower@) },
        NodeV::Leaf { label: "Upper: "@ + num_list_str(doc.upper@) },
        NodeV::Leaf { label: "Save Time: "@ + dec_str(doc.save_time as nat) },
    ]
}

/// The full emitter call sequence of one interpreted map-unit projection
/// pass.
pub open spec fn update_calls(doc: LcfMapUnit, page: CodePage) -> Seq<crate::tree::CallV> {
    calls_of_list(nodes_v(doc, page), 0, table_v(), 0)
}

/// The document fits the schema's bit budgets.
pub open spec fn wf(doc: LcfMapUnit) -> bool {
    &&& doc.events@.len() < 0x10000
    &&& forall|i: int|
        0 <= i < doc.events@.len() ==> {
            &&& (#[trigger] doc.events@[i]).pages@.len() < 0x100
            &&& forall|j: int|
                0 <= j < doc.events@[i].pages@.len() ==> (
                #[trigger] doc.events@[i].pages@[j]).commands@.len() < 0x10000
        }
}

fn condition_nodes(c: &Condition) -> (r: Vec<TreeNode>)
    ensures
        list_view(r@) == condition_children_v(*c),
{
    let mut out: Vec<TreeNode> = Vec::new();
    out.push(TreeNode::Leaf { label: pair_label("Switch A: ", c.switch_a) });
    out.push(TreeNode::Leaf { label: pair_label("Switch B: ", c.switch_b) });
    out.push(TreeNode::Leaf { label: pair_label("Variable: ", c.variable) });
    out.push(TreeNode::Leaf { label: label_num("Value: ", c.value) });
    out.push(TreeNode::Leaf { label: pair_label("Item: ", c.item) });
    out.push(TreeNode::Leaf { label: pair_label("Actor: ", c.actor) });
    out.push(TreeNode::Leaf { label: pair_label("Timer: ", c.timer) });
    proof {
        lemma_list_view_members(out@);
        assert(list_view(out@) =~= condition_children_v(*c));
    }
    out
}

fn graphic_nodes(g: &Graphic, page: CodePage) -> (r: Vec<TreeNode>)
    ensures
        list_view(r@) == graphic_children_v(*g, page),
{
    let mut out: Vec<TreeNode> = Vec::new();
    out.push(TreeNode::Leaf { label: label_text("File: ", page, g.file.as_slice()) });
    out.push(TreeNode::Leaf { label: label_num("Index: ", g.index) });
    out.push(TreeNode::Leaf { label: label_num("Direction: ", g.direction) });
    out.push(TreeNode::Leaf { label: label_num("Pattern: ", g.pattern) });
    out.push(TreeNode::Leaf { label: label_bool("Transparent: ", g.transparent) });
    proof {
        lemma_list_view_members(out@);
        assert(list_view(out@) =~= graphic_children_v(*g, page));
    }
    out
}

fn movement_nodes(m: &Movement) -> (r: Vec<TreeNode>)
    ensures
        list_view(r@) == movement_children_v(*m),
{
    let mut out: Vec<TreeNode> = Vec::new();
    out.push(TreeNode::Leaf { label: label_num("Type: ", m.kind) });
    out.push(TreeNode::Leaf { label: label_num("Frequency: ", m.frequency) });
    out.push(TreeNode::Leaf { label: label_num("Speed: ", m.speed) });
    proof {
        lemma_list_view_members(out@);
        assert(list_view(out@) =~= movement_children_v(*m));
    }
    out
}

/// The value of a node list is its members' values, in order.
proof fn lemma_list_view_members(ns: Seq<TreeNode>)
    ensures
        list_view(ns).len() == ns.len(),
        forall|i: int| 0 <= i < ns.len() ==> #[trigger] list_view(ns)[i] == node_view(ns[i]),
    decreases ns,
{
    crate::tree::lemma_list_view_len(ns);
    assert forall|i: int| 0 <= i < ns.len() implies #[trigger] list_view(ns)[i] == node_view(
        ns[i],
    ) by {
        crate::tree::lemma_list_view_index(ns, i);
    }
}

fn trigger_label(t: &Trigger) -> (r: String)
    ensures
        r@ == "Trigger: "@ + trigger_text(*t),
{
    let name = match t {
        Trigger::ActionButton => "Action Button",
        Trigger::PlayerTouch => "Player Touch",
        Trigger::EventTouch => "Event Touch",
        Trigger::Autorun => "Autorun",
        Trigger::Parallel => "Parallel process",
    };
    String::from_str("Trigger: ").concat(name)
}

fn priority_label(p: &Priority) -> (r: String)
    ensures
        r@ == "Priority: "@ + priority_text(*p),
{
    let name = match p {
        Priority::BelowCharacters => "Below Characters",
        Priority::SameAsCharacters => "Same as Characters",
        Priority::AboveCharacters => "Above Characters",
    };
    String::from_str("Priority: ").concat(name)
}

fn animation_label(a: &AnimationType) -> (r: String)
    ensures
        r@ == "Animation Type: "@ + animation_text(*a),
{
    let name = match a {
        AnimationType::Standing => "Standing Animation",
        AnimationType::Walking => "Walking Animation",
        AnimationType::DirectionFixInanimated => "Direction Fix/Inanimated",
        AnimationType::DirectionFixAnimated => "Direction Fix/Animated",
        AnimationType::FixedGraphic => "Fixed Graphic",
        AnimationType::Spin => "Spin",
    };
    String::from_str("Animation Type: ").concat(name)
}

fn page_node(i: u64, p: &Page, page: CodePage) -> (r: TreeNode)
    requires
        p.commands@.len() < 0x10000,
        i < 0xFFFF_FFFF_FFFF_FFFF,
    ensures
        node_view(r) == page_entry_v(i as int, *p, page),
{
    let mut children: Vec<TreeNode> = Vec::new();
    children.push(
        TreeNode::Dir { label: String::from_str("Condition"), children: condition_nodes(
            &p.condition,
        ) },
    );
    children.push(
        TreeNode::Dir { label: String::from_str("Graphic"), children: graphic_nodes(
            &p.graphic,
            page,
        ) },
    );
    children.push(
        TreeNode::Dir { label: String::from_str("Movement"), children: movement_nodes(
            &p.movement,
        ) },
    );
    children.push(TreeNode::Leaf { label: trigger_label(&p.trigger) });
    children.push(TreeNode::Leaf { label: priority_label(&p.priority) });
    children.push(
        TreeNode::Leaf { label: label_bool("Forbid Event Overlap: ", p.forbid_event_overlap) },
    );
    children.push(TreeNode::Leaf { label: animation_label(&p.animation_type) });
    children.push(
        TreeNode::Dir { label: String::from_str("Commands"), children: commands_nodes(
            &p.commands,
            page,
        ) },
    );
    proof {
        lemma_list_view_members(children@);
        assert(list_view(children@) =~= page_entry_v(i as int, *p, page)->Dir_children);
    }
    TreeNode::Dir { label: label_num("Page ", i + 1), children }
}

fn event_node(e: &Event, page: CodePage) -> (r: TreeNode)
    requires
        e.pages@.len() < 0x100,
        forall|j: int| 0 <= j < e.pages@.len() ==> (#[trigger] e.pages@[j]).commands@.len()
            < 0x10000,
    ensures
        node_view(r) == event_entry_v(*e, page),
{
    let mut pages: Vec<TreeNode> = Vec::new();
    let mut i: usize = 0;
    proof {
        assert(list_view(pages@) =~= Seq::new(0nat, |k: int| page_entry_v(k, e.pages@[k], page)));
    }
    while i < e.pages.len()
        invariant
            i <= e.pages@.len(),
            e.pages@.len() < 0x100,
            forall|j: int| 0 <= j < e.pages@.len() ==> (#[trigger] e.pages@[j]).commands@.len()
                < 0x10000,
            list_view(pages@) =~= Seq::new(i as nat, |k: int| page_entry_v(
                k,
                e.pages@[k],
                page,
            )),
        decreases e.pages@.len() - i,
    {
        let ghost before = pages@;
        pages.push(page_node(i as u64, &e.pages[i], page));
        proof {
            lemma_list_view_snoc(before, pages@[pages@.len() - 1]);
            assert(list_view(pages@) =~= Seq::new((i + 1) as nat, |k: int| page_entry_v(
                k,
                e.pages@[k],
                page,
            )));
        }
        i = i + 1;
    }
    let label = String::from_str("E").concat(pad4(e.id).as_str()).concat(": ").concat(
        decode_bytes(page, e.name.as_slice()).as_str(),
    );
    proof {
        assert(label@ =~= "E"@ + pad4_str(e.id as nat) + ": "@ + decoded_text(
            page_code(page),
            e.name@,
        ));
    }
    let mut children: Vec<TreeNode> = Vec::new();
    children.push(TreeNode::Leaf { label: label_num("X: ", e.x) });
    children.push(TreeNode::Leaf { label: label_num("Y: ", e.y) });
    children.push(TreeNode::Dir { label: String::from_str("Pages"), children: pages });
    proof {
        lemma_list_view_members(children@);
        assert(list_view(children@) =~= event_entry_v(*e, page)->Dir_children);
    }
    TreeNode::Dir { label, children }
}

fn panorama_nodes(p: &Panorama, page: CodePage) -> (r: Vec<TreeNode>)
    ensures
        list_view(r@) == panorama_children_v(*p, page),
{
    let mut out: Vec<TreeNode> = Vec::new();
    out.push(TreeNode::Leaf { label: label_bool("Enabled: ", p.enabled) });
    let file_label = match &p.file {
        Option::Some(b) => label_text("File: ", page, b.as_slice()),
        Option::None => {
            let empty: Vec<u8> = Vec::new();
            let r = label_text("File: ", page, empty.as_slice());
            proof {
                assert(empty@ =~= Seq::<u8>::empty());
            }
            r
        },
    };
    out.push(TreeNode::Leaf { label: file_label });
    let mut horizontal: Vec<TreeNode> = Vec::new();
    horizontal.push(TreeNode::Leaf { label: label_bool("Looping: ", p.horizontal_loop) });
    horizontal.push(TreeNode::Leaf { label: label_bool("Auto Scroll: ", p.horizontal_auto_scroll) });
    horizontal.push(
        TreeNode::Leaf { label: label_num("Auto Scroll Speed: ", p.horizontal_auto_scroll_speed) },
    );
    proof {
        lemma_list_view_members(horizontal@);
    }
    proof {
        assert(list_view(horizontal@) =~= seq![
            NodeV::Leaf { label: "Looping: "@ + bool_str(p.horizontal_loop) },
            NodeV::Leaf { label: "Auto Scroll: "@ + bool_str(p.horizontal_auto_scroll) },
            NodeV::Leaf {
                label: "Auto Scroll Speed: "@ + dec_str(p.horizontal_auto_scroll_speed as nat),
            },
        ]);
    }
    out.push(TreeNode::Dir { label: String::from_str("Horizontal"), children: horizontal });
    let mut vertical: Vec<TreeNode> = Vec::new();
    vertical.push(TreeNode::Leaf { label: label_bool("Looping: ", p.vertical_loop) });
    vertical.push(TreeNode::Leaf { label: label_bool("Auto Scroll: ", p.vertical_auto_scroll) });
    vertical.push(
        TreeNode::Leaf { label: label_num("Auto Scroll Speed: ", p.vertical_auto_scroll_speed) },
    );
    proof {
        lemma_list_view_members(vertical@);
    }
    proof {
        assert(list_view(vertical@) =~= seq![
            NodeV::Leaf { label: "Looping: "@ + bool_str(p.vertical_loop) },
            NodeV::Leaf { label: "Auto Scroll: "@ + bool_str(p.vertical_auto_scroll) },
            NodeV::Leaf {
                label: "Auto Scroll Speed: "@ + dec_str(p.vertical_auto_scroll_speed as nat),
            },
        ]);
    }
    out.push(TreeNode::Dir { label: String::from_str("Vertical"), children: vertical });
    proof {
        lemma_list_view_members(out@);
        assert(list_view(out@) =~= panorama_children_v(*p, page));
    }
    out
}

/// Projects the interpreted view of a map-unit document.
pub fn update(map_unit: &LcfMapUnit, builder: &mut TreeEmitter, encoding: CodePage)
    requires
        wf(*map_unit),
    ensures
        calls_view(final(builder).calls@) == calls_view(old(builder).calls@) + update_calls(
            *map_unit,
            encoding,
        ),
{
    let mut events: Vec<TreeNode> = Vec::new();
    let mut i: usize = 0;
    proof {
        assert(list_view(events@) =~= events_v(map_unit.events@, encoding).take(0));
    }
    while i < map_unit.events.len()
        invariant
            i <= map_unit.events@.len(),
            wf(*map_unit),
            list_view(events@) =~= events_v(map_unit.events@, encoding).take(i as int),
        decreases map_unit.events@.len() - i,
    {
        let ghost before = events@;
        events.push(event_node(&map_unit.events[i], encoding));
        proof {
            lemma_list_view_snoc(before, events@[events@.len() - 1]);
            assert(list_view(events@) =~= events_v(map_unit.events@, encoding).take(i + 1 as int));
        }
        i = i + 1;
    }
    proof {
        assert(events_v(map_unit.events@, encoding).take(map_unit.events@.len() as int)
            =~= events_v(map_unit.events@, encoding));
    }
    let mut nodes: Vec<TreeNode> = Vec::new();
    match &map_unit.chipset {
        Option::Some(v) => {
            nodes.push(TreeNode::Leaf { label: label_num("ChipSet: ", *v) });
        },
        Option::None => {},
    }
    nodes.push(TreeNode::Leaf { label: label_num("Width: ", map_unit.width) });
    nodes.push(TreeNode::Leaf { label: label_num("Height: ", map_unit.height) });
    let scroll_name = match &map_unit.scroll_type {
        ScrollType::NoLoop => "No Loop",
        ScrollType::Vertical => "Vertical Loop Only",
        ScrollType::Horizontal => "Horizontal Loop Only",
        ScrollType::Both => "Vertical and Horizontal Loop",
    };
    nodes.push(TreeNode::Leaf { label: String::from_str("Scroll Type: ").concat(scroll_name) });
    nodes.push(
        TreeNode::Dir { label: String::from_str("Panorama"), children: panorama_nodes(
            &map_unit.panorama,
            encoding,
        ) },
    );
    nodes.push(TreeNode::Dir { label: String::from_str("Events"), children: events });
    nodes.push(
        TreeNode::Leaf { label: String::from_str("Lower: ").concat(
            num_list(map_unit.lower.as_slice()).as_str(),
        ) },
    );
    nodes.push(
        TreeNode::Leaf { label: String::from_str("Upper: ").concat(
            num_list(map_unit.upper.as_slice()).as_str(),
        ) },
    );
    nodes.push(TreeNode::Leaf { label: label_num("Save Time: ", map_unit.save_time) });
    proof {
        lemma_list_view_members(nodes@);
        assert(list_view(nodes@) =~= nodes_v(*map_unit, encoding));
        lemma_table_ok();
        lemma_wf_nodes(*map_unit, encoding);
    }
    let table = budgets();
    builder.emit(nodes, &table);
}

/// The projected tree fits the budget table.
pub proof fn lemma_wf_nodes(doc: LcfMapUnit, page: CodePage)
    requires
        wf(doc),
    ensures
        wf_list(nodes_v(doc, page), table_v()),
{
    let t = table_v();
    let t1 = t.drop_first();
    let t2 = t1.drop_first();
    let t3 = t2.drop_first();
    let t4 = t3.drop_first();
    let t5 = t4.drop_first();
    assert(t1 =~= seq![16u64, 8u64, 8u64, 8u64, 16u64]);
    assert(t2 =~= seq![8u64, 8u64, 8u64, 16u64]);
    assert(t3 =~= seq![8u64, 8u64, 16u64]);
    assert(t4 =~= seq![8u64, 16u64]);
    assert(t5 =~= seq![16u64]);
    vstd::arithmetic::power2::lemma2_to64();
    let ns = nodes_v(doc, page);
    assert forall|i: int| 0 <= i < ns.len() implies wf_node(#[trigger] ns[i], t1) by {
        // The panorama directory's grandchildren are small fixed groups.
        let pc = panorama_children_v(doc.panorama, page);
        assert forall|k: int| 0 <= k < pc.len() implies wf_node(#[trigger] pc[k], t2) by {
            if k == 2 || k == 3 {
                assert(pc[k]->Dir_children.len() == 3);
                assert(wf_list(pc[k]->Dir_children, t2));
            }
        }
        assert(wf_list(pc, t1));
        // The event table.
        let ch = events_v(doc.events@, page);
        assert forall|j: int| 0 <= j < ch.len() implies wf_node(#[trigger] ch[j], t2) by {
            assert(ch[j] == event_entry_v(doc.events@[j], page));
            let pages = Seq::new(doc.events@[j].pages@.len(), |m: int| page_entry_v(
                m,
                doc.events@[j].pages@[m],
                page,
            ));
            assert forall|m: int| 0 <= m < pages.len() implies wf_node(#[trigger] pages[m], t4) by {
                assert(pages[m] == page_entry_v(m, doc.events@[j].pages@[m], page));
                let p = doc.events@[j].pages@[m];
                assert(wf_list(condition_children_v(p.condition), t5));
                assert(wf_list(graphic_children_v(p.graphic, page), t5));
                assert(wf_list(movement_children_v(p.movement), t5));
                assert(commands_v(p.commands@, page).len() < 0x10000);
                assert(wf_list(commands_v(p.commands@, page), t5));
                assert(wf_list(page_entry_v(m, p, page)->Dir_children, t4));
            }
            assert(wf_list(pages, t3));
            assert(wf_list(event_entry_v(doc.events@[j], page)->Dir_children, t2));
        }
        assert(wf_list(ch, t1));
    }
    assert(wf_list(ns, t));
}

/// No collision: one interpreted map-unit pass never emits two nodes with
/// one identifier.
pub proof fn lemma_update_no_collision(doc: LcfMapUnit, page: CodePage)
    requires
        wf(doc),
    ensures
        ({
            let es = crate::tree::emitted(update_calls(doc, page), 0);
            forall|t1: int, t2: int|
                0 <= t1 < t2 < es.len() ==> (#[trigger] es[t1]).1 != (#[trigger] es[t2]).1
        }),
{
    lemma_table_ok();
    lemma_wf_nodes(doc, page);
    crate::tree_props::lemma_no_collision(nodes_v(doc, page), table_v());
}

/// Balanced structure: the open and close calls of one interpreted map-unit
/// pass nest correctly.
pub proof fn lemma_update_balanced(doc: LcfMapUnit, page: CodePage)
    requires
        wf(doc),
    ensures
        crate::tree::balanced(update_calls(doc, page)),
{
    lemma_table_ok();
    lemma_wf_nodes(doc, page);
    crate::tree_props::lemma_balanced(nodes_v(doc, page), table_v());
}

/// Code page isolation: changing only the code page changes only label text;
/// the emitted call kinds and identifiers stay the same.
#[verifier::rlimit(50)]
pub proof fn lemma_update_page_isolation(doc: LcfMapUnit, p1: CodePage, p2: CodePage)
    ensures
        crate::tree_props::shape_calls(update_calls(doc, p1)) == crate::tree_props::shape_calls(
            update_calls(doc, p2),
        ),
{
    let a = nodes_v(doc, p1);
    let b = nodes_v(doc, p2);
    assert forall|i: int| 0 <= i < a.len() implies crate::tree_props::same_shape_node(
        #[trigger] a[i],
        #[trigger] b[i],
    ) by {
        let pa = panorama_children_v(doc.panorama, p1);
        let pb = panorama_children_v(doc.panorama, p2);
        assert forall|k: int| 0 <= k < pa.len() implies crate::tree_props::same_shape_node(
            #[trigger] pa[k],
            #[trigger] pb[k],
        ) by {
            if k == 2 || k == 3 {
                assert(pa[k] == pb[k]);
                crate::tree_props::lemma_same_shape_refl_node(pa[k]);
            }
        }
        crate::tree_props::lemma_same_shape_pointwise(pa, pb);
        let x = events_v(doc.events@, p1);
        let y = events_v(doc.events@, p2);
        assert forall|j: int| 0 <= j < x.len() implies crate::tree_props::same_shape_node(
            #[trigger] x[j],
            #[trigger] y[j],
        ) by {
            let px = Seq::new(doc.events@[j].pages@.len(), |m: int| page_entry_v(
                m,
                doc.events@[j].pages@[m],
                p1,
            ));
            let py = Seq::new(doc.events@[j].pages@.len(), |m: int| page_entry_v(
                m,
                doc.events@[j].pages@[m],
                p2,
            ));
            assert forall|m: int| 0 <= m < px.len() implies crate::tree_props::same_shape_node(
                #[trigger] px[m],
                #[trigger] py[m],
            ) by {
                let p = doc.events@[j].pages@[m];
                crate::tree_props::lemma_same_shape_refl_list(
                    condition_children_v(p.condition),
                );
                crate::tree_props::lemma_same_shape_pointwise(
                    graphic_children_v(p.graphic, p1),
                    graphic_children_v(p.graphic, p2),
                );
                crate::tree_props::lemma_same_shape_refl_list(movement_children_v(p.movement));
                crate::tree_props::lemma_same_shape_pointwise(
                    commands_v(p.commands@, p1),
                    commands_v(p.commands@, p2),
                );
                crate::tree_props::lemma_same_shape_pointwise(
                    page_entry_v(m, p, p1)->Dir_children,
                    page_entry_v(m, p, p2)->Dir_children,
                );
            }
            crate::tree_props::lemma_same_shape_pointwise(px, py);
            crate::tree_props::lemma_same_shape_pointwise(
                event_entry_v(doc.events@[j], p1)->Dir_children,
                event_entry_v(doc.events@[j], p2)->Dir_children,
            );
        }
        crate::tree_props::lemma_same_shape_pointwise(x, y);
    }
    crate::tree_props::lemma_same_shape_pointwise(a, b);
    crate::tree_props::lemma_shape_calls(a, b, 0, table_v(), 0);
}

} // verus!
