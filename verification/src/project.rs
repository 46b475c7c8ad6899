//! Building blocks shared by every document projector: the chunk-list model,
//! unknown-field leaves, and embedded command scripts.

use vstd::prelude::*;

use crate::code_page::CodePage;
use crate::text::byte_list_str;
use crate::text::bool_str;
use crate::text::dec_str;
use crate::text::decoded_text;
use crate::text::label_bool;
use crate::text::page_code;
use crate::text::tab_str;
use crate::text::dec;
use crate::text::tabs;
use crate::text::decode_bytes;
use crate::tree::NodeV;
use crate::tree::TreeNode;
use crate::tree::list_view;
use crate::tree::node_view;
use crate::tree::lemma_list_view_snoc;

verus! {

/// An ordered chunk collection, remembering whether the wire stream closed it
/// with a null terminator.
pub struct ChunkList<T> {
    pub items: Vec<T>,
    pub null_terminated: bool,
}

/// A wire-level field whose tag the projector does not model: its tag and its
/// raw bytes.
pub struct UnknownField {
    pub id: u64,
    pub bytes: Vec<u8>,
}

/// One instruction of an embedded command script.
pub struct Command {
    /// The instruction's numeric tag.
    pub instruction: u64,
    /// Nesting depth carried in the script; rendered as an indentation
    /// prefix.
    pub indent: u64,
    /// The instruction's string argument, decoded through the code page.
    pub string: Vec<u8>,
}

/// The label of the leaf reporting a collection's wire-level termination.
pub open spec fn null_leaf_v(null_terminated: bool) -> NodeV {
    NodeV::Leaf { label: "Null terminated: "@ + bool_str(null_terminated) }
}

/// A leaf reporting whether a collection was null-terminated on the wire.
pub fn null_leaf(null_terminated: bool) -> (r: TreeNode)
    ensures
        node_view(r) == null_leaf_v(null_terminated),
{
    TreeNode::Leaf { label: label_bool("Null terminated: ", null_terminated) }
}

/// The label of an unknown field: its tag and its literal bytes.
pub open spec fn unknown_field_v(id: u64, bytes: Seq<u8>) -> NodeV {
    NodeV::Leaf { label: "Field "@ + dec_str(id as nat) + ": "@ + byte_list_str(bytes) }
}

/// A leaf for a field tag the projector does not model.
pub fn unknown_field_leaf(id: u64, bytes: &Vec<u8>) -> (r: TreeNode)
    ensures
        node_view(r) == unknown_field_v(id, bytes@),
{
    let label = crate::text::label_num("Field ", id).concat(": ").concat(
        crate::text::byte_list(bytes.as_slice()).as_str(),
    );
    proof {
        assert(label@ =~= "Field "@ + dec_str(id as nat) + ": "@ + byte_list_str(bytes@));
    }
    TreeNode::Leaf { label }
}

/// The label of an unknown top-level chunk: its tag and its literal bytes.
pub open spec fn unknown_chunk_v(id: u64, bytes: Seq<u8>) -> NodeV {
    NodeV::Leaf { label: "Chunk "@ + dec_str(id as nat) + ": "@ + byte_list_str(bytes) }
}

/// A leaf for a top-level chunk tag the projector does not model. The raw
/// view is total: such a chunk is still displayed, with its tag and its
/// bytes unchanged.
pub fn unknown_chunk_leaf(id: u64, bytes: &Vec<u8>) -> (r: TreeNode)
    ensures
        node_view(r) == unknown_chunk_v(id, bytes@),
{
    let label = crate::text::label_num("Chunk ", id).concat(": ").concat(
        crate::text::byte_list(bytes.as_slice()).as_str(),
    );
    proof {
        assert(label@ =~= "Chunk "@ + dec_str(id as nat) + ": "@ + byte_list_str(bytes@));
    }
    TreeNode::Leaf { label }
}

/// The leaf projected for one script instruction: its zero-based index, an
/// indentation prefix of one tab per nesting level, its numeric tag, and its
/// decoded string argument.
pub open spec fn command_v(i: int, c: Command, page: CodePage) -> NodeV {
    NodeV::Leaf {
        label: dec_str(i as nat) + ": "@ + tab_str(c.indent as nat) + dec_str(
            c.instruction as nat,
        ) + " "@ + decoded_text(page_code(page), c.string@),
    }
}

/// Projects one script instruction; see [`command_v`].
pub fn command_node(i: u64, c: &Command, page: CodePage) -> (r: TreeNode)
    ensures
        node_view(r) == command_v(i as int, *c, page),
{
    let label = dec(i).concat(": ").concat(tabs(c.indent).as_str()).concat(
        dec(c.instruction).as_str(),
    ).concat(" ").concat(decode_bytes(page, c.string.as_slice()).as_str());
    proof {
        assert(label@ =~= dec_str(i as nat) + ": "@ + tab_str(c.indent as nat) + dec_str(
            c.instruction as nat,
        ) + " "@ + decoded_text(page_code(page), c.string@));
    }
    TreeNode::Leaf { label }
}

/// The leaves projected for a whole command script, in script order.
pub open spec fn commands_v(cmds: Seq<Command>, page: CodePage) -> Seq<NodeV> {
    Seq::new(cmds.len(), |i: int| command_v(i, cmds[i], page))
}

/// Projects a whole command script; see [`command_v`].
pub fn commands_nodes(cmds: &Vec<Command>, page: CodePage) -> (r: Vec<TreeNode>)
    requires
        cmds@.len() < 0x1_0000_0000_0000_0000,
    ensures
        list_view(r@) == commands_v(cmds@, page),
{
    let mut out: Vec<TreeNode> = Vec::new();
    let mut i: usize = 0;
    proof {
        assert(list_view(out@) =~= commands_v(cmds@.take(0), page));
    }
    while i < cmds.len()
        invariant
            i <= cmds@.len(),
            cmds@.len() < 0x1_0000_0000_0000_0000,
            list_view(out@) =~= commands_v(cmds@, page).take(i as int),
        decreases cmds@.len() - i,
    {
        let ghost before = out@;
        out.push(command_node(i as u64, &cmds[i], page));
        proof {
            lemma_list_view_snoc(before, out@[out@.len() - 1]);
            assert(list_view(out@) =~= commands_v(cmds@, page).take(i + 1 as int));
        }
        i = i + 1;
    }
    proof {
        assert(commands_v(cmds@, page).take(cmds@.len() as int) =~= commands_v(cmds@, page));
    }
    out
}

} // verus!
