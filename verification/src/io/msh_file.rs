//! Gmsh files as bytes.

use crate::io::gmsh::{kind_size, MshContents, MshElementBlock, MshElementKind, MshNodeBlock};
use crate::io::msh_sections::{is_readable, readable};
use crate::linalg::scalar::Scalar;
use crate::text::owned;
use vstd::prelude::*;

verus! {

/// The nodes of a block as they come from the parser: their tags with places, where the block
/// lists them, and the words of their coordinates.
pub type RawBlock = (Option<Vec<(u64, usize)>>, Vec<[u64; 3]>);

/// The least tag and the blocks of nodes, and the blocks of elements with the number of their
/// type, as they come from the parser.
pub type RawFile = (Option<(u64, Vec<RawBlock>)>, Option<Vec<(i32, Vec<Vec<u64>>)>>);

/// A table from tags to places.
pub type TagTable = Map<u64, usize>;

/// What `mshio::parse_msh_bytes` finds in a file: the least tag of the nodes and their blocks,
/// each with its table of tags and with the words of its coordinates, and the blocks of elements,
/// each with the number of its type and with the tags of the nodes of each element. None where
/// the file does not parse.
pub uninterp spec fn msh_parsed(bytes: Seq<u8>) -> Option<
    (
        Option<(u64, Seq<(Option<Map<u64, usize>>, Seq<Seq<u64>>)>)>,
        Option<Seq<(i32, Seq<Seq<u64>>)>>,
    ),
>;

/// A list of pairs holds each entry of a table once.
pub open spec fn lists_table(pairs: Seq<(u64, usize)>, table: TagTable) -> bool {
    &&& forall|i: int, j: int|
        0 <= i < j < pairs.len() ==> (#[trigger] pairs[i]).0 != (#[trigger] pairs[j]).0
    &&& forall|i: int|
        0 <= i < pairs.len() ==> table.contains_pair((#[trigger] pairs[i]).0, pairs[i].1)
    &&& forall|tag: u64| #[trigger]
        table.contains_key(tag) ==> pairs.contains((tag, table[tag]))
}

/// A block of nodes is the one of a parsed file.
pub open spec fn shows_block(block: RawBlock, named: (Option<TagTable>, Seq<Seq<u64>>)) -> bool {
    &&& block.0 is Some == named.0 is Some
    &&& block.0 is Some ==> lists_table(block.0->0@, named.0->0)
    &&& block.1@.len() == named.1.len()
    &&& forall|i: int| 0 <= i < named.1.len() ==> (#[trigger] block.1@[i])@ == named.1[i]
}

/// A block of elements is the one of a parsed file.
pub open spec fn shows_elements(block: (i32, Vec<Vec<u64>>), named: (i32, Seq<Seq<u64>>)) -> bool {
    &&& block.0 == named.0
    &&& block.1@.len() == named.1.len()
    &&& forall|i: int| 0 <= i < named.1.len() ==> (#[trigger] block.1@[i])@ == named.1[i]
}

/// A file as it comes from the parser is the one that was parsed.
pub open spec fn shows_file(
    file: RawFile,
    named: (
        Option<(u64, Seq<(Option<TagTable>, Seq<Seq<u64>>)>)>,
        Option<Seq<(i32, Seq<Seq<u64>>)>>,
    ),
) -> bool {
    &&& file.0 is Some == named.0 is Some
    &&& file.0 is Some ==> {
        &&& (file.0->0).0 == (named.0->0).0
        &&& (file.0->0).1@.len() == (named.0->0).1.len()
        &&& forall|b: int|
            0 <= b < (file.0->0).1@.len() ==> shows_block(
                #[trigger] (file.0->0).1@[b],
                (named.0->0).1[b],
            )
    }
    &&& file.1 is Some == named.1 is Some
    &&& file.1 is Some ==> {
        &&& (file.1->0)@.len() == (named.1->0).len()
        &&& forall|b: int|
            0 <= b < (file.1->0)@.len() ==> shows_elements(
                #[trigger] (file.1->0)@[b],
                (named.1->0)[b],
            )
    }
}

/// Listed tags have nodes.
pub open spec fn tags_have_nodes(blocks: Seq<RawBlock>) -> bool {
    forall|b: int, i: int|
        0 <= b < blocks.len() && blocks[b].0 is Some && 0 <= i < (blocks[b].0->0)@.len() ==> (
        #[trigger] (blocks[b].0->0)@[i]).1 < blocks[b].1@.len()
}

/// The number of nodes of the elements of a type, for the types of simplices.
pub open spec fn type_size(element_type: i32) -> Option<nat> {
    if element_type == 15 {
        Some(1)
    } else if element_type == 1 {
        Some(2)
    } else if element_type == 2 {
        Some(3)
    } else if element_type == 4 {
        Some(4)
    } else {
        None
    }
}

/// Elements have as many nodes as their type.
pub open spec fn elements_have_nodes(blocks: Seq<(i32, Vec<Vec<u64>>)>) -> bool {
    forall|b: int, e: int|
        0 <= b < blocks.len() && type_size(blocks[b].0) is Some && 0 <= e < blocks[b].1@.len() ==> (
        #[trigger] blocks[b].1@[e])@.len() == type_size(blocks[b].0)->0
}

/// `mshio::parse_msh_bytes` on the bytes of a file, its result taken apart. The contract names
/// what is found, with coordinates as the words of their bits, and says two things of it: the
/// place of a listed tag is that of a node of its block, and points, lines, triangles and
/// tetrahedra have as many nodes as they have vertices. The parser panics on words of a size that it
/// does not know, and where it reads a section of nodes or elements that counts none; `readable`
/// goes from section to section as the parser does and leaves such files out.
#[verifier::external_body]
fn parsed_msh(bytes: &[u8]) -> (file: Option<RawFile>)
    requires
        readable(bytes@),
    ensures
        file is Some == msh_parsed(bytes@) is Some,
        file matches Some(f) ==> shows_file(f, msh_parsed(bytes@)->0),
        file matches Some(f) ==> f.0 is Some ==> tags_have_nodes((f.0->0).1@),
        file matches Some(f) ==> f.1 is Some ==> elements_have_nodes((f.1->0)@),
{
    let data = mshio::parse_msh_bytes(bytes).ok()?.data;
    let nodes = data.nodes.map(|n| {
        let blocks = n.node_blocks.into_iter().map(|b| {
            let at = b.nodes.iter().map(|p| [p.x.to_bits(), p.y.to_bits(), p.z.to_bits()]);
            (b.node_tags.map(Vec::from_iter), at.collect())
        });
        (n.min_node_tag, blocks.collect())
    });
    let elements = data.elements.map(|e| {
        e.element_blocks
            .into_iter()
            .map(|b| (b.element_type as i32, b.elements.into_iter().map(|x| x.nodes).collect()))
            .collect()
    });
    Some((nodes, elements))
}

/// The shape of the elements of a type.
pub open spec fn kind_of(element_type: i32) -> MshElementKind {
    if element_type == 15 {
        MshElementKind::Point
    } else if element_type == 1 {
        MshElementKind::Line
    } else if element_type == 2 {
        MshElementKind::Triangle
    } else if element_type == 4 {
        MshElementKind::Tetrahedron
    } else {
        MshElementKind::Other
    }
}

fn kind_of_type(element_type: i32) -> (kind: MshElementKind)
    ensures
        kind == kind_of(element_type),
{
    if element_type == 15 {
        MshElementKind::Point
    } else if element_type == 1 {
        MshElementKind::Line
    } else if element_type == 2 {
        MshElementKind::Triangle
    } else if element_type == 4 {
        MshElementKind::Tetrahedron
    } else {
        MshElementKind::Other
    }
}

/// The position that the words of a node stand for.
pub open spec fn position_of<T: Scalar>(words: Seq<u64>) -> Seq<T> {
    seq![
        T::from_word_spec(words[0]),
        T::from_word_spec(words[1]),
        T::from_word_spec(words[2]),
    ]
}

/// A block of nodes holds what was parsed.
pub open spec fn is_node_block<T: Scalar>(
    block: MshNodeBlock<T>,
    named: (Option<TagTable>, Seq<Seq<u64>>),
) -> bool {
    &&& block.node_tags is Some == named.0 is Some
    &&& block.node_tags is Some ==> lists_table(block.node_tags->0@, named.0->0)
    &&& block.nodes@.len() == named.1.len()
    &&& forall|i: int|
        0 <= i < named.1.len() ==> (#[trigger] block.nodes@[i])@ == position_of::<T>(named.1[i])
}

/// A block of elements holds what was parsed.
pub open spec fn is_element_block(block: MshElementBlock, named: (i32, Seq<Seq<u64>>)) -> bool {
    &&& block.kind == kind_of(named.0)
    &&& block.elements@.len() == named.1.len()
    &&& forall|i: int| 0 <= i < named.1.len() ==> (#[trigger] block.elements@[i])@ == named.1[i]
}

/// The contents are those of a file that parses and has nodes and elements. The tags of a block
/// may be listed in any order.
pub open spec fn is_file_contents<T: Scalar>(contents: MshContents<T>, bytes: Seq<u8>) -> bool {
    let (min_tag, nodes) = (msh_parsed(bytes)->0).0->0;
    let elements = (msh_parsed(bytes)->0).1->0;
    &&& contents.min_node_tag == min_tag
    &&& contents.node_blocks@.len() == nodes.len()
    &&& forall|b: int|
        0 <= b < nodes.len() ==> is_node_block(#[trigger] contents.node_blocks@[b], nodes[b])
    &&& contents.element_blocks@.len() == elements.len()
    &&& forall|b: int|
        0 <= b < elements.len() ==> is_element_block(
            #[trigger] contents.element_blocks@[b],
            elements[b],
        )
}

/// What keeps the contents of a file from being read.
pub open spec fn file_fault(bytes: Seq<u8>) -> Option<Seq<char>> {
    if !readable(bytes) {
        Some("Gmsh sections must count items, in words of a known size"@)
    } else if msh_parsed(bytes) is None {
        Some("Gmsh file does not parse"@)
    } else if (msh_parsed(bytes)->0).0 is None {
        Some("Gmsh file has no nodes"@)
    } else if (msh_parsed(bytes)->0).1 is None {
        Some("Gmsh file has no elements"@)
    } else {
        None
    }
}

fn node_block<T: Scalar>(block: RawBlock, Ghost(named): Ghost<(Option<TagTable>, Seq<Seq<u64>>)>) -> (
    made: MshNodeBlock<T>)
    requires
        shows_block(block, named),
    ensures
        is_node_block(made, named),
        made.node_tags == block.0,
        made.nodes@.len() == block.1@.len(),
{
    let (node_tags, words) = block;
    let mut nodes: Vec<[T; 3]> = Vec::new();
    let mut i: usize = 0;
    while i < words.len()
        invariant
            i <= words@.len(),
            words@.len() == named.1.len(),
            forall|k: int| 0 <= k < named.1.len() ==> (#[trigger] words@[k])@ == named.1[k],
            nodes@.len() == i,
            forall|k: int|
                0 <= k < i ==> (#[trigger] nodes@[k])@ == position_of::<T>(named.1[k]),
        decreases words@.len() - i,
    {
        let w = words[i];
        let node: [T; 3] = [T::from_word(w[0]), T::from_word(w[1]), T::from_word(w[2])];
        proof {
            assert(words@[i as int]@ == named.1[i as int]);
            assert(node@ =~= position_of::<T>(named.1[i as int]));
        }
        nodes.push(node);
        i = i + 1;
    }
    MshNodeBlock { node_tags, nodes }
}

/// The contents of a mesh file.
pub(crate) fn read_contents<T: Scalar>(bytes: &[u8]) -> (read: Result<MshContents<T>, String>)
    ensures
        match file_fault(bytes@) {
            Some(message) => read matches Err(text) && text@ == message,
            None => read matches Ok(contents) && contents.wf() && is_file_contents(
                contents,
                bytes@,
            ),
        },
{
    if !is_readable(bytes) {
        return Err(owned("Gmsh sections must count items, in words of a known size"));
    }
    let (nodes, elements) = match parsed_msh(bytes) {
        Some(file) => file,
        None => return Err(owned("Gmsh file does not parse")),
    };
    let (min_node_tag, mut raw_nodes) = match nodes {
        Some(nodes) => nodes,
        None => return Err(owned("Gmsh file has no nodes")),
    };
    let mut raw_elements = match elements {
        Some(elements) => elements,
        None => return Err(owned("Gmsh file has no elements")),
    };
    let ghost named = (msh_parsed(bytes@)->0).0->0;
    let ghost named_elements = (msh_parsed(bytes@)->0).1->0;
    let ghost all_nodes = raw_nodes@;
    let ghost all_elements = raw_elements@;
    let mut node_blocks: Vec<MshNodeBlock<T>> = Vec::new();
    proof {
        assert(raw_nodes@ =~= all_nodes.skip(0));
        assert(raw_elements@ =~= all_elements.skip(0));
    }
    while raw_nodes.len() > 0
        invariant
            node_blocks@.len() + raw_nodes@.len() == all_nodes.len(),
            all_nodes.len() == named.1.len(),
            forall|b: int|
                0 <= b < all_nodes.len() ==> shows_block(#[trigger] all_nodes[b], named.1[b]),
            tags_have_nodes(all_nodes),
            raw_nodes@ == all_nodes.skip(node_blocks@.len() as int),
            forall|b: int|
                0 <= b < node_blocks@.len() ==> is_node_block(
                    #[trigger] node_blocks@[b],
                    named.1[b],
                ) && node_blocks@[b].wf(),
        decreases raw_nodes@.len(),
    {
        let ghost b = node_blocks@.len() as int;
        let block = raw_nodes.remove(0);
        proof {
            assert(block == all_nodes[b]);
            assert(raw_nodes@ =~= all_nodes.skip(b + 1));
        }
        let made: MshNodeBlock<T> = node_block(block, Ghost(named.1[b]));
        proof {
            if made.node_tags is Some {
                let tags = made.node_tags->0;
                assert forall|i: int| 0 <= i < tags@.len() implies (#[trigger] tags@[i]).1
                    < made.nodes@.len() by {
                    assert((all_nodes[b].0->0)@[i].1 < all_nodes[b].1@.len());
                }
            }
        }
        node_blocks.push(made);
    }
    let mut element_blocks: Vec<MshElementBlock> = Vec::new();
    while raw_elements.len() > 0
        invariant
            element_blocks@.len() + raw_elements@.len() == all_elements.len(),
            all_elements.len() == named_elements.len(),
            forall|b: int|
                0 <= b < all_elements.len() ==> shows_elements(
                    #[trigger] all_elements[b],
                    named_elements[b],
                ),
            raw_elements@ == all_elements.skip(element_blocks@.len() as int),
            forall|b: int|
                0 <= b < element_blocks@.len() ==> is_element_block(
                    #[trigger] element_blocks@[b],
                    named_elements[b],
                ) && element_blocks@[b].elements@ == all_elements[b].1@,
        decreases raw_elements@.len(),
    {
        let ghost b = element_blocks@.len() as int;
        let (element_type, elements) = raw_elements.remove(0);
        proof {
            assert((element_type, elements) == all_elements[b]);
            assert(raw_elements@ =~= all_elements.skip(b + 1));
        }
        element_blocks.push(MshElementBlock { kind: kind_of_type(element_type), elements });
    }
    let contents = MshContents { min_node_tag, node_blocks, element_blocks };
    proof {
        assert forall|b: int, e: int|
            0 <= b < contents.element_blocks@.len() && 0 <= e
                < contents.element_blocks@[b].elements@.len() && contents.element_blocks@[b].kind
                != MshElementKind::Other implies (
        #[trigger] contents.element_blocks@[b].elements@[e])@.len() == kind_size(
            contents.element_blocks@[b].kind,
        ) by {
            assert(contents.element_blocks@[b].elements@ == all_elements[b].1@);
            assert(shows_elements(all_elements[b], named_elements[b]));
            assert(all_elements[b].1@[e]@.len() == type_size(all_elements[b].0)->0);
        }
    }
    Ok(contents)
}

} // verus!
