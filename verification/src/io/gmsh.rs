//! Meshes from Gmsh files.

use crate::io::fields::MeshCoords;
use crate::io::gmsh_text::{is_section, node_section, node_text, section_nodes, words, NodeSection};
use crate::io::msh_file::{file_fault, is_file_contents, read_contents};
use crate::linalg::scalar::Scalar;
use crate::text::{decimal, flat, flat_ends, flat_step, owned, push_large};
use crate::topology::complex::{manifold, Complex};
use crate::topology::simplex::{simplex_views, sorted, Simplex};
use crate::topology::skeleton::{unique, vertex_bound_all, vertex_bound_at_most, Skeleton};
use vstd::prelude::*;
use vstd::relations::*;
use vstd::string::*;
use vstd::utf8::*;

verus! {

/// A block of nodes; where their tags are listed, each stands with the place of its node.
#[derive(Debug)]
pub struct MshNodeBlock<T> {
    pub node_tags: Option<Vec<(u64, usize)>>,
    pub nodes: Vec<[T; 3]>,
}

/// The shape of the elements of a block.
#[derive(Clone, Copy, Debug, PartialEq, Eq, Structural)]
pub enum MshElementKind {
    Point,
    Line,
    Triangle,
    Tetrahedron,
    Other,
}

/// A block of elements, each with the tags of its nodes.
#[derive(Debug)]
pub struct MshElementBlock {
    pub kind: MshElementKind,
    pub elements: Vec<Vec<u64>>,
}

/// The nodes and elements of a mesh file.
#[derive(Debug)]
pub struct MshContents<T> {
    pub min_node_tag: u64,
    pub node_blocks: Vec<MshNodeBlock<T>>,
    pub element_blocks: Vec<MshElementBlock>,
}

/// The number of nodes of an element.
pub open spec fn kind_size(kind: MshElementKind) -> nat {
    match kind {
        MshElementKind::Point => 1,
        MshElementKind::Line => 2,
        MshElementKind::Triangle => 3,
        MshElementKind::Tetrahedron => 4,
        MshElementKind::Other => 0,
    }
}

/// A tag and a position.
pub type TaggedNodes<T> = Seq<(u64, Seq<T>)>;

impl<T: Scalar> MshNodeBlock<T> {
    /// Every listed tag has a node.
    pub open spec fn wf(&self) -> bool {
        self.node_tags matches Some(tags) ==> forall|i: int|
            0 <= i < tags@.len() ==> (#[trigger] tags@[i]).1 < self.nodes@.len()
    }

    /// The nodes of the block with their tags.
    pub open spec fn tagged(&self) -> TaggedNodes<T> {
        let tags = self.node_tags->0@;
        Seq::new(tags.len(), |i: int| (tags[i].0, self.nodes@[tags[i].1 as int]@))
    }
}

impl<T: Scalar> MshContents<T> {
    pub open spec fn untagged(&self) -> bool {
        forall|b: int|
            0 <= b < self.node_blocks@.len() ==> (#[trigger] self.node_blocks@[b]).node_tags is None
    }

    /// The positions in all blocks.
    pub open spec fn positions(&self) -> Seq<Seq<T>> {
        flat(
            Seq::new(
                self.node_blocks@.len(),
                |b: int| positions_of(self.node_blocks@[b].nodes@),
            ),
        )
    }

    /// Listed tags have nodes, and elements have as many nodes as their kind.
    pub open spec fn wf(&self) -> bool {
        &&& forall|b: int|
            0 <= b < self.node_blocks@.len() ==> (#[trigger] self.node_blocks@[b]).wf()
        &&& forall|b: int, e: int|
            0 <= b < self.element_blocks@.len() && 0 <= e
                < self.element_blocks@[b].elements@.len() && self.element_blocks@[b].kind
                != MshElementKind::Other ==> (
            #[trigger] self.element_blocks@[b].elements@[e])@.len() == kind_size(
                self.element_blocks@[b].kind,
            )
    }

    /// Tags that count on from the least fit their type.
    pub open spec fn tags_fit(&self) -> bool {
        self.min_node_tag + self.positions().len() <= u64::MAX + 1
    }

    /// The nodes as their blocks list them; none where only some blocks list tags. Without
    /// listed tags they count on from the least; none where these do not fit their type.
    pub open spec fn nodes(&self) -> Option<TaggedNodes<T>> {
        if self.untagged() {
            let positions = self.positions();
            if self.tags_fit() {
                Some(
                    Seq::new(
                        positions.len(),
                        |i: int| ((self.min_node_tag + i) as u64, positions[i]),
                    ),
                )
            } else {
                None
            }
        } else if exists|b: int|
            0 <= b < self.node_blocks@.len() && (#[trigger] self.node_blocks@[b]).node_tags
                is None {
            None
        } else {
            Some(
                flat(
                    Seq::new(self.node_blocks@.len(), |b: int| self.node_blocks@[b].tagged()),
                ),
            )
        }
    }
}

pub open spec fn positions_of<T>(nodes: Seq<[T; 3]>) -> Seq<Seq<T>> {
    Seq::new(nodes.len(), |i: int| nodes[i]@)
}

pub open spec fn tagged_views<T>(nodes: Seq<(u64, [T; 3])>) -> TaggedNodes<T> {
    Seq::new(nodes.len(), |i: int| (nodes[i].0, nodes[i].1@))
}

pub open spec fn tags_of<T>(nodes: TaggedNodes<T>) -> Seq<u64> {
    Seq::new(nodes.len(), |i: int| nodes[i].0)
}

/// The coordinate that a word of a list spells.
pub open spec fn spelled_coordinate<T: Scalar>(list: Seq<Seq<char>>, at: int) -> Option<T> {
    T::parsed_spec(list[at])
}

/// All coordinates of the nodes are numbers.
pub open spec fn all_spelled<T: Scalar>(list: Seq<Seq<char>>, nodes: Seq<(u64, int)>) -> bool {
    forall|i: int|
        0 <= i < 3 * nodes.len() ==> (#[trigger] spelled_coordinate::<T>(
            list,
            nodes[i / 3].1 + i % 3,
        )) is Some
}

/// The nodes that a list of words describes.
pub open spec fn spelled_nodes<T: Scalar>(
    list: Seq<Seq<char>>,
    nodes: Seq<(u64, int)>,
) -> TaggedNodes<T> {
    Seq::new(
        nodes.len(),
        |i: int|
            (
                nodes[i].0,
                seq![
                    spelled_coordinate::<T>(list, nodes[i].1)->0,
                    spelled_coordinate::<T>(list, nodes[i].1 + 1)->0,
                    spelled_coordinate::<T>(list, nodes[i].1 + 2)->0,
                ],
            ),
    )
}

/// The nodes of a file in text form; none where the text does not describe them or a tag comes
/// twice.
pub open spec fn text_nodes<T: Scalar>(bytes: Seq<u8>) -> Option<TaggedNodes<T>> {
    let text = node_text(decode_utf8(bytes));
    if !valid_utf8(bytes) || text is None {
        None
    } else {
        let list = words(text->0);
        match section_nodes(list) {
            Some(nodes) => {
                let found = spelled_nodes::<T>(list, nodes);
                if all_spelled::<T>(list, nodes) && tags_of(found).no_duplicates() {
                    Some(found)
                } else {
                    None
                }
            },
            None => None,
        }
    }
}

/// The nodes of a file: those of its text, or else those of its blocks.
pub open spec fn file_nodes<T: Scalar>(bytes: Seq<u8>, contents: MshContents<T>) -> Option<
    TaggedNodes<T>,
> {
    match text_nodes::<T>(bytes) {
        Some(nodes) => Some(nodes),
        None => contents.nodes(),
    }
}

/// One place before another by tag, and by place among equal tags.
pub open spec fn tag_before(tags: Seq<u64>) -> spec_fn(int, int) -> bool {
    |a: int, b: int| tags[a] < tags[b] || (tags[a] == tags[b] && a <= b)
}

pub open spec fn places_below(n: nat) -> Seq<int> {
    Seq::new(n, |i: int| i)
}

/// The places in the order of their tags.
pub open spec fn tag_order(tags: Seq<u64>) -> Seq<int> {
    places_below(tags.len()).sort_by(tag_before(tags))
}

/// The nodes in the order of their tags.
pub open spec fn in_tag_order<T>(nodes: TaggedNodes<T>) -> TaggedNodes<T> {
    let order = tag_order(tags_of(nodes));
    Seq::new(order.len(), |i: int| nodes[order[i]])
}

pub proof fn tag_before_total(tags: Seq<u64>)
    ensures
        total_ordering(tag_before(tags)),
{
}

/// The order by tags is an ordering of all places.
pub proof fn tag_order_is_ordering(tags: Seq<u64>)
    ensures
        tag_order(tags).len() == tags.len(),
        forall|i: int|
            0 <= i < tags.len() ==> 0 <= #[trigger] tag_order(tags)[i] < tags.len(),
        forall|i: int, j: int|
            0 <= i < j < tags.len() ==> tags[#[trigger] tag_order(tags)[i]] < tags[
                #[trigger] tag_order(tags)[j]] || (tags[tag_order(tags)[i]] == tags[tag_order(
                tags,
            )[j]] && tag_order(tags)[i] < tag_order(tags)[j]),
        forall|k: int| 0 <= k < tags.len() ==> #[trigger] tag_order(tags).contains(k),
{
    broadcast use vstd::seq_lib::group_to_multiset_ensures;
    broadcast use vstd::multiset::group_multiset_axioms;

    let all = places_below(tags.len());
    let order = tag_order(tags);
    tag_before_total(tags);
    all.lemma_sort_by_ensures(tag_before(tags));
    assert(order.to_multiset() == all.to_multiset());
    assert(order.len() == order.to_multiset().len());
    assert(all.len() == all.to_multiset().len());
    assert forall|i: int| 0 <= i < tags.len() implies 0 <= #[trigger] order[i] < tags.len() by {
        assert(order.contains(order[i]));
        assert(all.contains(order[i]));
    }
    assert forall|k: int| 0 <= k < tags.len() implies #[trigger] order.contains(k) by {
        assert(all[k] == k);
        assert(all.contains(k));
        assert(all.to_multiset().count(k) > 0);
        assert(order.to_multiset().count(k) > 0);
    }
    assert(all.no_duplicates());
    all.lemma_multiset_has_no_duplicates();
    assert forall|i: int, j: int| 0 <= i < j < tags.len() implies order[i] != order[j] by {
        if order[i] == order[j] {
            order.lemma_multiset_has_no_duplicates_conv();
        }
    }
    assert forall|i: int, j: int| 0 <= i < j < tags.len() implies tags[#[trigger] order[i]] < tags[
    #[trigger] order[j]] || (tags[order[i]] == tags[order[j]] && order[i] < order[j]) by {
        assert(tag_before(tags)(order[i], order[j]));
    }
}

fn order_by_tag<T: Scalar>(nodes: &Vec<(u64, [T; 3])>) -> (order: Vec<usize>)
    ensures
        order@.len() == nodes@.len(),
        forall|i: int|
            0 <= i < order@.len() ==> #[trigger] order@[i] == tag_order(
                tags_of(tagged_views(nodes@)),
            )[i],
        forall|i: int| 0 <= i < order@.len() ==> #[trigger] order@[i] < nodes@.len(),
{
    let ghost tags = tags_of(tagged_views(nodes@));
    let ghost leq = tag_before(tags);
    let mut order: Vec<usize> = Vec::new();
    let ghost mut shadow: Seq<int> = Seq::empty();
    let mut i: usize = 0;
    proof {
        assert(places_below(tags.len()).take(0) =~= shadow);
    }
    while i < nodes.len()
        invariant
            i <= nodes@.len(),
            order@.len() == i,
            shadow.len() == i,
            tags == tags_of(tagged_views(nodes@)),
            leq == tag_before(tags),
            forall|k: int| 0 <= k < i ==> #[trigger] order@[k] == shadow[k],
            forall|k: int| 0 <= k < i ==> 0 <= #[trigger] shadow[k] < i,
            sorted_by(shadow, leq),
            shadow.to_multiset() == places_below(tags.len()).take(i as int).to_multiset(),
        decreases nodes@.len() - i,
    {
        let tag: u64 = nodes[i].0;
        let mut at: usize = order.len();
        while at > 0 && nodes[order[at - 1]].0 > tag
            invariant
                at <= i,
                order@.len() == i,
                shadow.len() == i,
                i < nodes@.len(),
                tag == tags[i as int],
                tags == tags_of(tagged_views(nodes@)),
                forall|k: int| 0 <= k < i ==> #[trigger] order@[k] == shadow[k],
                forall|k: int| 0 <= k < i ==> 0 <= #[trigger] shadow[k] < i,
                forall|k: int| at <= k < i ==> tags[#[trigger] shadow[k]] > tag,
            decreases at,
        {
            proof {
                assert(order@[at - 1] == shadow[at - 1]);
            }
            at = at - 1;
        }
        let ghost before = shadow;
        proof {
            if at > 0 {
                assert(order@[at - 1] == shadow[at - 1]);
                assert(tags[shadow[at - 1]] <= tag);
            }
            shadow = before.insert(at as int, i as int);
            assert forall|a: int, b: int| 0 <= a < b < shadow.len() implies #[trigger] leq(
                shadow[a],
                shadow[b],
            ) by {
                if b < at {
                    assert(leq(before[a], before[b]));
                } else if b == at {
                    assert(a <= at - 1);
                    if a < at - 1 {
                        assert(leq(before[a], before[at - 1]));
                    }
                } else if a < at {
                    assert(leq(before[a], before[b - 1]));
                } else if a == at {
                    assert(tags[before[b - 1]] > tag);
                } else {
                    assert(leq(before[a - 1], before[b - 1]));
                }
            }
            vstd::seq_lib::to_multiset_insert(before, at as int, i as int);
            let all = places_below(tags.len());
            assert(all.take(i + 1) =~= all.take(i as int).push(i as int));
            vstd::seq_lib::to_multiset_build(all.take(i as int), i as int);
        }
        order.insert(at, i);
        i = i + 1;
    }
    proof {
        let all = places_below(tags.len());
        assert(all.take(i as int) =~= all);
        tag_before_total(tags);
        all.lemma_sort_by_ensures(leq);
        vstd::seq_lib::lemma_sorted_unique(shadow, all.sort_by(leq), leq);
    }
    order
}

fn ordered<T: Scalar>(nodes: &Vec<(u64, [T; 3])>) -> (result: Vec<(u64, [T; 3])>)
    ensures
        tagged_views(result@) == in_tag_order(tagged_views(nodes@)),
{
    let ghost order = tag_order(tags_of(tagged_views(nodes@)));
    let places = order_by_tag(nodes);
    proof {
        tag_order_is_ordering(tags_of(tagged_views(nodes@)));
    }
    let mut result: Vec<(u64, [T; 3])> = Vec::new();
    let mut i: usize = 0;
    while i < places.len()
        invariant
            i <= places@.len(),
            places@.len() == nodes@.len(),
            order == tag_order(tags_of(tagged_views(nodes@))),
            forall|k: int| 0 <= k < places@.len() ==> #[trigger] places@[k] == order[k],
            forall|k: int| 0 <= k < places@.len() ==> #[trigger] places@[k] < nodes@.len(),
            result@.len() == i,
            forall|k: int| 0 <= k < i ==> #[trigger] result@[k] == nodes@[order[k]],
        decreases places@.len() - i,
    {
        result.push(nodes[places[i]]);
        i = i + 1;
    }
    proof {
        assert(tagged_views(result@) =~= in_tag_order(tagged_views(nodes@)));
    }
    result
}

/// In the order of their tags, nodes with equal tags stand side by side.
proof fn lemma_duplicates<T>(nodes: TaggedNodes<T>)
    ensures
        tags_of(nodes).no_duplicates() <==> (forall|k: int|
            0 <= k < nodes.len() - 1 ==> (#[trigger] in_tag_order(nodes)[k]).0 != in_tag_order(
                nodes,
            )[k + 1].0),
{
    let tags = tags_of(nodes);
    let order = tag_order(tags);
    let list = in_tag_order(nodes);
    tag_order_is_ordering(tags);
    if tags.no_duplicates() {
        assert forall|k: int| 0 <= k < nodes.len() - 1 implies (#[trigger] list[k]).0 != list[k
            + 1].0 by {
            assert(tags[order[k]] == list[k].0);
            assert(tags[order[k + 1]] == list[k + 1].0);
            assert(order[k] != order[k + 1]);
        }
    }
    if forall|k: int| 0 <= k < nodes.len() - 1 ==> (#[trigger] list[k]).0 != list[k + 1].0 {
        assert forall|a: int, b: int| 0 <= a < tags.len() && 0 <= b < tags.len() && a
            != b implies tags[a] != tags[b] by {
            assert(order.contains(a));
            assert(order.contains(b));
            let i = choose|i: int| 0 <= i < order.len() && order[i] == a;
            let j = choose|j: int| 0 <= j < order.len() && order[j] == b;
            let (low, high) = if i < j {
                (i, j)
            } else {
                (j, i)
            };
            assert(list[low].0 != list[low + 1].0);
            assert(tags[order[low]] == list[low].0);
            assert(tags[order[low + 1]] == list[low + 1].0);
            if low + 1 < high {
                assert(tags[order[low + 1]] <= tags[order[high]]);
            }
        }
    }
}

fn parse_ascii_dense_node_data<T: Scalar>(bytes: &[u8]) -> (nodes: Option<Vec<(u64, [T; 3])>>)
    ensures
        match text_nodes::<T>(bytes@) {
            Some(expected) => nodes matches Some(found) && tagged_views(found@) == in_tag_order(
                expected,
            ),
            None => nodes is None,
        },
{
    let section: NodeSection = match node_section(bytes) {
        None => return None,
        Some(section) => section,
    };
    let ghost list = words(node_text(decode_utf8(bytes@))->0);
    let ghost places = section_nodes(list)->0;
    let mut nodes: Vec<(u64, [T; 3])> = Vec::new();
    let total: usize = section.coordinates.len();
    let mut i: usize = 0;
    while i < section.tags.len()
        invariant
            i <= section.tags@.len(),
            total == section.coordinates@.len(),
            is_section(section, list, places),
            section_nodes(list) == Some(places),
            valid_utf8(bytes@),
            node_text(decode_utf8(bytes@)) is Some,
            list == words(node_text(decode_utf8(bytes@))->0),
            nodes@.len() == i,
            forall|k: int|
                0 <= k < 3 * i ==> (#[trigger] spelled_coordinate::<T>(
                    list,
                    places[k / 3].1 + k % 3,
                )) is Some,
            forall|k: int|
                0 <= k < i ==> tagged_views(nodes@)[k] == #[trigger] spelled_nodes::<T>(
                    list,
                    places,
                )[k],
        decreases section.tags@.len() - i,
    {
        proof {
            assert(section.coordinates@[3 * i]@ == list[places[(3 * i) / 3].1 + (3 * i) % 3]);
            assert(section.coordinates@[3 * i + 1]@ == list[places[(3 * i + 1) / 3].1 + (3 * i
                + 1) % 3]);
            assert(section.coordinates@[3 * i + 2]@ == list[places[(3 * i + 2) / 3].1 + (3 * i
                + 2) % 3]);
        }
        let x: Option<T> = T::parsed(section.coordinates[3 * i].as_str());
        let y: Option<T> = T::parsed(section.coordinates[3 * i + 1].as_str());
        let z: Option<T> = T::parsed(section.coordinates[3 * i + 2].as_str());
        proof {
            assert(spelled_coordinate::<T>(list, places[(3 * i) / 3].1 + (3 * i) % 3) == x);
            assert(spelled_coordinate::<T>(list, places[(3 * i + 1) / 3].1 + (3 * i + 1) % 3)
                == y);
            assert(spelled_coordinate::<T>(list, places[(3 * i + 2) / 3].1 + (3 * i + 2) % 3)
                == z);
        }
        let ghost before = nodes@;
        match (x, y, z) {
            (Some(x), Some(y), Some(z)) => {
                let position: [T; 3] = [x, y, z];
                nodes.push((section.tags[i], position));
                proof {
                    assert forall|k: int| 0 <= k < 3 * (i + 1) implies (
                    #[trigger] spelled_coordinate::<T>(list, places[k / 3].1 + k % 3)) is Some by {
                        if k >= 3 * i {
                            assert(k == 3 * i || k == 3 * i + 1 || k == 3 * i + 2);
                        }
                    }
                    assert forall|k: int| 0 <= k < i + 1 implies tagged_views(nodes@)[k]
                        == #[trigger] spelled_nodes::<T>(list, places)[k] by {
                        if k < i {
                            assert(tagged_views(nodes@)[k] == tagged_views(before)[k]);
                        } else {
                            assert(position@ =~= spelled_nodes::<T>(list, places)[k].1);
                        }
                    }
                }
            },
            _ => {
                proof {
                    assert(!all_spelled::<T>(list, places));
                }
                return None;
            },
        }
        i = i + 1;
    }
    proof {
        assert(all_spelled::<T>(list, places));
        assert(tagged_views(nodes@) =~= spelled_nodes::<T>(list, places));
        lemma_duplicates(spelled_nodes::<T>(list, places));
    }
    let result = ordered(&nodes);
    proof {
        tag_order_is_ordering(tags_of(tagged_views(nodes@)));
        assert(tagged_views(result@).len() == places.len());
    }
    let count: usize = result.len();
    let mut k: usize = 0;
    while count - k > 1
        invariant
            count == result@.len(),
            k <= count,
            valid_utf8(bytes@),
            node_text(decode_utf8(bytes@)) is Some,
            list == words(node_text(decode_utf8(bytes@))->0),
            section_nodes(list) == Some(places),
            result@.len() == places.len(),
            tagged_views(result@) == in_tag_order(spelled_nodes::<T>(list, places)),
            tags_of(spelled_nodes::<T>(list, places)).no_duplicates() <==> (forall|k: int|
                0 <= k < places.len() - 1 ==> (#[trigger] in_tag_order(
                    spelled_nodes::<T>(list, places),
                )[k]).0 != in_tag_order(spelled_nodes::<T>(list, places))[k + 1].0),
            forall|j: int| 0 <= j < k ==> (#[trigger] result@[j]).0 != result@[j + 1].0,
        decreases count - k,
    {
        if result[k].0 == result[k + 1].0 {
            proof {
                let list_of = in_tag_order(spelled_nodes::<T>(list, places));
                assert(tagged_views(result@)[k as int].0 == list_of[k as int].0);
                assert(tagged_views(result@)[k + 1].0 == list_of[k + 1].0);
            }
            return None;
        }
        k = k + 1;
    }
    proof {
        let list_of = in_tag_order(spelled_nodes::<T>(list, places));
        assert forall|j: int| 0 <= j < places.len() - 1 implies (#[trigger] list_of[j]).0
            != list_of[j + 1].0 by {
            assert(tagged_views(result@)[j].0 == result@[j].0);
            assert(tagged_views(result@)[j + 1].0 == result@[j + 1].0);
        }
    }
    Some(result)
}

fn dense_node_data_from_mshio<T: Scalar>(contents: &MshContents<T>) -> (nodes: Option<
    Vec<(u64, [T; 3])>,
>)
    requires
        contents.wf(),
    ensures
        match contents.nodes() {
            Some(expected) => nodes matches Some(found) && tagged_views(found@) == in_tag_order(
                expected,
            ),
            None => nodes is None,
        },
{
    let mut none_tagged: bool = true;
    let mut all_tagged: bool = true;
    let mut b: usize = 0;
    while b < contents.node_blocks.len()
        invariant
            b <= contents.node_blocks@.len(),
            none_tagged <==> forall|k: int|
                0 <= k < b ==> (#[trigger] contents.node_blocks@[k]).node_tags is None,
            all_tagged <==> forall|k: int|
                0 <= k < b ==> (#[trigger] contents.node_blocks@[k]).node_tags is Some,
        decreases contents.node_blocks@.len() - b,
    {
        match &contents.node_blocks[b].node_tags {
            None => {
                all_tagged = false;
            },
            Some(_) => {
                none_tagged = false;
            },
        }
        b = b + 1;
    }
    let mut nodes: Vec<(u64, [T; 3])> = Vec::new();
    if none_tagged {
        let ghost parts = Seq::new(
            contents.node_blocks@.len(),
            |b: int| positions_of(contents.node_blocks@[b].nodes@),
        );
        let ghost expected = contents.nodes()->0;
        let room: u64 = u64::MAX - contents.min_node_tag;
        let mut b: usize = 0;
        proof {
            flat_ends(parts);
        }
        while b < contents.node_blocks.len()
            invariant
                b <= contents.node_blocks@.len(),
                contents.wf(),
                contents.untagged(),
                parts.len() == contents.node_blocks@.len(),
                forall|b: int|
                    0 <= b < parts.len() ==> #[trigger] parts[b] == positions_of(
                        contents.node_blocks@[b].nodes@,
                    ),
                contents.positions() == flat(parts),
                room == u64::MAX - contents.min_node_tag,
                nodes@.len() <= room + 1,
                nodes@.len() == flat(parts.take(b as int)).len(),
                forall|k: int|
                    0 <= k < nodes@.len() ==> tagged_views(nodes@)[k] == (
                        (contents.min_node_tag + k) as u64,
                        #[trigger] flat(parts.take(b as int))[k],
                    ),
            decreases contents.node_blocks@.len() - b,
        {
            let block = &contents.node_blocks[b];
            let ghost start = nodes@;
            let mut i: usize = 0;
            proof {
                flat_step(parts, b as int);
                lemma_flat_within(parts, b + 1);
            }
            while i < block.nodes.len()
                invariant
                    i <= block.nodes@.len(),
                    b < contents.node_blocks@.len(),
                    *block == contents.node_blocks@[b as int],
                    contents.wf(),
                    contents.untagged(),
                    contents.positions() == flat(parts),
                    start.len() + block.nodes@.len() <= flat(parts).len(),
                    room == u64::MAX - contents.min_node_tag,
                    nodes@.len() <= room + 1,
                    nodes@.len() == start.len() + i,
                    forall|k: int| 0 <= k < start.len() ==> #[trigger] nodes@[k] == start[k],
                    forall|k: int|
                        0 <= k < i ==> #[trigger] nodes@[start.len() + k] == (
                            (contents.min_node_tag + start.len() + k) as u64,
                            block.nodes@[k],
                        ),
                decreases block.nodes@.len() - i,
            {
                if nodes.len() as u64 > room {
                    return None;
                }
                nodes.push((contents.min_node_tag + nodes.len() as u64, block.nodes[i]));
                i = i + 1;
            }
            proof {
                let grown = flat(parts.take(b + 1));
                assert(grown == flat(parts.take(b as int)) + parts[b as int]);
                assert forall|k: int| 0 <= k < nodes@.len() implies tagged_views(nodes@)[k] == (
                    (contents.min_node_tag + k) as u64,
                    #[trigger] grown[k],
                ) by {
                    if k < start.len() {
                        assert(tagged_views(start)[k] == (
                            (contents.min_node_tag + k) as u64,
                            flat(parts.take(b as int))[k],
                        ));
                        assert(nodes@[k] == start[k]);
                    } else {
                        let j = k - start.len();
                        assert(nodes@[start.len() + j] == (
                            (contents.min_node_tag + start.len() + j) as u64,
                            block.nodes@[j],
                        ));
                        assert(grown[k] == parts[b as int][j]);
                    }
                }
            }
            b = b + 1;
        }
        proof {
            assert(tagged_views(nodes@) =~= expected);
        }
    } else {
        if !all_tagged {
            return None;
        }
        let ghost parts = Seq::new(
            contents.node_blocks@.len(),
            |b: int| contents.node_blocks@[b].tagged(),
        );
        let mut b: usize = 0;
        proof {
            flat_ends(parts);
            assert(tagged_views(nodes@) =~= flat(parts.take(0)));
        }
        while b < contents.node_blocks.len()
            invariant
                b <= contents.node_blocks@.len(),
                contents.wf(),
                forall|k: int|
                    0 <= k < contents.node_blocks@.len() ==> (
                    #[trigger] contents.node_blocks@[k]).node_tags is Some,
                parts.len() == contents.node_blocks@.len(),
                forall|b: int|
                    0 <= b < parts.len() ==> #[trigger] parts[b]
                        == contents.node_blocks@[b].tagged(),
                tagged_views(nodes@) == flat(parts.take(b as int)),
            decreases contents.node_blocks@.len() - b,
        {
            let block = &contents.node_blocks[b];
            let ghost start = nodes@;
            proof {
                assert(contents.node_blocks@[b as int].wf());
                flat_step(parts, b as int);
            }
            if let Some(tags) = &block.node_tags {
                let mut i: usize = 0;
                while i < tags.len()
                    invariant
                        i <= tags@.len(),
                        forall|k: int|
                            0 <= k < tags@.len() ==> (#[trigger] tags@[k]).1
                                < block.nodes@.len(),
                        block.node_tags == Some(*tags),
                        nodes@.len() == start.len() + i,
                        forall|k: int| 0 <= k < start.len() ==> #[trigger] nodes@[k] == start[k],
                        forall|k: int|
                            0 <= k < i ==> #[trigger] nodes@[start.len() + k] == (
                                tags@[k].0,
                                block.nodes@[tags@[k].1 as int],
                            ),
                    decreases tags@.len() - i,
                {
                    let (tag, place): (u64, usize) = tags[i];
                    proof {
                        assert(tags@[i as int].1 < block.nodes@.len());
                    }
                    nodes.push((tag, block.nodes[place]));
                    i = i + 1;
                }
                proof {
                    let grown = tagged_views(start) + block.tagged();
                    assert(tagged_views(nodes@).len() == grown.len());
                    assert forall|k: int| 0 <= k < grown.len() implies tagged_views(nodes@)[k]
                        == grown[k] by {
                        if k >= start.len() {
                            assert(nodes@[start.len() + (k - start.len())] == (
                                tags@[k - start.len()].0,
                                block.nodes@[tags@[k - start.len()].1 as int],
                            ));
                        } else {
                            assert(nodes@[k] == start[k]);
                        }
                    }
                    assert(tagged_views(nodes@) =~= grown);
                }
            }
            b = b + 1;
        }
    }
    Some(ordered(&nodes))
}

/// The first parts of a list are no longer than all parts.
proof fn lemma_flat_within<A>(parts: Seq<Seq<A>>, n: int)
    requires
        0 <= n <= parts.len(),
    ensures
        flat(parts.take(n)).len() <= flat(parts).len(),
    decreases parts.len() - n,
{
    if n < parts.len() {
        flat_step(parts, n);
        lemma_flat_within(parts, n + 1);
    } else {
        assert(parts.take(n) =~= parts);
    }
}

/// The nodes of a file in the order of their tags: those that its text describes, or else those
/// of its blocks. None where only some blocks list tags.
fn dense_node_data<T: Scalar>(bytes: &[u8], contents: &MshContents<T>) -> (nodes: Option<
    Vec<(u64, [T; 3])>,
>)
    requires
        contents.wf(),
    ensures
        match file_nodes(bytes@, *contents) {
            Some(expected) => nodes matches Some(found) && tagged_views(found@) == in_tag_order(
                expected,
            ),
            None => nodes is None,
        },
{
    match parse_ascii_dense_node_data(bytes) {
        Some(nodes) => Some(nodes),
        None => dense_node_data_from_mshio(contents),
    }
}

/// The last place of a tag.
pub open spec fn is_last_place(tags: Seq<u64>, tag: u64, at: int) -> bool {
    &&& 0 <= at < tags.len()
    &&& tags[at] == tag
    &&& forall|k: int| at < k < tags.len() ==> tags[k] != tag
}

/// The index of the node with a tag; the last one where the tag comes more than once.
pub open spec fn node_index(tags: Seq<u64>, tag: u64) -> Option<int> {
    if tags.contains(tag) {
        Some(choose|at: int| is_last_place(tags, tag, at))
    } else {
        None
    }
}

fn index_of<T: Scalar>(nodes: &Vec<(u64, [T; 3])>, tag: u64) -> (index: Option<usize>)
    requires
        forall|i: int, j: int|
            0 <= i <= j < nodes@.len() ==> (#[trigger] nodes@[i]).0 <= (#[trigger] nodes@[j]).0,
    ensures
        match index {
            Some(at) => node_index(tags_of(tagged_views(nodes@)), tag) == Some(at as int) && at
                < nodes@.len(),
            None => node_index(tags_of(tagged_views(nodes@)), tag) is None,
        },
{
    let ghost tags = tags_of(tagged_views(nodes@));
    let mut low: usize = 0;
    let mut high: usize = nodes.len();
    while low < high
        invariant
            low <= high <= nodes@.len(),
            forall|i: int, j: int|
                0 <= i <= j < nodes@.len() ==> (#[trigger] nodes@[i]).0 <= (
                #[trigger] nodes@[j]).0,
            forall|k: int| 0 <= k < low ==> (#[trigger] nodes@[k]).0 <= tag,
            forall|k: int| high <= k < nodes@.len() ==> (#[trigger] nodes@[k]).0 > tag,
        decreases high - low,
    {
        let middle: usize = low + (high - low) / 2;
        if nodes[middle].0 <= tag {
            low = middle + 1;
        } else {
            high = middle;
        }
    }
    proof {
        assert forall|k: int| 0 <= k < tags.len() implies #[trigger] tags[k] == nodes@[k].0 by {}
    }
    if low > 0 && nodes[low - 1].0 == tag {
        proof {
            let at = low - 1;
            assert(tags[at] == tag);
            assert(is_last_place(tags, tag, at));
            let chosen = choose|at: int| is_last_place(tags, tag, at);
            assert(is_last_place(tags, tag, chosen));
            if chosen < at {
                assert(tags[at] != tag);
            }
            if at < chosen {
                assert(tags[chosen] != tag);
            }
        }
        return Some(low - 1);
    }
    proof {
        if tags.contains(tag) {
            let k = choose|k: int| 0 <= k < tags.len() && tags[k] == tag;
            assert(nodes@[k].0 == tag);
            if k < low {
                assert(nodes@[k].0 <= nodes@[low - 1].0);
            }
        }
    }
    None
}

/// The order of machine integers.
pub open spec fn at_most() -> spec_fn(usize, usize) -> bool {
    |a: usize, b: usize| a <= b
}

/// The simplex of an element: the indices of its nodes in ascending order.
pub open spec fn element_simplex(tags: Seq<u64>, element: Seq<u64>) -> Seq<usize> {
    Seq::new(element.len(), |i: int| node_index(tags, element[i])->0 as usize).sort_by(at_most())
}

/// The elements of a kind.
pub open spec fn elements_of(blocks: Seq<MshElementBlock>, kind: MshElementKind) -> Seq<Seq<u64>>
    decreases blocks.len(),
{
    if blocks.len() == 0 {
        Seq::empty()
    } else {
        let before = elements_of(blocks.drop_last(), kind);
        let block = blocks.last();
        if block.kind == kind {
            before + element_views(block)
        } else {
            before
        }
    }
}

pub open spec fn element_views(block: MshElementBlock) -> Seq<Seq<u64>> {
    Seq::new(block.elements@.len(), |e: int| block.elements@[e]@)
}

/// The simplices of a kind.
pub open spec fn simplices_of(
    tags: Seq<u64>,
    blocks: Seq<MshElementBlock>,
    kind: MshElementKind,
) -> Seq<Seq<usize>> {
    let elements = elements_of(blocks, kind);
    Seq::new(elements.len(), |e: int| element_simplex(tags, elements[e]))
}

/// The first tag of a list that no node has.
pub open spec fn first_missing(tags: Seq<u64>, wanted: Seq<u64>) -> Option<u64>
    decreases wanted.len(),
{
    if wanted.len() == 0 {
        None
    } else {
        match first_missing(tags, wanted.drop_last()) {
            Some(tag) => Some(tag),
            None => if node_index(tags, wanted.last()) is None {
                Some(wanted.last())
            } else {
                None
            },
        }
    }
}

/// The tags that the elements of known kinds name.
pub open spec fn wanted_tags(blocks: Seq<MshElementBlock>) -> Seq<u64>
    decreases blocks.len(),
{
    if blocks.len() == 0 {
        Seq::empty()
    } else {
        let block = blocks.last();
        wanted_tags(blocks.drop_last()) + if block.kind == MshElementKind::Other {
            Seq::empty()
        } else {
            flat(element_views(block))
        }
    }
}

proof fn lemma_missing_append(tags: Seq<u64>, front: Seq<u64>, back: Seq<u64>)
    ensures
        first_missing(tags, front) is Some ==> first_missing(tags, front + back) == first_missing(
            tags,
            front,
        ),
        first_missing(tags, front) is None ==> first_missing(tags, front + back) == first_missing(
            tags,
            back,
        ),
    decreases back.len(),
{
    if back.len() == 0 {
        assert(front + back =~= front);
    } else {
        lemma_missing_append(tags, front, back.drop_last());
        assert((front + back).drop_last() =~= front + back.drop_last());
        assert((front + back).last() == back.last());
    }
}

fn simplex_of<T: Scalar>(nodes: &Vec<(u64, [T; 3])>, element: &Vec<u64>) -> (simplex: Result<
    Simplex,
    u64,
>)
    requires
        forall|i: int, j: int|
            0 <= i <= j < nodes@.len() ==> (#[trigger] nodes@[i]).0 <= (#[trigger] nodes@[j]).0,
    ensures
        match simplex {
            Ok(s) => {
                &&& first_missing(tags_of(tagged_views(nodes@)), element@) is None
                &&& s@ == element_simplex(tags_of(tagged_views(nodes@)), element@)
                &&& s@.len() == element@.len()
                &&& forall|i: int| 0 <= i < s@.len() ==> #[trigger] s@[i] < nodes@.len()
            },
            Err(tag) => first_missing(tags_of(tagged_views(nodes@)), element@) == Some(tag),
        },
{
    broadcast use vstd::seq_lib::group_to_multiset_ensures;

    let ghost tags = tags_of(tagged_views(nodes@));
    let mut vertices: Vec<usize> = Vec::new();
    let mut i: usize = 0;
    proof {
        assert(element@.take(0) =~= Seq::<u64>::empty());
    }
    while i < element.len()
        invariant
            i <= element@.len(),
            forall|i: int, j: int|
                0 <= i <= j < nodes@.len() ==> (#[trigger] nodes@[i]).0 <= (
                #[trigger] nodes@[j]).0,
            tags == tags_of(tagged_views(nodes@)),
            first_missing(tags, element@.take(i as int)) is None,
            vertices@.len() == i,
            forall|k: int|
                0 <= k < i ==> #[trigger] vertices@[k] == node_index(tags, element@[k])->0 as usize
                    && vertices@[k] < nodes@.len(),
        decreases element@.len() - i,
    {
        proof {
            assert(element@.take(i + 1).drop_last() =~= element@.take(i as int));
            assert(element@.take(i + 1) + element@.skip(i + 1) =~= element@);
            lemma_missing_append(tags, element@.take(i + 1), element@.skip(i + 1));
        }
        match index_of(nodes, element[i]) {
            None => return Err(element[i]),
            Some(index) => vertices.push(index),
        }
        i = i + 1;
    }
    let unsorted = Simplex { vertices };
    let ghost places = Seq::new(
        element@.len(),
        |i: int| node_index(tags, element@[i])->0 as usize,
    );
    proof {
        assert(element@.take(i as int) =~= element@);
        assert(unsorted@ =~= places);
    }
    let simplex = unsorted.sorted();
    proof {
        let leq = at_most();
        assert(total_ordering(leq));
        places.lemma_sort_by_ensures(leq);
        assert forall|a: int, b: int| 0 <= a < b < simplex@.len() implies #[trigger] leq(
            simplex@[a],
            simplex@[b],
        ) by {}
        vstd::seq_lib::lemma_sorted_unique(simplex@, places.sort_by(leq), leq);
        assert(simplex@.len() == simplex@.to_multiset().len());
        assert(places.len() == places.to_multiset().len());
        assert forall|k: int| 0 <= k < simplex@.len() implies #[trigger] simplex@[k]
            < nodes@.len() by {
            assert(simplex@.contains(simplex@[k]));
            assert(simplex@.to_multiset().count(simplex@[k]) > 0);
            assert(places.contains(simplex@[k]));
            let j = choose|j: int| 0 <= j < places.len() && places[j] == simplex@[k];
            assert(unsorted@[j] == places[j]);
        }
    }
    Ok(simplex)
}

/// What a mesh file lacks: nodes with one way of tags, any node, a node with a tag that an
/// element names, or cells.
pub open spec fn mesh_fault<T: Scalar>(bytes: Seq<u8>, contents: MshContents<T>) -> Option<
    Seq<char>,
> {
    match file_nodes(bytes, contents) {
        None => if contents.untagged() {
            Some("Gmsh node tags do not fit their type"@)
        } else {
            Some("mixed Gmsh node-tag layouts are unsupported"@)
        },
        Some(nodes) => {
            let tags = tags_of(in_tag_order(nodes));
            let blocks = contents.element_blocks@;
            if nodes.len() == 0 {
                Some("At least one column must be given."@)
            } else if first_missing(tags, wanted_tags(blocks)) is Some {
                Some(
                    "missing node tag "@ + decimal(
                        first_missing(tags, wanted_tags(blocks))->0 as nat,
                    ) + " in Gmsh node map"@,
                )
            } else if mesh_cells(tags, blocks).len() == 0 {
                Some("Failed to construct Triangulation from gmsh."@)
            } else {
                None
            }
        },
    }
}

/// The cells of a mesh: its tetrahedra, or else its triangles, or else its lines.
pub open spec fn mesh_cells(tags: Seq<u64>, blocks: Seq<MshElementBlock>) -> Seq<Seq<usize>> {
    let tetrahedra = simplices_of(tags, blocks, MshElementKind::Tetrahedron);
    let triangles = simplices_of(tags, blocks, MshElementKind::Triangle);
    if tetrahedra.len() > 0 {
        tetrahedra
    } else if triangles.len() > 0 {
        triangles
    } else {
        simplices_of(tags, blocks, MshElementKind::Line)
    }
}

/// The coordinates of the nodes; without the third one if it is zero everywhere.
pub open spec fn is_mesh_coords<T: Scalar>(
    coords: MeshCoords<T>,
    nodes: TaggedNodes<T>,
) -> bool {
    let flat_mesh = forall|i: int|
        0 <= i < nodes.len() ==> (#[trigger] nodes[i]).1[2].is_zero_spec();
    &&& coords.wf()
    &&& coords.dim == if flat_mesh {
        2int
    } else {
        3
    }
    &&& coords.coords@.len() == nodes.len()
    &&& forall|i: int, axis: int|
        0 <= i < nodes.len() && 0 <= axis < coords.dim ==> #[trigger] coords.coords@[i]@[axis]
            == nodes[i].1[axis]
}

fn mesh_coords<T: Scalar>(nodes: &Vec<(u64, [T; 3])>) -> (coords: MeshCoords<T>)
    ensures
        is_mesh_coords(coords, tagged_views(nodes@)),
{
    let mut dim: usize = 2;
    let mut i: usize = 0;
    let ghost views = tagged_views(nodes@);
    while i < nodes.len()
        invariant
            i <= nodes@.len(),
            views == tagged_views(nodes@),
            dim == 2 || dim == 3,
            dim == 2 <==> forall|k: int|
                0 <= k < i ==> (#[trigger] views[k]).1[2].is_zero_spec(),
        decreases nodes@.len() - i,
    {
        let position: [T; 3] = nodes[i].1;
        proof {
            assert(views[i as int].1[2] == position@[2]);
        }
        if !position[2].is_zero() {
            dim = 3;
        }
        i = i + 1;
    }
    let mut coords: Vec<Vec<T>> = Vec::new();
    let mut i: usize = 0;
    while i < nodes.len()
        invariant
            i <= nodes@.len(),
            views == tagged_views(nodes@),
            dim == 2 || dim == 3,
            coords@.len() == i,
            forall|k: int| 0 <= k < i ==> (#[trigger] coords@[k])@.len() == dim,
            forall|k: int, axis: int|
                0 <= k < i && 0 <= axis < dim ==> #[trigger] coords@[k]@[axis] == views[k].1[axis],
        decreases nodes@.len() - i,
    {
        let position: [T; 3] = nodes[i].1;
        let mut point: Vec<T> = Vec::new();
        point.push(position[0]);
        point.push(position[1]);
        if dim == 3 {
            point.push(position[2]);
        }
        proof {
            assert(views[i as int].1 == position@);
        }
        coords.push(point);
        i = i + 1;
    }
    MeshCoords { dim, coords }
}

/// Simplices of elements on the nodes of a mesh.
spec fn are_simplices(list: Seq<Simplex>, expected: Seq<Seq<usize>>, size: nat, n: nat) -> bool {
    &&& simplex_views(list) == expected
    &&& forall|i: int| 0 <= i < list.len() ==> (#[trigger] list[i])@.len() == size
    &&& forall|i: int, j: int|
        0 <= i < list.len() && 0 <= j < list[i]@.len() ==> #[trigger] list[i]@[j] < n
}

fn block_simplices<T: Scalar>(nodes: &Vec<(u64, [T; 3])>, block: &MshElementBlock) -> (list: Result<
    Vec<Simplex>,
    u64,
>)
    requires
        forall|i: int, j: int|
            0 <= i <= j < nodes@.len() ==> (#[trigger] nodes@[i]).0 <= (#[trigger] nodes@[j]).0,
        forall|e: int|
            0 <= e < block.elements@.len() ==> (#[trigger] block.elements@[e])@.len() == kind_size(
                block.kind,
            ),
    ensures
        match list {
            Ok(list) => {
                let tags = tags_of(tagged_views(nodes@));
                let elements = element_views(*block);
                &&& first_missing(tags, flat(elements)) is None
                &&& are_simplices(
                    list@,
                    Seq::new(elements.len(), |e: int| element_simplex(tags, elements[e])),
                    kind_size(block.kind),
                    nodes@.len(),
                )
            },
            Err(tag) => first_missing(
                tags_of(tagged_views(nodes@)),
                flat(element_views(*block)),
            ) == Some(tag),
        },
{
    let ghost tags = tags_of(tagged_views(nodes@));
    let ghost elements = element_views(*block);
    let mut list: Vec<Simplex> = Vec::new();
    let mut e: usize = 0;
    proof {
        flat_ends(elements);
    }
    while e < block.elements.len()
        invariant
            e <= block.elements@.len(),
            tags == tags_of(tagged_views(nodes@)),
            elements == element_views(*block),
            forall|i: int, j: int|
                0 <= i <= j < nodes@.len() ==> (#[trigger] nodes@[i]).0 <= (
                #[trigger] nodes@[j]).0,
            forall|e: int|
                0 <= e < block.elements@.len() ==> (#[trigger] block.elements@[e])@.len()
                    == kind_size(block.kind),
            first_missing(tags, flat(elements.take(e as int))) is None,
            list@.len() == e,
            forall|k: int|
                0 <= k < e ==> (#[trigger] list@[k])@ == element_simplex(tags, elements[k]),
            forall|k: int|
                0 <= k < e ==> (#[trigger] list@[k])@.len() == kind_size(block.kind),
            forall|k: int, j: int|
                0 <= k < e && 0 <= j < list@[k]@.len() ==> #[trigger] list@[k]@[j] < nodes@.len(),
        decreases block.elements@.len() - e,
    {
        proof {
            flat_step(elements, e as int);
            lemma_missing_append(tags, flat(elements.take(e as int)), elements[e as int]);
            lemma_flat_split(elements, e + 1);
            lemma_missing_append(
                tags,
                flat(elements.take(e + 1)),
                flat(elements.skip(e + 1)),
            );
        }
        match simplex_of(nodes, &block.elements[e]) {
            Err(tag) => return Err(tag),
            Ok(simplex) => list.push(simplex),
        }
        e = e + 1;
    }
    proof {
        flat_ends(elements);
        assert(simplex_views(list@) =~= Seq::new(
            elements.len(),
            |e: int| element_simplex(tags, elements[e]),
        ));
    }
    Ok(list)
}

/// The parts of a list are those before a place and those behind it.
proof fn lemma_flat_split<A>(parts: Seq<Seq<A>>, n: int)
    requires
        0 <= n <= parts.len(),
    ensures
        flat(parts) == flat(parts.take(n)) + flat(parts.skip(n)),
    decreases parts.len() - n,
{
    if n == parts.len() {
        assert(parts.take(n) =~= parts);
        assert(parts.skip(n) =~= Seq::<Seq<A>>::empty());
        assert(flat(parts.take(n)) + Seq::<A>::empty() =~= flat(parts.take(n)));
    } else {
        let front = parts.drop_last();
        lemma_flat_split(front, n);
        assert(front.take(n) =~= parts.take(n));
        assert(front.skip(n) =~= parts.skip(n).drop_last());
        assert(parts.skip(n).last() == parts.last());
        assert(flat(parts) =~= flat(parts.take(n)) + flat(parts.skip(n)));
    }
}

fn append_simplices(
    list: &mut Vec<Simplex>,
    more: Vec<Simplex>,
    Ghost(before): Ghost<Seq<Seq<usize>>>,
    Ghost(added): Ghost<Seq<Seq<usize>>>,
    Ghost(size): Ghost<nat>,
    Ghost(n): Ghost<nat>,
)
    requires
        are_simplices(old(list)@, before, size, n),
        are_simplices(more@, added, size, n),
    ensures
        are_simplices(final(list)@, before + added, size, n),
{
    let ghost start = list@;
    let ghost all = more@;
    let mut more = more;
    list.append(&mut more);
    proof {
        assert(list@ =~= start + all);
        assert(simplex_views(list@) =~= simplex_views(start) + simplex_views(all));
        assert forall|i: int| 0 <= i < list@.len() implies (#[trigger] list@[i])@.len() == size by {
            if i < start.len() {
                assert(list@[i] == start[i]);
            } else {
                assert(list@[i] == all[i - start.len()]);
            }
        }
        assert forall|i: int, j: int|
            0 <= i < list@.len() && 0 <= j < list@[i]@.len() implies #[trigger] list@[i]@[j] < n by {
            if i < start.len() {
                assert(start[i]@[j] < n);
            } else {
                assert(all[i - start.len()]@[j] < n);
            }
        }
    }
}

proof fn lemma_simplices_step(
    tags: Seq<u64>,
    blocks: Seq<MshElementBlock>,
    b: int,
    kind: MshElementKind,
)
    requires
        0 <= b < blocks.len(),
    ensures
        simplices_of(tags, blocks.take(b + 1), kind) == simplices_of(tags, blocks.take(b), kind)
            + if blocks[b].kind == kind {
            Seq::new(
                element_views(blocks[b]).len(),
                |e: int| element_simplex(tags, element_views(blocks[b])[e]),
            )
        } else {
            Seq::empty()
        },
{
    assert(blocks.take(b + 1).drop_last() =~= blocks.take(b));
    assert(blocks.take(b + 1).last() == blocks[b]);
    let added = if blocks[b].kind == kind {
        Seq::new(
            element_views(blocks[b]).len(),
            |e: int| element_simplex(tags, element_views(blocks[b])[e]),
        )
    } else {
        Seq::empty()
    };
    assert(simplices_of(tags, blocks.take(b + 1), kind) =~= simplices_of(
        tags,
        blocks.take(b),
        kind,
    ) + added);
}

/// The tags of the first blocks begin those of all blocks.
proof fn lemma_wanted_prefix(tags: Seq<u64>, blocks: Seq<MshElementBlock>, b: int)
    requires
        0 <= b <= blocks.len(),
        first_missing(tags, wanted_tags(blocks.take(b))) is Some,
    ensures
        first_missing(tags, wanted_tags(blocks)) == first_missing(
            tags,
            wanted_tags(blocks.take(b)),
        ),
    decreases blocks.len() - b,
{
    if b == blocks.len() {
        assert(blocks.take(b) =~= blocks);
    } else {
        assert(blocks.take(b + 1).drop_last() =~= blocks.take(b));
        let block = blocks[b];
        lemma_missing_append(
            tags,
            wanted_tags(blocks.take(b)),
            if block.kind == MshElementKind::Other {
                Seq::empty()
            } else {
                flat(element_views(block))
            },
        );
        lemma_wanted_prefix(tags, blocks, b + 1);
    }
}

proof fn lemma_bounded(simplices: Seq<Seq<usize>>, n: nat)
    requires
        forall|i: int, j: int|
            0 <= i < simplices.len() && 0 <= j < simplices[i].len() ==> simplices[i][j] < n,
    ensures
        vertex_bound_all(simplices) <= n,
    decreases simplices.len(),
{
    if simplices.len() > 0 {
        let front = simplices.drop_last();
        assert forall|i: int, j: int|
            0 <= i < front.len() && 0 <= j < front[i].len() implies front[i][j] < n by {
            assert(front[i] == simplices[i]);
        }
        lemma_bounded(front, n);
        let last = simplices[simplices.len() - 1];
        assert forall|j: int| 0 <= j < last.len() implies last[j] < n by {
            assert(simplices[simplices.len() - 1][j] < n);
        }
        vertex_bound_at_most(simplices.last(), n);
    }
}

fn skeleton_of(list: Vec<Simplex>, Ghost(expected): Ghost<Seq<Seq<usize>>>, Ghost(size): Ghost<nat>, Ghost(n): Ghost<nat>) -> (skeleton: Skeleton)
    requires
        list@.len() > 0,
        size >= 1,
        n <= usize::MAX,
        are_simplices(list@, expected, size, n),
    ensures
        skeleton.wf(),
        skeleton@ == unique(expected),
        skeleton@.len() > 0,
        skeleton.vertex_count() == vertex_bound_all(expected),
{
    proof {
        let views = simplex_views(list@);
        assert forall|i: int, j: int|
            0 <= i < views.len() && 0 <= j < views[i].len() implies views[i][j] < n by {
            assert(list@[i]@[j] < n);
        }
        lemma_bounded(views, n);
    }
    Skeleton::new(list)
}

/// The words for contents whose nodes have no tags.
fn nodes_fault<T: Scalar>(contents: &MshContents<T>) -> (text: String)
    ensures
        text@ == (if contents.untagged() {
            "Gmsh node tags do not fit their type"@
        } else {
            "mixed Gmsh node-tag layouts are unsupported"@
        }),
{
    let mut b: usize = 0;
    while b < contents.node_blocks.len()
        invariant
            b <= contents.node_blocks@.len(),
            forall|k: int|
                0 <= k < b ==> (#[trigger] contents.node_blocks@[k]).node_tags is None,
        decreases contents.node_blocks@.len() - b,
    {
        match &contents.node_blocks[b].node_tags {
            None => {},
            Some(_) => {
                proof {
                    assert(contents.node_blocks@[b as int].node_tags is Some);
                }
                return owned("mixed Gmsh node-tag layouts are unsupported");
            },
        }
        b = b + 1;
    }
    owned("Gmsh node tags do not fit their type")
}

/// The outcome of reading the cells of a file with the given contents.
pub open spec fn is_cells_outcome<T: Scalar>(
    mesh: Result<(Skeleton, MeshCoords<T>), String>,
    bytes: Seq<u8>,
    contents: MshContents<T>,
) -> bool {
    match mesh {
        Ok((cells, coords)) => {
            let nodes = in_tag_order(file_nodes(bytes, contents)->0);
            &&& mesh_fault(bytes, contents) is None
            &&& cells.wf()
            &&& cells@.len() > 0
            &&& cells@ == unique(mesh_cells(tags_of(nodes), contents.element_blocks@))
            &&& cells.vertex_count() == vertex_bound_all(
                mesh_cells(tags_of(nodes), contents.element_blocks@),
            )
            &&& is_mesh_coords(coords, nodes)
        },
        Err(message) => mesh_fault(bytes, contents) == Some(message@),
    }
}

/// The cells and coordinates of a mesh file with the given contents.
pub fn contents2coord_cells<T: Scalar>(bytes: &[u8], contents: &MshContents<T>) -> (mesh: Result<
    (Skeleton, MeshCoords<T>),
    String,
>)
    requires
        contents.wf(),
    ensures
        is_cells_outcome(mesh, bytes@, *contents),
{
    let nodes: Vec<(u64, [T; 3])> = match dense_node_data(bytes, contents) {
        None => return Err(nodes_fault(contents)),
        Some(nodes) => nodes,
    };
    let ghost listed = file_nodes(bytes@, *contents)->0;
    let ghost tags = tags_of(tagged_views(nodes@));
    let ghost blocks = contents.element_blocks@;
    proof {
        tag_order_is_ordering(tags_of(listed));
        assert(tagged_views(nodes@).len() == listed.len());
        assert forall|i: int, j: int| 0 <= i <= j < nodes@.len() implies (#[trigger] nodes@[i]).0
            <= (#[trigger] nodes@[j]).0 by {
            let order = tag_order(tags_of(listed));
            assert(tagged_views(nodes@)[i] == listed[order[i]]);
            assert(tagged_views(nodes@)[j] == listed[order[j]]);
            if i < j {
                assert(tags_of(listed)[order[i]] <= tags_of(listed)[order[j]]);
            }
        }
    }
    if nodes.len() == 0 {
        return Err(owned("At least one column must be given."));
    }
    let coords = mesh_coords(&nodes);
    let mut lines: Vec<Simplex> = Vec::new();
    let mut triangles: Vec<Simplex> = Vec::new();
    let mut tetrahedra: Vec<Simplex> = Vec::new();
    let ghost n = nodes@.len();
    let mut b: usize = 0;
    proof {
        assert(blocks.take(0) =~= Seq::<MshElementBlock>::empty());
        assert(simplex_views(lines@) =~= simplices_of(tags, blocks.take(0), MshElementKind::Line));
        assert(simplex_views(triangles@) =~= simplices_of(
            tags,
            blocks.take(0),
            MshElementKind::Triangle,
        ));
        assert(simplex_views(tetrahedra@) =~= simplices_of(
            tags,
            blocks.take(0),
            MshElementKind::Tetrahedron,
        ));
    }
    while b < contents.element_blocks.len()
        invariant
            b <= blocks.len(),
            blocks == contents.element_blocks@,
            contents.wf(),
            n == nodes@.len(),
            n > 0,
            tags == tags_of(tagged_views(nodes@)),
            file_nodes(bytes@, *contents) == Some(listed),
            listed.len() == n,
            tags == tags_of(in_tag_order(listed)),
            forall|i: int, j: int|
                0 <= i <= j < nodes@.len() ==> (#[trigger] nodes@[i]).0 <= (
                #[trigger] nodes@[j]).0,
            first_missing(tags, wanted_tags(blocks.take(b as int))) is None,
            are_simplices(
                lines@,
                simplices_of(tags, blocks.take(b as int), MshElementKind::Line),
                2,
                n,
            ),
            are_simplices(
                triangles@,
                simplices_of(tags, blocks.take(b as int), MshElementKind::Triangle),
                3,
                n,
            ),
            are_simplices(
                tetrahedra@,
                simplices_of(tags, blocks.take(b as int), MshElementKind::Tetrahedron),
                4,
                n,
            ),
        decreases blocks.len() - b,
    {
        let block = &contents.element_blocks[b];
        proof {
            assert(blocks.take(b + 1).drop_last() =~= blocks.take(b as int));
            assert(blocks.take(b + 1).last() == *block);
            lemma_simplices_step(tags, blocks, b as int, MshElementKind::Line);
            lemma_simplices_step(tags, blocks, b as int, MshElementKind::Triangle);
            lemma_simplices_step(tags, blocks, b as int, MshElementKind::Tetrahedron);
            lemma_missing_append(
                tags,
                wanted_tags(blocks.take(b as int)),
                flat(element_views(*block)),
            );
            lemma_missing_append(tags, wanted_tags(blocks.take(b as int)), Seq::empty());
            assert forall|e: int| block.kind != MshElementKind::Other && 0 <= e
                < block.elements@.len() implies (#[trigger] block.elements@[e])@.len() == kind_size(
                block.kind,
            ) by {
                assert(contents.element_blocks@[b as int].elements@[e]@.len() == kind_size(
                    contents.element_blocks@[b as int].kind,
                ));
            }
        }
        let ghost line_list = simplices_of(tags, blocks.take(b as int), MshElementKind::Line);
        let ghost triangle_list = simplices_of(
            tags,
            blocks.take(b as int),
            MshElementKind::Triangle,
        );
        let ghost tetrahedron_list = simplices_of(
            tags,
            blocks.take(b as int),
            MshElementKind::Tetrahedron,
        );
        let ghost added = Seq::new(
            element_views(*block).len(),
            |e: int| element_simplex(tags, element_views(*block)[e]),
        );
        proof {
            assert(line_list + Seq::empty() =~= line_list);
            assert(triangle_list + Seq::empty() =~= triangle_list);
            assert(tetrahedron_list + Seq::empty() =~= tetrahedron_list);
        }
        if block.kind != MshElementKind::Other {
            let more: Vec<Simplex> = match block_simplices(&nodes, block) {
                Ok(more) => more,
                Err(tag) => {
                    let mut message = owned("missing node tag ");
                    push_large(&mut message, tag as u128);
                    message.append(" in Gmsh node map");
                    proof {
                        lemma_wanted_prefix(tags, blocks, b + 1);
                    }
                    return Err(message);
                },
            };
            match block.kind {
                MshElementKind::Line => append_simplices(
                    &mut lines,
                    more,
                    Ghost(line_list),
                    Ghost(added),
                    Ghost(2),
                    Ghost(n),
                ),
                MshElementKind::Triangle => append_simplices(
                    &mut triangles,
                    more,
                    Ghost(triangle_list),
                    Ghost(added),
                    Ghost(3),
                    Ghost(n),
                ),
                MshElementKind::Tetrahedron => append_simplices(
                    &mut tetrahedra,
                    more,
                    Ghost(tetrahedron_list),
                    Ghost(added),
                    Ghost(4),
                    Ghost(n),
                ),
                _ => {},
            }
        }
        b = b + 1;
    }
    let count: usize = nodes.len();
    proof {
        assert(blocks.take(b as int) =~= blocks);
        assert(n == count);
    }
    let ghost line_list = simplices_of(tags, blocks, MshElementKind::Line);
    let ghost triangle_list = simplices_of(tags, blocks, MshElementKind::Triangle);
    let ghost tetrahedron_list = simplices_of(tags, blocks, MshElementKind::Tetrahedron);
    proof {
        assert(simplex_views(lines@).len() == lines@.len());
        assert(simplex_views(triangles@).len() == triangles@.len());
        assert(simplex_views(tetrahedra@).len() == tetrahedra@.len());
    }
    if tetrahedra.len() > 0 {
        Ok((skeleton_of(tetrahedra, Ghost(tetrahedron_list), Ghost(4), Ghost(n)), coords))
    } else if triangles.len() > 0 {
        Ok((skeleton_of(triangles, Ghost(triangle_list), Ghost(3), Ghost(n)), coords))
    } else if lines.len() > 0 {
        Ok((skeleton_of(lines, Ghost(line_list), Ghost(2), Ghost(n)), coords))
    } else {
        Err(owned("Failed to construct Triangulation from gmsh."))
    }
}

/// The cells of a mesh file make up a manifold.
pub open spec fn cells_are_manifold(cells: Seq<Seq<usize>>) -> bool {
    manifold(unique(cells), vertex_bound_all(cells), (unique(cells)[0].len() - 1) as nat)
}

/// The outcome of reading the complex of a file with the given contents.
pub open spec fn is_complex_outcome<T: Scalar>(
    mesh: Result<(Complex, MeshCoords<T>), String>,
    bytes: Seq<u8>,
    contents: MshContents<T>,
) -> bool {
    let nodes = in_tag_order(file_nodes(bytes, contents)->0);
    let cells = mesh_cells(tags_of(nodes), contents.element_blocks@);
    match mesh {
        Ok((complex, coords)) => {
            &&& mesh_fault(bytes, contents) is None
            &&& cells_are_manifold(cells)
            &&& complex.wf()
            &&& complex.source_cells() == unique(cells)
            &&& is_mesh_coords(coords, nodes)
        },
        Err(message) => match mesh_fault(bytes, contents) {
            Some(fault) => message@ == fault,
            None => !cells_are_manifold(cells) && message@ == "Topology must be manifold."@,
        },
    }
}

/// The complex and coordinates of a mesh file with the given contents.
pub fn contents2coord_complex<T: Scalar>(bytes: &[u8], contents: &MshContents<T>) -> (mesh: Result<
    (Complex, MeshCoords<T>),
    String,
>)
    requires
        contents.wf(),
    ensures
        is_complex_outcome(mesh, bytes@, *contents),
{
    let (cells, coords) = match contents2coord_cells(bytes, contents) {
        Err(message) => return Err(message),
        Ok(mesh) => mesh,
    };
    match Complex::try_from_cells(cells) {
        None => Err(owned("Topology must be manifold.")),
        Some(complex) => Ok((complex, coords)),
    }
}

/// The cells and coordinates of a mesh file: of what the parser finds in it, with the nodes as
/// its text lists them where it is text.
pub fn gmsh2coord_cells<T: Scalar>(bytes: &[u8]) -> (mesh: Result<
    (Skeleton, MeshCoords<T>),
    String,
>)
    ensures
        match file_fault(bytes@) {
            Some(message) => mesh matches Err(text) && text@ == message,
            None => exists|contents: MshContents<T>| #[trigger]
                is_file_contents(contents, bytes@) && is_cells_outcome(mesh, bytes@, contents),
        },
{
    match read_contents::<T>(bytes) {
        Err(message) => Err(message),
        Ok(contents) => contents2coord_cells(bytes, &contents),
    }
}

/// The complex and coordinates of a mesh file: of what the parser finds in it, with the nodes
/// as its text lists them where it is text.
pub fn gmsh2coord_complex<T: Scalar>(bytes: &[u8]) -> (mesh: Result<
    (Complex, MeshCoords<T>),
    String,
>)
    ensures
        match file_fault(bytes@) {
            Some(message) => mesh matches Err(text) && text@ == message,
            None => exists|contents: MshContents<T>| #[trigger]
                is_file_contents(contents, bytes@) && is_complex_outcome(mesh, bytes@, contents),
        },
{
    match read_contents::<T>(bytes) {
        Err(message) => Err(message),
        Ok(contents) => contents2coord_complex(bytes, &contents),
    }
}

/// The tags ascend strictly.
spec fn ascends<T>(nodes: TaggedNodes<T>) -> bool {
    forall|i: int, j: int|
        0 <= i < j < nodes.len() ==> (#[trigger] nodes[i]).0 < (#[trigger] nodes[j]).0
}

/// Lists with ascending tags and the same nodes are equal.
proof fn lemma_ascending_unique<T>(a: TaggedNodes<T>, b: TaggedNodes<T>)
    requires
        ascends(a),
        ascends(b),
        forall|x: (u64, Seq<T>)| #[trigger] a.contains(x) <==> b.contains(x),
    ensures
        a == b,
    decreases a.len(),
{
    if a.len() == 0 {
        if b.len() > 0 {
            assert(b.contains(b[0]));
            assert(a.contains(b[0]));
        }
        assert(a =~= b);
    } else {
        let n = a.len() - 1;
        assert(a.contains(a[n]));
        assert(b.contains(a[n]));
        let i = choose|i: int| 0 <= i < b.len() && b[i] == a[n];
        let m = b.len() - 1;
        assert(b.contains(b[m]));
        assert(a.contains(b[m]));
        let j = choose|j: int| 0 <= j < a.len() && a[j] == b[m];
        assert(i == m) by {
            if i < m {
                assert(b[i].0 < b[m].0);
                if j < n {
                    assert(a[j].0 < a[n].0);
                }
            }
        }
        let front = a.drop_last();
        let other = b.drop_last();
        assert forall|x: (u64, Seq<T>)| #[trigger] front.contains(x) <==> other.contains(x) by {
            if front.contains(x) {
                let k = choose|k: int| 0 <= k < front.len() && front[k] == x;
                assert(a[k] == x);
                assert(a.contains(x));
                assert(b.contains(x));
                let l = choose|l: int| 0 <= l < b.len() && b[l] == x;
                assert(l != m);
                assert(other[l] == x);
            }
            if other.contains(x) {
                let k = choose|k: int| 0 <= k < other.len() && other[k] == x;
                assert(b[k] == x);
                assert(b.contains(x));
                assert(a.contains(x));
                let l = choose|l: int| 0 <= l < a.len() && a[l] == x;
                assert(l != n);
                assert(front[l] == x);
            }
        }
        lemma_ascending_unique(front, other);
        assert(a =~= front.push(a[n]));
        assert(b =~= other.push(b[m]));
    }
}

proof fn lemma_in_tag_order<T>(nodes: TaggedNodes<T>)
    requires
        tags_of(nodes).no_duplicates(),
    ensures
        ascends(in_tag_order(nodes)),
        forall|x: (u64, Seq<T>)| #[trigger] in_tag_order(nodes).contains(x) <==> nodes.contains(x),
{
    let tags = tags_of(nodes);
    let order = tag_order(tags);
    let sorted = in_tag_order(nodes);
    tag_order_is_ordering(tags);
    assert forall|i: int, j: int| 0 <= i < j < sorted.len() implies (#[trigger] sorted[i]).0 < (
    #[trigger] sorted[j]).0 by {
        assert(tags[order[i]] != tags[order[j]]);
    }
    assert forall|x: (u64, Seq<T>)| #[trigger] sorted.contains(x) <==> nodes.contains(x) by {
        if sorted.contains(x) {
            let i = choose|i: int| 0 <= i < sorted.len() && sorted[i] == x;
            assert(nodes[order[i]] == x);
        }
        if nodes.contains(x) {
            let k = choose|k: int| 0 <= k < nodes.len() && nodes[k] == x;
            assert(order.contains(k));
            let i = choose|i: int| 0 <= i < order.len() && order[i] == k;
            assert(sorted[i] == x);
        }
    }
}

/// The order in which a file lists its nodes does not matter: lists of the same nodes, each tag
/// once, lead to the same vertices in the same order, and with them to the same mesh.
pub proof fn node_order_does_not_matter<T>(a: TaggedNodes<T>, b: TaggedNodes<T>)
    requires
        tags_of(a).no_duplicates(),
        tags_of(b).no_duplicates(),
        forall|x: (u64, Seq<T>)| #[trigger] a.contains(x) <==> b.contains(x),
    ensures
        in_tag_order(a) == in_tag_order(b),
{
    lemma_in_tag_order(a);
    lemma_in_tag_order(b);
    assert forall|x: (u64, Seq<T>)| #[trigger] in_tag_order(a).contains(x) <==> in_tag_order(
        b,
    ).contains(x) by {
        assert(a.contains(x) <==> b.contains(x));
    }
    lemma_ascending_unique(in_tag_order(a), in_tag_order(b));
}

} // verus!
