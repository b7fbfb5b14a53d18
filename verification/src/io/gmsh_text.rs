//! The node section of a mesh file in text form.

use crate::numerals::{
    characters, signed_number, signed_value, size_number, unsigned_number, unsigned_value,
};
use crate::problems::elimination::part_of;
use vstd::prelude::*;
use vstd::string::*;
use vstd::utf8::*;

verus! {

/// The text of bytes by `std::str::from_utf8`: there is one exactly if the bytes are valid
/// UTF-8, and its characters are those that the bytes encode.
#[verifier::external_body]
fn utf8_text(bytes: &[u8]) -> (text: Option<&str>)
    ensures
        text is Some == valid_utf8(bytes@),
        text matches Some(t) ==> t@ == decode_utf8(bytes@),
{
    std::str::from_utf8(bytes).ok()
}

/// A word begins at a place of a text.
pub open spec fn matches_at(text: Seq<char>, word: Seq<char>, at: int) -> bool {
    0 <= at && at + word.len() <= text.len() && text.subrange(at, at + word.len()) == word
}

/// The first place at which a word begins.
pub open spec fn first_match(text: Seq<char>, word: Seq<char>) -> Option<int> {
    if exists|at: int| matches_at(text, word, at) {
        Some(choose|at: int| is_first_match(text, word, at))
    } else {
        None
    }
}

/// A word begins at a place and at none before it.
pub open spec fn is_first_match(text: Seq<char>, word: Seq<char>, at: int) -> bool {
    &&& matches_at(text, word, at)
    &&& forall|k: int| 0 <= k < at ==> !matches_at(text, word, k)
}

fn find_word(text: &[char], word: &[char]) -> (found: Option<usize>)
    ensures
        match found {
            Some(at) => first_match(text@, word@) == Some(at as int) && matches_at(
                text@,
                word@,
                at as int,
            ),
            None => first_match(text@, word@) is None,
        },
{
    let total: usize = text.len();
    let mut at: usize = 0;
    while at < total && word.len() <= total - at
        invariant
            total == text@.len(),
            at <= text@.len(),
            forall|k: int| 0 <= k < at ==> !matches_at(text@, word@, k),
        decreases text@.len() - at,
    {
        let mut i: usize = 0;
        while i < word.len() && text[at + i] == word[i]
            invariant
                i <= word@.len(),
                total == text@.len(),
                at + word@.len() <= text@.len(),
                forall|k: int| 0 <= k < i ==> text@[at + k] == #[trigger] word@[k],
            decreases word@.len() - i,
        {
            i = i + 1;
        }
        if i == word.len() {
            proof {
                assert(text@.subrange(at as int, at + word@.len()) =~= word@);
                lemma_first_match(text@, word@, at as int);
            }
            return Some(at);
        }
        proof {
            if matches_at(text@, word@, at as int) {
                assert(text@.subrange(at as int, at + word@.len())[i as int] == word@[i as int]);
            }
        }
        at = at + 1;
    }
    if word.len() == 0 && at == total {
        proof {
            assert(text@.subrange(at as int, at as int) =~= word@);
            lemma_first_match(text@, word@, at as int);
        }
        return Some(at);
    }
    proof {
        assert forall|k: int| !matches_at(text@, word@, k) by {}
    }
    None
}

proof fn lemma_first_match(text: Seq<char>, word: Seq<char>, at: int)
    requires
        is_first_match(text, word, at),
    ensures
        first_match(text, word) == Some(at),
{
    let chosen = choose|k: int| is_first_match(text, word, k);
    assert(is_first_match(text, word, chosen));
    if chosen < at {
        assert(!matches_at(text, word, chosen));
    }
    if at < chosen {
        assert(!matches_at(text, word, at));
    }
}

/// White space as Unicode has it.
pub open spec fn is_space(c: char) -> bool {
    let n = c as u32;
    ||| 0x9 <= n <= 0xd
    ||| n == 0x20
    ||| n == 0x85
    ||| n == 0xa0
    ||| n == 0x1680
    ||| 0x2000 <= n <= 0x200a
    ||| n == 0x2028
    ||| n == 0x2029
    ||| n == 0x202f
    ||| n == 0x205f
    ||| n == 0x3000
}

fn space(c: char) -> (space: bool)
    ensures
        space == is_space(c),
{
    let n: u32 = c as u32;
    (0x9 <= n && n <= 0xd) || n == 0x20 || n == 0x85 || n == 0xa0 || n == 0x1680 || (0x2000 <= n
        && n <= 0x200a) || n == 0x2028 || n == 0x2029 || n == 0x202f || n == 0x205f || n == 0x3000
}

/// The words that end among the first characters, and the word that these end with.
pub open spec fn split_words(text: Seq<char>) -> (Seq<Seq<char>>, Seq<char>)
    decreases text.len(),
{
    if text.len() == 0 {
        (Seq::empty(), Seq::empty())
    } else {
        let (done, word) = split_words(text.drop_last());
        if !is_space(text.last()) {
            (done, word.push(text.last()))
        } else if word.len() == 0 {
            (done, word)
        } else {
            (done.push(word), Seq::empty())
        }
    }
}

/// The words of a text between white space.
pub open spec fn words(text: Seq<char>) -> Seq<Seq<char>> {
    let (done, word) = split_words(text);
    if word.len() == 0 {
        done
    } else {
        done.push(word)
    }
}

/// The characters of each word.
pub open spec fn word_views(list: Seq<Vec<char>>) -> Seq<Seq<char>> {
    Seq::new(list.len(), |i: int| list[i]@)
}

fn split_text(text: &[char]) -> (list: Vec<Vec<char>>)
    ensures
        word_views(list@) == words(text@),
{
    let mut list: Vec<Vec<char>> = Vec::new();
    let mut word: Vec<char> = Vec::new();
    let mut i: usize = 0;
    proof {
        assert(text@.take(0) =~= Seq::<char>::empty());
        assert(word_views(list@) =~= Seq::<Seq<char>>::empty());
    }
    while i < text.len()
        invariant
            i <= text@.len(),
            split_words(text@.take(i as int)) == (word_views(list@), word@),
        decreases text@.len() - i,
    {
        let c = text[i];
        proof {
            assert(text@.take(i + 1).drop_last() =~= text@.take(i as int));
        }
        let ghost before = list@;
        if !space(c) {
            word.push(c);
        } else if word.len() > 0 {
            let ghost finished = word@;
            list.push(word);
            word = Vec::new();
            proof {
                assert(word_views(list@) =~= word_views(before).push(finished));
            }
        }
        i = i + 1;
    }
    proof {
        assert(text@.take(i as int) =~= text@);
    }
    if word.len() > 0 {
        let ghost before = list@;
        let ghost finished = word@;
        list.push(word);
        proof {
            assert(word_views(list@) =~= word_views(before).push(finished));
        }
    }
    list
}

/// The unsigned number at a place of a list of words.
pub open spec fn number_at(list: Seq<Seq<char>>, at: int, bound: nat) -> Option<nat> {
    if 0 <= at < list.len() {
        unsigned_value(list[at], bound)
    } else {
        None
    }
}

/// The signed number at a place of a list of words.
pub open spec fn signed_at(list: Seq<Seq<char>>, at: int) -> Option<int> {
    if 0 <= at < list.len() {
        signed_value(list[at], 0x8000_0000, 0x7fff_ffff)
    } else {
        None
    }
}

fn signed_number_32(word: &Vec<char>) -> (number: Option<i64>)
    ensures
        match signed_value(word@, 0x8000_0000, 0x7fff_ffff) {
            Some(n) => number == Some(n as i64),
            None => number is None,
        },
{
    signed_number(word, 0x8000_0000, 0x7fff_ffff)
}

/// The first `n` tags from a place on.
pub open spec fn tags_at(list: Seq<Seq<char>>, at: int, n: int) -> Option<Seq<u64>>
    decreases n,
{
    if n <= 0 {
        Some(Seq::empty())
    } else {
        match (tags_at(list, at, n - 1), number_at(list, at + n - 1, u64::MAX as nat)) {
            (Some(before), Some(tag)) => Some(before.push(tag as u64)),
            _ => None,
        }
    }
}

/// Tags, each with the place of the first of its three coordinates.
pub open spec fn placed_tags(tags: Seq<u64>, at: int) -> Seq<(u64, int)> {
    Seq::new(tags.len(), |i: int| (tags[i], at + 3 * i))
}

/// A block of nodes that begins at a place: its tags with the places of their coordinates, and
/// the place behind it. The coordinates have to be there, and may not be parametric.
pub open spec fn block_at(list: Seq<Seq<char>>, at: int) -> Option<(Seq<(u64, int)>, int)> {
    match (
        signed_at(list, at),
        signed_at(list, at + 1),
        signed_at(list, at + 2),
        number_at(list, at + 3, usize::MAX as nat),
    ) {
        (Some(_), Some(_), Some(parametric), Some(count)) => {
            if parametric != 0 {
                None
            } else {
                match tags_at(list, at + 4, count as int) {
                    Some(tags) => {
                        let coords = at + 4 + count;
                        if coords + 3 * count <= list.len() {
                            Some((placed_tags(tags, coords), coords + 3 * count))
                        } else {
                            None
                        }
                    },
                    None => None,
                }
            }
        },
        _ => None,
    }
}

/// The first `n` blocks of nodes from a place on.
pub open spec fn blocks_at(list: Seq<Seq<char>>, at: int, n: int) -> Option<
    (Seq<(u64, int)>, int),
>
    decreases n,
{
    if n <= 0 {
        Some((Seq::empty(), at))
    } else {
        match blocks_at(list, at, n - 1) {
            Some((before, next)) => match block_at(list, next) {
                Some((nodes, behind)) => Some((before + nodes, behind)),
                None => None,
            },
            None => None,
        }
    }
}

/// The tags of a node section with the places of their coordinates; none unless there are as
/// many as the section says.
pub open spec fn section_nodes(list: Seq<Seq<char>>) -> Option<Seq<(u64, int)>> {
    match (
        number_at(list, 0, usize::MAX as nat),
        number_at(list, 1, usize::MAX as nat),
        number_at(list, 2, u64::MAX as nat),
        number_at(list, 3, u64::MAX as nat),
    ) {
        (Some(nblocks), Some(nnodes), Some(_), Some(_)) => match blocks_at(
            list,
            4,
            nblocks as int,
        ) {
            Some((nodes, _)) => if nodes.len() == nnodes {
                Some(nodes)
            } else {
                None
            },
            None => None,
        },
        _ => None,
    }
}

/// The text between `$Nodes` and `$EndNodes`.
pub open spec fn node_text(text: Seq<char>) -> Option<Seq<char>> {
    match first_match(text, "$Nodes"@) {
        Some(at) => {
            let behind = text.subrange(at + "$Nodes"@.len(), text.len() as int);
            match first_match(behind, "$EndNodes"@) {
                Some(end) => Some(behind.take(end)),
                None => None,
            }
        },
        None => None,
    }
}

/// Tags of nodes and the words that spell their coordinates, three for each.
#[derive(Debug)]
pub struct NodeSection {
    pub tags: Vec<u64>,
    pub coordinates: Vec<String>,
}

/// The section that a list of nodes describes.
pub open spec fn is_section(
    section: NodeSection,
    list: Seq<Seq<char>>,
    nodes: Seq<(u64, int)>,
) -> bool {
    &&& section.tags@.len() == nodes.len()
    &&& section.coordinates@.len() == 3 * nodes.len()
    &&& forall|i: int| 0 <= i < nodes.len() ==> #[trigger] section.tags@[i] == nodes[i].0
    &&& forall|i: int|
        0 <= i < 3 * nodes.len() ==> (#[trigger] section.coordinates@[i])@ == list[nodes[i / 3].1
            + i % 3]
}

/// The section of a mesh file in text form, if there is one.
pub open spec fn is_section_of(section: Option<NodeSection>, bytes: Seq<u8>) -> bool {
    let text = decode_utf8(bytes);
    let nodes = if valid_utf8(bytes) && node_text(text) is Some {
        section_nodes(words(node_text(text)->0))
    } else {
        None
    };
    match section {
        Some(s) => nodes is Some && is_section(s, words(node_text(text)->0), nodes->0),
        None => nodes is None,
    }
}

fn spelled(word: &Vec<char>) -> (text: String)
    ensures
        text@ == word@,
{
    let mut text = String::new();
    let mut i: usize = 0;
    while i < word.len()
        invariant
            i <= word@.len(),
            text@ =~= word@.take(i as int),
        decreases word@.len() - i,
    {
        text.push(word[i]);
        i = i + 1;
    }
    proof {
        assert(word@.take(i as int) =~= word@);
    }
    text
}

fn read_tags(list: &Vec<Vec<char>>, at: usize, count: usize) -> (tags: Option<Vec<u64>>)
    requires
        at <= list@.len(),
    ensures
        match tags_at(word_views(list@), at as int, count as int) {
            Some(expected) => tags matches Some(t) && t@ == expected && at + count
                <= list@.len(),
            None => tags is None,
        },
{
    let ghost views = word_views(list@);
    let total: usize = list.len();
    let mut tags: Vec<u64> = Vec::new();
    let mut i: usize = 0;
    while i < count
        invariant
            i <= count,
            total == list@.len(),
            at + i <= list@.len(),
            views == word_views(list@),
            tags_at(views, at as int, i as int) == Some(tags@),
        decreases count - i,
    {
        if at + i >= total {
            proof {
                lemma_tags_fail(views, at as int, i + 1, count as int);
            }
            return None;
        }
        match unsigned_number(&list[at + i]) {
            None => {
                proof {
                    assert(views[at + i] == list@[at + i]@);
                    lemma_tags_fail(views, at as int, i + 1, count as int);
                }
                return None;
            },
            Some(tag) => {
                proof {
                    assert(views[at + i] == list@[at + i]@);
                }
                tags.push(tag);
            },
        }
        i = i + 1;
    }
    Some(tags)
}

proof fn lemma_tags_fail(list: Seq<Seq<char>>, at: int, k: int, n: int)
    requires
        k <= n,
        tags_at(list, at, k) is None,
    ensures
        tags_at(list, at, n) is None,
    decreases n - k,
{
    if k < n {
        lemma_tags_fail(list, at, k, n - 1);
    }
}

proof fn lemma_tags_length(list: Seq<Seq<char>>, at: int, n: int)
    requires
        tags_at(list, at, n) is Some,
        n >= 0,
    ensures
        tags_at(list, at, n)->0.len() == n,
    decreases n,
{
    if n > 0 {
        lemma_tags_length(list, at, n - 1);
    }
}

/// Places as mathematical numbers.
pub open spec fn places(nodes: Seq<(u64, usize)>) -> Seq<(u64, int)> {
    Seq::new(nodes.len(), |i: int| (nodes[i].0, nodes[i].1 as int))
}

fn read_block(list: &Vec<Vec<char>>, at: usize, nodes: &mut Vec<(u64, usize)>) -> (next: Option<
    usize,
>)
    requires
        at <= list@.len(),
        forall|i: int|
            0 <= i < old(nodes)@.len() ==> (#[trigger] old(nodes)@[i]).1 + 3 <= list@.len(),
    ensures
        match block_at(word_views(list@), at as int) {
            Some((added, behind)) => next matches Some(n) && n == behind && n <= list@.len()
                && places(final(nodes)@) == places(old(nodes)@) + added,
            None => next is None,
        },
        next is Some ==> forall|i: int|
            0 <= i < final(nodes)@.len() ==> (#[trigger] final(nodes)@[i]).1 + 3 <= list@.len(),
{
    let ghost views = word_views(list@);
    let ghost start = nodes@;
    let len: usize = list.len();
    if len - at < 4 {
        return None;
    }
    proof {
        assert(views[at as int] == list@[at as int]@);
        assert(views[at + 1] == list@[at + 1]@);
        assert(views[at + 2] == list@[at + 2]@);
        assert(views[at + 3] == list@[at + 3]@);
    }
    if signed_number_32(&list[at]).is_none() || signed_number_32(&list[at + 1]).is_none() {
        return None;
    }
    let parametric: i64 = match signed_number_32(&list[at + 2]) {
        None => return None,
        Some(p) => p,
    };
    let count: usize = match size_number(&list[at + 3]) {
        None => return None,
        Some(count) => count,
    };
    if parametric != 0 {
        return None;
    }
    let tags: Vec<u64> = match read_tags(list, at + 4, count) {
        None => return None,
        Some(tags) => tags,
    };
    proof {
        lemma_tags_length(views, at + 4, count as int);
    }
    let coords: usize = at + 4 + count;
    if count > (len - coords) / 3 {
        return None;
    }
    let mut i: usize = 0;
    while i < tags.len()
        invariant
            i <= tags@.len(),
            tags@.len() == count,
            len == list@.len(),
            coords + 3 * count <= len,
            places(nodes@) =~= places(start) + placed_tags(tags@, coords as int).take(i as int),
            forall|j: int| 0 <= j < nodes@.len() ==> (#[trigger] nodes@[j]).1 + 3 <= list@.len(),
        decreases tags@.len() - i,
    {
        let ghost before = nodes@;
        nodes.push((tags[i], coords + 3 * i));
        proof {
            assert(places(nodes@) =~= places(before).push((tags@[i as int], coords + 3 * i)));
        }
        i = i + 1;
    }
    proof {
        assert(placed_tags(tags@, coords as int).take(i as int) =~= placed_tags(
            tags@,
            coords as int,
        ));
    }
    Some(coords + 3 * count)
}

proof fn lemma_blocks_fail(list: Seq<Seq<char>>, at: int, k: int, n: int)
    requires
        k <= n,
        blocks_at(list, at, k) is None,
    ensures
        blocks_at(list, at, n) is None,
    decreases n - k,
{
    if k < n {
        lemma_blocks_fail(list, at, k, n - 1);
    }
}

fn read_blocks(list: &Vec<Vec<char>>) -> (nodes: Option<Vec<(u64, usize)>>)
    ensures
        match section_nodes(word_views(list@)) {
            Some(expected) => nodes matches Some(found) && places(found@) == expected && forall|
                i: int,
            |
                0 <= i < found@.len() ==> (#[trigger] found@[i]).1 + 3 <= list@.len(),
            None => nodes is None,
        },
{
    let ghost views = word_views(list@);
    if list.len() < 4 {
        return None;
    }
    proof {
        assert(views[0] == list@[0]@);
        assert(views[1] == list@[1]@);
        assert(views[2] == list@[2]@);
        assert(views[3] == list@[3]@);
    }
    let nblocks: usize = match size_number(&list[0]) {
        None => return None,
        Some(n) => n,
    };
    let nnodes: usize = match size_number(&list[1]) {
        None => return None,
        Some(n) => n,
    };
    if unsigned_number(&list[2]).is_none() || unsigned_number(&list[3]).is_none() {
        return None;
    }
    let mut nodes: Vec<(u64, usize)> = Vec::new();
    let mut at: usize = 4;
    let mut b: usize = 0;
    proof {
        assert(places(nodes@) =~= Seq::<(u64, int)>::empty());
    }
    while b < nblocks
        invariant
            b <= nblocks,
            at <= list@.len(),
            views == word_views(list@),
            number_at(views, 0, usize::MAX as nat) == Some(nblocks as nat),
            blocks_at(views, 4, b as int) == Some((places(nodes@), at as int)),
            forall|i: int| 0 <= i < nodes@.len() ==> (#[trigger] nodes@[i]).1 + 3 <= list@.len(),
        decreases nblocks - b,
    {
        match read_block(list, at, &mut nodes) {
            None => {
                proof {
                    assert(blocks_at(views, 4, b + 1) is None);
                    lemma_blocks_fail(views, 4, b + 1, nblocks as int);
                }
                return None;
            },
            Some(next) => {
                at = next;
            },
        }
        b = b + 1;
    }
    if nodes.len() != nnodes {
        return None;
    }
    Some(nodes)
}

/// The node section of a mesh file in text form: none where the bytes are no text, the section
/// is missing or cut short, or its numbers are none.
pub fn node_section(bytes: &[u8]) -> (section: Option<NodeSection>)
    ensures
        is_section_of(section, bytes@),
{
    let text: &str = match utf8_text(bytes) {
        None => return None,
        Some(text) => text,
    };
    let chars = characters(text);
    let begin = characters("$Nodes");
    let end = characters("$EndNodes");
    let at: usize = match find_word(chars.as_slice(), begin.as_slice()) {
        None => return None,
        Some(at) => at,
    };
    let length: usize = chars.len();
    let behind = part_of(chars.as_slice(), at + begin.len(), length);
    let stop: usize = match find_word(behind.as_slice(), end.as_slice()) {
        None => return None,
        Some(stop) => stop,
    };
    let inner = part_of(behind.as_slice(), 0, stop);
    proof {
        assert(inner@ =~= behind@.take(stop as int));
    }
    let list = split_text(inner.as_slice());
    let nodes: Vec<(u64, usize)> = match read_blocks(&list) {
        None => return None,
        Some(nodes) => nodes,
    };
    let ghost views = word_views(list@);
    let mut tags: Vec<u64> = Vec::new();
    let mut coordinates: Vec<String> = Vec::new();
    let total: usize = list.len();
    let mut i: usize = 0;
    while i < nodes.len()
        invariant
            total == list@.len(),
            i <= nodes@.len(),
            views == word_views(list@),
            forall|j: int| 0 <= j < nodes@.len() ==> (#[trigger] nodes@[j]).1 + 3 <= list@.len(),
            tags@.len() == i,
            coordinates@.len() == 3 * i,
            forall|j: int| 0 <= j < i ==> #[trigger] tags@[j] == nodes@[j].0,
            forall|j: int|
                0 <= j < 3 * i ==> (#[trigger] coordinates@[j])@ == views[nodes@[j / 3].1 + j % 3],
        decreases nodes@.len() - i,
    {
        let (tag, place): (u64, usize) = nodes[i];
        proof {
            assert(nodes@[i as int].1 + 3 <= list@.len());
        }
        tags.push(tag);
        let ghost before = coordinates@;
        coordinates.push(spelled(&list[place]));
        coordinates.push(spelled(&list[place + 1]));
        coordinates.push(spelled(&list[place + 2]));
        proof {
            assert forall|j: int| 0 <= j < 3 * (i + 1) implies (#[trigger] coordinates@[j])@
                == views[nodes@[j / 3].1 + j % 3] by {
                if j < 3 * i {
                    assert(coordinates@[j] == before[j]);
                } else {
                    assert(j / 3 == i);
                    assert(views[place + j % 3] == list@[place + j % 3]@);
                }
            }
        }
        i = i + 1;
    }
    let section = NodeSection { tags, coordinates };
    proof {
        let expected = section_nodes(views)->0;
        assert(places(nodes@) == expected);
        assert forall|j: int| 0 <= j < expected.len() implies #[trigger] section.tags@[j]
            == expected[j].0 by {
            assert(places(nodes@)[j].0 == nodes@[j].0);
        }
        assert forall|j: int| 0 <= j < 3 * expected.len() implies (
        #[trigger] section.coordinates@[j])@ == views[expected[j / 3].1 + j % 3] by {
            assert(places(nodes@)[j / 3].1 == nodes@[j / 3].1);
        }
    }
    Some(section)
}

} // verus!
