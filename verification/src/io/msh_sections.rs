//! The sections of Gmsh files.

use vstd::prelude::*;

verus! {

/// A blank between words.
pub open spec fn is_blank(b: u8) -> bool {
    b == 32 || b == 9 || b == 13 || b == 10
}

pub open spec fn is_digit(b: u8) -> bool {
    48 <= b <= 57
}

/// The first place from `p` on that holds no blank.
pub open spec fn after_blanks(bytes: Seq<u8>, p: int) -> int
    decreases bytes.len() - p,
{
    if 0 <= p < bytes.len() && is_blank(bytes[p]) {
        after_blanks(bytes, p + 1)
    } else {
        p
    }
}

/// The first place from `p` on that holds a blank.
pub open spec fn after_word(bytes: Seq<u8>, p: int) -> int
    decreases bytes.len() - p,
{
    if 0 <= p < bytes.len() && !is_blank(bytes[p]) {
        after_word(bytes, p + 1)
    } else {
        p
    }
}

/// The first place from `p` on that holds no digit.
pub open spec fn after_digits(bytes: Seq<u8>, p: int) -> int
    decreases bytes.len() - p,
{
    if 0 <= p < bytes.len() && is_digit(bytes[p]) {
        after_digits(bytes, p + 1)
    } else {
        p
    }
}

/// The place after one blank, where a carriage return and a line feed are one.
pub open spec fn after_blank(bytes: Seq<u8>, p: int) -> int {
    if 0 <= p < bytes.len() && bytes[p] == 13 {
        p + 2
    } else {
        p + 1
    }
}

/// The number that the digits from `p` up to `q` spell.
pub open spec fn spelled_number(bytes: Seq<u8>, p: int, q: int) -> nat
    decreases q - p,
{
    if q <= p {
        0
    } else {
        10 * spelled_number(bytes, p, q - 1) + (bytes[q - 1] - 48) as nat
    }
}

/// A word stands at a place.
pub open spec fn word_at(bytes: Seq<u8>, word: Seq<u8>, p: int) -> bool {
    &&& 0 <= p
    &&& p + word.len() <= bytes.len()
    &&& forall|i: int| 0 <= i < word.len() ==> bytes[p + i] == #[trigger] word[i]
}

/// A line ends at a place.
pub open spec fn break_at(bytes: Seq<u8>, p: int) -> bool {
    ||| 0 <= p < bytes.len() && bytes[p] == 10
    ||| 0 <= p && p + 1 < bytes.len() && bytes[p] == 13 && bytes[p + 1] == 10
}

/// A word stands at a place, and its line ends after it.
pub open spec fn line_at(bytes: Seq<u8>, word: Seq<u8>, p: int) -> bool {
    word_at(bytes, word, p) && break_at(bytes, p + word.len())
}

/// The first place from `p` on at which a word stands.
pub open spec fn find_word(bytes: Seq<u8>, word: Seq<u8>, p: int) -> Option<int>
    decreases bytes.len() - p,
{
    if p < 0 || p >= bytes.len() {
        None
    } else if word_at(bytes, word, p) {
        Some(p)
    } else {
        find_word(bytes, word, p + 1)
    }
}

/// The first place from `p` on at which a word stands at the end of its line.
pub open spec fn find_line(bytes: Seq<u8>, word: Seq<u8>, p: int) -> Option<int>
    decreases bytes.len() - p,
{
    if p < 0 || p >= bytes.len() {
        None
    } else if line_at(bytes, word, p) {
        Some(p)
    } else {
        find_line(bytes, word, p + 1)
    }
}

pub open spec fn is_letter(b: u8) -> bool {
    65 <= b <= 90 || 97 <= b <= 122
}

/// The first place from `p` on that holds no letter.
pub open spec fn after_letters(bytes: Seq<u8>, p: int) -> int
    decreases bytes.len() - p,
{
    if 0 <= p < bytes.len() && is_letter(bytes[p]) {
        after_letters(bytes, p + 1)
    } else {
        p
    }
}

/// The number that the bytes from `p` on store.
pub open spec fn stored_number(bytes: Seq<u8>, p: int, size: nat, big: bool) -> nat
    decreases size,
{
    if size == 0 {
        0
    } else if big {
        256 * stored_number(bytes, p, (size - 1) as nat, big) + bytes[p + size - 1] as nat
    } else {
        256 * stored_number(bytes, p + 1, (size - 1) as nat, big) + bytes[p] as nat
    }
}

/// `$MeshFormat`.
pub open spec fn format_word() -> Seq<u8> {
    seq![36, 77, 101, 115, 104, 70, 111, 114, 109, 97, 116]
}

/// `$EndMeshFormat`.
pub open spec fn format_end() -> Seq<u8> {
    seq![36, 69, 110, 100, 77, 101, 115, 104, 70, 111, 114, 109, 97, 116]
}

/// The sections that are read.
#[derive(Clone, Copy, Debug, PartialEq, Eq, Structural)]
pub enum Section {
    Entities,
    Nodes,
    Elements,
}

/// `$Entities`, `$Nodes` or `$Elements`.
pub open spec fn section_word(section: Section) -> Seq<u8> {
    match section {
        Section::Entities => seq![36, 69, 110, 116, 105, 116, 105, 101, 115],
        Section::Nodes => seq![36, 78, 111, 100, 101, 115],
        Section::Elements => seq![36, 69, 108, 101, 109, 101, 110, 116, 115],
    }
}

/// `$End` and the name of the section that starts with a word.
pub open spec fn end_word(word: Seq<u8>) -> Seq<u8> {
    seq![36, 69, 110, 100] + word.skip(1)
}

/// How the numbers of a file are written: as text or as bytes, with the most significant byte
/// first or last, and with how many bytes for a count or a tag.
#[derive(Clone, Copy, Debug)]
pub struct Numbers {
    pub binary: bool,
    pub big: bool,
    pub size: usize,
}

/// The place of the file type in the header.
pub open spec fn kind_place(bytes: Seq<u8>) -> int {
    after_blank(bytes, after_word(bytes, after_blank(bytes, format_word().len() as int)))
}

/// The place of the size of a word in the header.
pub open spec fn size_place(bytes: Seq<u8>) -> int {
    after_blank(bytes, after_digits(bytes, kind_place(bytes)))
}

/// The file type and the size of a word in the header.
pub open spec fn header_numbers(bytes: Seq<u8>) -> (nat, nat) {
    let (kind, size) = (kind_place(bytes), size_place(bytes));
    (
        spelled_number(bytes, kind, after_digits(bytes, kind)),
        spelled_number(bytes, size, after_digits(bytes, size)),
    )
}

/// The header names a size of words that can be read.
pub open spec fn header_readable(bytes: Seq<u8>) -> bool {
    let (kind, size) = header_numbers(bytes);
    &&& size <= i32::MAX
    &&& kind == 1 ==> size == 1 || size == 2 || size == 4 || size == 8 || size == 16
}

/// How the numbers of a file are written, by its header. In a binary file the number one comes
/// after the header's line.
pub open spec fn numbers_of(bytes: Seq<u8>) -> Numbers {
    let (kind, size) = header_numbers(bytes);
    let one = after_blank(bytes, after_digits(bytes, size_place(bytes)));
    Numbers {
        binary: kind == 1,
        big: one + 4 <= bytes.len() && stored_number(bytes, one, 4, true) == 1,
        size: size as usize,
    }
}

/// The place after the header.
pub open spec fn body_place(bytes: Seq<u8>) -> Option<int> {
    match find_line(bytes, format_end(), after_blank(bytes, format_word().len() as int)) {
        Some(p) => Some(after_blank(bytes, p + format_end().len())),
        None => None,
    }
}

/// The number of nodes of an element by the number of its type, as the parser takes it; zero
/// where that is not known.
pub const TYPE_NODES: [u16; 141] = [
    0, 2, 3, 4, 4, 8, 6, 5, 3, 6, 9, 10, 27, 28, 14,
    1, 8, 20, 15, 13, 9, 10, 12, 15, 15, 21, 4, 5, 6, 20,
    35, 56, 22, 28, 0, 0, 16, 25, 36, 12, 16, 20, 28, 36, 45,
    55, 66, 49, 64, 81, 100, 121, 18, 21, 24, 27, 30, 24, 28, 32,
    36, 40, 7, 8, 9, 10, 11, 0, 0, 0, 0, 84, 120, 165, 220,
    286, 0, 0, 0, 34, 40, 46, 52, 58, 1, 1, 1, 1, 1, 1,
    40, 75, 64, 125, 216, 343, 512, 729, 1000, 32, 44, 56, 68, 80, 92,
    104, 126, 196, 288, 405, 550, 24, 33, 42, 51, 60, 69, 78, 30, 55,
    91, 140, 204, 285, 385, 21, 29, 37, 45, 53, 61, 69, 1, 0, 0,
    0, 0, 16, 0, 0, 0,
];

/// What a binary section holds after its counts.
#[derive(Clone, Copy, Debug, PartialEq, Eq, Structural)]
pub enum Part {
    Point,
    Shape,
    NodeBlock,
    ElementBlock,
}

/// The place after a count and as many items of a width.
pub open spec fn after_counted(bytes: Seq<u8>, numbers: Numbers, p: int, width: int) -> int {
    let q = p + numbers.size;
    if q > bytes.len() {
        q
    } else {
        q + stored_number(bytes, p, numbers.size as nat, numbers.big) * width
    }
}

/// The place after the elements of a block whose number of type stands before `p`.
pub open spec fn after_elements(bytes: Seq<u8>, numbers: Numbers, p: int) -> int {
    let element_type = stored_number(bytes, p - 4, 4, numbers.big);
    if p > bytes.len() {
        p
    } else if element_type > 140 || TYPE_NODES@[element_type as int] == 0 {
        bytes.len() as int + 1
    } else {
        after_counted(bytes, numbers, p, (1 + TYPE_NODES@[element_type as int]) * numbers.size)
    }
}

/// The place after a part of a binary section; one beyond the end where the part cannot be read.
/// A point has a tag, three coordinates and its groups; another shape has a tag, six bounds, its
/// groups and its boundary. A block of nodes or elements has three numbers before its count; each
/// node has a tag and three coordinates, each element a tag and the tags of its nodes.
pub open spec fn after_part(bytes: Seq<u8>, numbers: Numbers, part: Part, p: int) -> int {
    match part {
        Part::Point => after_counted(bytes, numbers, p + 28, 4),
        Part::Shape => after_counted(
            bytes,
            numbers,
            after_counted(bytes, numbers, p + 52, 4),
            4,
        ),
        Part::NodeBlock => after_counted(bytes, numbers, p + 12, numbers.size + 24),
        Part::ElementBlock => after_elements(bytes, numbers, p + 12),
    }
}

/// The place after so many parts, one after the other.
pub open spec fn after_parts(
    bytes: Seq<u8>,
    numbers: Numbers,
    part: Part,
    p: int,
    count: nat,
) -> int
    decreases count,
{
    if count == 0 || p > bytes.len() {
        p
    } else {
        after_parts(
            bytes,
            numbers,
            part,
            after_part(bytes, numbers, part, p),
            (count - 1) as nat,
        )
    }
}

/// The place after what a binary section holds. Four counts come first.
pub open spec fn after_stored(bytes: Seq<u8>, numbers: Numbers, section: Section, p: int) -> int {
    let s = numbers.size;
    let count = |k: int| stored_number(bytes, p + k * s, s as nat, numbers.big);
    let q = p + 4 * s;
    match section {
        Section::Entities => {
            let points = after_parts(bytes, numbers, Part::Point, q, count(0));
            let curves = after_parts(bytes, numbers, Part::Shape, points, count(1));
            let surfaces = after_parts(bytes, numbers, Part::Shape, curves, count(2));
            after_parts(bytes, numbers, Part::Shape, surfaces, count(3))
        },
        Section::Nodes => after_parts(bytes, numbers, Part::NodeBlock, q, count(0)),
        Section::Elements => after_parts(bytes, numbers, Part::ElementBlock, q, count(0)),
    }
}

/// The first place from `p` on that holds a dollar sign, or the end.
pub open spec fn to_dollar(bytes: Seq<u8>, p: int) -> int
    decreases bytes.len() - p,
{
    if 0 <= p < bytes.len() && bytes[p] != 36 {
        to_dollar(bytes, p + 1)
    } else {
        p
    }
}

/// The place after a section that is read, whose contents start at `p`. Text is made of numbers,
/// so that the first dollar sign ends it.
pub open spec fn after_read(bytes: Seq<u8>, numbers: Numbers, section: Section, p: int) -> Option<
    int,
> {
    let end = end_word(section_word(section));
    let q = if numbers.binary {
        after_blanks(bytes, after_stored(bytes, numbers, section, p))
    } else {
        to_dollar(bytes, p)
    };
    if word_at(bytes, end, q) {
        Some(after_blanks(bytes, q + end.len()))
    } else {
        None
    }
}

/// The place after a section that is passed over, whose word stands at `p`: what follows the
/// first `$End` with its name.
pub open spec fn after_skipped(bytes: Seq<u8>, p: int) -> Option<int> {
    let q = after_letters(bytes, p + 1);
    if 0 <= p < bytes.len() && bytes[p] == 36 && break_at(bytes, q) {
        let end = end_word(bytes.subrange(p, q));
        match find_word(bytes, end, after_blank(bytes, q)) {
            Some(e) => Some(after_blanks(bytes, e + end.len())),
            None => None,
        }
    } else {
        None
    }
}

/// The section that is read at a place, if one is.
pub open spec fn section_at(bytes: Seq<u8>, p: int) -> Option<Section> {
    if line_at(bytes, section_word(Section::Entities), p) {
        Some(Section::Entities)
    } else if line_at(bytes, section_word(Section::Nodes), p) {
        Some(Section::Nodes)
    } else if line_at(bytes, section_word(Section::Elements), p) {
        Some(Section::Elements)
    } else {
        None
    }
}

/// The place after the section that starts at `p`, after blanks; none where no whole section
/// does.
pub open spec fn after_section(bytes: Seq<u8>, numbers: Numbers, p: int) -> Option<int> {
    let q = after_blanks(bytes, p);
    match section_at(bytes, q) {
        Some(section) => after_read(
            bytes,
            numbers,
            section,
            after_blank(bytes, q + section_word(section).len()),
        ),
        None => after_skipped(bytes, q),
    }
}

/// The second number of a section is spelled as zero.
pub open spec fn spells_no_items(bytes: Seq<u8>, p: int) -> bool {
    let blocks = after_blanks(bytes, p);
    let items = after_blanks(bytes, after_digits(bytes, blocks));
    let end = after_digits(bytes, items);
    items < end && forall|i: int| items <= i < end ==> #[trigger] bytes[i] == 48
}

/// The second word of a section is zero.
pub open spec fn stores_no_items(bytes: Seq<u8>, p: int, size: nat) -> bool {
    &&& p + 2 * size <= bytes.len()
    &&& forall|i: int| p + size <= i < p + 2 * size ==> #[trigger] bytes[i] == 0
}

/// The section that starts at `p`, after blanks, is one of nodes or elements and says that it
/// has none.
pub open spec fn counts_none(bytes: Seq<u8>, numbers: Numbers, p: int) -> bool {
    let q = after_blanks(bytes, p);
    match section_at(bytes, q) {
        Some(section) => {
            let start = after_blank(bytes, q + section_word(section).len());
            section != Section::Entities && if numbers.binary {
                stores_no_items(bytes, start, numbers.size as nat)
            } else {
                spells_no_items(bytes, start)
            }
        },
        None => false,
    }
}

/// No section of nodes or elements from `p` on says that it has none, up to where no whole
/// section follows.
pub open spec fn all_count(bytes: Seq<u8>, numbers: Numbers, p: int) -> bool
    decreases bytes.len() - p,
{
    p < bytes.len() ==> {
        &&& !counts_none(bytes, numbers, p)
        &&& match after_section(bytes, numbers, p) {
            Some(q) => p < q <= bytes.len() ==> all_count(bytes, numbers, q),
            None => true,
        }
    }
}

/// A file that can be handed to the parser: the size of its words is known, and no section of
/// nodes or elements counts none.
pub open spec fn readable(bytes: Seq<u8>) -> bool {
    &&& header_readable(bytes)
    &&& match body_place(bytes) {
        Some(p) => all_count(bytes, numbers_of(bytes), p),
        None => true,
    }
}

/// A place that was found, if it is not beyond the end.
pub open spec fn reaches(found: Option<usize>, place: int, len: nat) -> bool {
    &&& found is Some == (place <= len)
    &&& found matches Some(q) ==> q == place
}

fn skip_blanks(bytes: &[u8], p: usize) -> (q: usize)
    requires
        p <= bytes@.len(),
    ensures
        p <= q <= bytes@.len(),
        q == after_blanks(bytes@, p as int),
{
    let mut q: usize = p;
    while q < bytes.len() && (bytes[q] == 32 || bytes[q] == 9 || bytes[q] == 13 || bytes[q] == 10)
        invariant
            p <= q <= bytes@.len(),
            after_blanks(bytes@, p as int) == after_blanks(bytes@, q as int),
        decreases bytes@.len() - q,
    {
        q = q + 1;
    }
    q
}

fn skip_word(bytes: &[u8], p: usize) -> (q: usize)
    requires
        p <= bytes@.len(),
    ensures
        p <= q <= bytes@.len(),
        q == after_word(bytes@, p as int),
{
    let mut q: usize = p;
    while q < bytes.len() && !(bytes[q] == 32 || bytes[q] == 9 || bytes[q] == 13 || bytes[q] == 10)
        invariant
            p <= q <= bytes@.len(),
            after_word(bytes@, p as int) == after_word(bytes@, q as int),
        decreases bytes@.len() - q,
    {
        q = q + 1;
    }
    q
}

fn skip_digits(bytes: &[u8], p: usize) -> (q: usize)
    requires
        p <= bytes@.len(),
    ensures
        p <= q <= bytes@.len(),
        q == after_digits(bytes@, p as int),
        forall|i: int| p <= i < q ==> is_digit(#[trigger] bytes@[i]),
{
    let mut q: usize = p;
    while q < bytes.len() && 48 <= bytes[q] && bytes[q] <= 57
        invariant
            p <= q <= bytes@.len(),
            after_digits(bytes@, p as int) == after_digits(bytes@, q as int),
            forall|i: int| p <= i < q ==> is_digit(#[trigger] bytes@[i]),
        decreases bytes@.len() - q,
    {
        q = q + 1;
    }
    q
}

/// The number that digits spell, if it is at most the largest of the header.
fn number_at(bytes: &[u8], p: usize, q: usize) -> (number: Option<u32>)
    requires
        p <= q <= bytes@.len(),
        forall|i: int| p <= i < q ==> is_digit(#[trigger] bytes@[i]),
    ensures
        match number {
            Some(v) => v == spelled_number(bytes@, p as int, q as int) && v <= i32::MAX,
            None => spelled_number(bytes@, p as int, q as int) > i32::MAX,
        },
{
    let mut v: u64 = 0;
    let mut over: bool = false;
    let mut i: usize = p;
    while i < q
        invariant
            p <= i <= q <= bytes@.len(),
            forall|i: int| p <= i < q ==> is_digit(#[trigger] bytes@[i]),
            over == (spelled_number(bytes@, p as int, i as int) > i32::MAX),
            !over ==> v == spelled_number(bytes@, p as int, i as int) && v <= i32::MAX,
        decreases q - i,
    {
        proof {
            assert(is_digit(bytes@[i as int]));
        }
        if !over {
            v = 10 * v + (bytes[i] - 48) as u64;
            if v > i32::MAX as u64 {
                over = true;
            }
        }
        i = i + 1;
    }
    if over {
        None
    } else {
        Some(v as u32)
    }
}

/// The place after one blank, or the end.
fn skip_blank(bytes: &[u8], p: usize) -> (q: usize)
    requires
        p <= bytes@.len(),
    ensures
        q <= bytes@.len(),
        after_blank(bytes@, p as int) <= bytes@.len() ==> q == after_blank(bytes@, p as int),
        after_blank(bytes@, p as int) > bytes@.len() ==> q == bytes@.len(),
{
    if p < bytes.len() && bytes[p] == 13 {
        if bytes.len() - p >= 2 {
            p + 2
        } else {
            bytes.len()
        }
    } else if p < bytes.len() {
        p + 1
    } else {
        p
    }
}

/// Beyond the end nothing is skipped, and no number is spelled.
proof fn lemma_beyond(bytes: Seq<u8>, p: int)
    requires
        p >= bytes.len(),
    ensures
        after_word(bytes, p) == p,
        after_digits(bytes, p) == p,
        after_blanks(bytes, p) == p,
        spelled_number(bytes, p, p) == 0,
{
}

/// The number at a place, and the place after it. Places beyond the end count as the end.
fn header_number(bytes: &[u8], p: usize, Ghost(at): Ghost<int>) -> (found: (Option<u32>, usize))
    requires
        p <= bytes@.len(),
        at <= bytes@.len() ==> p == at,
        at > bytes@.len() ==> p == bytes@.len(),
        at >= 0,
    ensures
        match found.0 {
            Some(v) => v == spelled_number(bytes@, at, after_digits(bytes@, at)) && v <= i32::MAX,
            None => spelled_number(bytes@, at, after_digits(bytes@, at)) > i32::MAX,
        },
        found.1 <= bytes@.len(),
        after_digits(bytes@, at) <= bytes@.len() ==> found.1 == after_digits(bytes@, at),
        after_digits(bytes@, at) > bytes@.len() ==> found.1 == bytes@.len(),
        after_digits(bytes@, at) >= 0,
{
    let q = skip_digits(bytes, p);
    let number = number_at(bytes, p, q);
    proof {
        if at >= bytes@.len() {
            lemma_beyond(bytes@, at);
            lemma_beyond(bytes@, bytes@.len() as int);
        }
    }
    (number, q)
}

/// All bytes in a range are equal to a given one.
fn all_are(bytes: &[u8], from: usize, to: usize, value: u8) -> (same: bool)
    requires
        from <= to <= bytes@.len(),
    ensures
        same == forall|i: int| from <= i < to ==> #[trigger] bytes@[i] == value,
{
    let mut i: usize = from;
    while i < to
        invariant
            from <= i <= to <= bytes@.len(),
            forall|j: int| from <= j < i ==> #[trigger] bytes@[j] == value,
        decreases to - i,
    {
        if bytes[i] != value {
            proof {
                assert(bytes@[i as int] != value);
            }
            return false;
        }
        i = i + 1;
    }
    true
}

/// A word stands at a place of a file.
fn stands(bytes: &[u8], word: &[u8], p: usize) -> (found: bool)
    requires
        p <= bytes@.len(),
    ensures
        found == word_at(bytes@, word@, p as int),
{
    let n: usize = bytes.len();
    if n - p < word.len() {
        return false;
    }
    let mut i: usize = 0;
    while i < word.len()
        invariant
            i <= word@.len(),
            n == bytes@.len(),
            p + word@.len() <= n,
            forall|j: int| 0 <= j < i ==> bytes@[p + j] == #[trigger] word@[j],
        decreases word@.len() - i,
    {
        if bytes[p + i] != word[i] {
            proof {
                assert(bytes@[p + i as int] != word@[i as int]);
            }
            return false;
        }
        i = i + 1;
    }
    true
}

fn breaks(bytes: &[u8], p: usize) -> (found: bool)
    requires
        p <= bytes@.len(),
    ensures
        found == break_at(bytes@, p as int),
{
    let n: usize = bytes.len();
    p < n && (bytes[p] == 10 || (n - p >= 2 && bytes[p] == 13 && bytes[p + 1] == 10))
}

/// The start of the line after a word that ends its line, where one stands.
fn after_line(bytes: &[u8], word: &[u8], p: usize) -> (start: Option<usize>)
    requires
        p <= bytes@.len(),
    ensures
        start is Some == line_at(bytes@, word@, p as int),
        start matches Some(q) ==> p + word@.len() < q <= bytes@.len() && q == after_blank(
            bytes@,
            p + word@.len(),
        ),
{
    let n: usize = bytes.len();
    if stands(bytes, word, p) && breaks(bytes, p + word.len()) {
        Some(skip_blank(bytes, p + word.len()))
    } else {
        None
    }
}

fn first_word(bytes: &[u8], word: &[u8], p: usize) -> (found: Option<usize>)
    requires
        p <= bytes@.len(),
    ensures
        match found {
            Some(q) => find_word(bytes@, word@, p as int) == Some(q as int) && p <= q && q
                + word@.len() <= bytes@.len(),
            None => find_word(bytes@, word@, p as int) is None,
        },
{
    let mut q: usize = p;
    while q < bytes.len()
        invariant
            p <= q <= bytes@.len(),
            find_word(bytes@, word@, p as int) == find_word(bytes@, word@, q as int),
        decreases bytes@.len() - q,
    {
        if stands(bytes, word, q) {
            return Some(q);
        }
        q = q + 1;
    }
    None
}

/// The place after the header.
fn body_of(bytes: &[u8]) -> (body: Option<usize>)
    ensures
        match body {
            Some(p) => body_place(bytes@) == Some(p as int) && p <= bytes@.len(),
            None => body_place(bytes@) is None,
        },
{
    let end: [u8; 14] = [36, 69, 110, 100, 77, 101, 115, 104, 70, 111, 114, 109, 97, 116];
    let n: usize = bytes.len();
    let start: usize = if n < 11 {
        n
    } else {
        11
    };
    let ghost from = after_blank(bytes@, format_word().len() as int);
    let mut p: usize = skip_blank(bytes, start);
    proof {
        assert(end@ =~= format_end());
    }
    while p < bytes.len()
        invariant
            p <= bytes@.len(),
            end@ == format_end(),
            find_line(bytes@, format_end(), from) == find_line(bytes@, format_end(), p as int),
            body_place(bytes@) == match find_line(bytes@, format_end(), from) {
                Some(q) => Some(after_blank(bytes@, q + format_end().len())),
                None => None,
            },
        decreases bytes@.len() - p,
    {
        let after = after_line(bytes, end.as_slice(), p);
        if after.is_some() {
            return after;
        }
        p = p + 1;
    }
    None
}

/// The number that bytes store, if it is at most `most`.
fn number_stored(bytes: &[u8], p: usize, size: usize, big: bool, most: usize) -> (number: Option<
    usize,
>)
    requires
        p + size <= bytes@.len(),
    ensures
        reaches(number, stored_number(bytes@, p as int, size as nat, big) as int, most as nat),
{
    let n: usize = bytes.len();
    let cap: u128 = most as u128;
    let mut v: u128 = 0;
    let mut over: bool = false;
    let mut i: usize = 0;
    while i < size
        invariant
            i <= size,
            p + size <= bytes@.len(),
            n == bytes@.len(),
            cap == most,
            ({
                let so_far = if big {
                    stored_number(bytes@, p as int, i as nat, big)
                } else {
                    stored_number(bytes@, p + size - i, i as nat, big)
                };
                over == (so_far > cap) && (!over ==> v == so_far)
            }),
            !over ==> v <= cap,
        decreases size - i,
    {
        let b: u8 = if big {
            bytes[p + i]
        } else {
            bytes[p + (size - 1 - i)]
        };
        if !over {
            v = 256 * v + b as u128;
            over = v > cap;
        }
        i = i + 1;
    }
    if over {
        None
    } else {
        Some(v as usize)
    }
}

/// How the numbers of a file are written; none where their size is not known.
fn header_of(bytes: &[u8]) -> (header: Option<Numbers>)
    ensures
        header is Some == header_readable(bytes@),
        header matches Some(numbers) ==> numbers == numbers_of(bytes@),
{
    let n: usize = bytes.len();
    let ghost version = after_blank(bytes@, format_word().len() as int);
    let start: usize = if n < 11 {
        n
    } else {
        11
    };
    let v: usize = skip_blank(bytes, start);
    proof {
        if n < 11 {
            lemma_beyond(bytes@, 11);
        }
    }
    let e: usize = skip_word(bytes, v);
    let ghost word_end = after_word(bytes@, version);
    proof {
        if version >= n {
            lemma_beyond(bytes@, version);
            lemma_beyond(bytes@, n as int);
        }
    }
    let k: usize = skip_blank(bytes, e);
    let ghost kind = after_blank(bytes@, word_end);
    let (file_type, after_kind) = header_number(bytes, k, Ghost(kind));
    let s: usize = skip_blank(bytes, after_kind);
    let ghost size_at = after_blank(bytes@, after_digits(bytes@, kind));
    let (size, after_size) = header_number(bytes, s, Ghost(size_at));
    let one: usize = skip_blank(bytes, after_size);
    let ghost one_at = after_blank(bytes@, after_digits(bytes@, size_at));
    let binary = match file_type {
        Some(t) => t == 1,
        None => false,
    };
    let mut big: bool = false;
    if n - one >= 4 {
        let mark: Option<usize> = number_stored(bytes, one, 4, true, 1);
        big = match mark {
            Some(m) => m == 1,
            None => false,
        };
        proof {
            assert(one == one_at);
        }
    } else {
        proof {
            assert(one_at + 4 > n);
        }
    }
    match size {
        Some(size) => if binary && !(size == 1 || size == 2 || size == 4 || size == 8 || size
            == 16) {
            None
        } else {
            Some(Numbers { binary, big, size: size as usize })
        },
        None => None,
    }
}

/// Numbers of a binary file, of a size that is known.
pub open spec fn is_binary(numbers: Numbers) -> bool {
    numbers.binary && 1 <= numbers.size <= 16
}

proof fn lemma_counted_grows(bytes: Seq<u8>, numbers: Numbers, p: int, width: int)
    requires
        is_binary(numbers),
        width >= 1,
    ensures
        after_counted(bytes, numbers, p, width) > p,
{
    let count = stored_number(bytes, p, numbers.size as nat, numbers.big) as int;
    assert(count * width >= 0) by (nonlinear_arith)
        requires
            count >= 0,
            width >= 1,
    ;
}

fn skip_counted(bytes: &[u8], numbers: Numbers, p: usize, width: usize) -> (q: Option<usize>)
    requires
        p <= bytes@.len(),
        is_binary(numbers),
        width >= 1,
    ensures
        reaches(q, after_counted(bytes@, numbers, p as int, width as int), bytes@.len()),
{
    let n: usize = bytes.len();
    if n - p < numbers.size {
        return None;
    }
    let ghost count_here = stored_number(bytes@, p as int, numbers.size as nat, numbers.big) as int;
    match number_stored(bytes, p, numbers.size, numbers.big, n) {
        Some(count) => match count.checked_mul(width) {
            Some(space) => {
                let start: usize = p + numbers.size;
                if space <= n - start {
                    Some(start + space)
                } else {
                    None
                }
            },
            None => None,
        },
        None => {
            proof {
                assert(count_here * width >= count_here) by (nonlinear_arith)
                    requires
                        count_here >= 0,
                        width >= 1,
                ;
            }
            None
        },
    }
}

fn skip_elements(bytes: &[u8], numbers: Numbers, p: usize) -> (q: Option<usize>)
    requires
        4 <= p <= bytes@.len(),
        is_binary(numbers),
    ensures
        reaches(q, after_elements(bytes@, numbers, p as int), bytes@.len()),
{
    let element_type: usize = match number_stored(bytes, p - 4, 4, numbers.big, 140) {
        Some(element_type) => element_type,
        None => return None,
    };
    let nodes: u16 = TYPE_NODES[element_type];
    if nodes == 0 {
        return None;
    }
    proof {
        let (count, size) = (1 + nodes, numbers.size as int);
        assert(1 <= count * size <= 1048576) by (nonlinear_arith)
            requires
                1 <= count <= 65536,
                1 <= size <= 16,
        ;
    }
    let width: usize = (1 + nodes as usize) * numbers.size;
    skip_counted(bytes, numbers, p, width)
}

fn skip_part(bytes: &[u8], numbers: Numbers, part: Part, p: usize) -> (q: Option<usize>)
    requires
        p <= bytes@.len(),
        is_binary(numbers),
    ensures
        reaches(q, after_part(bytes@, numbers, part, p as int), bytes@.len()),
{
    let n: usize = bytes.len();
    let fixed: usize = match part {
        Part::Point => 28,
        Part::Shape => 52,
        Part::NodeBlock => 12,
        Part::ElementBlock => 12,
    };
    if n - p < fixed {
        proof {
            lemma_part_grows(bytes@, numbers, part, p as int);
        }
        return None;
    }
    let q: usize = p + fixed;
    match part {
        Part::Point => skip_counted(bytes, numbers, q, 4),
        Part::Shape => {
            match skip_counted(bytes, numbers, q, 4) {
                Some(r) => skip_counted(bytes, numbers, r, 4),
                None => {
                    proof {
                        let r = after_counted(bytes@, numbers, q as int, 4);
                        lemma_counted_grows(bytes@, numbers, r, 4);
                    }
                    None
                },
            }
        },
        Part::NodeBlock => skip_counted(bytes, numbers, q, numbers.size + 24),
        Part::ElementBlock => skip_elements(bytes, numbers, q),
    }
}

/// A part lies beyond its fixed numbers.
proof fn lemma_part_grows(bytes: Seq<u8>, numbers: Numbers, part: Part, p: int)
    requires
        is_binary(numbers),
    ensures
        p <= bytes.len() ==> after_part(bytes, numbers, part, p) > p,
        part == Part::Point ==> after_part(bytes, numbers, part, p) > p + 28,
        part == Part::Shape ==> after_part(bytes, numbers, part, p) > p + 52,
        part == Part::NodeBlock ==> after_part(bytes, numbers, part, p) > p + 12,
        part == Part::ElementBlock && p + 12 > bytes.len() ==> after_part(bytes, numbers, part, p)
            == p + 12,
{
    match part {
        Part::Point => lemma_counted_grows(bytes, numbers, p + 28, 4),
        Part::Shape => {
            lemma_counted_grows(bytes, numbers, p + 52, 4);
            lemma_counted_grows(bytes, numbers, after_counted(bytes, numbers, p + 52, 4), 4);
        },
        Part::NodeBlock => lemma_counted_grows(bytes, numbers, p + 12, numbers.size + 24),
        Part::ElementBlock => {
            let element_type = stored_number(bytes, p + 8, 4, numbers.big);
            if p + 12 <= bytes.len() && element_type <= 140 {
                let nodes = TYPE_NODES@[element_type as int] as int;
                let size = numbers.size as int;
                assert((1 + nodes) * size >= 1) by (nonlinear_arith)
                    requires
                        nodes >= 0,
                        size >= 1,
                ;
                lemma_counted_grows(bytes, numbers, p + 12, (1 + nodes) * size);
            }
        },
    }
}

/// As many parts as there are bytes do not fit.
proof fn lemma_parts_grow(bytes: Seq<u8>, numbers: Numbers, part: Part, p: int, count: nat)
    requires
        is_binary(numbers),
    ensures
        after_parts(bytes, numbers, part, p, count) >= p + count || after_parts(
            bytes,
            numbers,
            part,
            p,
            count,
        ) > bytes.len(),
    decreases count,
{
    if count > 0 && p <= bytes.len() {
        lemma_part_grows(bytes, numbers, part, p);
        lemma_parts_grow(
            bytes,
            numbers,
            part,
            after_part(bytes, numbers, part, p),
            (count - 1) as nat,
        );
    }
}

/// The place after the parts that a stored count tells.
fn skip_parts(
    bytes: &[u8],
    numbers: Numbers,
    part: Part,
    p: usize,
    count_at: usize,
) -> (q: Option<usize>)
    requires
        p <= bytes@.len(),
        count_at + numbers.size <= bytes@.len(),
        is_binary(numbers),
    ensures
        reaches(
            q,
            after_parts(
                bytes@,
                numbers,
                part,
                p as int,
                stored_number(bytes@, count_at as int, numbers.size as nat, numbers.big),
            ),
            bytes@.len(),
        ),
{
    let n: usize = bytes.len();
    let ghost all = stored_number(bytes@, count_at as int, numbers.size as nat, numbers.big);
    let count: usize = match number_stored(bytes, count_at, numbers.size, numbers.big, n) {
        Some(count) => count,
        None => {
            proof {
                lemma_parts_grow(bytes@, numbers, part, p as int, all);
            }
            return None;
        },
    };
    let mut q: usize = p;
    let mut left: usize = count;
    while left > 0
        invariant
            q <= bytes@.len(),
            is_binary(numbers),
            all == stored_number(bytes@, count_at as int, numbers.size as nat, numbers.big),
            after_parts(bytes@, numbers, part, p as int, all) == after_parts(
                bytes@,
                numbers,
                part,
                q as int,
                left as nat,
            ),
        decreases left,
    {
        match skip_part(bytes, numbers, part, q) {
            Some(next) => {
                q = next;
                left = left - 1;
            },
            None => {
                proof {
                    lemma_parts_grow(
                        bytes@,
                        numbers,
                        part,
                        after_part(bytes@, numbers, part, q as int),
                        (left - 1) as nat,
                    );
                }
                return None;
            },
        }
    }
    Some(q)
}

/// The place after what a binary section holds.
fn skip_stored(bytes: &[u8], numbers: Numbers, section: Section, p: usize) -> (q: Option<usize>)
    requires
        p <= bytes@.len(),
        is_binary(numbers),
    ensures
        reaches(q, after_stored(bytes@, numbers, section, p as int), bytes@.len()),
{
    let s: usize = numbers.size;
    let four: usize = 4 * s;
    if bytes.len() - p < four {
        return None;
    }
    let q: usize = p + four;
    match section {
        Section::Entities => {
            let points: usize = match skip_parts(bytes, numbers, Part::Point, q, p) {
                Some(points) => points,
                None => return None,
            };
            let curves: usize = match skip_parts(bytes, numbers, Part::Shape, points, p + s) {
                Some(curves) => curves,
                None => return None,
            };
            let surfaces: usize = match skip_parts(bytes, numbers, Part::Shape, curves, p + 2 * s) {
                Some(surfaces) => surfaces,
                None => return None,
            };
            skip_parts(bytes, numbers, Part::Shape, surfaces, p + 3 * s)
        },
        Section::Nodes => skip_parts(bytes, numbers, Part::NodeBlock, q, p),
        Section::Elements => skip_parts(bytes, numbers, Part::ElementBlock, q, p),
    }
}

fn skip_to_dollar(bytes: &[u8], p: usize) -> (q: usize)
    requires
        p <= bytes@.len(),
    ensures
        p <= q <= bytes@.len(),
        q == to_dollar(bytes@, p as int),
{
    let mut q: usize = p;
    while q < bytes.len() && bytes[q] != 36
        invariant
            p <= q <= bytes@.len(),
            to_dollar(bytes@, p as int) == to_dollar(bytes@, q as int),
        decreases bytes@.len() - q,
    {
        q = q + 1;
    }
    q
}

fn skip_letters(bytes: &[u8], p: usize) -> (q: usize)
    requires
        p <= bytes@.len(),
    ensures
        p <= q <= bytes@.len(),
        q == after_letters(bytes@, p as int),
{
    let mut q: usize = p;
    while q < bytes.len() && ((65 <= bytes[q] && bytes[q] <= 90) || (97 <= bytes[q] && bytes[q]
        <= 122))
        invariant
            p <= q <= bytes@.len(),
            after_letters(bytes@, p as int) == after_letters(bytes@, q as int),
        decreases bytes@.len() - q,
    {
        q = q + 1;
    }
    q
}

/// The word of a section.
fn word_of(section: Section) -> (word: Vec<u8>)
    ensures
        word@ == section_word(section),
{
    match section {
        Section::Entities => vec![36, 69, 110, 116, 105, 116, 105, 101, 115],
        Section::Nodes => vec![36, 78, 111, 100, 101, 115],
        Section::Elements => vec![36, 69, 108, 101, 109, 101, 110, 116, 115],
    }
}

/// The word that ends a section whose word takes a range of the bytes.
fn end_of(bytes: &[u8], p: usize, q: usize) -> (end: Vec<u8>)
    requires
        p < q <= bytes@.len(),
    ensures
        end@ == end_word(bytes@.subrange(p as int, q as int)),
{
    let mut end: Vec<u8> = vec![36, 69, 110, 100];
    let mut i: usize = p + 1;
    while i < q
        invariant
            p < i <= q <= bytes@.len(),
            end@ =~= end_word(bytes@.subrange(p as int, i as int)),
        decreases q - i,
    {
        end.push(bytes[i]);
        i = i + 1;
    }
    end
}

/// The section that is read at a place, and where its contents start.
fn section_here(bytes: &[u8], p: usize) -> (found: Option<(Section, usize)>)
    requires
        p <= bytes@.len(),
    ensures
        match found {
            Some((section, start)) => section_at(bytes@, p as int) == Some(section) && start
                == after_blank(bytes@, p + section_word(section).len()) && start <= bytes@.len(),
            None => section_at(bytes@, p as int) is None,
        },
{
    match after_line(bytes, word_of(Section::Entities).as_slice(), p) {
        Some(start) => return Some((Section::Entities, start)),
        None => {},
    }
    match after_line(bytes, word_of(Section::Nodes).as_slice(), p) {
        Some(start) => return Some((Section::Nodes, start)),
        None => {},
    }
    match after_line(bytes, word_of(Section::Elements).as_slice(), p) {
        Some(start) => Some((Section::Elements, start)),
        None => None,
    }
}

/// What was found is the place that is named, if one is, and lies within the file.
pub open spec fn is_place(found: Option<usize>, place: Option<int>, len: nat) -> bool {
    match found {
        Some(q) => place == Some(q as int) && q <= len,
        None => place is None,
    }
}

/// The place after a section that is read.
fn skip_read(bytes: &[u8], numbers: Numbers, section: Section, p: usize) -> (q: Option<usize>)
    requires
        p <= bytes@.len(),
        numbers.binary ==> is_binary(numbers),
    ensures
        is_place(q, after_read(bytes@, numbers, section, p as int), bytes@.len()),
{
    let n: usize = bytes.len();
    let word = word_of(section);
    let end = end_of(word.as_slice(), 0, word.len());
    proof {
        assert(word@.subrange(0, word@.len() as int) =~= word@);
    }
    let q: usize = if numbers.binary {
        match skip_stored(bytes, numbers, section, p) {
            Some(e) => skip_blanks(bytes, e),
            None => {
                proof {
                    lemma_beyond(
                        bytes@,
                        after_stored(bytes@, numbers, section, p as int),
                    );
                }
                return None;
            },
        }
    } else {
        skip_to_dollar(bytes, p)
    };
    if stands(bytes, end.as_slice(), q) {
        Some(skip_blanks(bytes, q + end.len()))
    } else {
        None
    }
}

/// The place after a section that is passed over.
fn skip_skipped(bytes: &[u8], p: usize) -> (q: Option<usize>)
    requires
        p <= bytes@.len(),
    ensures
        is_place(q, after_skipped(bytes@, p as int), bytes@.len()),
{
    if p >= bytes.len() || bytes[p] != 36 {
        return None;
    }
    let q: usize = skip_letters(bytes, p + 1);
    if !breaks(bytes, q) {
        return None;
    }
    let end = end_of(bytes, p, q);
    let start: usize = skip_blank(bytes, q);
    match first_word(bytes, end.as_slice(), start) {
        Some(e) => Some(skip_blanks(bytes, e + end.len())),
        None => None,
    }
}

/// Whether a section at a place says that it has no items.
fn no_items(bytes: &[u8], numbers: Numbers, start: usize) -> (none: bool)
    requires
        start <= bytes@.len(),
        numbers.binary ==> is_binary(numbers),
    ensures
        none == if numbers.binary {
            stores_no_items(bytes@, start as int, numbers.size as nat)
        } else {
            spells_no_items(bytes@, start as int)
        },
{
    if numbers.binary {
        let width: usize = 2 * numbers.size;
        if bytes.len() - start < width {
            return false;
        }
        all_are(bytes, start + numbers.size, start + width, 0)
    } else {
        let blocks = skip_blanks(bytes, start);
        let after = skip_digits(bytes, blocks);
        let items = skip_blanks(bytes, after);
        let stop = skip_digits(bytes, items);
        items < stop && all_are(bytes, items, stop, 48)
    }
}

/// Whether a file can be handed to the parser.
pub(crate) fn is_readable(bytes: &[u8]) -> (yes: bool)
    ensures
        yes == readable(bytes@),
{
    let numbers: Numbers = match header_of(bytes) {
        Some(numbers) => numbers,
        None => return false,
    };
    let mut p: usize = match body_of(bytes) {
        Some(p) => p,
        None => return true,
    };
    while p < bytes.len()
        invariant
            p <= bytes@.len(),
            numbers.binary ==> is_binary(numbers),
            readable(bytes@) == all_count(bytes@, numbers, p as int),
        decreases bytes@.len() - p,
    {
        let q: usize = skip_blanks(bytes, p);
        let next: Option<usize> = match section_here(bytes, q) {
            Some((section, start)) => {
                let counted = match section {
                    Section::Entities => false,
                    _ => true,
                };
                if counted && no_items(bytes, numbers, start) {
                    return false;
                }
                skip_read(bytes, numbers, section, start)
            },
            None => skip_skipped(bytes, q),
        };
        match next {
            Some(after) => {
                if after <= p {
                    return true;
                }
                p = after;
            },
            None => return true,
        }
    }
    true
}

} // verus!
