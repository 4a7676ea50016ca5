//! Which bytes are handed to the decoder.
//!
//! The decoder does not return on every input, or not in any time that one
//! can wait for: it descends into nested arrays and dictionaries by
//! recursion, it decodes a container of the binary encoding anew for every
//! reference that reaches it, and it fails on a date that lies before the
//! year 0 or that leaves the years 0 to 9999 when it is moved to UTC.
//! [`admissible`] leaves such bytes out, by what can be told from the bytes
//! without decoding them, and so leaves out some harmless bytes too.

use vstd::prelude::*;

verus! {

/// How deep arrays and dictionaries may nest at most: a depth at which the
/// decoder's recursion takes a small part of a thread's stack.
pub const MAX_NESTING: u64 = 128;

/// The bits of the double that counts, in seconds before the year 2001, the
/// first instant of the year 0.
pub const EARLIEST_DATE: u64 = 0xc22d_6788_8900_0000;

/// The bytes begin with the eight bytes that mark the binary encoding.
pub open spec fn is_binary(bytes: Seq<u8>) -> bool {
    &&& bytes.len() >= 8
    &&& bytes[0] == 0x62
    &&& bytes[1] == 0x70
    &&& bytes[2] == 0x6c
    &&& bytes[3] == 0x69
    &&& bytes[4] == 0x73
    &&& bytes[5] == 0x74
    &&& bytes[6] == 0x30
    &&& bytes[7] == 0x30
}

/// The four bytes from `at` on spell `dict`.
pub open spec fn dict_at(bytes: Seq<u8>, at: int) -> bool {
    &&& 0 <= at && at + 4 <= bytes.len()
    &&& bytes[at] == 0x64
    &&& bytes[at + 1] == 0x69
    &&& bytes[at + 2] == 0x63
    &&& bytes[at + 3] == 0x74
}

/// The five bytes from `at` on spell `array`.
pub open spec fn array_at(bytes: Seq<u8>, at: int) -> bool {
    &&& 0 <= at && at + 5 <= bytes.len()
    &&& bytes[at] == 0x61
    &&& bytes[at + 1] == 0x72
    &&& bytes[at + 2] == 0x72
    &&& bytes[at + 3] == 0x61
    &&& bytes[at + 4] == 0x79
}

/// The word `dict` or `array` stands at `at`, and no `/` stands before it:
/// the name of a start tag of the XML encoding that opens a container ends
/// so, whatever prefix it has.
pub open spec fn names_container_at(bytes: Seq<u8>, at: int) -> bool {
    (dict_at(bytes, at) || array_at(bytes, at)) && !(at > 0 && bytes[at - 1] == 0x2f)
}

/// The word at `at` is closed at once by `/>`: the tag opens a container and
/// closes it again.
pub open spec fn empties_at(bytes: Seq<u8>, at: int) -> bool {
    let after = if dict_at(bytes, at) {
        at + 4
    } else {
        at + 5
    };
    after + 2 <= bytes.len() && bytes[after] == 0x2f && bytes[after + 1] == 0x3e
}

/// The end tag `</dict>` or `</array>` stands at `at`, spelled just so.
pub open spec fn closes_at(bytes: Seq<u8>, at: int) -> bool {
    &&& 0 <= at && at + 2 <= bytes.len()
    &&& bytes[at] == 0x3c
    &&& bytes[at + 1] == 0x2f
    &&& {
        ||| dict_at(bytes, at + 2) && at + 7 <= bytes.len() && bytes[at + 6] == 0x3e
        ||| array_at(bytes, at + 2) && at + 8 <= bytes.len() && bytes[at + 7] == 0x3e
    }
}

/// A comment, a section of character data, a processing instruction or a
/// declaration begins at `at`: `<!` or `<?`.
pub open spec fn hides_at(bytes: Seq<u8>, at: int) -> bool {
    &&& 0 <= at && at + 2 <= bytes.len()
    &&& bytes[at] == 0x3c
    &&& (bytes[at + 1] == 0x21 || bytes[at + 1] == 0x3f)
}

/// What is known of a text after some of its bytes.
pub struct Scan {
    /// No more containers of the XML encoding are open than this.
    pub depth: nat,
    /// No more of them were open at any time than this.
    pub peak: nat,
    /// How often `(` or `{` stood, which open the containers of the ASCII
    /// encoding.
    pub marks: nat,
    /// A container of the XML encoding may have been opened.
    pub opened: bool,
    /// A `<` stood and no `>` after it.
    pub in_tag: bool,
    /// An end tag can no longer be trusted to be one.
    pub counting: bool,
}

/// What is known after the byte at `at`, from what was known before it.
///
/// A start tag of a container adds to the depth, wherever its name may
/// stand. An end tag takes from it only where it is surely one: since the
/// first container there was no quote, no `<!` or `<?` and no `<` inside a
/// tag, so that every `<` outside a tag begins a tag and every `>` ends one.
/// Before the first container nothing is open, and the depth cannot fall
/// below that.
pub open spec fn step(bytes: Seq<u8>, at: int, before: Scan) -> Scan {
    let byte = bytes[at];
    let names = names_container_at(bytes, at);
    let less = byte == 0x3c;
    let counting = before.counting || (before.opened && (byte == 0x22 || byte == 0x27 || hides_at(
        bytes,
        at,
    ) || (less && before.in_tag)));
    Scan {
        depth: if names && !empties_at(bytes, at) {
            before.depth + 1
        } else if closes_at(bytes, at) && !counting && !before.in_tag && before.depth > 0 {
            (before.depth - 1) as nat
        } else {
            before.depth
        },
        peak: if names && before.depth + 1 > before.peak {
            before.depth + 1
        } else {
            before.peak
        },
        marks: if byte == 0x28 || byte == 0x7b {
            before.marks + 1
        } else {
            before.marks
        },
        opened: before.opened || names,
        in_tag: if less {
            true
        } else if byte == 0x3e {
            false
        } else {
            before.in_tag
        },
        counting,
    }
}

/// What is known of a text after its first `upto` bytes.
pub open spec fn scan(bytes: Seq<u8>, upto: int) -> Scan
    decreases upto,
{
    if upto <= 0 {
        Scan { depth: 0, peak: 0, marks: 0, opened: false, in_tag: false, counting: false }
    } else {
        step(bytes, upto - 1, scan(bytes, upto - 1))
    }
}

/// The name of a start tag that ends in `date` may begin at `at`: `<` or
/// `:` stands there, and the word `date` follows.
pub open spec fn date_tag_at(bytes: Seq<u8>, at: int) -> bool {
    &&& 0 <= at && at + 5 <= bytes.len()
    &&& (bytes[at] == 0x3c || bytes[at] == 0x3a)
    &&& bytes[at + 1] == 0x64
    &&& bytes[at + 2] == 0x61
    &&& bytes[at + 3] == 0x74
    &&& bytes[at + 4] == 0x65
}

/// The byte is a decimal digit.
pub open spec fn is_digit(byte: u8) -> bool {
    0x30 <= byte <= 0x39
}

/// The byte is white space: a blank, a tab or the end of a line.
pub open spec fn is_space(byte: u8) -> bool {
    byte == 0x20 || byte == 0x09 || byte == 0x0a || byte == 0x0d
}

/// The first place from `at` on at which no white space stands.
pub open spec fn after_spaces(bytes: Seq<u8>, at: int) -> int
    decreases bytes.len() - at,
{
    if 0 <= at < bytes.len() && is_space(bytes[at]) {
        after_spaces(bytes, at + 1)
    } else {
        at
    }
}

/// Four digits stand at `at` that spell a year from 1 to 9998: whatever
/// offset from UTC the date has, it lies within the years 0 to 9999 in UTC.
pub open spec fn inner_year_at(bytes: Seq<u8>, at: int) -> bool {
    &&& 0 <= at && at + 4 <= bytes.len()
    &&& is_digit(bytes[at]) && is_digit(bytes[at + 1]) && is_digit(bytes[at + 2]) && is_digit(
        bytes[at + 3],
    )
    &&& !(bytes[at] == 0x30 && bytes[at + 1] == 0x30 && bytes[at + 2] == 0x30 && bytes[at + 3]
        == 0x30)
    &&& !(bytes[at] == 0x39 && bytes[at + 1] == 0x39 && bytes[at + 2] == 0x39 && bytes[at + 3]
        == 0x39)
}

/// The twenty bytes from `at` on have the form `0000-00-00T00:00:00Z`,
/// with any digit for a `0`, and no more than 5 for the first digit of the
/// seconds.
pub open spec fn utc_date_at(bytes: Seq<u8>, at: int) -> bool {
    &&& 0 <= at && at + 20 <= bytes.len()
    &&& is_digit(bytes[at]) && is_digit(bytes[at + 1]) && is_digit(bytes[at + 2]) && is_digit(
        bytes[at + 3],
    )
    &&& bytes[at + 4] == 0x2d
    &&& is_digit(bytes[at + 5]) && is_digit(bytes[at + 6])
    &&& bytes[at + 7] == 0x2d
    &&& is_digit(bytes[at + 8]) && is_digit(bytes[at + 9])
    &&& bytes[at + 10] == 0x54
    &&& is_digit(bytes[at + 11]) && is_digit(bytes[at + 12])
    &&& bytes[at + 13] == 0x3a
    &&& is_digit(bytes[at + 14]) && is_digit(bytes[at + 15])
    &&& bytes[at + 16] == 0x3a
    &&& is_digit(bytes[at + 17]) && bytes[at + 17] <= 0x35 && is_digit(bytes[at + 18])
    &&& bytes[at + 19] == 0x5a
}

/// The tag that begins at `at` is closed after white space at most, and its
/// text begins with a year from 1 to 9998, or it is a date in UTC of the
/// plain form and an end tag follows it at once. What the decoder reads as
/// the year are the first four characters of the text.
pub open spec fn plain_date_at(bytes: Seq<u8>, at: int) -> bool {
    let close = after_spaces(bytes, at + 5);
    &&& 0 <= at && close < bytes.len()
    &&& bytes[close] == 0x3e
    &&& {
        ||| inner_year_at(bytes, close + 1)
        ||| {
            &&& close + 23 <= bytes.len()
            &&& utc_date_at(bytes, close + 1)
            &&& bytes[close + 21] == 0x3c
            &&& bytes[close + 22] == 0x2f
        }
    }
}

/// Bytes in a text encoding may be decoded: no more than [`MAX_NESTING`]
/// containers of the XML encoding are ever open, `(` and `{` stand no more
/// often than that, and wherever the name of a date's start tag may begin,
/// a date stands that stays within the years 0 to 9999.
pub open spec fn text_admissible(bytes: Seq<u8>) -> bool {
    &&& scan(bytes, bytes.len() as int).peak <= MAX_NESTING
    &&& scan(bytes, bytes.len() as int).marks <= MAX_NESTING
    &&& forall|at: int|
        0 <= at < bytes.len() && #[trigger] date_tag_at(bytes, at) ==> plain_date_at(bytes, at)
}

/// The number that the `size` bytes from `at` on spell, the first byte
/// counting most, for the sizes that the binary encoding knows.
pub open spec fn big_endian(bytes: Seq<u8>, at: int, size: int) -> int {
    if size == 1 {
        bytes[at] as int
    } else if size == 2 {
        bytes[at] * 0x100 + bytes[at + 1]
    } else if size == 3 {
        bytes[at] * 0x1_0000 + bytes[at + 1] * 0x100 + bytes[at + 2]
    } else if size == 4 {
        bytes[at] * 0x100_0000 + bytes[at + 1] * 0x1_0000 + bytes[at + 2] * 0x100 + bytes[at + 3]
    } else if size == 8 {
        bytes[at] * 0x100_0000_0000_0000 + bytes[at + 1] * 0x1_0000_0000_0000 + bytes[at + 2]
            * 0x100_0000_0000 + bytes[at + 3] * 0x1_0000_0000 + bytes[at + 4] * 0x100_0000
            + bytes[at + 5] * 0x1_0000 + bytes[at + 6] * 0x100 + bytes[at + 7]
    } else {
        0
    }
}

/// The size is one in which the binary encoding writes the offset of an
/// object.
pub open spec fn is_offset_size(size: int) -> bool {
    size == 1 || size == 2 || size == 3 || size == 4 || size == 8
}

/// Where the trailer of the binary encoding begins: 32 bytes before the end.
pub open spec fn trailer_start(bytes: Seq<u8>) -> int {
    bytes.len() - 32
}

/// The object at `offset` is an array or a dictionary: it lies before the
/// trailer, and the upper half of its first byte is 0xA or 0xD.
pub open spec fn container_at(bytes: Seq<u8>, offset: int) -> bool {
    &&& 0 <= offset < trailer_start(bytes)
    &&& (bytes[offset] / 16 == 0xa || bytes[offset] / 16 == 0xd)
}

/// The object at `offset` is a date before the year 0: its first byte is
/// 0x33, and the eight bytes after it, read as a double, are below the
/// seconds from the first instant of the year 0 to that of the year 2001,
/// taken negative. Among doubles with the sign set, the one with the greater
/// bits is the smaller number.
pub open spec fn early_date_at(bytes: Seq<u8>, offset: int) -> bool {
    &&& 0 <= offset < trailer_start(bytes)
    &&& bytes[offset] == 0x33
    &&& big_endian(bytes, offset + 1, 8) > EARLIEST_DATE
}

/// The `count` numbers of `size` bytes each that stand from `at` on, if all
/// of them lie before the trailer. The offset table is such a list, and so
/// are the references that a container holds.
pub open spec fn table_of(bytes: Seq<u8>, at: int, size: int, count: nat) -> Option<Seq<u64>>
    decreases count,
{
    if count == 0 {
        Some(Seq::empty())
    } else if !(0 <= at && at + size <= trailer_start(bytes)) {
        None
    } else {
        match table_of(bytes, at + size, size, (count - 1) as nat) {
            None => None,
            Some(rest) => Some(seq![big_endian(bytes, at, size) as u64] + rest),
        }
    }
}

/// The object with the given index is an array or a dictionary.
pub open spec fn is_container(bytes: Seq<u8>, offsets: Seq<u64>, index: u64) -> bool {
    index < offsets.len() && container_at(bytes, offsets[index as int] as int)
}

/// In how many bytes a container that holds fifteen items or more spells
/// their number: 1, 2, 4 or 8, told by the last two bits of the byte after
/// the container's first.
pub open spec fn length_width(byte: u8) -> int {
    if byte % 4 == 0 {
        1
    } else if byte % 4 == 1 {
        2
    } else if byte % 4 == 2 {
        4
    } else {
        8
    }
}

/// The references that the container at `offset` holds, in the order in
/// which they stand: the items of an array, or the keys and then the values
/// of a dictionary. The lower half of the container's first byte is the
/// number of items, or 15 where the number follows in bytes of its own.
/// There are none where the container does not lie before the trailer with
/// all it holds.
pub open spec fn references_of(bytes: Seq<u8>, offset: int, ref_size: int) -> Option<Seq<u64>> {
    let trailer = trailer_start(bytes);
    let short = bytes[offset] % 16;
    let pairs = bytes[offset] / 16 == 0xd;
    if short < 15 {
        table_of(
            bytes,
            offset + 1,
            ref_size,
            if pairs {
                (2 * short) as nat
            } else {
                short as nat
            },
        )
    } else if offset + 2 > trailer {
        None
    } else {
        let width = length_width(bytes[offset + 1]);
        if offset + 2 + width > trailer {
            None
        } else {
            let length = big_endian(bytes, offset + 2, width);
            if length > trailer / 2 {
                None
            } else {
                table_of(
                    bytes,
                    offset + 2 + width,
                    ref_size,
                    if pairs {
                        (2 * length) as nat
                    } else {
                        length as nat
                    },
                )
            }
        }
    }
}

/// Follows the references of the container `holder` in their order, and
/// notes for each container that one of them reaches which container holds
/// it. There is no result where a reference reaches a container that is
/// held already.
pub open spec fn follow(
    bytes: Seq<u8>,
    offsets: Seq<u64>,
    references: Seq<u64>,
    holder: u64,
    held: Map<u64, u64>,
) -> Option<Map<u64, u64>>
    decreases references.len(),
{
    if references.len() == 0 {
        Some(held)
    } else {
        let target = references[0];
        if !is_container(bytes, offsets, target) {
            follow(bytes, offsets, references.drop_first(), holder, held)
        } else if held.contains_key(target) {
            None
        } else {
            follow(bytes, offsets, references.drop_first(), holder, held.insert(target, holder))
        }
    }
}

/// Follows the references of every container of the offset table from the
/// object `from` on. There is a result if and only if every container holds
/// its references before the trailer, the containers hold no more than
/// `room` references together, and no container is reached by two
/// references, be they of one container or of two. The result says of each
/// container that is reached which container holds it.
pub open spec fn follow_all(
    bytes: Seq<u8>,
    offsets: Seq<u64>,
    ref_size: int,
    from: int,
    held: Map<u64, u64>,
    room: int,
) -> Option<Map<u64, u64>>
    decreases offsets.len() - from,
{
    if from < 0 || from >= offsets.len() {
        Some(held)
    } else if !container_at(bytes, offsets[from] as int) {
        follow_all(bytes, offsets, ref_size, from + 1, held, room)
    } else {
        match references_of(bytes, offsets[from] as int, ref_size) {
            None => None,
            Some(references) => if references.len() > room {
                None
            } else {
                match follow(bytes, offsets, references, from as u64, held) {
                    None => None,
                    Some(more) => follow_all(
                        bytes,
                        offsets,
                        ref_size,
                        from + 1,
                        more,
                        room - references.len(),
                    ),
                }
            },
        }
    }
}

/// From the object `index` one comes, from each container to the one that
/// holds it, to a container that none holds, and passes no more than `room`
/// containers on the way.
pub open spec fn chain_within(held: Map<u64, u64>, index: u64, room: nat) -> bool
    decreases room,
{
    if !held.contains_key(index) {
        true
    } else if room == 0 {
        false
    } else {
        chain_within(held, held[index], (room - 1) as nat)
    }
}

/// The objects of an offset table may be decoded: none is a date before the
/// year 0, no container is reached by two references, the containers hold
/// no more references together than the file has bytes, and no container
/// lies deeper than [`MAX_NESTING`], itself counted, below one that none
/// holds.
pub open spec fn objects_admissible(bytes: Seq<u8>, offsets: Seq<u64>, ref_size: int) -> bool {
    &&& forall|i: int| 0 <= i < offsets.len() ==> !early_date_at(bytes, #[trigger] offsets[i] as int)
    &&& follow_all(bytes, offsets, ref_size, 0, Map::empty(), bytes.len() as int) matches Some(
        held,
    )
    &&& forall|index: u64|
        index < offsets.len() && container_at(bytes, offsets[index as int] as int)
            ==> #[trigger] chain_within(held, index, (MAX_NESTING - 1) as nat)
}

/// Bytes in the binary encoding may be decoded: they are too short to hold
/// a trailer, or the trailer names sizes of offsets and of references that
/// the encoding knows, the offset table lies before the trailer, and its
/// objects are admissible. In the trailer the size of an offset is the
/// seventh byte and the size of a reference the eighth, the number of
/// objects is in the eight bytes from the ninth on, and the place of the
/// offset table in the last eight bytes.
pub open spec fn binary_admissible(bytes: Seq<u8>) -> bool {
    bytes.len() < 32 || {
        let trailer = trailer_start(bytes);
        let size = bytes[trailer + 6] as int;
        let ref_size = bytes[trailer + 7] as int;
        let count = big_endian(bytes, trailer + 8, 8);
        let table = big_endian(bytes, trailer + 24, 8);
        &&& is_offset_size(size)
        &&& is_offset_size(ref_size)
        &&& table_of(bytes, table, size, count as nat) matches Some(offsets)
        &&& objects_admissible(bytes, offsets, ref_size)
    }
}

/// The bytes may be handed to the decoder.
pub open spec fn admissible(bytes: Seq<u8>) -> bool {
    if is_binary(bytes) {
        binary_admissible(bytes)
    } else {
        text_admissible(bytes)
    }
}

/// Whether the bytes begin as the binary encoding does.
fn begins_binary(bytes: &Vec<u8>) -> (found: bool)
    ensures
        found == is_binary(bytes@),
{
    bytes.len() >= 8 && bytes[0] == 0x62 && bytes[1] == 0x70 && bytes[2] == 0x6c && bytes[3]
        == 0x69 && bytes[4] == 0x73 && bytes[5] == 0x74 && bytes[6] == 0x30 && bytes[7] == 0x30
}

/// Whether the four bytes from `at` on spell `dict`.
fn spells_dict(bytes: &Vec<u8>, at: usize) -> (found: bool)
    ensures
        found == dict_at(bytes@, at as int),
{
    let n: usize = bytes.len();
    at <= n && n - at >= 4 && bytes[at] == 0x64 && bytes[at + 1] == 0x69 && bytes[at + 2] == 0x63
        && bytes[at + 3] == 0x74
}

/// Whether the five bytes from `at` on spell `array`.
fn spells_array(bytes: &Vec<u8>, at: usize) -> (found: bool)
    ensures
        found == array_at(bytes@, at as int),
{
    let n: usize = bytes.len();
    at <= n && n - at >= 5 && bytes[at] == 0x61 && bytes[at + 1] == 0x72 && bytes[at + 2] == 0x72
        && bytes[at + 3] == 0x61 && bytes[at + 4] == 0x79
}

/// What is known of a text, as it is computed.
struct Progress {
    depth: u64,
    peak: u64,
    marks: u64,
    opened: bool,
    in_tag: bool,
    counting: bool,
}

impl View for Progress {
    type V = Scan;

    closed spec fn view(&self) -> Scan {
        Scan {
            depth: self.depth as nat,
            peak: self.peak as nat,
            marks: self.marks as nat,
            opened: self.opened,
            in_tag: self.in_tag,
            counting: self.counting,
        }
    }
}

/// What is known after the byte at `at`.
fn advance(bytes: &Vec<u8>, at: usize, before: Progress) -> (after: Progress)
    requires
        at < bytes.len(),
        before.depth <= at,
        before.peak <= at,
        before.marks <= at,
    ensures
        after@ == step(bytes@, at as int, before@),
        after.depth <= at + 1,
        after.peak <= at + 1,
        after.marks <= at + 1,
{
    let n: usize = bytes.len();
    let byte: u8 = bytes[at];
    let dict = spells_dict(bytes, at);
    let array = spells_array(bytes, at);
    let names = (dict || array) && !(at > 0 && bytes[at - 1] == 0x2f);
    let after: usize = if dict {
        at + 4
    } else if array {
        at + 5
    } else {
        at
    };
    let empties = (dict || array) && n - after >= 2 && bytes[after] == 0x2f && bytes[after + 1]
        == 0x3e;
    let less = byte == 0x3c;
    let hides = less && n - at >= 2 && (bytes[at + 1] == 0x21 || bytes[at + 1] == 0x3f);
    let closes = less && n - at >= 2 && bytes[at + 1] == 0x2f && ((spells_dict(bytes, at + 2) && n
        - at >= 7 && bytes[at + 6] == 0x3e) || (spells_array(bytes, at + 2) && n - at >= 8
        && bytes[at + 7] == 0x3e));
    let counting = before.counting || (before.opened && (byte == 0x22 || byte == 0x27 || hides
        || (less && before.in_tag)));
    Progress {
        depth: if names && !empties {
            before.depth + 1
        } else if closes && !counting && !before.in_tag && before.depth > 0 {
            before.depth - 1
        } else {
            before.depth
        },
        peak: if names && before.depth + 1 > before.peak {
            before.depth + 1
        } else {
            before.peak
        },
        marks: if byte == 0x28 || byte == 0x7b {
            before.marks + 1
        } else {
            before.marks
        },
        opened: before.opened || names,
        in_tag: if less {
            true
        } else if byte == 0x3e {
            false
        } else {
            before.in_tag
        },
        counting,
    }
}

/// Whether the byte is a decimal digit.
fn digit(byte: u8) -> (found: bool)
    ensures
        found == is_digit(byte),
{
    0x30 <= byte && byte <= 0x39
}

/// The first place from `at` on at which no white space stands.
fn skip_spaces(bytes: &Vec<u8>, at: usize) -> (place: usize)
    requires
        at <= bytes.len(),
    ensures
        place == after_spaces(bytes@, at as int),
        at <= place <= bytes.len(),
{
    let mut place: usize = at;
    while place < bytes.len() && (bytes[place] == 0x20 || bytes[place] == 0x09 || bytes[place]
        == 0x0a || bytes[place] == 0x0d)
        invariant
            at <= place <= bytes.len(),
            after_spaces(bytes@, at as int) == after_spaces(bytes@, place as int),
        decreases bytes.len() - place,
    {
        place += 1;
    }
    place
}

/// Whether no name of a date's start tag may begin at `at`, or a date
/// stands there that stays within the years 0 to 9999.
fn date_is_plain(bytes: &Vec<u8>, at: usize) -> (fine: bool)
    requires
        at < bytes.len(),
    ensures
        fine == (date_tag_at(bytes@, at as int) ==> plain_date_at(bytes@, at as int)),
{
    let n: usize = bytes.len();
    let tag = n - at >= 5 && (bytes[at] == 0x3c || bytes[at] == 0x3a) && bytes[at + 1] == 0x64
        && bytes[at + 2] == 0x61 && bytes[at + 3] == 0x74 && bytes[at + 4] == 0x65;
    if !tag {
        return true;
    }
    let close: usize = skip_spaces(bytes, at + 5);
    if close >= n || bytes[close] != 0x3e {
        return false;
    }
    let d: usize = close + 1;
    if n - d < 4 {
        return false;
    }
    let year = digit(bytes[d]) && digit(bytes[d + 1]) && digit(bytes[d + 2]) && digit(bytes[d + 3]);
    let first = bytes[d] == 0x30 && bytes[d + 1] == 0x30 && bytes[d + 2] == 0x30 && bytes[d + 3]
        == 0x30;
    let last = bytes[d] == 0x39 && bytes[d + 1] == 0x39 && bytes[d + 2] == 0x39 && bytes[d + 3]
        == 0x39;
    if year && !first && !last {
        return true;
    }
    if n - d < 22 {
        return false;
    }
    year && bytes[d + 4] == 0x2d && digit(bytes[d + 5]) && digit(bytes[d + 6]) && bytes[d + 7]
        == 0x2d && digit(bytes[d + 8]) && digit(bytes[d + 9]) && bytes[d + 10] == 0x54 && digit(
        bytes[d + 11],
    ) && digit(bytes[d + 12]) && bytes[d + 13] == 0x3a && digit(bytes[d + 14]) && digit(
        bytes[d + 15],
    ) && bytes[d + 16] == 0x3a && digit(bytes[d + 17]) && bytes[d + 17] <= 0x35 && digit(
        bytes[d + 18],
    ) && bytes[d + 19] == 0x5a && bytes[d + 20] == 0x3c && bytes[d + 21] == 0x2f
}

/// Whether bytes in a text encoding may be decoded.
fn text_is_admissible(bytes: &Vec<u8>) -> (fine: bool)
    ensures
        fine == text_admissible(bytes@),
{
    let n: usize = bytes.len();
    let mut known = Progress {
        depth: 0,
        peak: 0,
        marks: 0,
        opened: false,
        in_tag: false,
        counting: false,
    };
    let mut i: usize = 0;
    while i < n
        invariant
            n == bytes.len(),
            i <= n,
            known@ == scan(bytes@, i as int),
            known.depth <= i,
            known.peak <= i,
            known.marks <= i,
            forall|at: int|
                0 <= at < i && #[trigger] date_tag_at(bytes@, at) ==> plain_date_at(bytes@, at),
        decreases n - i,
    {
        if !date_is_plain(bytes, i) {
            return false;
        }
        known = advance(bytes, i, known);
        i += 1;
    }
    known.peak <= MAX_NESTING && known.marks <= MAX_NESTING
}

/// The number that the `size` bytes from `at` on spell.
fn read_big_endian(bytes: &Vec<u8>, at: usize, size: u8) -> (value: u64)
    requires
        is_offset_size(size as int),
        at + size <= bytes.len(),
    ensures
        value == big_endian(bytes@, at as int, size as int),
{
    if size == 1 {
        bytes[at] as u64
    } else if size == 2 {
        bytes[at] as u64 * 0x100 + bytes[at + 1] as u64
    } else if size == 3 {
        bytes[at] as u64 * 0x1_0000 + bytes[at + 1] as u64 * 0x100 + bytes[at + 2] as u64
    } else if size == 4 {
        bytes[at] as u64 * 0x100_0000 + bytes[at + 1] as u64 * 0x1_0000 + bytes[at + 2] as u64
            * 0x100 + bytes[at + 3] as u64
    } else {
        bytes[at] as u64 * 0x100_0000_0000_0000 + bytes[at + 1] as u64 * 0x1_0000_0000_0000
            + bytes[at + 2] as u64 * 0x100_0000_0000 + bytes[at + 3] as u64 * 0x1_0000_0000
            + bytes[at + 4] as u64 * 0x100_0000 + bytes[at + 5] as u64 * 0x1_0000 + bytes[at
            + 6] as u64 * 0x100 + bytes[at + 7] as u64
    }
}

/// The `count` numbers of `size` bytes each that stand from `at` on.
#[verifier::loop_isolation(false)]
fn read_table(bytes: &Vec<u8>, at: u64, size: u8, count: u64) -> (table: Option<Vec<u64>>)
    requires
        bytes.len() >= 32,
        is_offset_size(size as int),
    ensures
        match table {
            Some(numbers) => table_of(bytes@, at as int, size as int, count as nat) == Some(
                numbers@,
            ),
            None => table_of(bytes@, at as int, size as int, count as nat).is_none(),
        },
{
    let trailer: usize = bytes.len() - 32;
    let ghost whole = table_of(bytes@, at as int, size as int, count as nat);
    let mut numbers: Vec<u64> = Vec::new();
    let mut place: u64 = at;
    let mut left: u64 = count;
    assert(Seq::<u64>::empty() + table_of(
        bytes@,
        at as int,
        size as int,
        count as nat,
    ).unwrap_or(Seq::empty()) =~= table_of(bytes@, at as int, size as int, count as nat).unwrap_or(
        Seq::empty(),
    ));
    while left > 0
        invariant
            bytes.len() >= 32,
            trailer == bytes.len() - 32,
            is_offset_size(size as int),
            whole == match table_of(bytes@, place as int, size as int, left as nat) {
                None => None::<Seq<u64>>,
                Some(rest) => Some(numbers@ + rest),
            },
        decreases left,
    {
        if size as usize > trailer || place > (trailer - size as usize) as u64 {
            return None;
        }
        let number: u64 = read_big_endian(bytes, place as usize, size);
        proof {
            let next = table_of(bytes@, place + size, size as int, (left - 1) as nat);
            if next is Some {
                let rest = next.unwrap();
                assert(numbers@.push(number) + rest =~= numbers@ + (seq![number] + rest));
            }
        }
        numbers.push(number);
        place += size as u64;
        left -= 1;
    }
    assert(numbers@ + Seq::<u64>::empty() =~= numbers@);
    Some(numbers)
}

/// Whether the object at `offset` is an array or a dictionary.
fn holds_container(bytes: &Vec<u8>, offset: u64) -> (found: bool)
    requires
        bytes.len() >= 32,
    ensures
        found == container_at(bytes@, offset as int),
{
    let trailer: usize = bytes.len() - 32;
    if offset >= trailer as u64 {
        return false;
    }
    let marker: u8 = bytes[offset as usize];
    marker / 16 == 0xa || marker / 16 == 0xd
}

/// Whether the object at `offset` is a date before the year 0.
fn holds_early_date(bytes: &Vec<u8>, offset: u64) -> (found: bool)
    requires
        bytes.len() >= 32,
    ensures
        found == early_date_at(bytes@, offset as int),
{
    let trailer: usize = bytes.len() - 32;
    if offset >= trailer as u64 {
        return false;
    }
    bytes[offset as usize] == 0x33 && read_big_endian(bytes, offset as usize + 1, 8)
        > EARLIEST_DATE
}

/// The references that the container at `offset` holds.
fn read_references(bytes: &Vec<u8>, offset: u64, ref_size: u8) -> (found: Option<Vec<u64>>)
    requires
        bytes.len() >= 32,
        is_offset_size(ref_size as int),
        container_at(bytes@, offset as int),
    ensures
        match found {
            Some(references) => references_of(bytes@, offset as int, ref_size as int) == Some(
                references@,
            ),
            None => references_of(bytes@, offset as int, ref_size as int).is_none(),
        },
{
    let trailer: usize = bytes.len() - 32;
    let marker: u8 = bytes[offset as usize];
    let short: u8 = marker % 16;
    let pairs: bool = marker / 16 == 0xd;
    if short < 15 {
        let slots: u64 = if pairs {
            2 * short as u64
        } else {
            short as u64
        };
        return read_table(bytes, offset + 1, ref_size, slots);
    }
    if offset + 2 > trailer as u64 {
        return None;
    }
    let told: u8 = bytes[offset as usize + 1] % 4;
    let width: u8 = if told == 0 {
        1
    } else if told == 1 {
        2
    } else if told == 2 {
        4
    } else {
        8
    };
    if offset + 2 + width as u64 > trailer as u64 {
        return None;
    }
    let length: u64 = read_big_endian(bytes, offset as usize + 2, width);
    if length > (trailer / 2) as u64 {
        return None;
    }
    let slots: u64 = if pairs {
        2 * length
    } else {
        length
    };
    read_table(bytes, offset + 2 + width as u64, ref_size, slots)
}

/// The mark of an object that no container holds.
const UNHELD: u64 = u64::MAX;

/// The marks say of each object which container holds it, if one does, and
/// only objects of the table hold and are held.
spec fn marks_agree(marks: Seq<u64>, held: Map<u64, u64>) -> bool {
    &&& forall|index: u64| #[trigger]
        held.contains_key(index) ==> index < marks.len() && held[index] < marks.len()
            && marks[index as int] == held[index]
    &&& forall|index: u64|
        index < marks.len() && !held.contains_key(index) ==> #[trigger] marks[index as int]
            == UNHELD
}

/// Follows the references of the container `holder` and marks each
/// container that one of them reaches. Fails where one reaches a container
/// that is marked already.
#[verifier::loop_isolation(false)]
fn follow_references(
    bytes: &Vec<u8>,
    offsets: &Vec<u64>,
    references: &Vec<u64>,
    holder: usize,
    marks: &mut Vec<u64>,
    Ghost(held): Ghost<Map<u64, u64>>,
) -> (result: (bool, Ghost<Map<u64, u64>>))
    requires
        bytes.len() >= 32,
        holder < offsets.len(),
        old(marks).len() == offsets.len(),
        marks_agree(old(marks)@, held),
    ensures
        final(marks).len() == offsets.len(),
        match follow(bytes@, offsets@, references@, holder as u64, held) {
            None => !result.0,
            Some(more) => result.0 && result.1@ == more && marks_agree(final(marks)@, more),
        },
{
    let ghost whole = follow(bytes@, offsets@, references@, holder as u64, held);
    let ghost mut now: Map<u64, u64> = held;
    let mut i: usize = 0;
    assert(references@.skip(0) =~= references@);
    while i < references.len()
        invariant
            i <= references.len(),
            marks.len() == offsets.len(),
            marks_agree(marks@, now),
            whole == follow(bytes@, offsets@, references@.skip(i as int), holder as u64, now),
        decreases references.len() - i,
    {
        let target: u64 = references[i];
        assert(references@.skip(i as int)[0] == target);
        assert(references@.skip(i as int).drop_first() =~= references@.skip(i + 1));
        if target < offsets.len() as u64 && holds_container(bytes, offsets[target as usize]) {
            if marks[target as usize] != UNHELD {
                return (false, Ghost(now));
            }
            marks.set(target as usize, holder as u64);
            proof {
                now = now.insert(target, holder as u64);
            }
        }
        i += 1;
    }
    (true, Ghost(now))
}

/// Which container holds each object, if no container of the offset table
/// is reached by two references.
#[verifier::loop_isolation(false)]
fn find_holders(bytes: &Vec<u8>, offsets: &Vec<u64>, ref_size: u8) -> (result: (
    Option<Vec<u64>>,
    Ghost<Map<u64, u64>>,
))
    requires
        bytes.len() >= 32,
        is_offset_size(ref_size as int),
    ensures
        match follow_all(
            bytes@,
            offsets@,
            ref_size as int,
            0,
            Map::empty(),
            bytes.len() as int,
        ) {
            None => result.0.is_none(),
            Some(held) => result.0 matches Some(marks) && marks.len() == offsets.len()
                && result.1@ == held && marks_agree(marks@, held),
        },
{
    let ghost whole = follow_all(
        bytes@,
        offsets@,
        ref_size as int,
        0,
        Map::empty(),
        bytes.len() as int,
    );
    let mut marks: Vec<u64> = Vec::new();
    while marks.len() < offsets.len()
        invariant
            marks.len() <= offsets.len(),
            forall|index: int| 0 <= index < marks.len() ==> marks[index] == UNHELD,
        decreases offsets.len() - marks.len(),
    {
        marks.push(UNHELD);
    }
    let ghost mut held: Map<u64, u64> = Map::empty();
    let mut room: usize = bytes.len();
    let mut i: usize = 0;
    while i < offsets.len()
        invariant
            i <= offsets.len(),
            marks.len() == offsets.len(),
            marks_agree(marks@, held),
            whole == follow_all(bytes@, offsets@, ref_size as int, i as int, held, room as int),
        decreases offsets.len() - i,
    {
        if holds_container(bytes, offsets[i]) {
            let references = match read_references(bytes, offsets[i], ref_size) {
                None => {
                    return (None, Ghost(held));
                },
                Some(references) => references,
            };
            if references.len() > room {
                return (None, Ghost(held));
            }
            let (fine, more) = follow_references(
                bytes,
                offsets,
                &references,
                i,
                &mut marks,
                Ghost(held),
            );
            if !fine {
                return (None, Ghost(held));
            }
            room -= references.len();
            proof {
                held = more@;
            }
        }
        i += 1;
    }
    (Some(marks), Ghost(held))
}

/// Whether the object `index` lies no deeper than the limit.
#[verifier::loop_isolation(false)]
fn lies_within(marks: &Vec<u64>, index: usize, Ghost(held): Ghost<Map<u64, u64>>) -> (fine: bool)
    requires
        index < marks.len(),
        marks_agree(marks@, held),
    ensures
        fine == chain_within(held, index as u64, (MAX_NESTING - 1) as nat),
{
    let mut at: usize = index;
    let mut room: u64 = MAX_NESTING - 1;
    loop
        invariant
            at < marks.len(),
            chain_within(held, index as u64, (MAX_NESTING - 1) as nat) == chain_within(
                held,
                at as u64,
                room as nat,
            ),
        decreases room,
    {
        let holder: u64 = marks[at];
        if holder == UNHELD {
            assert(!held.contains_key(at as u64));
            return true;
        }
        assert(held.contains_key(at as u64));
        if room == 0 {
            return false;
        }
        at = holder as usize;
        room -= 1;
    }
}

/// Whether bytes in the binary encoding may be decoded.
#[verifier::loop_isolation(false)]
fn binary_is_admissible(bytes: &Vec<u8>) -> (fine: bool)
    ensures
        fine == binary_admissible(bytes@),
{
    let n: usize = bytes.len();
    if n < 32 {
        return true;
    }
    let trailer: usize = n - 32;
    let size: u8 = bytes[trailer + 6];
    let ref_size: u8 = bytes[trailer + 7];
    if !(size == 1 || size == 2 || size == 3 || size == 4 || size == 8) {
        return false;
    }
    if !(ref_size == 1 || ref_size == 2 || ref_size == 3 || ref_size == 4 || ref_size == 8) {
        return false;
    }
    let count: u64 = read_big_endian(bytes, trailer + 8, 8);
    let table: u64 = read_big_endian(bytes, trailer + 24, 8);
    let offsets = match read_table(bytes, table, size, count) {
        None => {
            return false;
        },
        Some(offsets) => offsets,
    };
    let mut i: usize = 0;
    while i < offsets.len()
        invariant
            i <= offsets.len(),
            forall|k: int| 0 <= k < i ==> !early_date_at(bytes@, #[trigger] offsets@[k] as int),
        decreases offsets.len() - i,
    {
        if holds_early_date(bytes, offsets[i]) {
            return false;
        }
        i += 1;
    }
    let (found, Ghost(held)) = find_holders(bytes, &offsets, ref_size);
    let marks = match found {
        None => {
            return false;
        },
        Some(marks) => marks,
    };
    let mut i: usize = 0;
    while i < offsets.len()
        invariant
            i <= offsets.len(),
            marks.len() == offsets.len(),
            forall|index: u64|
                index < i && container_at(bytes@, offsets@[index as int] as int)
                    ==> #[trigger] chain_within(held, index, (MAX_NESTING - 1) as nat),
        decreases offsets.len() - i,
    {
        if holds_container(bytes, offsets[i]) && !lies_within(&marks, i, Ghost(held)) {
            assert(!chain_within(held, i as u64, (MAX_NESTING - 1) as nat));
            return false;
        }
        i += 1;
    }
    true
}

/// Whether the bytes may be handed to the decoder.
pub fn is_admissible(bytes: &Vec<u8>) -> (fine: bool)
    ensures
        fine == admissible(bytes@),
{
    if begins_binary(bytes) {
        binary_is_admissible(bytes)
    } else {
        text_is_admissible(bytes)
    }
}

/// The number of places before `upto` at which a container of a text
/// encoding may begin: where `(` or `{` stands, or the name of a start tag
/// that opens a container.
pub open spec fn beginnings(bytes: Seq<u8>, upto: int) -> nat
    decreases upto,
{
    if upto <= 0 {
        0
    } else {
        beginnings(bytes, upto - 1) + if names_container_at(bytes, upto - 1) || bytes[upto - 1]
            == 0x28 || bytes[upto - 1] == 0x7b {
            1nat
        } else {
            0nat
        }
    }
}

/// No more containers are ever open, and no more marks counted, than there
/// are places at which a container may begin.
proof fn lemma_scan_within_beginnings(bytes: Seq<u8>, upto: int)
    requires
        0 <= upto <= bytes.len(),
    ensures
        scan(bytes, upto).depth <= beginnings(bytes, upto),
        scan(bytes, upto).peak <= beginnings(bytes, upto),
        scan(bytes, upto).marks <= beginnings(bytes, upto),
    decreases upto,
{
    if upto > 0 {
        lemma_scan_within_beginnings(bytes, upto - 1);
    }
}

/// A text is surely handed to the decoder if it holds no more places at
/// which a container may begin than [`MAX_NESTING`], however its containers
/// nest, and no place at which the name of a date's start tag may begin.
pub proof fn lemma_text_with_few_containers_is_admissible(bytes: Seq<u8>)
    requires
        !is_binary(bytes),
        beginnings(bytes, bytes.len() as int) <= MAX_NESTING,
        forall|at: int| 0 <= at < bytes.len() ==> !date_tag_at(bytes, at),
    ensures
        admissible(bytes),
{
    lemma_scan_within_beginnings(bytes, bytes.len() as int);
}

/// Bytes too short to hold the mark of the binary encoding, or the trailer
/// after it, are surely handed to the decoder, which rejects them.
pub proof fn lemma_short_bytes_are_admissible(bytes: Seq<u8>)
    requires
        bytes.len() < 5 || (is_binary(bytes) && bytes.len() < 32),
    ensures
        admissible(bytes),
{
    if !is_binary(bytes) {
        lemma_scan_within_beginnings(bytes, bytes.len() as int);
        lemma_few_bytes_few_beginnings(bytes, bytes.len() as int);
    }
}

/// There are no more places at which a container may begin than bytes.
proof fn lemma_few_bytes_few_beginnings(bytes: Seq<u8>, upto: int)
    requires
        0 <= upto <= bytes.len(),
    ensures
        beginnings(bytes, upto) <= upto,
    decreases upto,
{
    if upto > 0 {
        lemma_few_bytes_few_beginnings(bytes, upto - 1);
    }
}

} // verus!
