//! What a tile shows: one block of the i3bar/swaybar protocol, and the
//! message that carries it from a tile to the output.
use vstd::prelude::*;

verus! {

/// Where a block's text stands in its slot when the slot is wider (`min_width`).
#[derive(Clone, Copy, Debug, PartialEq, Eq, Structural)]
pub enum Alignment {
    Left,
    Center,
    Right,
}

impl Default for Alignment {
    /// Text is centred unless a block says otherwise.
    fn default() -> (a: Self)
        ensures
            a == Alignment::Center,
    {
        Alignment::Center
    }
}

/// How the bar reads a block's text: as is, or as Pango markup.
#[derive(Clone, Copy, Debug, PartialEq, Eq, Structural)]
pub enum Markup {
    /// Plain text (sent as `none`).
    Plain,
    Pango,
}

impl Default for Markup {
    /// Text is plain unless a block says otherwise.
    fn default() -> (m: Self)
        ensures
            m == Markup::Plain,
    {
        Markup::Plain
    }
}

/// The text of an optional string, as a sequence of characters.
pub open spec fn opt_text(o: Option<String>) -> Option<Seq<char>> {
    match o {
        Some(s) => Some(s@),
        None => None,
    }
}

/// One block of the bar: its text and how the bar draws it. A field that is
/// `None` is left out of what is sent, and the bar uses its own default.
#[derive(Clone, Debug)]
pub struct Block {
    pub full_text: String,
    pub short_text: Option<String>,
    pub color: Option<String>,
    pub background_color: Option<String>,
    pub border_color: Option<String>,
    pub border_top: Option<u32>,
    pub border_right: Option<u32>,
    pub border_bottom: Option<u32>,
    pub border_left: Option<u32>,
    pub min_width: Option<u32>,
    pub align: Option<Alignment>,
    pub name: String,
    pub instance: String,
    pub urgent: Option<bool>,
    pub separator: Option<bool>,
    pub separator_block_width: Option<u32>,
    pub markup: Option<Markup>,
}

impl Block {
    /// Every field that says how the block is drawn is left to the bar.
    pub open spec fn has_default_style(self) -> bool {
        &&& self.color is None
        &&& self.background_color is None
        &&& self.border_color is None
        &&& self.border_top is None
        &&& self.border_right is None
        &&& self.border_bottom is None
        &&& self.border_left is None
        &&& self.min_width is None
        &&& self.align is None
        &&& self.urgent is None
        &&& self.separator is None
        &&& self.separator_block_width is None
        &&& self.markup is None
    }

    /// The block shows `full` (and `short` where space is scarce), is called
    /// `name`, has no instance yet, and is drawn as the bar likes.
    pub open spec fn shows(self, full: Seq<char>, short: Option<Seq<char>>, name: Seq<char>) -> bool {
        &&& self.full_text@ == full
        &&& opt_text(self.short_text) == short
        &&& self.name@ == name
        &&& self.instance@ == Seq::<char>::empty()
        &&& self.has_default_style()
    }

    /// A block with the given texts and name, every other field at its default.
    pub fn with_text(full_text: String, short_text: Option<String>, name: String) -> (b: Block)
        ensures
            b.shows(full_text@, opt_text(short_text), name@),
    {
        Block {
            full_text,
            short_text,
            color: None,
            background_color: None,
            border_color: None,
            border_top: None,
            border_right: None,
            border_bottom: None,
            border_left: None,
            min_width: None,
            align: None,
            name,
            instance: String::new(),
            urgent: None,
            separator: None,
            separator_block_width: None,
            markup: None,
        }
    }
}

impl Default for Block {
    /// An empty block: no text, no name, no instance, drawn as the bar likes.
    fn default() -> (b: Self)
        ensures
            b.shows(Seq::empty(), None, Seq::empty()),
    {
        Block::with_text(String::new(), None, String::new())
    }
}

/// A block on its way to the output, with the index of the tile that made it.
#[derive(Clone, Debug)]
pub struct TileData {
    pub sender_id: usize,
    pub block: Block,
}

/// The lowercase hexadecimal digit of `d` (below 16).
pub open spec fn hex_digit(d: u8) -> char {
    seq!['0', '1', '2', '3', '4', '5', '6', '7', '8', '9', 'a', 'b', 'c', 'd', 'e', 'f'][d as int]
}

/// The byte `i` of the random (version 4, RFC 4122 variant) UUID made of the
/// random bytes `r`: byte 6 carries the version 4 in its high half, byte 8
/// carries the variant in its two high bits.
pub open spec fn uuid_byte(r: Seq<u8>, i: int) -> u8 {
    if i == 6 {
        (r[6] & 0x0f) | 0x40
    } else if i == 8 {
        (r[8] & 0x3f) | 0x80
    } else {
        r[i]
    }
}

/// The character at position `k` of the hyphenated lowercase text of that
/// UUID: hyphens at 8, 13, 18 and 23 (after the groups of 4, 2, 2, 2 and 6
/// bytes), and elsewhere the hex digits of the bytes in order, two per byte,
/// high half first.
pub open spec fn uuid_char(r: Seq<u8>, k: int) -> char {
    if k == 8 || k == 13 || k == 18 || k == 23 {
        '-'
    } else {
        let d = k - (if k < 8 {
            0int
        } else if k < 13 {
            1
        } else if k < 18 {
            2
        } else if k < 23 {
            3
        } else {
            4
        });
        let b = uuid_byte(r, d / 2);
        if d % 2 == 0 {
            hex_digit(b >> 4u8)
        } else {
            hex_digit(b & 0x0fu8)
        }
    }
}

/// The text of the random UUID made of the 16 random bytes `r`, as the `uuid`
/// crate writes it (`8-4-4-4-12` lowercase hex digits).
pub open spec fn uuid_v4_text(r: Seq<u8>) -> Seq<char> {
    Seq::new(36, |k: int| uuid_char(r, k))
}

/// `uuid::Builder::from_bytes(random)` with the RFC 4122 variant and version 4
/// set (what `Uuid::new_v4` does with its random bytes), written by
/// `to_hyphenated().to_string()`. The contract claims the text that
/// `adapter::encode` writes for those bytes.
#[verifier::external_body]
fn uuid_text(random: [u8; 16]) -> (s: String)
    ensures
        s@ == uuid_v4_text(random@),
{
    uuid::Builder::from_bytes(random)
        .set_variant(uuid::Variant::RFC4122)
        .set_version(uuid::Version::Random)
        .build()
        .to_hyphenated()
        .to_string()
}

/// Whether `c` is a lowercase hexadecimal digit.
pub open spec fn is_lower_hex(c: char) -> bool {
    ('0' <= c <= '9') || ('a' <= c <= 'f')
}

/// Whether `s` has the form of a random UUID's text: 36 characters, hyphens at
/// 8, 13, 18 and 23, lowercase hex digits elsewhere, the version digit `4` at
/// 14 and one of `8`, `9`, `a`, `b` (the RFC 4122 variant) at 19.
pub open spec fn is_uuid_v4_text(s: Seq<char>) -> bool {
    &&& s.len() == 36
    &&& forall|k: int|
        0 <= k < 36 ==> if k == 8 || k == 13 || k == 18 || k == 23 {
            #[trigger] s[k] == '-'
        } else {
            is_lower_hex(s[k])
        }
    &&& s[14] == '4'
    &&& (s[19] == '8' || s[19] == '9' || s[19] == 'a' || s[19] == 'b')
}

proof fn lemma_hex_digit(d: u8)
    requires
        d < 16,
    ensures
        is_lower_hex(hex_digit(d)),
        d == 4 ==> hex_digit(d) == '4',
        d == 8 ==> hex_digit(d) == '8',
        d == 9 ==> hex_digit(d) == '9',
        d == 10 ==> hex_digit(d) == 'a',
        d == 11 ==> hex_digit(d) == 'b',
{
}

/// Whatever the random bytes, the instance name is a well-formed random UUID:
/// 36 characters in the hyphenated lowercase form, version 4, RFC 4122 variant.
pub proof fn lemma_uuid_text_form(r: Seq<u8>)
    requires
        r.len() == 16,
    ensures
        is_uuid_v4_text(uuid_v4_text(r)),
{
    let s = uuid_v4_text(r);
    assert forall|k: int| 0 <= k < 36 && !(k == 8 || k == 13 || k == 18 || k == 23) implies is_lower_hex(
        #[trigger] s[k],
    ) by {
        let d = k - (if k < 8 {
            0int
        } else if k < 13 {
            1
        } else if k < 18 {
            2
        } else if k < 23 {
            3
        } else {
            4
        });
        let b = uuid_byte(r, d / 2);
        assert(b >> 4u8 < 16 && b & 0x0fu8 < 16) by (bit_vector);
        lemma_hex_digit(b >> 4u8);
        lemma_hex_digit(b & 0x0fu8);
    }
    let b6 = r[6];
    let b8 = r[8];
    assert(((b6 & 0x0f) | 0x40) >> 4u8 == 4) by (bit_vector);
    let v = ((b8 & 0x3f) | 0x80) >> 4u8;
    assert(8 <= v <= 11) by (bit_vector)
        requires
            v == ((b8 & 0x3f) | 0x80) >> 4u8,
    ;
    lemma_hex_digit(4);
    lemma_hex_digit(v);
    assert(s[14] == hex_digit(uuid_byte(r, 6) >> 4u8));
    assert(s[19] == hex_digit(uuid_byte(r, 8) >> 4u8));
}

/// What marks the blocks of one tile on their way to the output: the tile's
/// index, and an instance name that tells it apart from every other tile.
#[derive(Clone, Debug)]
pub struct TileLabel {
    pub sender_id: usize,
    pub instance: String,
}

impl TileLabel {
    /// The label of the tile of index `sender_id`, whose instance name is the
    /// random UUID made of the 16 random bytes `random`.
    pub fn new(sender_id: usize, random: [u8; 16]) -> (l: TileLabel)
        ensures
            l.sender_id == sender_id,
            l.instance@ == uuid_v4_text(random@),
            is_uuid_v4_text(l.instance@),
    {
        proof {
            lemma_uuid_text_form(random@);
        }
        TileLabel { sender_id, instance: uuid_text(random) }
    }

    /// `block` as a message from this tile: the block keeps all it holds but its
    /// instance, which becomes the label's.
    pub fn apply(&self, block: Block) -> (d: TileData)
        ensures
            d.sender_id == self.sender_id,
            d.block.instance@ == self.instance@,
            d.block == (Block { instance: d.block.instance, ..block }),
    {
        TileData { sender_id: self.sender_id, block: Block { instance: self.instance.clone(), ..block } }
    }
}

} // verus!
