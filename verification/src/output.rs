//! The output: the i3bar/swaybar protocol on standard output. It holds the
//! latest block of every tile and, on each message, either draws the bar anew
//! or reports a message from a tile that does not exist.
use vstd::prelude::*;

use crate::tile::{Block, TileData};

verus! {

broadcast use vstd::string::group_string_axioms;

/// The header that opens the protocol: its version, then the start of the
/// endless array of bars.
pub open spec fn header_text() -> Seq<char> {
    "{ \"version\": 1 }\n["@
}

/// The bytes of the header.
pub fn header() -> (h: Vec<u8>)
    ensures
        h@ == vstd::utf8::encode_utf8(header_text()),
{
    vstd::slice::slice_to_vec("{ \"version\": 1 }\n[".as_bytes())
}

/// One bar as written to the output: the bar (its blocks serialized as a JSON
/// array) followed by the separator of the endless array.
pub fn frame(bar: &[u8]) -> (f: Vec<u8>)
    ensures
        f@ == bar@ + seq![0x2cu8, 0x0au8],
{
    let mut f = vstd::slice::slice_to_vec(bar);
    f.push(0x2c);
    f.push(0x0a);
    assert(f@ =~= bar@ + seq![0x2cu8, 0x0au8]);
    f
}

/// The bar after `message` arrives at a bar showing `shown`: a message from a
/// tile that exists replaces what that tile shows; any other changes nothing.
pub open spec fn next_shown(shown: Seq<Option<Block>>, message: TileData) -> Seq<Option<Block>> {
    if message.sender_id < shown.len() {
        shown.update(message.sender_id as int, Some(message.block))
    } else {
        shown
    }
}

/// What the output does after a message.
#[derive(Clone, Copy, Debug, PartialEq, Eq, Structural)]
pub enum OutputAction {
    /// Write the bar as it now stands.
    Render,
    /// Report a message from the tile of this index, which does not exist.
    InvalidSender(usize),
}

/// The output's state: the latest block of each tile, `None` for a tile that
/// has sent nothing yet.
pub struct Output {
    blocks: Vec<Option<Block>>,
}

impl View for Output {
    type V = Seq<Option<Block>>;

    closed spec fn view(&self) -> Seq<Option<Block>> {
        self.blocks@
    }
}

impl Output {
    /// The output of a bar of `num_tiles` tiles, none of which has sent anything.
    pub fn new(num_tiles: usize) -> (o: Output)
        ensures
            o@ == Seq::new(num_tiles as nat, |i: int| None::<Block>),
    {
        let mut blocks: Vec<Option<Block>> = Vec::new();
        let mut i: usize = 0;
        while i < num_tiles
            invariant
                0 <= i <= num_tiles,
                blocks@ == Seq::new(i as nat, |k: int| None::<Block>),
            decreases num_tiles - i,
        {
            blocks.push(None);
            i = i + 1;
            assert(blocks@ =~= Seq::new(i as nat, |k: int| None::<Block>));
        }
        Output { blocks }
    }

    /// Takes in a message from a tile: what the bar shows becomes
    /// `next_shown`, and the bar is written again unless the sender does not exist.
    pub fn handle(&mut self, message: TileData) -> (a: OutputAction)
        ensures
            final(self)@ == next_shown(old(self)@, message),
            a == (if message.sender_id < old(self)@.len() {
                OutputAction::Render
            } else {
                OutputAction::InvalidSender(message.sender_id)
            }),
    {
        let id = message.sender_id;
        if id < self.blocks.len() {
            self.blocks.set(id, Some(message.block));
            OutputAction::Render
        } else {
            OutputAction::InvalidSender(id)
        }
    }

    /// What the bar shows: the latest block of each tile.
    pub fn blocks(&self) -> (b: &Vec<Option<Block>>)
        ensures
            b@ == self@,
    {
        &self.blocks
    }
}

/// What a bar of `num_tiles` tiles shows after `messages` arrive, in order.
pub open spec fn shown_after(num_tiles: nat, messages: Seq<TileData>) -> Seq<Option<Block>>
    decreases messages.len(),
{
    if messages.len() == 0 {
        Seq::new(num_tiles, |i: int| None::<Block>)
    } else {
        next_shown(shown_after(num_tiles, messages.drop_last()), messages.last())
    }
}

/// The latest block that the tile of index `i` sent among `messages`, if any.
pub open spec fn latest_from(messages: Seq<TileData>, i: int) -> Option<Block>
    decreases messages.len(),
{
    if messages.len() == 0 {
        None
    } else if messages.last().sender_id == i {
        Some(messages.last().block)
    } else {
        latest_from(messages.drop_last(), i)
    }
}

/// Whatever messages arrive, the bar keeps one slot per tile, and each slot
/// shows the latest block that its tile sent (nothing while it has sent
/// none); a message from a tile that does not exist leaves no trace.
pub proof fn lemma_bar_shows_latest(num_tiles: nat, messages: Seq<TileData>)
    ensures
        shown_after(num_tiles, messages).len() == num_tiles,
        forall|i: int|
            0 <= i < num_tiles ==> #[trigger] shown_after(num_tiles, messages)[i] == latest_from(
                messages,
                i,
            ),
    decreases messages.len(),
{
    if messages.len() > 0 {
        lemma_bar_shows_latest(num_tiles, messages.drop_last());
    }
}

} // verus!
