//! The load tile: the load average of the last minute, from `/proc/loadavg`.
use vstd::prelude::*;

use crate::text::{chars_of, prefix_before, string_of, take_until};
use crate::tile::Block;

verus! {

broadcast use vstd::string::group_string_axioms;

/// The text of the load block: what `/proc/loadavg` holds before its first
/// space, and nothing where it holds no space.
pub open spec fn load_text(raw: Seq<char>) -> Seq<char> {
    if raw.contains(' ') {
        take_until(raw, ' ')
    } else {
        Seq::empty()
    }
}

/// The load block for the content of `/proc/loadavg`.
pub fn load_block(raw: &str) -> (b: Block)
    ensures
        b.shows(load_text(raw@), None, "load"@),
{
    let cs = chars_of(raw);
    let (load, found) = prefix_before(cs.as_slice(), ' ');
    let text = if found {
        string_of(load.as_slice())
    } else {
        String::new()
    };
    Block::with_text(text, None, "load".to_string())
}

proof fn lemma_take_until(s: Seq<char>, c: char)
    ensures
        take_until(s, c).len() <= s.len(),
        take_until(s, c) == s.take(take_until(s, c).len() as int),
        !take_until(s, c).contains(c),
        take_until(s, c).len() < s.len() ==> s[take_until(s, c).len() as int] == c,
    decreases s.len(),
{
    if s.len() > 0 && s[0] != c {
        lemma_take_until(s.drop_first(), c);
        let t = take_until(s.drop_first(), c);
        assert(seq![s[0]] + t =~= s.take(t.len() as int + 1));
        assert forall|k: int| 0 <= k < t.len() + 1 implies (seq![s[0]] + t)[k] != c by {
            if k > 0 {
                assert((seq![s[0]] + t)[k] == t[k - 1]);
            }
        }
    } else {
        assert(s.take(0) =~= Seq::<char>::empty());
    }
}

/// The load shown is the first field of `/proc/loadavg`: a prefix of its text
/// that holds no space and that a space follows (or nothing, where the text holds
/// no space).
pub proof fn lemma_load_is_first_field(raw: Seq<char>)
    ensures
        !load_text(raw).contains(' '),
        load_text(raw) == raw.take(load_text(raw).len() as int),
        raw.contains(' ') ==> raw[load_text(raw).len() as int] == ' ',
{
    lemma_take_until(raw, ' ');
    if !raw.contains(' ') {
        assert(raw.take(0) =~= Seq::<char>::empty());
    } else {
        let t = take_until(raw, ' ');
        if t.len() == raw.len() {
            let k = choose|k: int| 0 <= k < raw.len() && raw[k] == ' ';
            assert(t[k] == ' ');
        }
    }
}

} // verus!
