//! The two fixed tables that a substitution is classified by: the
//! neighbours of each key on a QWERTY keyboard, and the groups of letters
//! that look alike.

use std::collections::HashMap;
use vstd::prelude::*;

verus! {

/// The keys next to `key` on a QWERTY keyboard, for the twenty-six lower-case
/// letters; no other character has neighbours.
pub open spec fn adjacent_keys(key: char) -> Seq<char> {
    match key {
        'q' => seq!['w', 's', 'a'],
        'w' => seq!['q', 'e', 'a', 's', 'd'],
        'e' => seq!['w', 'r', 's', 'd', 'f'],
        'r' => seq!['e', 't', 'd', 'f', 'g'],
        't' => seq!['r', 'y', 'f', 'g', 'h'],
        'y' => seq!['t', 'u', 'g', 'h', 'j'],
        'u' => seq!['y', 'i', 'h', 'j', 'k'],
        'i' => seq!['u', 'o', 'j', 'k', 'l'],
        'o' => seq!['i', 'p', 'k', 'l'],
        'p' => seq!['o', 'l'],
        'a' => seq!['q', 'w', 's', 'x', 'z'],
        's' => seq!['q', 'w', 'e', 'd', 'c', 'x', 'z', 'a'],
        'd' => seq!['w', 'e', 'r', 'f', 'v', 'c', 'x', 's'],
        'f' => seq!['e', 'r', 't', 'g', 'b', 'v', 'c', 'd'],
        'g' => seq!['r', 't', 'y', 'h', 'n', 'b', 'v', 'f'],
        'h' => seq!['t', 'y', 'u', 'j', 'm', 'n', 'b', 'g'],
        'j' => seq!['y', 'u', 'i', 'k', 'm', 'n', 'h'],
        'k' => seq!['u', 'i', 'o', 'l', 'm', 'j'],
        'l' => seq!['i', 'o', 'p', 'k'],
        'z' => seq!['a', 's', 'x'],
        'x' => seq!['a', 's', 'd', 'c', 'z'],
        'c' => seq!['s', 'd', 'f', 'v', 'x'],
        'v' => seq!['d', 'f', 'g', 'b', 'c'],
        'b' => seq!['f', 'g', 'h', 'n', 'v'],
        'n' => seq!['g', 'h', 'j', 'm', 'b'],
        'm' => seq!['h', 'j', 'k', 'n'],
        _ => Seq::empty(),
    }
}

/// The groups of letters that are taken for one another by their shape.
pub open spec fn shape_groups() -> Seq<Seq<char>> {
    seq![
        seq!['a', 'c', 'e', 'o'],
        seq!['b', 'd'],
        seq!['f', 'l'],
        seq!['g', 'q'],
        seq!['m', 'n'],
        seq!['p', 'q'],
        seq!['u', 'v'],
    ]
}

/// Whether `c` is one of the twenty-six lower-case letters.
pub open spec fn is_keyboard_letter(c: char) -> bool {
    'a' <= c <= 'z'
}

/// Whether `other` is listed as a neighbour of `key`.
pub open spec fn is_adjacent_key(key: char, other: char) -> bool {
    adjacent_keys(key).contains(other)
}

/// Whether one of the shape groups holds both `x` and `y`.
pub open spec fn is_similar_shape(x: char, y: char) -> bool {
    exists|g: int|
        0 <= g < shape_groups().len() && (#[trigger] shape_groups()[g]).contains(x)
            && shape_groups()[g].contains(y)
}

/// Whether `table` lists, under the code point of each lower-case letter and
/// under no other key, the neighbours of that letter.
pub open spec fn is_keyboard_table(table: Map<u32, Vec<char>>) -> bool {
    &&& forall|code: u32| table.contains_key(code) <==> 'a' as u32 <= code <= 'z' as u32
    &&& forall|key: char|
        is_keyboard_letter(key) ==> (#[trigger] table[key as u32])@ == adjacent_keys(key)
}

/// Whether `groups` holds the shape groups, in their order.
pub open spec fn is_shape_table(groups: Seq<Vec<char>>) -> bool {
    &&& groups.len() == shape_groups().len()
    &&& forall|g: int| 0 <= g < groups.len() ==> (#[trigger] groups[g])@ == shape_groups()[g]
}

/// The table of keyboard neighbours, keyed by the code point of each
/// lower-case letter.
pub fn close_keyboard_placement_list() -> (table: HashMap<u32, Vec<char>>)
    ensures
        is_keyboard_table(table@),
{
    let mut table: HashMap<u32, Vec<char>> = HashMap::new();
    // Top row.
    table.insert('q' as u32, vec!['w', 's', 'a']);
    table.insert('w' as u32, vec!['q', 'e', 'a', 's', 'd']);
    table.insert('e' as u32, vec!['w', 'r', 's', 'd', 'f']);
    table.insert('r' as u32, vec!['e', 't', 'd', 'f', 'g']);
    table.insert('t' as u32, vec!['r', 'y', 'f', 'g', 'h']);
    table.insert('y' as u32, vec!['t', 'u', 'g', 'h', 'j']);
    table.insert('u' as u32, vec!['y', 'i', 'h', 'j', 'k']);
    table.insert('i' as u32, vec!['u', 'o', 'j', 'k', 'l']);
    table.insert('o' as u32, vec!['i', 'p', 'k', 'l']);
    table.insert('p' as u32, vec!['o', 'l']);

    // Home row.
    table.insert('a' as u32, vec!['q', 'w', 's', 'x', 'z']);
    table.insert('s' as u32, vec!['q', 'w', 'e', 'd', 'c', 'x', 'z', 'a']);
    table.insert('d' as u32, vec!['w', 'e', 'r', 'f', 'v', 'c', 'x', 's']);
    table.insert('f' as u32, vec!['e', 'r', 't', 'g', 'b', 'v', 'c', 'd']);
    table.insert('g' as u32, vec!['r', 't', 'y', 'h', 'n', 'b', 'v', 'f']);
    table.insert('h' as u32, vec!['t', 'y', 'u', 'j', 'm', 'n', 'b', 'g']);
    table.insert('j' as u32, vec!['y', 'u', 'i', 'k', 'm', 'n', 'h']);
    table.insert('k' as u32, vec!['u', 'i', 'o', 'l', 'm', 'j']);
    table.insert('l' as u32, vec!['i', 'o', 'p', 'k']);

    // Bottom row.
    table.insert('z' as u32, vec!['a', 's', 'x']);
    table.insert('x' as u32, vec!['a', 's', 'd', 'c', 'z']);
    table.insert('c' as u32, vec!['s', 'd', 'f', 'v', 'x']);
    table.insert('v' as u32, vec!['d', 'f', 'g', 'b', 'c']);
    table.insert('b' as u32, vec!['f', 'g', 'h', 'n', 'v']);
    table.insert('n' as u32, vec!['g', 'h', 'j', 'm', 'b']);
    table.insert('m' as u32, vec!['h', 'j', 'k', 'n']);

    table
}

/// The table of shape groups.
pub fn similar_shape_list() -> (groups: Vec<Vec<char>>)
    ensures
        is_shape_table(groups@),
{
    let mut groups: Vec<Vec<char>> = Vec::new();

    groups.push(vec!['a', 'c', 'e', 'o']);
    groups.push(vec!['b', 'd']);
    groups.push(vec!['f', 'l']);
    groups.push(vec!['g', 'q']);
    groups.push(vec!['m', 'n']);
    groups.push(vec!['p', 'q']);
    groups.push(vec!['u', 'v']);

    proof {
        assert forall|g: int| 0 <= g < groups@.len() implies (#[trigger] groups@[g])@
            =~= shape_groups()[g] by {}
    }
    groups
}

} // verus!
