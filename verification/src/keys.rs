//! The parts that keys are built from.

use crate::model::decimal;
use crate::model::digit;
use crate::model::joined_key;
use vstd::prelude::*;

verus! {

/// Appends the decimal digit for `d` to `text`.
fn push_digit(text: &mut String, d: usize)
    requires
        d < 10,
    ensures
        final(text)@ == old(text)@.push(digit(d as nat)),
{
    proof {
        reveal_strlit("0");
        reveal_strlit("1");
        reveal_strlit("2");
        reveal_strlit("3");
        reveal_strlit("4");
        reveal_strlit("5");
        reveal_strlit("6");
        reveal_strlit("7");
        reveal_strlit("8");
        reveal_strlit("9");
    }
    let glyph = if d == 0 {
        "0"
    } else if d == 1 {
        "1"
    } else if d == 2 {
        "2"
    } else if d == 3 {
        "3"
    } else if d == 4 {
        "4"
    } else if d == 5 {
        "5"
    } else if d == 6 {
        "6"
    } else if d == 7 {
        "7"
    } else if d == 8 {
        "8"
    } else {
        "9"
    };
    assert(glyph@ =~= seq![digit(d as nat)]);
    text.append(glyph);
    assert(text@ =~= old(text)@.push(digit(d as nat)));
}

/// Appends `n` in decimal to `text`.
pub fn push_decimal(text: &mut String, n: usize)
    ensures
        final(text)@ == old(text)@ + decimal(n as nat),
    decreases n,
{
    if n >= 10 {
        push_decimal(text, n / 10);
    }
    push_digit(text, n % 10);
    assert(text@ =~= old(text)@ + decimal(n as nat));
}

/// `index` in decimal, as it stands in a key.
pub fn index_text(index: usize) -> (r: String)
    ensures
        r@ == decimal(index as nat),
{
    let mut text = String::new();
    push_decimal(&mut text, index);
    assert(text@ =~= decimal(index as nat));
    text
}

/// Builds the key of a child from the key of its parent: below the root,
/// the parent's key, `opening`, the child's own `segment` and `closing`; at
/// the root, where `depth` is 0, the segment alone.
pub fn child_key(parent_key: &str, opening: &str, segment: &str, closing: &str, depth: u32) -> (r:
    String)
    ensures
        r@ == joined_key(parent_key@, opening@, segment@, closing@, depth as nat),
{
    if depth > 0 {
        let mut key = parent_key.to_owned();
        key.append(opening);
        key.append(segment);
        key.append(closing);
        key
    } else {
        segment.to_owned()
    }
}

} // verus!
