//! The mathematical model: JSON documents as values, and what flattening
//! makes of them.

use crate::error::ErrorView;
use vstd::prelude::*;

verus! {

/// A JSON document as a mathematical value.
///
/// An object lists its entries in the order in which it hands them out; an
/// object that a JSON map stands for never lists a key twice.
pub enum Json {
    Null,
    Bool(bool),
    /// A number, by its JSON text.
    Number(Seq<char>),
    String(Seq<char>),
    Array(Seq<Json>),
    Object(Seq<(Seq<char>, Json)>),
}

/// How array positions are written, as a mathematical value.
pub enum ArrayFormattingView {
    Plain,
    Surrounded { start: Seq<char>, end: Seq<char> },
}

/// A flattener's configuration, as a mathematical value.
pub struct Settings {
    pub key_separator: Seq<char>,
    pub array_formatting: ArrayFormattingView,
    pub preserve_empty_arrays: bool,
    pub preserve_empty_objects: bool,
}

/// The decimal digit for `d`, which is below ten.
pub open spec fn digit(d: nat) -> char {
    if d == 0 {
        '0'
    } else if d == 1 {
        '1'
    } else if d == 2 {
        '2'
    } else if d == 3 {
        '3'
    } else if d == 4 {
        '4'
    } else if d == 5 {
        '5'
    } else if d == 6 {
        '6'
    } else if d == 7 {
        '7'
    } else if d == 8 {
        '8'
    } else {
        '9'
    }
}

/// `n` in decimal, without leading zeros.
pub open spec fn decimal(n: nat) -> Seq<char>
    decreases n,
{
    if n < 10 {
        seq![digit(n)]
    } else {
        decimal(n / 10).push(digit(n % 10))
    }
}

/// A child's path made of its parent's: below the root, `parent`, `opening`,
/// the child's own `segment` and `closing`; at depth 0, the segment alone.
pub open spec fn joined_key(
    parent: Seq<char>,
    opening: Seq<char>,
    segment: Seq<char>,
    closing: Seq<char>,
    depth: nat,
) -> Seq<char> {
    if depth > 0 {
        parent + opening + segment + closing
    } else {
        segment
    }
}

/// The path of the entry `key` of an object whose own path is `parent`.
/// Entries of the root object, at depth 0, are named by their key alone.
pub open spec fn object_key(cfg: Settings, parent: Seq<char>, key: Seq<char>, depth: nat) -> Seq<
    char,
> {
    if depth > 0 {
        parent + cfg.key_separator + key
    } else {
        key
    }
}

/// The path of the item at `index` of an array whose own path is `parent`.
pub open spec fn array_key(cfg: Settings, parent: Seq<char>, index: nat, depth: nat) -> Seq<char> {
    if depth > 0 {
        match cfg.array_formatting {
            ArrayFormattingView::Plain => parent + cfg.key_separator + decimal(index),
            ArrayFormattingView::Surrounded { start, end } => parent + start + decimal(index) + end,
        }
    } else {
        decimal(index)
    }
}

/// Whether `node` is a string, a number, a boolean or null.
pub open spec fn is_scalar(node: Json) -> bool {
    !(node is Array) && !(node is Object)
}

/// The values that flattening `node` writes, each with its path, in the order
/// of the walk: the scalars of the tree and, where the configuration
/// preserves them, its empty arrays and objects.
pub open spec fn leaves(cfg: Settings, node: Json, key: Seq<char>, depth: nat) -> Seq<
    (Seq<char>, Json),
>
    decreases node, 0nat,
{
    match node {
        Json::Object(entries) => {
            if entries.len() == 0 && cfg.preserve_empty_objects {
                seq![(key, node)]
            } else {
                object_leaves(cfg, entries, key, depth, entries.len())
            }
        },
        Json::Array(items) => {
            if items.len() == 0 && cfg.preserve_empty_arrays {
                seq![(key, node)]
            } else {
                array_leaves(cfg, items, key, depth, items.len())
            }
        },
        _ => seq![(key, node)],
    }
}

/// The values written for the first `n` entries of an object at `key`.
pub open spec fn object_leaves(
    cfg: Settings,
    entries: Seq<(Seq<char>, Json)>,
    key: Seq<char>,
    depth: nat,
    n: nat,
) -> Seq<(Seq<char>, Json)>
    decreases entries, n,
{
    if n == 0 || n > entries.len() {
        Seq::empty()
    } else {
        object_leaves(cfg, entries, key, depth, (n - 1) as nat) + leaves(
            cfg,
            entries[n - 1].1,
            object_key(cfg, key, entries[n - 1].0, depth),
            depth + 1,
        )
    }
}

/// The values written for the first `n` items of an array at `key`.
pub open spec fn array_leaves(cfg: Settings, items: Seq<Json>, key: Seq<char>, depth: nat, n: nat) -> Seq<
    (Seq<char>, Json),
>
    decreases items, n,
{
    if n == 0 || n > items.len() {
        Seq::empty()
    } else {
        array_leaves(cfg, items, key, depth, (n - 1) as nat) + leaves(
            cfg,
            items[n - 1],
            array_key(cfg, key, (n - 1) as nat, depth),
            depth + 1,
        )
    }
}

/// Whether no two of `entries` share a key.
pub open spec fn keys_distinct(entries: Seq<(Seq<char>, Json)>) -> bool {
    forall|i: int, j: int| 0 <= i < j < entries.len() ==> entries[i].0 != entries[j].0
}

/// Whether one of `entries` stands under `key`.
pub open spec fn has_key(entries: Seq<(Seq<char>, Json)>, key: Seq<char>) -> bool {
    exists|i: int| 0 <= i < entries.len() && (#[trigger] entries[i]).0 == key
}

/// `entries` as a map from key to value. Of two entries under one key the
/// later one counts.
pub open spec fn table(entries: Seq<(Seq<char>, Json)>) -> Map<Seq<char>, Json>
    decreases entries.len(),
{
    if entries.len() == 0 {
        Map::empty()
    } else {
        table(entries.drop_last()).insert(entries.last().0, entries.last().1)
    }
}

/// Writing one value into the flat map: no value, scalar or preserved empty
/// array or object, takes a key that is in use.
pub open spec fn write_leaf(flat: Map<Seq<char>, Json>, leaf: (Seq<char>, Json)) -> Result<
    Map<Seq<char>, Json>,
    ErrorView,
> {
    if flat.contains_key(leaf.0) {
        Err(ErrorView::KeyWillBeOverwritten(leaf.0))
    } else {
        Ok(flat.insert(leaf.0, leaf.1))
    }
}

/// Writing `written`, first to last, into the flat map: the map that comes
/// of it, or the first error on the way.
pub open spec fn write_leaves(flat: Map<Seq<char>, Json>, written: Seq<(Seq<char>, Json)>) -> Result<
    Map<Seq<char>, Json>,
    ErrorView,
>
    decreases written.len(),
{
    if written.len() == 0 {
        Ok(flat)
    } else {
        match write_leaves(flat, written.drop_last()) {
            Ok(sofar) => write_leaf(sofar, written.last()),
            Err(e) => Err(e),
        }
    }
}

/// The flat map as writing `written` leaves it: with all of `written` in it
/// where that succeeds, and otherwise with those that come before the first
/// one whose key is in use.
pub open spec fn write_until_error(
    flat: Map<Seq<char>, Json>,
    written: Seq<(Seq<char>, Json)>,
) -> Map<Seq<char>, Json>
    decreases written.len(),
{
    if written.len() == 0 {
        flat
    } else {
        match write_leaves(flat, written.drop_last()) {
            Ok(sofar) => match write_leaf(sofar, written.last()) {
                Ok(all) => all,
                Err(_) => sofar,
            },
            Err(_) => write_until_error(flat, written.drop_last()),
        }
    }
}

/// Flattening `node`, which stands at `key` and `depth`, into `flat`. At
/// depth 0 only an object is accepted.
pub open spec fn flatten_node(
    cfg: Settings,
    node: Json,
    key: Seq<char>,
    depth: nat,
    flat: Map<Seq<char>, Json>,
) -> Result<Map<Seq<char>, Json>, ErrorView> {
    if depth == 0 && !(node is Object) {
        Err(ErrorView::FirstLevelMustBeAnObject)
    } else {
        write_leaves(flat, leaves(cfg, node, key, depth))
    }
}

/// The flat map as flattening `node` into `flat` leaves it, error or not: a
/// refused root leaves it as it was, and a used key stops the walk with
/// what was written before.
pub open spec fn flatten_node_state(
    cfg: Settings,
    node: Json,
    key: Seq<char>,
    depth: nat,
    flat: Map<Seq<char>, Json>,
) -> Map<Seq<char>, Json> {
    if depth == 0 && !(node is Object) {
        flat
    } else {
        write_until_error(flat, leaves(cfg, node, key, depth))
    }
}

/// The flat map that `root` flattens to, or the error that flattening it
/// ends in.
pub open spec fn flattened(cfg: Settings, root: Json) -> Result<Map<Seq<char>, Json>, ErrorView> {
    flatten_node(cfg, root, Seq::empty(), 0, Map::empty())
}

/// Whether the path of the value at `j` of `written` is also the path of a
/// value before it.
pub open spec fn repeats(written: Seq<(Seq<char>, Json)>, j: int) -> bool {
    has_key(written.take(j), written[j].0)
}

/// Whether `node` is an array or an object below which no scalar stands.
pub open spec fn hollow(node: Json) -> bool
    decreases node,
{
    match node {
        Json::Object(entries) => forall|i: int|
            0 <= i < entries.len() ==> hollow(#[trigger] entries[i].1),
        Json::Array(items) => forall|i: int| 0 <= i < items.len() ==> hollow(#[trigger] items[i]),
        _ => false,
    }
}

/// Whether `node` may stand in a flat object: a scalar, or an array or
/// object that is empty.
pub open spec fn is_flat_value(node: Json) -> bool {
    match node {
        Json::Object(entries) => entries.len() == 0,
        Json::Array(items) => items.len() == 0,
        _ => true,
    }
}

/// Whether `node` is an object all of whose values are scalars and which
/// flattens to itself under `cfg`: any such object but the empty one where
/// empty objects are preserved.
pub open spec fn is_flat_object(cfg: Settings, node: Json) -> bool {
    &&& node is Object
    &&& forall|i: int| 0 <= i < node->Object_0.len() ==> is_scalar(#[trigger] node->Object_0[i].1)
    &&& node->Object_0.len() > 0 || !cfg.preserve_empty_objects
}

/// Whether `extended` holds every entry of `flat`, under the same key and
/// with the same value.
pub open spec fn extends(extended: Map<Seq<char>, Json>, flat: Map<Seq<char>, Json>) -> bool {
    forall|key: Seq<char>| #[trigger]
        flat.contains_key(key) ==> extended.contains_key(key) && extended[key] == flat[key]
}

/// Whether `node` may be written under the configuration `cfg`: a scalar,
/// or an empty array or object that `cfg` preserves.
pub open spec fn writable(cfg: Settings, node: Json) -> bool {
    match node {
        Json::Object(entries) => entries.len() == 0 && cfg.preserve_empty_objects,
        Json::Array(items) => items.len() == 0 && cfg.preserve_empty_arrays,
        _ => true,
    }
}

/// Whether each of `written` is writable under `cfg`.
pub open spec fn all_writable(cfg: Settings, written: Seq<(Seq<char>, Json)>) -> bool {
    forall|i: int| 0 <= i < written.len() ==> writable(cfg, (#[trigger] written[i]).1)
}

/// The values that flattening the root object `root` writes, each with its
/// path, in the order of the walk.
pub open spec fn root_leaves(cfg: Settings, root: Json) -> Seq<(Seq<char>, Json)> {
    leaves(cfg, root, Seq::empty(), 0)
}

} // verus!
