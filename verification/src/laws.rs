//! What holds of flattening, whatever the input.

use crate::error::ErrorView;
use crate::lemmas::lemma_hollow_leaves;
use crate::lemmas::lemma_leaves_writable;
use crate::lemmas::lemma_scalar_entries;
use crate::lemmas::lemma_table_last;
use crate::lemmas::lemma_table_len;
use crate::lemmas::lemma_table_values;
use crate::lemmas::lemma_write_distinct;
use crate::lemmas::lemma_write_outcome;
use crate::lemmas::lemma_until_error_extends;
use crate::lemmas::lemma_until_error_one;
use crate::lemmas::lemma_write_one;
use crate::lemmas::lemma_leaves_under_parent;
use crate::lemmas::lemma_write_len;
use crate::model::extends;
use crate::model::flatten_node;
use crate::model::flatten_node_state;
use crate::model::flattened;
use crate::model::hollow;
use crate::model::is_flat_value;
use crate::model::is_scalar;
use crate::model::keys_distinct;
use crate::model::leaves;
use crate::model::repeats;
use crate::model::root_leaves;
use crate::model::table;
use crate::model::writable;
use crate::model::Json;
use crate::model::Settings;
use vstd::prelude::*;

verus! {

/// Only an object is flattened: an array, a string, a number, a boolean or
/// null at the root is refused, under every configuration.
pub proof fn law_root_must_be_object(cfg: Settings, root: Json)
    requires
        !(root is Object),
    ensures
        flattened(cfg, root) == Err::<Map<Seq<char>, Json>, ErrorView>(
            ErrorView::FirstLevelMustBeAnObject,
        ),
{
}

/// Flattening an object ends in one of two ways. Either a value is to be
/// written under a path that is in use: then the result is the error that
/// names the path of the first such value. Or there is no such value: then
/// the result is the table of the values written.
pub proof fn law_first_collision_is_reported(cfg: Settings, root: Json)
    requires
        root is Object,
    ensures
        match flattened(cfg, root) {
            Ok(flat) => flat == table(root_leaves(cfg, root)) && forall|j: int|
                0 <= j < root_leaves(cfg, root).len() ==> !#[trigger] repeats(
                    root_leaves(cfg, root),
                    j,
                ),
            Err(e) => exists|j: int|
                0 <= j < root_leaves(cfg, root).len() && #[trigger] repeats(
                    root_leaves(cfg, root),
                    j,
                ) && (forall|i: int|
                    0 <= i < j ==> !#[trigger] repeats(root_leaves(cfg, root), i)) && e
                    == ErrorView::KeyWillBeOverwritten(root_leaves(cfg, root)[j].0),
        },
{
    lemma_write_outcome(root_leaves(cfg, root));
}

/// An object all of whose values are scalars flattens to itself, whatever
/// the separator and the array formatting. The empty object is left out
/// where empty objects are preserved: it is then written under the empty
/// path.
pub proof fn law_flat_object_unchanged(cfg: Settings, entries: Seq<(Seq<char>, Json)>)
    requires
        keys_distinct(entries),
        forall|i: int| 0 <= i < entries.len() ==> is_scalar(#[trigger] entries[i].1),
        entries.len() > 0 || !cfg.preserve_empty_objects,
    ensures
        flattened(cfg, Json::Object(entries)) == Ok::<Map<Seq<char>, Json>, ErrorView>(
            table(entries),
        ),
{
    lemma_scalar_entries(cfg, entries, entries.len());
    assert(entries.take(entries.len() as int) =~= entries);
    lemma_write_distinct(entries);
}

/// No path is written twice: flattening an object succeeds exactly if the
/// values to be written have paths that differ from one another, and fails
/// with `KeyWillBeOverwritten` otherwise. Where it succeeds, the result has
/// one entry for each value written, under its path.
pub proof fn law_paths_are_unique(cfg: Settings, root: Json)
    requires
        root is Object,
    ensures
        flattened(cfg, root) is Ok <==> keys_distinct(root_leaves(cfg, root)),
        flattened(cfg, root) matches Err(e) ==> e is KeyWillBeOverwritten,
        flattened(cfg, root) matches Ok(flat) ==> flat.dom().finite() && flat.len()
            == root_leaves(cfg, root).len() && forall|i: int|
            0 <= i < root_leaves(cfg, root).len() ==> flat.contains_key(
                (#[trigger] root_leaves(cfg, root)[i]).0,
            ) && flat[root_leaves(cfg, root)[i].0] == root_leaves(cfg, root)[i].1,
{
    let written = root_leaves(cfg, root);
    lemma_write_outcome(written);
    if flattened(cfg, root) is Ok {
        assert forall|i: int, j: int| 0 <= i < j < written.len() implies written[i].0
            != written[j].0 by {
            if written[i].0 == written[j].0 {
                assert(written.take(j)[i].0 == written[j].0);
                assert(repeats(written, j));
            }
        }
        lemma_table_len(written);
        assert forall|i: int| 0 <= i < written.len() implies table(written).contains_key(
            (#[trigger] written[i]).0,
        ) && table(written)[written[i].0] == written[i].1 by {
            lemma_table_last(written, i);
        }
    } else {
        let j = choose|j: int| 0 <= j < written.len() && #[trigger] repeats(written, j);
        let front = written.take(j);
        let i = choose|i: int| 0 <= i < front.len() && (#[trigger] front[i]).0 == written[j].0;
        assert(written[i].0 == written[j].0);
    }
}

/// Where empty arrays and objects are not preserved, an array or object
/// below which no scalar stands writes nothing, wherever it stands.
pub proof fn law_hollow_writes_nothing(cfg: Settings, node: Json, key: Seq<char>, depth: nat)
    requires
        !cfg.preserve_empty_arrays,
        !cfg.preserve_empty_objects,
        hollow(node),
    ensures
        leaves(cfg, node, key, depth) == Seq::<(Seq<char>, Json)>::empty(),
{
    lemma_hollow_leaves(cfg, node, key, depth);
}

/// Where empty arrays and objects are not preserved, an object below which
/// no scalar stands flattens to the empty object.
pub proof fn law_hollow_flattens_to_empty(cfg: Settings, root: Json)
    requires
        !cfg.preserve_empty_arrays,
        !cfg.preserve_empty_objects,
        root is Object,
        hollow(root),
    ensures
        flattened(cfg, root) == Ok::<Map<Seq<char>, Json>, ErrorView>(Map::empty()),
{
    lemma_hollow_leaves(cfg, root, Seq::empty(), 0);
}

/// Every scalar of the input stands in the result under its path, unchanged.
pub proof fn law_scalars_are_copied(cfg: Settings, root: Json, i: int)
    requires
        flattened(cfg, root) is Ok,
        0 <= i < root_leaves(cfg, root).len(),
        is_scalar(root_leaves(cfg, root)[i].1),
    ensures
        flattened(cfg, root)->Ok_0.contains_key(root_leaves(cfg, root)[i].0),
        flattened(cfg, root)->Ok_0[root_leaves(cfg, root)[i].0] == root_leaves(cfg, root)[i].1,
{
    let written = root_leaves(cfg, root);
    lemma_write_outcome(written);
    assert forall|j: int| i < j < written.len() implies (#[trigger] written[j]).0
        != written[i].0 by {
        if written[j].0 == written[i].0 {
            assert(written.take(j)[i].0 == written[j].0);
            assert(repeats(written, j));
        }
    }
    lemma_table_last(written, i);
}

/// Every value of a flattened object is a scalar or an empty array or
/// object, and an empty array or object only where the configuration
/// preserves it.
pub proof fn law_result_is_flat(cfg: Settings, root: Json, key: Seq<char>)
    requires
        flattened(cfg, root) is Ok,
        flattened(cfg, root)->Ok_0.contains_key(key),
    ensures
        is_flat_value(flattened(cfg, root)->Ok_0[key]),
        writable(cfg, flattened(cfg, root)->Ok_0[key]),
{
    let written = root_leaves(cfg, root);
    lemma_write_outcome(written);
    lemma_leaves_writable(cfg, root, Seq::empty(), 0);
    lemma_table_values(written, key);
}

/// Flattening a value into a flat map only adds to the map: whatever stood
/// in it stands there afterwards, under the same key and with the same
/// value, whether flattening succeeds or fails.
pub proof fn law_flattening_only_adds(
    cfg: Settings,
    node: Json,
    key: Seq<char>,
    depth: nat,
    flat: Map<Seq<char>, Json>,
)
    ensures
        extends(flatten_node_state(cfg, node, key, depth, flat), flat),
        flatten_node(cfg, node, key, depth, flat) matches Ok(all) ==> all == flatten_node_state(
            cfg,
            node,
            key,
            depth,
            flat,
        ),
{
    lemma_until_error_extends(flat, leaves(cfg, node, key, depth));
}

/// A root that is refused leaves the flat map as it was.
pub proof fn law_refused_root_writes_nothing(
    cfg: Settings,
    node: Json,
    key: Seq<char>,
    flat: Map<Seq<char>, Json>,
)
    requires
        !(node is Object),
    ensures
        flatten_node(cfg, node, key, 0, flat) == Err::<Map<Seq<char>, Json>, ErrorView>(
            ErrorView::FirstLevelMustBeAnObject,
        ),
        flatten_node_state(cfg, node, key, 0, flat) == flat,
{
}

/// Below the root, a scalar, or an empty array or object that the
/// configuration preserves, is written under its own key and nothing else
/// is: where the key is free, the flat map gains that one entry; where it
/// is in use, flattening fails with that key and the map stays as it was.
pub proof fn law_single_value_is_written(
    cfg: Settings,
    node: Json,
    key: Seq<char>,
    depth: nat,
    flat: Map<Seq<char>, Json>,
)
    requires
        depth >= 1,
        is_flat_value(node),
        writable(cfg, node),
    ensures
        !flat.contains_key(key) ==> flatten_node(cfg, node, key, depth, flat) == Ok::<
            Map<Seq<char>, Json>,
            ErrorView,
        >(flat.insert(key, node)),
        flat.contains_key(key) ==> flatten_node(cfg, node, key, depth, flat) == Err::<
            Map<Seq<char>, Json>,
            ErrorView,
        >(ErrorView::KeyWillBeOverwritten(key)) && flatten_node_state(cfg, node, key, depth, flat)
            == flat,
{
    assert(leaves(cfg, node, key, depth) == seq![(key, node)]);
    lemma_write_one(flat, (key, node));
    lemma_until_error_one(flat, (key, node));
}

/// Where empty arrays and objects are not preserved, flattening an array or
/// object below which no scalar stands succeeds and leaves the flat map as
/// it was.
pub proof fn law_hollow_adds_nothing(
    cfg: Settings,
    node: Json,
    key: Seq<char>,
    depth: nat,
    flat: Map<Seq<char>, Json>,
)
    requires
        !cfg.preserve_empty_arrays,
        !cfg.preserve_empty_objects,
        hollow(node),
        depth >= 1 || node is Object,
    ensures
        flatten_node(cfg, node, key, depth, flat) == Ok::<Map<Seq<char>, Json>, ErrorView>(flat),
        flatten_node_state(cfg, node, key, depth, flat) == flat,
{
    lemma_hollow_leaves(cfg, node, key, depth);
}

/// Where flattening a value into a finite flat map succeeds, the map gains
/// one entry for each value written; below the root, the key of each of
/// them begins with the key of the value that was flattened.
pub proof fn law_success_adds_one_entry_per_value(
    cfg: Settings,
    node: Json,
    key: Seq<char>,
    depth: nat,
    flat: Map<Seq<char>, Json>,
)
    requires
        flat.dom().finite(),
        flatten_node(cfg, node, key, depth, flat) is Ok,
    ensures
        flatten_node(cfg, node, key, depth, flat)->Ok_0.dom().finite(),
        flatten_node(cfg, node, key, depth, flat)->Ok_0.len() == flat.len() + leaves(
            cfg,
            node,
            key,
            depth,
        ).len(),
        depth >= 1 ==> forall|i: int|
            0 <= i < leaves(cfg, node, key, depth).len() ==> key.is_prefix_of(
                (#[trigger] leaves(cfg, node, key, depth)[i]).0,
            ),
{
    lemma_write_len(flat, leaves(cfg, node, key, depth));
    if depth >= 1 {
        lemma_leaves_under_parent(cfg, node, key, depth);
    }
}

} // verus!
