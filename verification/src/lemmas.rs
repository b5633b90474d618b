//! Facts about the model that the walk and the laws rest on.

use crate::error::ErrorView;
use crate::model::all_writable;
use crate::model::array_leaves;
use crate::model::has_key;
use crate::model::hollow;
use crate::model::is_scalar;
use crate::model::extends;
use crate::model::keys_distinct;
use crate::model::repeats;
use crate::model::leaves;
use crate::model::object_leaves;
use crate::model::table;
use crate::model::write_leaf;
use crate::model::writable;
use crate::model::write_leaves;
use crate::model::write_until_error;
use crate::model::Json;
use crate::model::Settings;
use vstd::prelude::*;

verus! {

/// A key is in the table of `entries` exactly if one of them stands under it.
pub proof fn lemma_table_keys(entries: Seq<(Seq<char>, Json)>, key: Seq<char>)
    ensures
        table(entries).contains_key(key) <==> has_key(entries, key),
    decreases entries.len(),
{
    if entries.len() > 0 {
        let front = entries.drop_last();
        lemma_table_keys(front, key);
        if has_key(entries, key) {
            let i = choose|i: int| 0 <= i < entries.len() && (#[trigger] entries[i]).0 == key;
            if i < entries.len() - 1 {
                assert(front[i].0 == key);
            }
        }
        if has_key(front, key) {
            let i = choose|i: int| 0 <= i < front.len() && (#[trigger] front[i]).0 == key;
            assert(entries[i].0 == key);
        }
        if entries.last().0 == key {
            assert(entries[entries.len() - 1].0 == key);
        }
    }
}

/// Writing a single value is `write_leaf`.
pub proof fn lemma_write_one(flat: Map<Seq<char>, Json>, leaf: (Seq<char>, Json))
    ensures
        write_leaves(flat, seq![leaf]) == write_leaf(flat, leaf),
{
    let one = seq![leaf];
    assert(one.drop_last() =~= Seq::empty());
    assert(write_leaves(flat, one.drop_last()) == Ok::<Map<Seq<char>, Json>, ErrorView>(flat));
    assert(one.last() == leaf);
}

/// Writing `a` and then `b` is writing `a + b`; an error in `a` is the error
/// of the whole.
pub proof fn lemma_write_concat(
    flat: Map<Seq<char>, Json>,
    a: Seq<(Seq<char>, Json)>,
    b: Seq<(Seq<char>, Json)>,
)
    ensures
        write_leaves(flat, a + b) == match write_leaves(flat, a) {
            Ok(sofar) => write_leaves(sofar, b),
            Err(e) => Err(e),
        },
    decreases b.len(),
{
    if b.len() == 0 {
        assert(a + b =~= a);
    } else {
        lemma_write_concat(flat, a, b.drop_last());
        assert((a + b).drop_last() =~= a + b.drop_last());
        assert((a + b).last() == b.last());
    }
}

/// Below the root the depth does not matter: the same values are written
/// under the same keys at every depth above 0.
pub proof fn lemma_leaves_below_root(cfg: Settings, node: Json, key: Seq<char>, d1: nat, d2: nat)
    requires
        d1 > 0,
        d2 > 0,
    ensures
        leaves(cfg, node, key, d1) == leaves(cfg, node, key, d2),
    decreases node, 0nat,
{
    match node {
        Json::Object(entries) => {
            lemma_object_leaves_below_root(cfg, entries, key, d1, d2, entries.len());
        },
        Json::Array(items) => {
            lemma_array_leaves_below_root(cfg, items, key, d1, d2, items.len());
        },
        _ => {},
    }
}

pub proof fn lemma_object_leaves_below_root(
    cfg: Settings,
    entries: Seq<(Seq<char>, Json)>,
    key: Seq<char>,
    d1: nat,
    d2: nat,
    n: nat,
)
    requires
        d1 > 0,
        d2 > 0,
    ensures
        object_leaves(cfg, entries, key, d1, n) == object_leaves(cfg, entries, key, d2, n),
    decreases entries, n,
{
    if n > 0 && n <= entries.len() {
        lemma_object_leaves_below_root(cfg, entries, key, d1, d2, (n - 1) as nat);
        lemma_leaves_below_root(
            cfg,
            entries[n - 1].1,
            key + cfg.key_separator + entries[n - 1].0,
            d1 + 1,
            d2 + 1,
        );
    }
}

pub proof fn lemma_array_leaves_below_root(
    cfg: Settings,
    items: Seq<Json>,
    key: Seq<char>,
    d1: nat,
    d2: nat,
    n: nat,
)
    requires
        d1 > 0,
        d2 > 0,
    ensures
        array_leaves(cfg, items, key, d1, n) == array_leaves(cfg, items, key, d2, n),
    decreases items, n,
{
    if n > 0 && n <= items.len() {
        lemma_array_leaves_below_root(cfg, items, key, d1, d2, (n - 1) as nat);
        lemma_leaves_below_root(
            cfg,
            items[n - 1],
            crate::model::array_key(cfg, key, (n - 1) as nat, d1),
            d1 + 1,
            d2 + 1,
        );
    }
}

/// Once writing the first `i` entries of an object has failed, writing more
/// of them fails in the same way.
pub proof fn lemma_object_error_stays(
    cfg: Settings,
    entries: Seq<(Seq<char>, Json)>,
    key: Seq<char>,
    depth: nat,
    flat: Map<Seq<char>, Json>,
    i: nat,
    n: nat,
)
    requires
        i <= n <= entries.len(),
        write_leaves(flat, object_leaves(cfg, entries, key, depth, i)) is Err,
    ensures
        write_leaves(flat, object_leaves(cfg, entries, key, depth, n)) == write_leaves(
            flat,
            object_leaves(cfg, entries, key, depth, i),
        ),
        write_until_error(flat, object_leaves(cfg, entries, key, depth, n)) == write_until_error(
            flat,
            object_leaves(cfg, entries, key, depth, i),
        ),
    decreases n,
{
    if i < n {
        lemma_object_error_stays(cfg, entries, key, depth, flat, i, (n - 1) as nat);
        lemma_until_error_concat(
            flat,
            object_leaves(cfg, entries, key, depth, (n - 1) as nat),
            leaves(
                cfg,
                entries[n - 1].1,
                crate::model::object_key(cfg, key, entries[n - 1].0, depth),
                depth + 1,
            ),
        );
        lemma_write_concat(
            flat,
            object_leaves(cfg, entries, key, depth, (n - 1) as nat),
            leaves(
                cfg,
                entries[n - 1].1,
                crate::model::object_key(cfg, key, entries[n - 1].0, depth),
                depth + 1,
            ),
        );
    }
}

/// Once writing the first `i` items of an array has failed, writing more of
/// them fails in the same way.
pub proof fn lemma_array_error_stays(
    cfg: Settings,
    items: Seq<Json>,
    key: Seq<char>,
    depth: nat,
    flat: Map<Seq<char>, Json>,
    i: nat,
    n: nat,
)
    requires
        i <= n <= items.len(),
        write_leaves(flat, array_leaves(cfg, items, key, depth, i)) is Err,
    ensures
        write_leaves(flat, array_leaves(cfg, items, key, depth, n)) == write_leaves(
            flat,
            array_leaves(cfg, items, key, depth, i),
        ),
        write_until_error(flat, array_leaves(cfg, items, key, depth, n)) == write_until_error(
            flat,
            array_leaves(cfg, items, key, depth, i),
        ),
    decreases n,
{
    if i < n {
        lemma_array_error_stays(cfg, items, key, depth, flat, i, (n - 1) as nat);
        lemma_until_error_concat(
            flat,
            array_leaves(cfg, items, key, depth, (n - 1) as nat),
            leaves(
                cfg,
                items[n - 1],
                crate::model::array_key(cfg, key, (n - 1) as nat, depth),
                depth + 1,
            ),
        );
        lemma_write_concat(
            flat,
            array_leaves(cfg, items, key, depth, (n - 1) as nat),
            leaves(
                cfg,
                items[n - 1],
                crate::model::array_key(cfg, key, (n - 1) as nat, depth),
                depth + 1,
            ),
        );
    }
}

/// What writing into an empty map comes to: an error at the first value
/// whose path is in use, which names that path; the table of everything
/// written where there is no such value.
pub proof fn lemma_write_outcome(written: Seq<(Seq<char>, Json)>)
    ensures
        match write_leaves(Map::empty(), written) {
            Ok(flat) => flat == table(written) && forall|j: int|
                0 <= j < written.len() ==> !#[trigger] repeats(written, j),
            Err(e) => exists|j: int|
                0 <= j < written.len() && #[trigger] repeats(written, j) && (forall|i: int|
                    0 <= i < j ==> !#[trigger] repeats(written, i)) && e
                    == ErrorView::KeyWillBeOverwritten(written[j].0),
        },
    decreases written.len(),
{
    if written.len() > 0 {
        let front = written.drop_last();
        let n = written.len() - 1;
        lemma_write_outcome(front);
        assert forall|j: int| 0 <= j < n implies repeats(front, j) == repeats(written, j) by {
            assert(front.take(j) =~= written.take(j));
        }
        assert(written.take(n) =~= front);
        lemma_table_keys(front, written[n].0);
        match write_leaves(Map::empty(), front) {
            Ok(sofar) => {
                if sofar.contains_key(written[n].0) {
                    assert(repeats(written, n));
                } else {
                    assert(!repeats(written, n));
                    assert forall|j: int| 0 <= j < written.len() implies !#[trigger] repeats(
                        written,
                        j,
                    ) by {
                        if j < n {
                            assert(repeats(front, j) == repeats(written, j));
                        }
                    }
                }
            },
            Err(e) => {
                let j = choose|j: int|
                    0 <= j < front.len() && #[trigger] repeats(front, j) && (forall|i: int|
                        0 <= i < j ==> !#[trigger] repeats(front, i)) && e
                        == ErrorView::KeyWillBeOverwritten(front[j].0);
                assert(repeats(written, j));
                assert forall|i: int| 0 <= i < j implies !#[trigger] repeats(written, i) by {
                    assert(repeats(front, i) == repeats(written, i));
                }
            },
        }
    }
}

/// In a table, the last value written under a key is the one found there.
pub proof fn lemma_table_last(entries: Seq<(Seq<char>, Json)>, i: int)
    requires
        0 <= i < entries.len(),
        forall|j: int| i < j < entries.len() ==> (#[trigger] entries[j]).0 != entries[i].0,
    ensures
        table(entries).contains_key(entries[i].0),
        table(entries)[entries[i].0] == entries[i].1,
    decreases entries.len(),
{
    if i < entries.len() - 1 {
        let front = entries.drop_last();
        assert(front[i] == entries[i]);
        assert forall|j: int| i < j < front.len() implies (#[trigger] front[j]).0
            != front[i].0 by {
            assert(front[j] == entries[j]);
        }
        lemma_table_last(front, i);
        assert(entries[entries.len() - 1].0 != entries[i].0);
    }
}

/// Every value of a table is one of the entries it was made from.
pub proof fn lemma_table_values(entries: Seq<(Seq<char>, Json)>, key: Seq<char>)
    requires
        table(entries).contains_key(key),
    ensures
        exists|i: int|
            0 <= i < entries.len() && (#[trigger] entries[i]).0 == key && table(entries)[key]
                == entries[i].1,
    decreases entries.len(),
{
    if entries.len() > 0 {
        let front = entries.drop_last();
        let n = entries.len() - 1;
        if entries[n].0 == key {
            assert(entries[n].0 == key && table(entries)[key] == entries[n].1);
        } else {
            lemma_table_values(front, key);
            let i = choose|i: int|
                0 <= i < front.len() && (#[trigger] front[i]).0 == key && table(front)[key]
                    == front[i].1;
            assert(entries[i].0 == key && table(entries)[key] == entries[i].1);
        }
    }
}

/// Entries of distinct keys are written without error.
pub proof fn lemma_write_distinct(entries: Seq<(Seq<char>, Json)>)
    requires
        keys_distinct(entries),
    ensures
        write_leaves(Map::empty(), entries) == Ok::<Map<Seq<char>, Json>, ErrorView>(
            table(entries),
        ),
{
    lemma_write_outcome(entries);
    if write_leaves(Map::empty(), entries) is Err {
        let j = choose|j: int| 0 <= j < entries.len() && #[trigger] repeats(entries, j);
        let front = entries.take(j);
        let i = choose|i: int| 0 <= i < front.len() && (#[trigger] front[i]).0 == entries[j].0;
        assert(entries[i].0 == entries[j].0);
    }
}

/// At the root, an object of scalars writes its own entries.
pub proof fn lemma_scalar_entries(cfg: Settings, entries: Seq<(Seq<char>, Json)>, n: nat)
    requires
        n <= entries.len(),
        forall|i: int| 0 <= i < entries.len() ==> is_scalar(#[trigger] entries[i].1),
    ensures
        object_leaves(cfg, entries, Seq::empty(), 0, n) == entries.take(n as int),
    decreases n,
{
    if n > 0 {
        lemma_scalar_entries(cfg, entries, (n - 1) as nat);
        let entry = entries[n - 1];
        assert(is_scalar(entry.1));
        assert(crate::model::object_key(cfg, Seq::empty(), entry.0, 0) == entry.0);
        assert(leaves(cfg, entry.1, entry.0, 1) == seq![(entry.0, entry.1)]);
        assert(entries.take(n as int) =~= entries.take(n - 1) + seq![entry]);
    } else {
        assert(object_leaves(cfg, entries, Seq::empty(), 0, n) =~= entries.take(n as int));
    }
}

/// Where empty arrays and objects are not preserved, a hollow value writes
/// nothing.
pub proof fn lemma_hollow_leaves(cfg: Settings, node: Json, key: Seq<char>, depth: nat)
    requires
        !cfg.preserve_empty_arrays,
        !cfg.preserve_empty_objects,
        hollow(node),
    ensures
        leaves(cfg, node, key, depth) == Seq::<(Seq<char>, Json)>::empty(),
    decreases node, 0nat,
{
    match node {
        Json::Object(entries) => {
            lemma_hollow_object_leaves(cfg, entries, key, depth, entries.len());
        },
        Json::Array(items) => {
            lemma_hollow_array_leaves(cfg, items, key, depth, items.len());
        },
        _ => {},
    }
}

pub proof fn lemma_hollow_object_leaves(
    cfg: Settings,
    entries: Seq<(Seq<char>, Json)>,
    key: Seq<char>,
    depth: nat,
    n: nat,
)
    requires
        !cfg.preserve_empty_arrays,
        !cfg.preserve_empty_objects,
        forall|i: int| 0 <= i < entries.len() ==> hollow(#[trigger] entries[i].1),
    ensures
        object_leaves(cfg, entries, key, depth, n) == Seq::<(Seq<char>, Json)>::empty(),
    decreases entries, n,
{
    if n > 0 && n <= entries.len() {
        lemma_hollow_object_leaves(cfg, entries, key, depth, (n - 1) as nat);
        assert(hollow(entries[n - 1].1));
        lemma_hollow_leaves(
            cfg,
            entries[n - 1].1,
            crate::model::object_key(cfg, key, entries[n - 1].0, depth),
            depth + 1,
        );
        assert(object_leaves(cfg, entries, key, depth, n) =~= Seq::empty());
    }
}

pub proof fn lemma_hollow_array_leaves(
    cfg: Settings,
    items: Seq<Json>,
    key: Seq<char>,
    depth: nat,
    n: nat,
)
    requires
        !cfg.preserve_empty_arrays,
        !cfg.preserve_empty_objects,
        forall|i: int| 0 <= i < items.len() ==> hollow(#[trigger] items[i]),
    ensures
        array_leaves(cfg, items, key, depth, n) == Seq::<(Seq<char>, Json)>::empty(),
    decreases items, n,
{
    if n > 0 && n <= items.len() {
        lemma_hollow_array_leaves(cfg, items, key, depth, (n - 1) as nat);
        assert(hollow(items[n - 1]));
        lemma_hollow_leaves(
            cfg,
            items[n - 1],
            crate::model::array_key(cfg, key, (n - 1) as nat, depth),
            depth + 1,
        );
        assert(array_leaves(cfg, items, key, depth, n) =~= Seq::empty());
    }
}

proof fn lemma_all_writable_concat(
    cfg: Settings,
    a: Seq<(Seq<char>, Json)>,
    b: Seq<(Seq<char>, Json)>,
)
    requires
        all_writable(cfg, a),
        all_writable(cfg, b),
    ensures
        all_writable(cfg, a + b),
{
    assert forall|i: int| 0 <= i < (a + b).len() implies writable(
        cfg,
        (#[trigger] (a + b)[i]).1,
    ) by {
        if i < a.len() {
            assert((a + b)[i] == a[i]);
        } else {
            assert((a + b)[i] == b[i - a.len()]);
        }
    }
}

/// Only scalars and preserved empty arrays and objects are written.
pub proof fn lemma_leaves_writable(cfg: Settings, node: Json, key: Seq<char>, depth: nat)
    ensures
        all_writable(cfg, leaves(cfg, node, key, depth)),
    decreases node, 0nat,
{
    match node {
        Json::Object(entries) => {
            lemma_object_leaves_writable(cfg, entries, key, depth, entries.len());
        },
        Json::Array(items) => {
            lemma_array_leaves_writable(cfg, items, key, depth, items.len());
        },
        _ => {},
    }
}

pub proof fn lemma_object_leaves_writable(
    cfg: Settings,
    entries: Seq<(Seq<char>, Json)>,
    key: Seq<char>,
    depth: nat,
    n: nat,
)
    ensures
        all_writable(cfg, object_leaves(cfg, entries, key, depth, n)),
    decreases entries, n,
{
    if n > 0 && n <= entries.len() {
        let child_key = crate::model::object_key(cfg, key, entries[n - 1].0, depth);
        lemma_object_leaves_writable(cfg, entries, key, depth, (n - 1) as nat);
        lemma_leaves_writable(cfg, entries[n - 1].1, child_key, depth + 1);
        lemma_all_writable_concat(
            cfg,
            object_leaves(cfg, entries, key, depth, (n - 1) as nat),
            leaves(cfg, entries[n - 1].1, child_key, depth + 1),
        );
    }
}

pub proof fn lemma_array_leaves_writable(
    cfg: Settings,
    items: Seq<Json>,
    key: Seq<char>,
    depth: nat,
    n: nat,
)
    ensures
        all_writable(cfg, array_leaves(cfg, items, key, depth, n)),
    decreases items, n,
{
    if n > 0 && n <= items.len() {
        let child_key = crate::model::array_key(cfg, key, (n - 1) as nat, depth);
        lemma_array_leaves_writable(cfg, items, key, depth, (n - 1) as nat);
        lemma_leaves_writable(cfg, items[n - 1], child_key, depth + 1);
        lemma_all_writable_concat(
            cfg,
            array_leaves(cfg, items, key, depth, (n - 1) as nat),
            leaves(cfg, items[n - 1], child_key, depth + 1),
        );
    }
}

/// A table of entries with distinct keys has one entry for each of them.
pub proof fn lemma_table_len(entries: Seq<(Seq<char>, Json)>)
    requires
        keys_distinct(entries),
    ensures
        table(entries).dom().finite(),
        table(entries).len() == entries.len(),
    decreases entries.len(),
{
    if entries.len() > 0 {
        let front = entries.drop_last();
        let last = entries.last();
        assert forall|i: int, j: int| 0 <= i < j < front.len() implies front[i].0
            != front[j].0 by {
            assert(front[i] == entries[i] && front[j] == entries[j]);
        }
        lemma_table_len(front);
        lemma_table_keys(front, last.0);
        if has_key(front, last.0) {
            let i = choose|i: int| 0 <= i < front.len() && (#[trigger] front[i]).0 == last.0;
            assert(entries[i].0 == entries[entries.len() - 1].0);
        }
        assert(table(entries).dom() =~= table(front).dom().insert(last.0));
    }
}

/// Where writing succeeds, the map it leaves is the map it returns.
pub proof fn lemma_until_error_ok(flat: Map<Seq<char>, Json>, written: Seq<(Seq<char>, Json)>)
    requires
        write_leaves(flat, written) is Ok,
    ensures
        write_until_error(flat, written) == write_leaves(flat, written)->Ok_0,
{
}

/// Writing a single value leaves the map with it, or as it was where its key
/// is in use.
pub proof fn lemma_until_error_one(flat: Map<Seq<char>, Json>, leaf: (Seq<char>, Json))
    ensures
        write_until_error(flat, seq![leaf]) == if flat.contains_key(leaf.0) {
            flat
        } else {
            flat.insert(leaf.0, leaf.1)
        },
{
    let one = seq![leaf];
    assert(one.drop_last() =~= Seq::empty());
    assert(write_leaves(flat, one.drop_last()) == Ok::<Map<Seq<char>, Json>, ErrorView>(flat));
    assert(one.last() == leaf);
}

/// Writing `a + b` leaves what writing `b` leaves after `a`, and what
/// writing `a` leaves where that fails.
pub proof fn lemma_until_error_concat(
    flat: Map<Seq<char>, Json>,
    a: Seq<(Seq<char>, Json)>,
    b: Seq<(Seq<char>, Json)>,
)
    ensures
        write_until_error(flat, a + b) == match write_leaves(flat, a) {
            Ok(sofar) => write_until_error(sofar, b),
            Err(_) => write_until_error(flat, a),
        },
    decreases b.len(),
{
    if b.len() == 0 {
        assert(a + b =~= a);
        if write_leaves(flat, a) is Ok {
            lemma_until_error_ok(flat, a);
        }
    } else {
        lemma_until_error_concat(flat, a, b.drop_last());
        lemma_write_concat(flat, a, b.drop_last());
        assert((a + b).drop_last() =~= a + b.drop_last());
        assert((a + b).last() == b.last());
    }
}

/// Writing only adds: whatever stood in the map stands there afterwards,
/// under the same key and with the same value, error or not.
pub proof fn lemma_until_error_extends(
    flat: Map<Seq<char>, Json>,
    written: Seq<(Seq<char>, Json)>,
)
    ensures
        extends(write_until_error(flat, written), flat),
        write_leaves(flat, written) matches Ok(all) ==> extends(all, flat),
    decreases written.len(),
{
    if written.len() > 0 {
        lemma_until_error_extends(flat, written.drop_last());
    }
}

/// Where writing into a finite map succeeds, the map gains one entry for
/// each value written.
pub proof fn lemma_write_len(flat: Map<Seq<char>, Json>, written: Seq<(Seq<char>, Json)>)
    requires
        flat.dom().finite(),
        write_leaves(flat, written) is Ok,
    ensures
        write_leaves(flat, written)->Ok_0.dom().finite(),
        write_leaves(flat, written)->Ok_0.len() == flat.len() + written.len(),
    decreases written.len(),
{
    if written.len() > 0 {
        let front = written.drop_last();
        lemma_write_len(flat, front);
        let sofar = write_leaves(flat, front)->Ok_0;
        assert(write_leaves(flat, written)->Ok_0.dom() =~= sofar.dom().insert(written.last().0));
    }
}

/// Whether the path of each of `written` begins with `key`.
pub open spec fn all_under(key: Seq<char>, written: Seq<(Seq<char>, Json)>) -> bool {
    forall|i: int| 0 <= i < written.len() ==> key.is_prefix_of((#[trigger] written[i]).0)
}

proof fn lemma_all_under_concat(
    key: Seq<char>,
    a: Seq<(Seq<char>, Json)>,
    b: Seq<(Seq<char>, Json)>,
)
    requires
        all_under(key, a),
        all_under(key, b),
    ensures
        all_under(key, a + b),
{
    assert forall|i: int| 0 <= i < (a + b).len() implies key.is_prefix_of(
        (#[trigger] (a + b)[i]).0,
    ) by {
        if i < a.len() {
            assert((a + b)[i] == a[i]);
        } else {
            assert((a + b)[i] == b[i - a.len()]);
        }
    }
}

proof fn lemma_all_under_parent(
    key: Seq<char>,
    child: Seq<char>,
    written: Seq<(Seq<char>, Json)>,
)
    requires
        key.is_prefix_of(child),
        all_under(child, written),
    ensures
        all_under(key, written),
{
    assert forall|i: int| 0 <= i < written.len() implies key.is_prefix_of(
        (#[trigger] written[i]).0,
    ) by {
        let path = written[i].0;
        assert(child.is_prefix_of(path));
        assert(key =~= child.subrange(0, key.len() as int));
        assert(child =~= path.subrange(0, child.len() as int));
        assert(key =~= path.subrange(0, key.len() as int));
    }
}

/// Below the root, the path of every value written for `node` begins with
/// the key of `node`.
pub proof fn lemma_leaves_under_parent(cfg: Settings, node: Json, key: Seq<char>, depth: nat)
    requires
        depth >= 1,
    ensures
        all_under(key, leaves(cfg, node, key, depth)),
    decreases node, 0nat,
{
    match node {
        Json::Object(entries) => {
            lemma_object_leaves_under_parent(cfg, entries, key, depth, entries.len());
        },
        Json::Array(items) => {
            lemma_array_leaves_under_parent(cfg, items, key, depth, items.len());
        },
        _ => {},
    }
    assert(key.is_prefix_of(key)) by {
        assert(key.subrange(0, key.len() as int) =~= key);
    }
}

pub proof fn lemma_object_leaves_under_parent(
    cfg: Settings,
    entries: Seq<(Seq<char>, Json)>,
    key: Seq<char>,
    depth: nat,
    n: nat,
)
    requires
        depth >= 1,
    ensures
        all_under(key, object_leaves(cfg, entries, key, depth, n)),
    decreases entries, n,
{
    if n > 0 && n <= entries.len() {
        let child_key = crate::model::object_key(cfg, key, entries[n - 1].0, depth);
        let below = leaves(cfg, entries[n - 1].1, child_key, depth + 1);
        lemma_object_leaves_under_parent(cfg, entries, key, depth, (n - 1) as nat);
        lemma_leaves_under_parent(cfg, entries[n - 1].1, child_key, depth + 1);
        assert(key.is_prefix_of(child_key)) by {
            assert(child_key.subrange(0, key.len() as int) =~= key);
        }
        lemma_all_under_parent(key, child_key, below);
        lemma_all_under_concat(
            key,
            object_leaves(cfg, entries, key, depth, (n - 1) as nat),
            below,
        );
    }
}

pub proof fn lemma_array_leaves_under_parent(
    cfg: Settings,
    items: Seq<Json>,
    key: Seq<char>,
    depth: nat,
    n: nat,
)
    requires
        depth >= 1,
    ensures
        all_under(key, array_leaves(cfg, items, key, depth, n)),
    decreases items, n,
{
    if n > 0 && n <= items.len() {
        let child_key = crate::model::array_key(cfg, key, (n - 1) as nat, depth);
        let below = leaves(cfg, items[n - 1], child_key, depth + 1);
        lemma_array_leaves_under_parent(cfg, items, key, depth, (n - 1) as nat);
        lemma_leaves_under_parent(cfg, items[n - 1], child_key, depth + 1);
        assert(key.is_prefix_of(child_key)) by {
            assert(child_key.subrange(0, key.len() as int) =~= key);
        }
        lemma_all_under_parent(key, child_key, below);
        lemma_all_under_concat(key, array_leaves(cfg, items, key, depth, (n - 1) as nat), below);
    }
}

/// Writing fails only for a key that is in use.
pub proof fn lemma_write_error_kind(flat: Map<Seq<char>, Json>, written: Seq<(Seq<char>, Json)>)
    ensures
        write_leaves(flat, written) matches Err(e) ==> e is KeyWillBeOverwritten,
    decreases written.len(),
{
    if written.len() > 0 {
        lemma_write_error_kind(flat, written.drop_last());
    }
}

} // verus!
