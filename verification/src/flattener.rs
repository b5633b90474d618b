//! The flattener: its configuration and the walk over a JSON value.

use crate::error::Error;
use crate::error::ErrorView;
use crate::json::array_value;
use crate::json::as_array;
use crate::json::as_object;
use crate::json::clone_value;
use crate::json::entries_of;
use crate::json::items_of;
use crate::json::json_of;
use crate::json::map_contains_key;
use crate::json::map_entries;
use crate::json::map_insert;
use crate::json::map_is_empty;
use crate::json::new_map;
use crate::json::object_value;
use crate::keys::child_key;
use crate::keys::index_text;
use crate::lemmas::lemma_array_error_stays;
use crate::lemmas::lemma_leaves_below_root;
use crate::lemmas::lemma_object_error_stays;
use crate::lemmas::lemma_table_keys;
use crate::lemmas::lemma_until_error_concat;
use crate::lemmas::lemma_until_error_extends;
use crate::lemmas::lemma_until_error_ok;
use crate::lemmas::lemma_until_error_one;
use crate::lemmas::lemma_write_concat;
use crate::lemmas::lemma_write_error_kind;
use crate::lemmas::lemma_write_one;
use crate::laws::law_flat_object_unchanged;
use crate::laws::law_hollow_writes_nothing;
use crate::model::array_key;
use crate::model::array_leaves;
use crate::model::extends;
use crate::model::flatten_node;
use crate::model::flatten_node_state;
use crate::model::is_flat_object;
use crate::model::flattened;
use crate::model::hollow;
use crate::model::keys_distinct;
use crate::model::leaves;
use crate::model::object_key;
use crate::model::object_leaves;
use crate::model::table;
use crate::model::writable;
use crate::model::write_leaf;
use crate::model::write_leaves;
use crate::model::write_until_error;
use crate::model::ArrayFormattingView;
use crate::model::Json;
use crate::model::Settings;
use serde_json::Value;
use vstd::prelude::*;

verus! {

/// How the positions of an array are written into a key.
pub enum ArrayFormatting {
    /// The position follows the key separator: `{"a": ["b"]}` gives `{"a.0": "b"}`.
    Plain,
    /// The position stands between `start` and `end`, without the key
    /// separator: with `[` and `]`, `{"a": ["b"]}` gives `{"a[0]": "b"}`.
    Surrounded { start: String, end: String },
}

impl View for ArrayFormatting {
    type V = ArrayFormattingView;

    open spec fn view(&self) -> ArrayFormattingView {
        match self {
            ArrayFormatting::Plain => ArrayFormattingView::Plain,
            ArrayFormatting::Surrounded { start, end } => ArrayFormattingView::Surrounded {
                start: start@,
                end: end@,
            },
        }
    }
}

/// Holds the configuration. Build one, then flatten JSON objects with
/// [`Flattener::flatten`].
pub struct Flattener {
    /// Joins the parts of a key.
    key_separator: String,
    /// How array positions are written.
    array_formatting: ArrayFormatting,
    /// Whether every `[]` is kept.
    preserve_empty_arrays: bool,
    /// Whether every `{}` is kept.
    preserve_empty_objects: bool,
}

impl View for Flattener {
    type V = Settings;

    closed spec fn view(&self) -> Settings {
        Settings {
            key_separator: self.key_separator@,
            array_formatting: self.array_formatting@,
            preserve_empty_arrays: self.preserve_empty_arrays,
            preserve_empty_objects: self.preserve_empty_objects,
        }
    }
}

/// The configuration that [`Flattener::new`] starts from: keys joined by a
/// dot, plain array positions, empty arrays and objects left out.
pub open spec fn default_settings() -> Settings {
    Settings {
        key_separator: seq!['.'],
        array_formatting: ArrayFormattingView::Plain,
        preserve_empty_arrays: false,
        preserve_empty_objects: false,
    }
}

impl Default for Flattener {
    fn default() -> (r: Self)
        ensures
            r@ == default_settings(),
    {
        Flattener::new()
    }
}

impl Flattener {
    /// A flattener with the default configuration.
    #[must_use]
    pub fn new() -> (r: Self)
        ensures
            r@ == default_settings(),
    {
        let key_separator = ".".to_owned();
        proof {
            reveal_strlit(".");
            assert(key_separator@ =~= seq!['.']);
        }
        Flattener {
            array_formatting: ArrayFormatting::Plain,
            key_separator,
            preserve_empty_arrays: false,
            preserve_empty_objects: false,
        }
    }

    /// Changes the string that joins the parts of a key.
    #[must_use]
    pub fn set_key_separator(self, key_separator: &str) -> (r: Self)
        ensures
            r@ == (Settings { key_separator: key_separator@, ..self@ }),
    {
        let mut this = self;
        this.key_separator = key_separator.to_owned();
        this
    }

    /// Changes how array positions are written.
    #[must_use]
    pub fn set_array_formatting(self, array_formatting: ArrayFormatting) -> (r: Self)
        ensures
            r@ == (Settings { array_formatting: array_formatting@, ..self@ }),
    {
        let mut this = self;
        this.array_formatting = array_formatting;
        this
    }

    /// Says whether every empty array `[]` is kept.
    #[must_use]
    pub fn set_preserve_empty_arrays(self, value: bool) -> (r: Self)
        ensures
            r@ == (Settings { preserve_empty_arrays: value, ..self@ }),
    {
        let mut this = self;
        this.preserve_empty_arrays = value;
        this
    }

    /// Says whether every empty object `{}` is kept.
    #[must_use]
    pub fn set_preserve_empty_objects(self, value: bool) -> (r: Self)
        ensures
            r@ == (Settings { preserve_empty_objects: value, ..self@ }),
    {
        let mut this = self;
        this.preserve_empty_objects = value;
        this
    }

    /// Flattens the JSON object `to_flatten`.
    ///
    /// Fails with [`Error::FirstLevelMustBeAnObject`] if `to_flatten` is not
    /// an object, and with [`Error::KeyWillBeOverwritten`] if a value of the
    /// input would be written under a key that is already in use. Otherwise
    /// the result is an object that holds, under its path, every value that
    /// [`leaves`] lists. An object of scalars comes back as it is.
    pub fn flatten(&self, to_flatten: &Value) -> (r: Result<Value, Error>)
        ensures
            !(json_of(*to_flatten) is Object) ==> r matches Err(Error::FirstLevelMustBeAnObject),
            match flattened(self@, json_of(*to_flatten)) {
                Ok(flat) => r matches Ok(value) && json_of(value) is Object && keys_distinct(
                    json_of(value)->Object_0,
                ) && table(json_of(value)->Object_0) == flat,
                Err(e) => r matches Err(err) && err@ == e,
            },
            is_flat_object(self@, json_of(*to_flatten)) ==> (r matches Ok(value) && table(
                json_of(value)->Object_0,
            ) == table(json_of(*to_flatten)->Object_0)),
    {
        let mut flat = new_map();
        match self.flatten_value(to_flatten, String::new(), 0, &mut flat) {
            Ok(()) => {
                proof {
                    if is_flat_object(self@, json_of(*to_flatten)) {
                        law_flat_object_unchanged(self@, json_of(*to_flatten)->Object_0);
                    }
                }
                Ok(object_value(flat))
            },
            Err(e) => {
                proof {
                    if is_flat_object(self@, json_of(*to_flatten)) {
                        law_flat_object_unchanged(self@, json_of(*to_flatten)->Object_0);
                    }
                }
                Err(e)
            },
        }
    }

    /// The depth of what lies directly below `depth`. Only the root is told
    /// apart from the rest, so the count stops at the largest value.
    fn next_depth(depth: u32) -> (r: u32)
        ensures
            r == if depth < u32::MAX {
                (depth + 1) as u32
            } else {
                depth
            },
    {
        if depth < u32::MAX {
            depth + 1
        } else {
            depth
        }
    }

    /// The key of the entry `key` of an object whose own key is `parent_key`
    /// and whose depth is `depth`: below the root, the parent's key, the
    /// separator and `key`; at the root, `key` alone.
    pub fn object_child_key(&self, parent_key: &str, key: &str, depth: u32) -> (r: String)
        ensures
            r@ == object_key(self@, parent_key@, key@, depth as nat),
    {
        let path = child_key(parent_key, self.key_separator.as_str(), key, "", depth);
        proof {
            reveal_strlit("");
            assert(""@ =~= Seq::<char>::empty());
            assert(path@ =~= object_key(self@, parent_key@, key@, depth as nat));
        }
        path
    }

    /// The key of the item at `index` of an array whose own key is
    /// `parent_key` and whose depth is `depth`: below the root, the parent's
    /// key and the position, after the separator or between the configured
    /// `start` and `end`; at depth 0, the position alone.
    pub fn array_child_key(&self, parent_key: &str, index: usize, depth: u32) -> (r: String)
        ensures
            r@ == array_key(self@, parent_key@, index as nat, depth as nat),
    {
        let position = index_text(index);
        let path = match &self.array_formatting {
            ArrayFormatting::Plain => child_key(
                parent_key,
                self.key_separator.as_str(),
                position.as_str(),
                "",
                depth,
            ),
            ArrayFormatting::Surrounded { start, end } => child_key(
                parent_key,
                start.as_str(),
                position.as_str(),
                end.as_str(),
                depth,
            ),
        };
        proof {
            reveal_strlit("");
            assert(""@ =~= Seq::<char>::empty());
            assert(path@ =~= array_key(self@, parent_key@, index as nat, depth as nat));
        }
        path
    }

    /// Writes `value` under `key`, unless `key` is in use: then nothing is
    /// written and the error names the key.
    fn write_value(flattened: &mut serde_json::Map<String, Value>, key: String, value: Value) -> (r:
        Result<(), Error>)
        ensures
            keys_distinct(entries_of(*old(flattened))) ==> keys_distinct(
                entries_of(*final(flattened)),
            ),
            match write_leaf(table(entries_of(*old(flattened))), (key@, json_of(value))) {
                Ok(flat) => r is Ok && table(entries_of(*final(flattened))) == flat,
                Err(e) => r matches Err(err) && err@ == e && *final(flattened) == *old(
                    flattened,
                ),
            },
    {
        proof {
            lemma_table_keys(entries_of(*flattened), key@);
        }
        if map_contains_key(flattened, &key) {
            return Err(Error::KeyWillBeOverwritten(key));
        }
        map_insert(flattened, key, value);
        Ok(())
    }

    /// Flattens `current`, whose path is `parent_key` and whose depth is
    /// `depth`, into `flattened`. Whatever stood in `flattened` stays; on an
    /// error, `flattened` holds what was written before it.
    pub fn flatten_value(
        &self,
        current: &Value,
        parent_key: String,
        depth: u32,
        flattened: &mut serde_json::Map<String, Value>,
    ) -> (r: Result<(), Error>)
        ensures
            keys_distinct(entries_of(*old(flattened))) ==> keys_distinct(
                entries_of(*final(flattened)),
            ),
            match flatten_node(
                self@,
                json_of(*current),
                parent_key@,
                depth as nat,
                table(entries_of(*old(flattened))),
            ) {
                Ok(flat) => r is Ok && table(entries_of(*final(flattened))) == flat,
                Err(e) => r matches Err(err) && err@ == e,
            },
            table(entries_of(*final(flattened))) == flatten_node_state(
                self@,
                json_of(*current),
                parent_key@,
                depth as nat,
                table(entries_of(*old(flattened))),
            ),
            extends(table(entries_of(*final(flattened))), table(entries_of(*old(flattened)))),
            r matches Err(Error::FirstLevelMustBeAnObject) ==> *final(flattened) == *old(
                flattened,
            ),
            json_of(*current) matches Json::Object(entries) ==> keys_distinct(entries),
            (depth > 0 || json_of(*current) is Object) && writable(self@, json_of(*current)) ==> (
            if table(entries_of(*old(flattened))).contains_key(parent_key@) {
                (r matches Err(Error::KeyWillBeOverwritten(key)) && key@ == parent_key@)
                    && *final(flattened) == *old(flattened)
            } else {
                r is Ok && table(entries_of(*final(flattened))) == table(
                    entries_of(*old(flattened)),
                ).insert(parent_key@, json_of(*current))
            }),
            (depth > 0 || json_of(*current) is Object) && hollow(json_of(*current))
                && !self@.preserve_empty_arrays && !self@.preserve_empty_objects ==> r is Ok
                && table(entries_of(*final(flattened))) == table(entries_of(*old(flattened))),
        decreases json_of(*current), 1nat,
    {
        let ghost before = table(entries_of(*flattened));
        proof {
            if hollow(json_of(*current)) && !self@.preserve_empty_arrays
                && !self@.preserve_empty_objects {
                law_hollow_writes_nothing(self@, json_of(*current), parent_key@, depth as nat);
            }
            lemma_until_error_extends(
                before,
                leaves(self@, json_of(*current), parent_key@, depth as nat),
            );
            lemma_write_one(before, (parent_key@, json_of(*current)));
            lemma_until_error_one(before, (parent_key@, json_of(*current)));
        }
        let object = as_object(current);
        if depth == 0 && object.is_none() {
            return Err(Error::FirstLevelMustBeAnObject);
        }
        if let Some(map) = object {
            if map_is_empty(map) && self.preserve_empty_objects {
                proof {
                    assert(entries_of(*map) =~= Seq::empty());
                }
                Self::write_value(flattened, parent_key, object_value(new_map()))
            } else {
                self.flatten_object(map, parent_key.as_str(), depth, flattened)
            }
        } else if let Some(items) = as_array(current) {
            if items.len() == 0 && self.preserve_empty_arrays {
                proof {
                    assert(items_of(items@) =~= Seq::empty());
                    assert(items_of(Seq::<Value>::empty()) =~= Seq::empty());
                }
                Self::write_value(flattened, parent_key, array_value(Vec::new()))
            } else {
                self.flatten_array(items.as_slice(), parent_key.as_str(), depth, flattened)
            }
        } else {
            Self::write_value(flattened, parent_key, clone_value(current))
        }
    }

    /// Flattens the entries of the object `current`, whose path is
    /// `parent_key` and whose depth is `depth`, into `flattened`. The walk
    /// ends at the first entry that fails, with what was written before.
    pub fn flatten_object(
        &self,
        current: &serde_json::Map<String, Value>,
        parent_key: &str,
        depth: u32,
        flattened: &mut serde_json::Map<String, Value>,
    ) -> (r: Result<(), Error>)
        ensures
            keys_distinct(entries_of(*old(flattened))) ==> keys_distinct(
                entries_of(*final(flattened)),
            ),
            match write_leaves(
                table(entries_of(*old(flattened))),
                object_leaves(
                    self@,
                    entries_of(*current),
                    parent_key@,
                    depth as nat,
                    entries_of(*current).len(),
                ),
            ) {
                Ok(flat) => r is Ok && table(entries_of(*final(flattened))) == flat,
                Err(e) => r matches Err(err) && err@ == e && !(err is FirstLevelMustBeAnObject),
            },
            table(entries_of(*final(flattened))) == write_until_error(
                table(entries_of(*old(flattened))),
                object_leaves(
                    self@,
                    entries_of(*current),
                    parent_key@,
                    depth as nat,
                    entries_of(*current).len(),
                ),
            ),
            extends(table(entries_of(*final(flattened))), table(entries_of(*old(flattened)))),
        decreases entries_of(*current), 0nat,
    {
        let ghost before = table(entries_of(*flattened));
        let ghost model = entries_of(*current);
        proof {
            lemma_until_error_extends(
                before,
                object_leaves(self@, model, parent_key@, depth as nat, model.len()),
            );
        }
        let entries = map_entries(current);
        let mut i: usize = 0;
        while i < entries.len()
            invariant
                i <= entries.len(),
                before == table(entries_of(*old(flattened))),
                model == entries_of(*current),
                extends(
                    write_until_error(
                        before,
                        object_leaves(self@, model, parent_key@, depth as nat, model.len()),
                    ),
                    before,
                ),
                entries@.len() == model.len(),
                forall|j: int|
                    0 <= j < entries@.len() ==> (#[trigger] entries@[j]).0@ == model[j].0
                        && json_of(*entries@[j].1) == model[j].1,
                keys_distinct(entries_of(*old(flattened))) ==> keys_distinct(
                    entries_of(*flattened),
                ),
                write_leaves(before, object_leaves(self@, model, parent_key@, depth as nat, i as nat))
                    == Ok::<Map<Seq<char>, Json>, ErrorView>(table(entries_of(*flattened))),
            decreases entries.len() - i,
        {
            let entry = &entries[i];
            let key: &String = entry.0;
            let value: &Value = entry.1;
            let child_key = self.object_child_key(parent_key, key.as_str(), depth);
            let below = Self::next_depth(depth);
            proof {
                assert(entries@[i as int].0@ == model[i as int].0);
                lemma_leaves_below_root(
                    self@,
                    model[i as int].1,
                    child_key@,
                    below as nat,
                    (depth + 1) as nat,
                );
                lemma_write_concat(
                    before,
                    object_leaves(self@, model, parent_key@, depth as nat, i as nat),
                    leaves(self@, model[i as int].1, child_key@, (depth + 1) as nat),
                );
                lemma_until_error_concat(
                    before,
                    object_leaves(self@, model, parent_key@, depth as nat, i as nat),
                    leaves(self@, model[i as int].1, child_key@, (depth + 1) as nat),
                );
            }
            match self.flatten_value(value, child_key, below, flattened) {
                Ok(()) => {},
                Err(e) => {
                    proof {
                        lemma_write_error_kind(
                            before,
                            object_leaves(self@, model, parent_key@, depth as nat, model.len()),
                        );
                        lemma_object_error_stays(
                            self@,
                            model,
                            parent_key@,
                            depth as nat,
                            before,
                            (i + 1) as nat,
                            model.len(),
                        );
                    }
                    return Err(e);
                },
            }
            i += 1;
        }
        proof {
            lemma_until_error_ok(
                before,
                object_leaves(self@, model, parent_key@, depth as nat, model.len()),
            );
        }
        Ok(())
    }

    /// Flattens the items of the array `current`, whose path is `parent_key`
    /// and whose depth is `depth`, into `flattened`. The walk ends at the
    /// first item that fails, with what was written before.
    pub fn flatten_array(
        &self,
        current: &[Value],
        parent_key: &str,
        depth: u32,
        flattened: &mut serde_json::Map<String, Value>,
    ) -> (r: Result<(), Error>)
        ensures
            keys_distinct(entries_of(*old(flattened))) ==> keys_distinct(
                entries_of(*final(flattened)),
            ),
            match write_leaves(
                table(entries_of(*old(flattened))),
                array_leaves(
                    self@,
                    items_of(current@),
                    parent_key@,
                    depth as nat,
                    current@.len(),
                ),
            ) {
                Ok(flat) => r is Ok && table(entries_of(*final(flattened))) == flat,
                Err(e) => r matches Err(err) && err@ == e && !(err is FirstLevelMustBeAnObject),
            },
            table(entries_of(*final(flattened))) == write_until_error(
                table(entries_of(*old(flattened))),
                array_leaves(
                    self@,
                    items_of(current@),
                    parent_key@,
                    depth as nat,
                    current@.len(),
                ),
            ),
            extends(table(entries_of(*final(flattened))), table(entries_of(*old(flattened)))),
        decreases items_of(current@), 0nat,
    {
        let ghost before = table(entries_of(*flattened));
        let ghost model = items_of(current@);
        proof {
            lemma_until_error_extends(
                before,
                array_leaves(self@, model, parent_key@, depth as nat, model.len()),
            );
        }
        let mut i: usize = 0;
        while i < current.len()
            invariant
                i <= current.len(),
                before == table(entries_of(*old(flattened))),
                model == items_of(current@),
                extends(
                    write_until_error(
                        before,
                        array_leaves(self@, model, parent_key@, depth as nat, model.len()),
                    ),
                    before,
                ),
                keys_distinct(entries_of(*old(flattened))) ==> keys_distinct(
                    entries_of(*flattened),
                ),
                write_leaves(before, array_leaves(self@, model, parent_key@, depth as nat, i as nat))
                    == Ok::<Map<Seq<char>, Json>, ErrorView>(table(entries_of(*flattened))),
            decreases current.len() - i,
        {
            let child_key = self.array_child_key(parent_key, i, depth);
            let below = Self::next_depth(depth);
            proof {
                lemma_leaves_below_root(
                    self@,
                    model[i as int],
                    child_key@,
                    below as nat,
                    (depth + 1) as nat,
                );
                lemma_write_concat(
                    before,
                    array_leaves(self@, model, parent_key@, depth as nat, i as nat),
                    leaves(self@, model[i as int], child_key@, (depth + 1) as nat),
                );
                lemma_until_error_concat(
                    before,
                    array_leaves(self@, model, parent_key@, depth as nat, i as nat),
                    leaves(self@, model[i as int], child_key@, (depth + 1) as nat),
                );
            }
            match self.flatten_value(&current[i], child_key, below, flattened) {
                Ok(()) => {},
                Err(e) => {
                    proof {
                        lemma_write_error_kind(
                            before,
                            array_leaves(self@, model, parent_key@, depth as nat, model.len()),
                        );
                        lemma_array_error_stays(
                            self@,
                            model,
                            parent_key@,
                            depth as nat,
                            before,
                            (i + 1) as nat,
                            model.len(),
                        );
                    }
                    return Err(e);
                },
            }
            i += 1;
        }
        proof {
            lemma_until_error_ok(
                before,
                array_leaves(self@, model, parent_key@, depth as nat, model.len()),
            );
        }
        Ok(())
    }
}

} // verus!
