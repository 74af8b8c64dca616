//! What a catalog loads: a model for every entry, and for an authored scene the
//! models of its objects, each loaded once.
use vstd::prelude::*;

use crate::catalog::Catalog;
use crate::options;
use crate::paths;
use crate::paths::{join_path, parent_path};
use crate::text::{join2, join3, same};

verus! {

/// A model that is loaded, under a key.
#[derive(Debug)]
pub struct Load {
    pub key: String,
    pub path: String,
}

/// A model that is loaded, with its texts as characters.
pub struct LoadView {
    pub key: Seq<char>,
    pub path: Seq<char>,
}

impl View for Load {
    type V = LoadView;

    open spec fn view(&self) -> LoadView {
        LoadView { key: self.key@, path: self.path@ }
    }
}

/// What a list of loads says.
pub open spec fn loads_view(loads: Seq<Load>) -> Seq<LoadView> {
    loads.map_values(|l: Load| l@)
}

/// An object placed in a scene.
#[derive(Debug)]
pub struct Furnishing {
    pub id: String,
    /// Which load its model came from.
    pub handle: usize,
    /// Which object of the scene it is.
    pub object: usize,
}

/// An object placed in a scene, with its text as characters.
pub struct FurnishingView {
    pub id: Seq<char>,
    pub handle: int,
    pub object: int,
}

impl View for Furnishing {
    type V = FurnishingView;

    open spec fn view(&self) -> FurnishingView {
        FurnishingView { id: self.id@, handle: self.handle as int, object: self.object as int }
    }
}

/// What a list of furnishings says.
pub open spec fn placed_view(placed: Seq<Furnishing>) -> Seq<FurnishingView> {
    placed.map_values(|f: Furnishing| f@)
}

/// The last load under a key: a later one takes the place of an earlier one.
pub open spec fn load_of(loads: Seq<LoadView>, key: Seq<char>) -> Option<int>
    decreases loads.len(),
{
    if loads.len() == 0 {
        None
    } else if loads.last().key == key {
        Some(loads.len() - 1)
    } else {
        load_of(loads.drop_last(), key)
    }
}

/// Finds the last load under a key.
pub fn find_load(loads: &Vec<Load>, key: &str) -> (result: Option<usize>)
    ensures
        match result {
            Some(i) => i < loads.len() && load_of(loads_view(loads@), key@) == Some(i as int),
            None => load_of(loads_view(loads@), key@) is None,
        },
{
    let ghost all = loads_view(loads@);
    let mut i: usize = loads.len();
    assert(all.take(all.len() as int) =~= all);
    while i > 0
        invariant
            i <= loads.len(),
            all == loads_view(loads@),
            load_of(all, key@) == load_of(all.take(i as int), key@),
        decreases i,
    {
        assert(all.take(i as int).last() == loads@[i - 1]@);
        assert(all.take(i as int).drop_last() =~= all.take(i - 1));
        if same(loads[i - 1].key.as_str(), key) {
            return Some(i - 1);
        }
        i = i - 1;
    }
    None
}

/// Why the objects of a scene are not placed.
#[derive(Clone, Copy, Debug, PartialEq, Eq, Structural)]
pub enum FurnishError {
    /// The scene file lies too close to the root to have a collection around it.
    NoRoot,
    /// An object has no name.
    EmptyName,
    /// No object of the scene could be loaded.
    NothingPlaced,
}

/// Where the objects of a scene are kept: where the entry says, or else in
/// `objects`, two levels above the scene file.
pub open spec fn object_root(scene: Seq<char>, given: Option<Seq<char>>) -> Option<Seq<char>> {
    match paths::parent(scene) {
        None => None,
        Some(dir) => match paths::parent(dir) {
            None => None,
            Some(root) => match given {
                Some(g) => Some(g),
                None => Some(paths::joined(root, "objects"@)),
            },
        },
    }
}

/// Finds where the objects of a scene are kept.
pub fn find_object_root(scene: &str, given: Option<String>) -> (result: Result<
    String,
    FurnishError,
>)
    ensures
        match object_root(scene@, options::text_option(given)) {
            Some(root) => result matches Ok(r) && r@ == root,
            None => result == Err::<String, FurnishError>(FurnishError::NoRoot),
        },
{
    match parent_path(scene) {
        None => Err(FurnishError::NoRoot),
        Some(dir) => match parent_path(dir.as_str()) {
            None => Err(FurnishError::NoRoot),
            Some(root) => match given {
                Some(g) => Ok(g),
                None => Ok(join_path(root.as_str(), "objects")),
            },
        },
    }
}

/// The key of an object's model.
pub open spec fn object_key(name: Seq<char>) -> Seq<char> {
    "hssd-object/"@ + name
}

/// Where an object's model is kept: in the directory named after its first
/// character.
pub open spec fn object_file(root: Seq<char>, name: Seq<char>) -> Seq<char> {
    paths::joined(paths::joined(root, name.take(1)), name + ".glb"@)
}

/// Finds where an object's model is kept.
pub fn object_path(root: &str, name: &str) -> (result: Option<String>)
    ensures
        match result {
            Some(path) => name@.len() > 0 && path@ == object_file(root@, name@),
            None => name@.len() == 0,
        },
{
    if name.unicode_len() == 0 {
        return None;
    }
    let bucket = name.substring_char(0, 1);
    assert(bucket@ =~= name@.take(1));
    let dir = join_path(root, bucket);
    let file = join2(name, ".glb");
    Some(join_path(dir.as_str(), file.as_str()))
}

/// How placing the objects of a scene stands.
pub struct Placing {
    pub loads: Seq<LoadView>,
    pub placed: Seq<FurnishingView>,
    pub missing: int,
}

/// Places the objects from object `i` on, in order.
///
/// An object whose model is not there is passed over and counted. The others
/// are placed with the model of their key, which is loaded where it has not
/// been yet. A name that is empty ends the placing.
pub open spec fn furnished(
    state: Placing,
    root: Seq<char>,
    names: Seq<Seq<char>>,
    present: Seq<bool>,
    i: int,
) -> Result<Placing, FurnishError>
    decreases names.len() - i,
{
    if i < 0 || i >= names.len() {
        if state.placed.len() == 0 {
            Err(FurnishError::NothingPlaced)
        } else {
            Ok(state)
        }
    } else if names[i].len() == 0 {
        Err(FurnishError::EmptyName)
    } else if !present[i] {
        furnished(Placing { missing: state.missing + 1, ..state }, root, names, present, i + 1)
    } else {
        let key = object_key(names[i]);
        match load_of(state.loads, key) {
            Some(handle) => furnished(
                Placing {
                    placed: state.placed.push(FurnishingView { id: key, handle, object: i }),
                    ..state
                },
                root,
                names,
                present,
                i + 1,
            ),
            None => furnished(
                Placing {
                    loads: state.loads.push(LoadView { key, path: object_file(root, names[i]) }),
                    placed: state.placed.push(
                        FurnishingView { id: key, handle: state.loads.len() as int, object: i },
                    ),
                    ..state
                },
                root,
                names,
                present,
                i + 1,
            ),
        }
    }
}

/// Places the objects of a scene. `present` says of each object whether the
/// file of its model is there. Returns the furnishings and how many objects
/// were passed over. Where the scene cannot be furnished, nothing is loaded for
/// it.
pub fn furnish(
    loads: &mut Vec<Load>,
    root: &str,
    names: &Vec<String>,
    present: &Vec<bool>,
) -> (result: Result<(Vec<Furnishing>, usize), FurnishError>)
    requires
        present.len() == names.len(),
    ensures
        match furnished(
            Placing { loads: loads_view(old(loads)@), placed: Seq::empty(), missing: 0 },
            root@,
            options::texts_view(names@),
            present@,
            0,
        ) {
            Ok(state) => {
                &&& result matches Ok(pair) && placed_view(pair.0@) == state.placed && pair.1
                    == state.missing
                &&& loads_view(final(loads)@) == state.loads
            },
            Err(error) => {
                &&& result == Err::<(Vec<Furnishing>, usize), FurnishError>(error)
                &&& final(loads)@ == old(loads)@
            },
        },
{
    let known: usize = loads.len();
    let ghost all = options::texts_view(names@);
    let ghost begin = Placing { loads: loads_view(loads@), placed: Seq::empty(), missing: 0 };
    let mut placed: Vec<Furnishing> = Vec::new();
    let mut missing: usize = 0;
    let mut i: usize = 0;
    assert(loads@.take(known as int) =~= old(loads)@);
    assert(placed_view(placed@) =~= Seq::<FurnishingView>::empty());
    while i < names.len()
        invariant
            i <= names.len(),
            missing <= i,
            present.len() == names.len(),
            known == old(loads)@.len() <= loads.len(),
            loads@.take(known as int) == old(loads)@,
            all == options::texts_view(names@),
            begin == (Placing {
                loads: loads_view(old(loads)@),
                placed: Seq::empty(),
                missing: 0,
            }),
            furnished(begin, root@, all, present@, 0) == furnished(
                Placing {
                    loads: loads_view(loads@),
                    placed: placed_view(placed@),
                    missing: missing as int,
                },
                root@,
                all,
                present@,
                i as int,
            ),
        decreases names.len() - i,
    {
        let name = names[i].as_str();
        assert(all[i as int] == name@);
        let path = match object_path(root, name) {
            None => {
                loads.truncate(known);
                return Err(FurnishError::EmptyName);
            },
            Some(path) => path,
        };
        if !present[i] {
            missing = missing + 1;
        } else {
            let key = join2("hssd-object/", name);
            let ghost before = placed_view(placed@);
            let ghost loads_before = loads_view(loads@);
            match find_load(loads, key.as_str()) {
                Some(handle) => {
                    placed.push(Furnishing { id: key, handle, object: i });
                },
                None => {
                    let handle: usize = loads.len();
                    let ghost kept = loads@;
                    loads.push(Load { key: key.clone(), path });
                    assert(loads@.take(known as int) =~= kept.take(known as int));
                    assert(loads_view(loads@) =~= loads_before.push(
                        LoadView { key: key@, path: path@ },
                    ));
                    placed.push(Furnishing { id: key, handle, object: i });
                },
            }
            assert(placed_view(placed@) =~= before.push(placed@.last()@));
        }
        i = i + 1;
    }
    assert(placed_view(placed@).len() == placed@.len());
    if placed.len() == 0 {
        loads.truncate(known);
        return Err(FurnishError::NothingPlaced);
    }
    Ok((placed, missing))
}

/// Whether every furnishing has the model of its key.
pub open spec fn handles_hold(state: Placing) -> bool {
    forall|k: int|
        0 <= k < state.placed.len() ==> {
            let f = #[trigger] state.placed[k];
            load_of(state.loads, f.id) == Some(f.handle)
        }
}

/// Loading under a new key leaves the loads under other keys as they are.
proof fn lemma_load_of_push(loads: Seq<LoadView>, added: LoadView, key: Seq<char>)
    ensures
        load_of(loads.push(added), key) == if added.key == key {
            Some(loads.len() as int)
        } else {
            load_of(loads, key)
        },
{
    assert(loads.push(added).drop_last() =~= loads);
}

/// Furnishings of the same name share a model: each has the one load that is
/// found under its key, and no object is loaded a second time.
pub proof fn furnishings_share_models(
    state: Placing,
    root: Seq<char>,
    names: Seq<Seq<char>>,
    present: Seq<bool>,
    i: int,
)
    requires
        handles_hold(state),
    ensures
        furnished(state, root, names, present, i) matches Ok(end) ==> handles_hold(end),
    decreases names.len() - i,
{
    if 0 <= i < names.len() && names[i].len() > 0 {
        let key = object_key(names[i]);
        if !present[i] {
            let next = Placing { missing: state.missing + 1, ..state };
            assert(handles_hold(next));
            furnishings_share_models(next, root, names, present, i + 1);
        } else {
            match load_of(state.loads, key) {
                Some(handle) => {
                    let next = Placing {
                        placed: state.placed.push(FurnishingView { id: key, handle, object: i }),
                        ..state
                    };
                    assert(handles_hold(next));
                    furnishings_share_models(next, root, names, present, i + 1);
                },
                None => {
                    let added = LoadView { key, path: object_file(root, names[i]) };
                    let next = Placing {
                        loads: state.loads.push(added),
                        placed: state.placed.push(
                            FurnishingView { id: key, handle: state.loads.len() as int, object: i },
                        ),
                        ..state
                    };
                    assert(handles_hold(next)) by {
                        assert forall|k: int| 0 <= k < next.placed.len() implies {
                            let f = #[trigger] next.placed[k];
                            load_of(next.loads, f.id) == Some(f.handle)
                        } by {
                            lemma_load_of_push(state.loads, added, next.placed[k].id);
                            if k < state.placed.len() {
                                assert(next.placed[k] == state.placed[k]);
                            }
                        }
                    }
                    furnishings_share_models(next, root, names, present, i + 1);
                },
            }
        }
    }
}

/// A catalog with everything that it needs loaded.
#[derive(Debug)]
pub struct Loaded {
    pub catalog: Catalog,
    pub loads: Vec<Load>,
    /// The furnishings of an entry, under its id.
    pub furnishings: Vec<(String, Vec<Furnishing>)>,
}

/// The last list of furnishings under an id, or none.
pub open spec fn furnishings_of(list: Seq<(String, Vec<Furnishing>)>, id: Seq<char>) -> Seq<
    FurnishingView,
>
    decreases list.len(),
{
    if list.len() == 0 {
        Seq::empty()
    } else if list.last().0@ == id {
        placed_view(list.last().1@)
    } else {
        furnishings_of(list.drop_last(), id)
    }
}

impl Loaded {
    /// Nothing of a catalog is loaded yet.
    pub fn new(catalog: Catalog) -> (result: Self)
        ensures
            result.catalog == catalog,
            result.loads@.len() == 0,
            result.furnishings@.len() == 0,
    {
        Loaded { catalog, loads: Vec::new(), furnishings: Vec::new() }
    }

    /// Loads the model of an entry, whose file must be there.
    pub fn bake(&mut self, entry: usize, exists: bool) -> (result: Result<usize, String>)
        requires
            entry < old(self).catalog.entries.len(),
        ensures
            final(self).catalog == old(self).catalog,
            final(self).furnishings == old(self).furnishings,
            ({
                let e = old(self).catalog.entries[entry as int];
                let path = if paths::absolute(e.path@) {
                    e.path@
                } else {
                    paths::joined(old(self).catalog.dir@, e.path@)
                };
                if exists {
                    &&& result matches Ok(handle) && handle == old(self).loads.len()
                    &&& loads_view(final(self).loads@) == loads_view(old(self).loads@).push(
                        LoadView { key: e.id@, path },
                    )
                } else {
                    &&& result matches Err(message) && message@ == "catalog "@ + e.id@
                        + " points at missing "@ + path
                    &&& final(self).loads == old(self).loads
                }
            }),
    {
        let e = &self.catalog.entries[entry];
        let path = e.resolved_path(self.catalog.dir.as_str());
        let key = e.id.clone();
        if !exists {
            let head = join2("catalog ", key.as_str());
            return Err(join3(head.as_str(), " points at missing ", path.as_str()));
        }
        let handle: usize = self.loads.len();
        let ghost before = loads_view(self.loads@);
        self.loads.push(Load { key, path });
        assert(loads_view(self.loads@) =~= before.push(self.loads@.last()@));
        Ok(handle)
    }

    /// The load of the model under an id, where there is one.
    pub fn handle(&self, id: &str) -> (result: Option<usize>)
        ensures
            match result {
                Some(i) => i < self.loads.len() && load_of(loads_view(self.loads@), id@) == Some(
                    i as int,
                ),
                None => load_of(loads_view(self.loads@), id@) is None,
            },
    {
        find_load(&self.loads, id)
    }

    /// Keeps the furnishings of an entry.
    pub fn add_furnishings(&mut self, id: String, placed: Vec<Furnishing>)
        ensures
            final(self).catalog == old(self).catalog,
            final(self).loads == old(self).loads,
            furnishings_of(final(self).furnishings@, id@) == placed_view(placed@),
            forall|other: Seq<char>|
                other != id@ ==> #[trigger] furnishings_of(final(self).furnishings@, other)
                    == furnishings_of(old(self).furnishings@, other),
    {
        let ghost before = self.furnishings@;
        self.furnishings.push((id, placed));
        assert(self.furnishings@.drop_last() =~= before);
    }

    /// The furnishings of an entry: none where it has no scene.
    pub fn furnishings(&self, id: &str) -> (result: &[Furnishing])
        ensures
            placed_view(result@) == furnishings_of(self.furnishings@, id@),
    {
        let ghost all = self.furnishings@;
        let mut i: usize = self.furnishings.len();
        assert(all.take(all.len() as int) =~= all);
        while i > 0
            invariant
                i <= self.furnishings.len(),
                all == self.furnishings@,
                furnishings_of(all, id@) == furnishings_of(all.take(i as int), id@),
            decreases i,
        {
            assert(all.take(i as int).last() == all[i - 1]);
            assert(all.take(i as int).drop_last() =~= all.take(i - 1));
            if same(self.furnishings[i - 1].0.as_str(), id) {
                return self.furnishings[i - 1].1.as_slice();
            }
            i = i - 1;
        }
        let none: &[Furnishing] = &[];
        assert(placed_view(none@) =~= Seq::<FurnishingView>::empty());
        none
    }
}

/// How many of the names from `i` on are there.
pub open spec fn there(present: Seq<bool>, i: int) -> int {
    present.subrange(i, present.len() as int).to_multiset().count(true) as int
}

proof fn lemma_there(present: Seq<bool>, i: int)
    requires
        0 <= i < present.len(),
    ensures
        there(present, i) == there(present, i + 1) + if present[i] {
            1int
        } else {
            0
        },
{
    let rest = present.subrange(i + 1, present.len() as int);
    let all = present.subrange(i, present.len() as int);
    assert(all =~= seq![present[i]] + rest);
    vstd::seq_lib::lemma_multiset_commutative(seq![present[i]], rest);
    let one = seq![present[i]];
    assert(one =~= Seq::<bool>::empty().push(present[i]));
    Seq::<bool>::empty().to_multiset_ensures();
}

/// Every object that is there is placed, under its own name and number and in order,
/// every other one is counted as missing, and no load is taken back.
pub proof fn objects_are_placed_or_missing(
    state: Placing,
    root: Seq<char>,
    names: Seq<Seq<char>>,
    present: Seq<bool>,
    i: int,
)
    requires
        0 <= i <= names.len(),
        present.len() == names.len(),
        forall|k: int| 0 <= k < state.placed.len() ==> (#[trigger] state.placed[k]).object < i,
        forall|a: int, b: int|
            0 <= a < b < state.placed.len() ==> (#[trigger] state.placed[a]).object < (
            #[trigger] state.placed[b]).object,
    ensures
        furnished(state, root, names, present, i) matches Ok(end) ==> {
            &&& end.placed.len() == state.placed.len() + there(present, i)
            &&& end.missing == state.missing + (names.len() - i) - there(present, i)
            &&& state.placed.len() <= end.placed.len()
            &&& forall|k: int|
                0 <= k < state.placed.len() ==> #[trigger] end.placed[k] == state.placed[k]
            &&& forall|k: int|
                state.placed.len() <= k < end.placed.len() ==> {
                    let f = #[trigger] end.placed[k];
                    &&& i <= f.object < names.len()
                    &&& present[f.object]
                    &&& f.id == "hssd-object/"@ + names[f.object]
                }
            &&& forall|a: int, b: int|
                0 <= a < b < end.placed.len() ==> (#[trigger] end.placed[a]).object < (
                #[trigger] end.placed[b]).object
            &&& state.loads.len() <= end.loads.len()
            &&& forall|k: int|
                0 <= k < state.loads.len() ==> #[trigger] end.loads[k] == state.loads[k]
            &&& forall|k: int| i <= k < names.len() ==> (#[trigger] names[k]).len() > 0
        },
    decreases names.len() - i,
{
    if i < names.len() {
        lemma_there(present, i);
        if names[i].len() > 0 {
            if !present[i] {
                let next = Placing { missing: state.missing + 1, ..state };
                objects_are_placed_or_missing(next, root, names, present, i + 1);
            } else {
                let key = object_key(names[i]);
                let (handle, loads) = match load_of(state.loads, key) {
                    Some(handle) => (handle, state.loads),
                    None => (
                        state.loads.len() as int,
                        state.loads.push(LoadView { key, path: object_file(root, names[i]) }),
                    ),
                };
                let added = FurnishingView { id: key, handle, object: i };
                let next = Placing { loads, placed: state.placed.push(added), ..state };
                objects_are_placed_or_missing(next, root, names, present, i + 1);
                if furnished(state, root, names, present, i) is Ok {
                    let end = furnished(state, root, names, present, i)->Ok_0;
                    assert(furnished(next, root, names, present, i + 1) == Ok::<
                        Placing,
                        FurnishError,
                    >(end));
                    assert(end.placed[state.placed.len() as int] == next.placed[state.placed.len() as int]);
                    assert forall|k: int| 0 <= k < state.placed.len() implies #[trigger] end.placed[k]
                        == state.placed[k] by {
                        assert(next.placed[k] == state.placed[k]);
                    }
                    assert forall|k: int| 0 <= k < state.loads.len() implies #[trigger] end.loads[k]
                        == state.loads[k] by {
                        assert(next.loads[k] == state.loads[k]);
                    }
                }
            }
        }
    } else {
        let none = present.subrange(i, present.len() as int);
        none.to_multiset_ensures();
        assert(none.to_multiset().len() == 0);
    }
}

proof fn lemma_load_found(loads: Seq<LoadView>, key: Seq<char>)
    ensures
        match load_of(loads, key) {
            Some(i) => 0 <= i < loads.len() && loads[i].key == key && forall|j: int|
                i < j < loads.len() ==> (#[trigger] loads[j]).key != key,
            None => forall|j: int| 0 <= j < loads.len() ==> (#[trigger] loads[j]).key != key,
        },
    decreases loads.len(),
{
    if loads.len() > 0 {
        let fewer = loads.drop_last();
        lemma_load_found(fewer, key);
        if loads.last().key != key {
            match load_of(fewer, key) {
                Some(i) => {
                    assert(fewer[i] == loads[i]);
                    assert forall|j: int| i < j < loads.len() implies (#[trigger] loads[j]).key
                        != key by {
                        if j < fewer.len() {
                            assert(fewer[j].key != key);
                        }
                    }
                },
                None => {
                    assert forall|j: int| 0 <= j < loads.len() implies (#[trigger] loads[j]).key
                        != key by {
                        if j < fewer.len() {
                            assert(fewer[j].key != key);
                        }
                    }
                },
            }
        }
    }
}

/// A key finds the last load under it, and nothing exactly if there is none.
pub proof fn keys_find_their_last_load(loads: Vec<Load>, key: &str, result: Option<usize>)
    requires
        call_ensures(find_load, (&loads, key), result),
    ensures
        match result {
            Some(i) => i < loads@.len() && loads@[i as int].key@ == key@ && forall|j: int|
                i < j < loads@.len() ==> (#[trigger] loads@[j]).key@ != key@,
            None => forall|j: int| 0 <= j < loads@.len() ==> (#[trigger] loads@[j]).key@ != key@,
        },
{
    let list = loads_view(loads@);
    lemma_load_found(list, key@);
    match result {
        Some(i) => {
            assert(list[i as int].key == loads@[i as int].key@);
            assert forall|j: int| i < j < loads@.len() implies (#[trigger] loads@[j]).key@
                != key@ by {
                assert(list[j].key != key@);
            }
        },
        None => {
            assert forall|j: int| 0 <= j < loads@.len() implies (#[trigger] loads@[j]).key@
                != key@ by {
                assert(list[j].key != key@);
            }
        },
    }
}

/// No two loads of a scene are under one key, where none were before.
pub proof fn no_model_is_loaded_twice(
    state: Placing,
    root: Seq<char>,
    names: Seq<Seq<char>>,
    present: Seq<bool>,
    i: int,
)
    requires
        forall|a: int, b: int|
            0 <= a < b < state.loads.len() ==> (#[trigger] state.loads[a]).key != (
            #[trigger] state.loads[b]).key,
    ensures
        furnished(state, root, names, present, i) matches Ok(end) ==> forall|a: int, b: int|
            0 <= a < b < end.loads.len() ==> (#[trigger] end.loads[a]).key != (
            #[trigger] end.loads[b]).key,
    decreases names.len() - i,
{
    if 0 <= i < names.len() && names[i].len() > 0 {
        if !present[i] {
            let next = Placing { missing: state.missing + 1, ..state };
            no_model_is_loaded_twice(next, root, names, present, i + 1);
        } else {
            let key = object_key(names[i]);
            lemma_load_found(state.loads, key);
            let (handle, loads) = match load_of(state.loads, key) {
                Some(handle) => (handle, state.loads),
                None => (
                    state.loads.len() as int,
                    state.loads.push(LoadView { key, path: object_file(root, names[i]) }),
                ),
            };
            let added = FurnishingView { id: key, handle, object: i };
            let next = Placing { loads, placed: state.placed.push(added), ..state };
            no_model_is_loaded_twice(next, root, names, present, i + 1);
        }
    }
}

} // verus!
