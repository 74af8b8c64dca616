//! External objects and interiors that scenes borrow from.
//!
//! Each entry names a family and a split, so that the same object or interior
//! never appears both in training and in the untouched audit.
use vstd::prelude::*;

use crate::options;
use crate::paths;
use crate::paths::{file_stem_of, is_absolute, join_path, parent_path, replace_file_name};
use crate::text;
use crate::text::{is_blank, join2, join3, join5, quote, same};

verus! {

/// Where an asset was published.
#[derive(Clone, Copy, Debug, PartialEq, Eq, Structural)]
pub enum Source {
    Abo,
    Hssd,
    Dtc,
    /// A mesh that is checked in for tests.
    Fixture,
}

/// How an asset is placed.
#[derive(Clone, Copy, Debug, PartialEq, Eq, Structural)]
pub enum Kind {
    /// On the procedural ground.
    Object,
    /// In place of the procedural room.
    Interior,
}

/// Which side of the hold-out an asset belongs to.
#[derive(Clone, Copy, Debug, PartialEq, Eq, Structural)]
pub enum Split {
    Train,
    Holdout,
}

impl Split {
    /// The split in words.
    pub open spec fn name_text(self) -> Seq<char> {
        match self {
            Split::Train => "Train"@,
            Split::Holdout => "Holdout"@,
        }
    }

    /// The split in words.
    pub fn name(self) -> (result: &'static str)
        ensures
            result@ == self.name_text(),
    {
        match self {
            Split::Train => "Train",
            Split::Holdout => "Holdout",
        }
    }

    /// Reads a split from a command line.
    pub fn parse(text: &str) -> (result: Result<Self, String>)
        ensures
            text@ == "train"@ ==> result == Ok::<Split, String>(Split::Train),
            text@ == "holdout"@ ==> result == Ok::<Split, String>(Split::Holdout),
            text@ != "train"@ && text@ != "holdout"@ ==> (result matches Err(message) && message@
                == "--catalog-split wants train or holdout, got "@ + text::quoted(text@)),
    {
        proof {
            reveal_strlit("train");
            reveal_strlit("holdout");
        }
        if same(text, "train") {
            Ok(Split::Train)
        } else if same(text, "holdout") {
            assert("train"@.len() != "holdout"@.len());
            Ok(Split::Holdout)
        } else {
            Err(join2("--catalog-split wants train or holdout, got ", quote(text).as_str()))
        }
    }
}

impl Kind {
    /// The kind in words.
    pub open spec fn name_text(self) -> Seq<char> {
        match self {
            Kind::Object => "Object"@,
            Kind::Interior => "Interior"@,
        }
    }

    /// The kind in words.
    pub fn name(self) -> (result: &'static str)
        ensures
            result@ == self.name_text(),
    {
        match self {
            Kind::Object => "Object",
            Kind::Interior => "Interior",
        }
    }
}

/// One asset, identified so that a later audit can refuse overlap.
#[derive(Debug)]
pub struct Entry {
    pub id: String,
    pub source: Source,
    pub license: String,
    pub kind: Kind,
    pub family: String,
    pub split: Split,
    /// Relative to the catalog file, or absolute.
    pub path: String,
    /// A scene file whose objects are placed along with the asset.
    pub scene: Option<String>,
    /// Where the objects of the scene are kept.
    pub object_root: Option<String>,
}

/// A copy of an optional text.
fn copy_text(value: &Option<String>) -> (result: Option<String>)
    ensures
        result == *value,
{
    match value {
        Some(s) => Some(s.clone()),
        None => None,
    }
}

impl Clone for Entry {
    fn clone(&self) -> (result: Self)
        ensures
            result == *self,
    {
        Entry {
            id: self.id.clone(),
            source: self.source,
            license: self.license.clone(),
            kind: self.kind,
            family: self.family.clone(),
            split: self.split,
            path: self.path.clone(),
            scene: copy_text(&self.scene),
            object_root: copy_text(&self.object_root),
        }
    }
}

/// A path of an entry, as seen from the directory of its catalog.
pub open spec fn resolved(dir: Seq<char>, path: Option<Seq<char>>) -> Option<Seq<char>> {
    match path {
        Some(p) => Some(paths::joined(dir, p)),
        None => None,
    }
}

/// Takes a path of an entry as seen from the directory of its catalog.
fn resolve(dir: &str, path: &Option<String>) -> (result: Option<String>)
    ensures
        options::text_option(result) == resolved(dir@, options::text_option(*path)),
{
    match path {
        Some(p) => Some(join_path(dir, p.as_str())),
        None => None,
    }
}

impl Entry {
    /// Where the asset is: an absolute path is itself, and any other one is
    /// taken from the directory of the catalog.
    pub fn resolved_path(&self, catalog_dir: &str) -> (result: String)
        ensures
            result@ == if paths::absolute(self.path@) {
                self.path@
            } else {
                paths::joined(catalog_dir@, self.path@)
            },
    {
        if is_absolute(self.path.as_str()) {
            self.path.clone()
        } else {
            join_path(catalog_dir, self.path.as_str())
        }
    }

    /// Where the scene of the asset is.
    pub fn resolved_scene(&self, catalog_dir: &str) -> (result: Option<String>)
        ensures
            options::text_option(result) == resolved(catalog_dir@, options::text_option(self.scene)),
    {
        resolve(catalog_dir, &self.scene)
    }

    /// Where the objects of the scene are kept.
    pub fn resolved_object_root(&self, catalog_dir: &str) -> (result: Option<String>)
        ensures
            options::text_option(result) == resolved(
                catalog_dir@,
                options::text_option(self.object_root),
            ),
    {
        resolve(catalog_dir, &self.object_root)
    }
}

/// What a catalog file holds.
#[derive(Debug)]
pub struct CatalogFile {
    pub entries: Vec<Entry>,
}

/// A catalog and the directory that its paths are seen from.
#[derive(Debug)]
pub struct Catalog {
    pub dir: String,
    pub entries: Vec<Entry>,
}

/// The first entry below `to` with this id.
pub open spec fn earlier_id(entries: Seq<Entry>, id: Seq<char>, from: int, to: int) -> Option<int>
    decreases to - from,
{
    if from >= to {
        None
    } else if entries[from].id@ == id {
        Some(from)
    } else {
        earlier_id(entries, id, from + 1, to)
    }
}

/// The first entry below `to` of this family.
pub open spec fn earlier_family(
    entries: Seq<Entry>,
    family: Seq<char>,
    from: int,
    to: int,
) -> Option<int>
    decreases to - from,
{
    if from >= to {
        None
    } else if entries[from].family@ == family {
        Some(from)
    } else {
        earlier_family(entries, family, from + 1, to)
    }
}

/// What is wrong with entry `i`, given the entries before it.
pub open spec fn entry_fault(entries: Seq<Entry>, i: int) -> Option<Seq<char>> {
    let entry = entries[i];
    let id = entry.id@;
    if text::blank(id) {
        Some("catalog entry is missing an id"@)
    } else if text::blank(entry.family@) {
        Some("catalog entry "@ + id + " is missing a family"@)
    } else {
        match earlier_id(entries, id, 0, i) {
            Some(j) => if entries[j].split != entry.split {
                Some(both_text("catalog id "@, id, entries[j].split, entry.split))
            } else {
                Some("catalog id "@ + id + " is listed twice"@)
            },
            None => match earlier_family(entries, entry.family@, 0, i) {
                Some(j) => if entries[j].split != entry.split {
                    Some(
                        both_text(
                            "catalog family "@,
                            entry.family@,
                            entries[j].split,
                            entry.split,
                        ),
                    )
                } else {
                    None
                },
                None => None,
            },
        }
    }
}

/// The report of something that is listed in both splits.
pub open spec fn both_text(what: Seq<char>, name: Seq<char>, a: Split, b: Split) -> Seq<char> {
    what + name + " is listed in both "@ + a.name_text() + (" and "@ + b.name_text())
}

/// What is wrong with the first bad entry from `i` on.
pub open spec fn first_fault(entries: Seq<Entry>, i: int) -> Option<Seq<char>>
    decreases entries.len() - i,
{
    if i < 0 || i >= entries.len() {
        None
    } else {
        match entry_fault(entries, i) {
            Some(fault) => Some(fault),
            None => first_fault(entries, i + 1),
        }
    }
}

/// Whether an entry has a wanted split and kind, where one is wanted.
pub open spec fn wanted(entry: Entry, split: Option<Split>, kind: Option<Kind>) -> bool {
    &&& split matches Some(s) ==> entry.split == s
    &&& kind matches Some(k) ==> entry.kind == k
}

/// The wanted entries, in order.
pub open spec fn chosen(entries: Seq<Entry>, split: Option<Split>, kind: Option<Kind>) -> Seq<
    Entry,
> {
    entries.filter(|e: Entry| wanted(e, split, kind))
}

/// The report that no entry is wanted.
pub open spec fn none_text(split: Option<Split>, kind: Option<Kind>) -> Seq<char> {
    match (split, kind) {
        (Some(s), Some(k)) => "catalog has no "@ + k.name_text() + " entries in the "@
            + s.name_text() + " split"@,
        (Some(s), None) => "catalog has no entries in the "@ + s.name_text() + " split"@,
        (None, Some(k)) => "catalog has no "@ + k.name_text() + " entries"@,
        (None, None) => "catalog has no entries"@,
    }
}

/// The report of something that is listed in both splits.
fn report_both(what: &str, name: &str, a: Split, b: Split) -> (result: String)
    ensures
        result@ == both_text(what@, name@, a, b),
{
    let tail = join2(" and ", b.name());
    join5(what, name, " is listed in both ", a.name(), tail.as_str())
}

impl Catalog {
    /// Whether no id is listed twice, and no family in both splits.
    pub open spec fn wf(self) -> bool {
        &&& forall|i: int, j: int|
            0 <= i < j < self.entries.len() ==> (#[trigger] self.entries[i]).id@ != (
            #[trigger] self.entries[j]).id@
        &&& forall|i: int, j: int|
            0 <= i < j < self.entries.len() && (#[trigger] self.entries[i]).family@ == (
            #[trigger] self.entries[j]).family@ ==> self.entries[i].split == self.entries[j].split
    }

    /// Takes in what was read from the catalog file at `path`.
    ///
    /// There must be an entry, and every entry must have an id of its own and a
    /// family that stays in one split.
    pub fn load(path: &str, file: CatalogFile) -> (result: Result<Self, String>)
        ensures
            if file.entries.len() == 0 {
                result matches Err(message) && message@ == path@ + " contains no entries"@
            } else {
                match first_fault(file.entries@, 0) {
                    Some(fault) => result matches Err(message) && message@ == fault,
                    None => result matches Ok(catalog) && {
                        &&& catalog.entries@ == file.entries@
                        &&& catalog.dir@ == match paths::parent(path@) {
                            Some(dir) => dir,
                            None => "."@,
                        }
                        &&& catalog.wf()
                    },
                }
            },
    {
        let entries = file.entries;
        if entries.len() == 0 {
            return Err(join2(path, " contains no entries"));
        }
        let dir = match parent_path(path) {
            Some(dir) => dir,
            None => ".".to_owned(),
        };
        let mut i: usize = 0;
        while i < entries.len()
            invariant
                i <= entries.len(),
                entries@ == file.entries@,
                first_fault(entries@, 0) == first_fault(entries@, i as int),
                forall|k: int| 0 <= k < i ==> #[trigger] entry_fault(entries@, k) is None,
            decreases entries.len() - i,
        {
            match check_entry(&entries, i) {
                Some(fault) => {
                    return Err(fault);
                },
                None => {},
            }
            i = i + 1;
        }
        proof {
            sound_entries_are_apart(entries@);
        }
        Ok(Catalog { dir, entries })
    }

    /// The entries of a split and kind, in the order of the catalog.
    pub fn filtered(&self, split: Option<Split>, kind: Option<Kind>) -> (result: Result<
        Vec<&Entry>,
        String,
    >)
        ensures
            if chosen(self.entries@, split, kind).len() == 0 {
                result matches Err(message) && message@ == none_text(split, kind)
            } else {
                result matches Ok(list) && list@.map_values(|e: &Entry| *e) == chosen(
                    self.entries@,
                    split,
                    kind,
                )
            },
    {
        let ghost pred = |e: Entry| wanted(e, split, kind);
        let mut list: Vec<&Entry> = Vec::new();
        let mut i: usize = 0;
        proof {
            assert(self.entries@.take(0) =~= Seq::<Entry>::empty());
            reveal(Seq::filter);
            assert(list@.map_values(|e: &Entry| *e) =~= self.entries@.take(0).filter(pred));
        }
        while i < self.entries.len()
            invariant
                i <= self.entries.len(),
                pred == (|e: Entry| wanted(e, split, kind)),
                list@.map_values(|e: &Entry| *e) == self.entries@.take(i as int).filter(pred),
            decreases self.entries.len() - i,
        {
            let entry = &self.entries[i];
            let split_fits = match split {
                Some(s) => entry.split == s,
                None => true,
            };
            let kind_fits = match kind {
                Some(k) => entry.kind == k,
                None => true,
            };
            let ghost before = list@.map_values(|e: &Entry| *e);
            proof {
                reveal(Seq::filter);
                let head = self.entries@.take(i + 1);
                assert(head.drop_last() =~= self.entries@.take(i as int));
                assert(head.last() == *entry);
            }
            if split_fits && kind_fits {
                list.push(entry);
                assert(list@.map_values(|e: &Entry| *e) =~= before.push(*entry));
            }
            i = i + 1;
        }
        assert(self.entries@.take(i as int) =~= self.entries@);
        assert(list@.map_values(|e: &Entry| *e).len() == list@.len());
        if list.len() == 0 {
            return Err(
                match (split, kind) {
                    (Some(s), Some(k)) => join5(
                        "catalog has no ",
                        k.name(),
                        " entries in the ",
                        s.name(),
                        " split",
                    ),
                    (Some(s), None) => join3("catalog has no entries in the ", s.name(), " split"),
                    (None, Some(k)) => join3("catalog has no ", k.name(), " entries"),
                    (None, None) => "catalog has no entries".to_owned(),
                },
            );
        }
        Ok(list)
    }
}

/// Finds an earlier entry with this id.
fn find_id(entries: &Vec<Entry>, id: &str, to: usize) -> (result: Option<usize>)
    requires
        to <= entries.len(),
    ensures
        match result {
            Some(j) => j < to && earlier_id(entries@, id@, 0, to as int) == Some(j as int),
            None => earlier_id(entries@, id@, 0, to as int) is None,
        },
{
    let mut j: usize = 0;
    while j < to
        invariant
            j <= to <= entries.len(),
            earlier_id(entries@, id@, 0, to as int) == earlier_id(
                entries@,
                id@,
                j as int,
                to as int,
            ),
        decreases to - j,
    {
        if same(entries[j].id.as_str(), id) {
            return Some(j);
        }
        j = j + 1;
    }
    None
}

/// Finds an earlier entry of this family.
fn find_family(entries: &Vec<Entry>, family: &str, to: usize) -> (result: Option<usize>)
    requires
        to <= entries.len(),
    ensures
        match result {
            Some(j) => j < to && earlier_family(entries@, family@, 0, to as int) == Some(j as int),
            None => earlier_family(entries@, family@, 0, to as int) is None,
        },
{
    let mut j: usize = 0;
    while j < to
        invariant
            j <= to <= entries.len(),
            earlier_family(entries@, family@, 0, to as int) == earlier_family(
                entries@,
                family@,
                j as int,
                to as int,
            ),
        decreases to - j,
    {
        if same(entries[j].family.as_str(), family) {
            return Some(j);
        }
        j = j + 1;
    }
    None
}

/// Says what is wrong with entry `i`, given the entries before it.
fn check_entry(entries: &Vec<Entry>, i: usize) -> (result: Option<String>)
    requires
        i < entries.len(),
    ensures
        options::text_option(result) == entry_fault(entries@, i as int),
{
    let entry = &entries[i];
    let id = entry.id.as_str();
    let family = entry.family.as_str();
    if is_blank(id) {
        return Some("catalog entry is missing an id".to_owned());
    }
    if is_blank(family) {
        return Some(join3("catalog entry ", id, " is missing a family"));
    }
    match find_id(entries, id, i) {
        Some(j) => {
            if entries[j].split != entry.split {
                return Some(report_both("catalog id ", id, entries[j].split, entry.split));
            }
            return Some(join3("catalog id ", id, " is listed twice"));
        },
        None => {},
    }
    match find_family(entries, family, i) {
        Some(j) => {
            if entries[j].split != entry.split {
                return Some(report_both("catalog family ", family, entries[j].split, entry.split));
            }
        },
        None => {},
    }
    None
}

proof fn lemma_earlier_id(entries: Seq<Entry>, id: Seq<char>, from: int, to: int)
    ensures
        earlier_id(entries, id, from, to) is None ==> forall|j: int|
            from <= j < to ==> (#[trigger] entries[j]).id@ != id,
    decreases to - from,
{
    if from < to {
        lemma_earlier_id(entries, id, from + 1, to);
    }
}

proof fn lemma_earlier_family(entries: Seq<Entry>, family: Seq<char>, from: int, to: int)
    ensures
        match earlier_family(entries, family, from, to) {
            None => forall|j: int| from <= j < to ==> (#[trigger] entries[j]).family@ != family,
            Some(k) => from <= k < to && entries[k].family@ == family && forall|j: int|
                from <= j < k ==> (#[trigger] entries[j]).family@ != family,
        },
    decreases to - from,
{
    if from < to {
        lemma_earlier_family(entries, family, from + 1, to);
    }
}

/// Entries of which none is at fault have ids of their own, and their families
/// stay in one split.
pub proof fn sound_entries_are_apart(entries: Seq<Entry>)
    requires
        forall|k: int| 0 <= k < entries.len() ==> #[trigger] entry_fault(entries, k) is None,
    ensures
        forall|i: int, j: int|
            0 <= i < j < entries.len() ==> (#[trigger] entries[i]).id@ != (#[trigger] entries[j]).id@,
        forall|i: int, j: int|
            0 <= i < j < entries.len() && (#[trigger] entries[i]).family@ == (
            #[trigger] entries[j]).family@ ==> entries[i].split == entries[j].split,
{
    assert forall|i: int, j: int| 0 <= i < j < entries.len() implies (#[trigger] entries[i]).id@
        != (#[trigger] entries[j]).id@ by {
        assert(entry_fault(entries, j) is None);
        lemma_earlier_id(entries, entries[j].id@, 0, j);
    }
    assert forall|i: int, j: int|
        0 <= i < j < entries.len() && (#[trigger] entries[i]).family@ == (
        #[trigger] entries[j]).family@ implies entries[i].split == entries[j].split by {
        let family = entries[j].family@;
        assert(entry_fault(entries, j) is None);
        assert(entry_fault(entries, i) is None);
        lemma_earlier_family(entries, family, 0, j);
        lemma_earlier_family(entries, family, 0, i);
    }
}

/// The two splits of a sound catalog share neither a family nor an id.
pub proof fn splits_share_nothing(catalog: Catalog, kind: Option<Kind>, other: Option<Kind>, a: int, b: int)
    requires
        catalog.wf(),
        0 <= a < chosen(catalog.entries@, Some(Split::Train), kind).len(),
        0 <= b < chosen(catalog.entries@, Some(Split::Holdout), other).len(),
    ensures
        ({
            let train = chosen(catalog.entries@, Some(Split::Train), kind);
            let holdout = chosen(catalog.entries@, Some(Split::Holdout), other);
            train[a].family@ != holdout[b].family@ && train[a].id@ != holdout[b].id@
        }),
{
    let entries = catalog.entries@;
    let p = |e: Entry| wanted(e, Some(Split::Train), kind);
    let q = |e: Entry| wanted(e, Some(Split::Holdout), other);
    let train = entries.filter(p);
    let holdout = entries.filter(q);
    entries.lemma_filter_contains_rev(p, train[a]);
    entries.lemma_filter_contains_rev(q, holdout[b]);
    broadcast use vstd::seq_lib::group_filter_ensures;
    let i = choose|i: int| 0 <= i < entries.len() && entries[i] == train[a];
    let j = choose|j: int| 0 <= j < entries.len() && entries[j] == holdout[b];
    assert(p(train[a]));
    assert(q(holdout[b]));
    assert(catalog.entries[i] == train[a]);
    assert(catalog.entries[j] == holdout[b]);
}

/// `s` with the items at two places exchanged.
pub open spec fn exchanged<T>(s: Seq<T>, i: int, j: int) -> Seq<T> {
    s.update(i, s[j]).update(j, s[i])
}

/// Draws for a shuffle of `len` items: the first for the last place, from all
/// places, and each next one for the place before, from the places up to it.
pub open spec fn draws_fit(draws: Seq<usize>, len: int) -> bool {
    &&& draws.len() >= len - 1
    &&& forall|t: int| 0 <= t < len - 1 ==> #[trigger] draws[t] <= len - 1 - t
}

/// The items after `k` exchanges of a shuffle.
pub open spec fn after_exchanges<T>(s: Seq<T>, draws: Seq<usize>, k: int) -> Seq<T>
    decreases k,
{
    if k <= 0 {
        s
    } else {
        exchanged(after_exchanges(s, draws, k - 1), s.len() - k, draws[k - 1] as int)
    }
}

/// The items after a shuffle.
pub open spec fn shuffled<T>(s: Seq<T>, draws: Seq<usize>) -> Seq<T> {
    after_exchanges(s, draws, s.len() - 1)
}

proof fn lemma_exchanges_keep_len<T>(s: Seq<T>, draws: Seq<usize>, k: int)
    requires
        draws_fit(draws, s.len() as int),
        k < s.len() || k <= 0,
    ensures
        after_exchanges(s, draws, k).len() == s.len(),
    decreases k,
{
    if k > 0 {
        lemma_exchanges_keep_len(s, draws, k - 1);
    }
}

/// Shuffles items in place: from the last place to the second, the item there
/// is exchanged with the one at the drawn place.
pub fn shuffle<T>(items: &mut Vec<T>, draws: &[usize])
    requires
        draws_fit(draws@, old(items).len() as int),
    ensures
        final(items)@ == shuffled(old(items)@, draws@),
        final(items)@.len() == old(items)@.len(),
{
    let ghost start = items@;
    let n: usize = items.len();
    if n == 0 {
        return;
    }
    let mut k: usize = 0;
    while k < n - 1
        invariant
            k <= n - 1,
            n > 0,
            items.len() == n,
            start.len() == n,
            draws_fit(draws@, n as int),
            items@ == after_exchanges(start, draws@, k as int),
        decreases n - k,
    {
        let i: usize = n - 1 - k;
        let j: usize = draws[k];
        let ghost before = items@;
        if j < i {
            let a = items.remove(i);
            let b = items.remove(j);
            items.insert(j, a);
            items.insert(i, b);
        }
        proof {
            assert(items@ =~= exchanged(before, i as int, j as int));
        }
        k = k + 1;
    }
}

proof fn lemma_exchange_keeps_items<T>(s: Seq<T>, i: int, j: int)
    requires
        0 <= i < s.len(),
        0 <= j < s.len(),
    ensures
        exchanged(s, i, j).to_multiset() == s.to_multiset(),
{
    if i == j {
        assert(exchanged(s, i, j) =~= s);
    } else {
        let (low, high) = if i < j {
            (i, j)
        } else {
            (j, i)
        };
        let t = exchanged(s, i, j);
        s.to_multiset_ensures();
        t.to_multiset_ensures();
        s.remove(high).to_multiset_ensures();
        t.remove(high).to_multiset_ensures();
        let rest = s.remove(high).remove(low);
        assert(rest =~= t.remove(high).remove(low));
        assert(rest.to_multiset() == s.to_multiset().remove(s[high]).remove(s[low]));
        assert(rest.to_multiset() == t.to_multiset().remove(t[high]).remove(t[low]));
        assert(t[high] == s[low] && t[low] == s[high]);
        assert(s.contains(s[high]) && s.remove(high).contains(s[low])) by {
            assert(s.remove(high)[low] == s[low]);
        }
        assert(t.contains(t[high]) && t.remove(high).contains(t[low])) by {
            assert(t.remove(high)[low] == t[low]);
        }
        assert(s.to_multiset() =~= rest.to_multiset().insert(s[low]).insert(s[high]));
        assert(t.to_multiset() =~= rest.to_multiset().insert(s[high]).insert(s[low]));
        assert(s.to_multiset() =~= t.to_multiset());
    }
}

proof fn lemma_exchanges_keep_items<T>(s: Seq<T>, draws: Seq<usize>, k: int)
    requires
        draws_fit(draws, s.len() as int),
        k < s.len() || k <= 0,
    ensures
        after_exchanges(s, draws, k).to_multiset() == s.to_multiset(),
    decreases k,
{
    if k > 0 {
        lemma_exchanges_keep_items(s, draws, k - 1);
        lemma_exchanges_keep_len(s, draws, k - 1);
        lemma_exchange_keeps_items(
            after_exchanges(s, draws, k - 1),
            s.len() - k,
            draws[k - 1] as int,
        );
    }
}

/// A shuffle loses no item and adds none.
pub proof fn shuffle_keeps_items<T>(s: Seq<T>, draws: Seq<usize>)
    requires
        draws_fit(draws, s.len() as int),
    ensures
        shuffled(s, draws).to_multiset() == s.to_multiset(),
        shuffled(s, draws).len() == s.len(),
{
    lemma_exchanges_keep_items(s, draws, s.len() - 1);
    lemma_exchanges_keep_len(s, draws, s.len() - 1);
}

/// Entries in shuffled order, handed out in turn, over and over.
#[derive(Debug)]
pub struct Pool {
    pub entries: Vec<Entry>,
    pub next: usize,
}

/// How many entries are handed out when `count` are asked for of `len`: no
/// more than there are, and never none.
pub open spec fn handout(count: int, len: int) -> int {
    let least = if count < len {
        count
    } else {
        len
    };
    if least < 1 {
        1
    } else {
        least
    }
}

/// What comes `i` handouts after entry `next` of an order that goes around.
pub open spec fn in_turn<T>(order: Seq<T>, next: int, i: int) -> T {
    order[(next + i) % order.len() as int]
}

/// The next `count` items of an order that goes around.
pub open spec fn turns<T>(order: Seq<T>, next: int, count: int) -> Seq<T> {
    Seq::new(count as nat, |i: int| in_turn(order, next, i))
}

/// Which entry comes next once `count` more are handed out.
pub open spec fn advanced(next: int, count: int, len: int) -> int {
    if next + count > len {
        next + count - len
    } else {
        next + count
    }
}

impl Pool {
    /// The next entry is no further than the end.
    pub open spec fn wf(self) -> bool {
        self.next <= self.entries.len()
    }

    /// A pool of entries, shuffled.
    pub fn new(entries: Vec<Entry>, draws: &[usize]) -> (result: Self)
        requires
            draws_fit(draws@, entries.len() as int),
        ensures
            result.wf(),
            result.entries@ == shuffled(entries@, draws@),
            result.next == 0,
    {
        let mut order = entries;
        shuffle(&mut order, draws);
        Pool { entries: order, next: 0 }
    }

    /// Hands out entries. None comes again before every other one has come: once
    /// all have been handed out, the order is gone through again.
    pub fn take(&mut self, count: usize) -> (result: Vec<Entry>)
        requires
            old(self).wf(),
            0 < old(self).entries.len(),
        ensures
            final(self).wf(),
            final(self).entries@ == old(self).entries@,
            result@ == turns(
                old(self).entries@,
                old(self).next as int,
                handout(count as int, old(self).entries.len() as int),
            ),
            final(self).next == advanced(
                old(self).next as int,
                handout(count as int, old(self).entries.len() as int),
                old(self).entries.len() as int,
            ),
    {
        let n: usize = self.entries.len();
        let least: usize = if count < n {
            count
        } else {
            n
        };
        let c: usize = if least < 1 {
            1
        } else {
            least
        };
        let mut out: Vec<Entry> = Vec::new();
        let ghost start = *self;
        let mut i: usize = 0;
        while i < c
            invariant
                i <= c <= n == start.entries.len() == self.entries.len(),
                0 < n,
                start.next <= n,
                self.entries@ == start.entries@,
                self.next == advanced(start.next as int, i as int, n as int),
                out@ == turns(start.entries@, start.next as int, i as int),
            decreases c - i,
        {
            if self.next >= n {
                self.next = 0;
            }
            let at: usize = self.next;
            proof {
                let sum = start.next + i;
                if sum >= n {
                    vstd::arithmetic::div_mod::lemma_mod_add_multiples_vanish(sum - n, n as int);
                    if sum < 2 * n {
                        vstd::arithmetic::div_mod::lemma_small_mod((sum - n) as nat, n as nat);
                    }
                } else {
                    vstd::arithmetic::div_mod::lemma_small_mod(sum as nat, n as nat);
                }
                assert(at == sum % (n as int));
            }
            let entry = self.entries[at].clone();
            out.push(entry);
            self.next = at + 1;
            i = i + 1;
            assert(out@ =~= turns(start.entries@, start.next as int, i as int));
        }
        out
    }
}

/// What a pool hands out when it is asked again and again, the last count for the
/// last time.
pub open spec fn handed_out<T>(order: Seq<T>, next: int, counts: Seq<int>) -> Seq<T>
    decreases counts.len(),
{
    if counts.len() == 0 {
        seq![]
    } else {
        let before = counts.drop_last();
        handed_out(order, next, before) + turns(
            order,
            next_after(next, before, order.len() as int),
            handout(counts.last(), order.len() as int),
        )
    }
}

/// Which entry comes next once a pool was asked again and again.
pub open spec fn next_after(next: int, counts: Seq<int>, len: int) -> int
    decreases counts.len(),
{
    if counts.len() == 0 {
        next
    } else {
        advanced(next_after(next, counts.drop_last(), len), handout(counts.last(), len), len)
    }
}

/// However a pool is asked, the entries come in turn: what it hands out is the
/// order, gone through over and over.
pub proof fn entries_come_in_turn<T>(order: Seq<T>, next: int, counts: Seq<int>)
    requires
        0 < order.len(),
        0 <= next <= order.len(),
    ensures
        handed_out(order, next, counts) == turns(
            order,
            next,
            handed_out(order, next, counts).len() as int,
        ),
        0 <= next_after(next, counts, order.len() as int) <= order.len(),
        next_after(next, counts, order.len() as int) % order.len() as int == (next + handed_out(
            order,
            next,
            counts,
        ).len()) % order.len() as int,
    decreases counts.len(),
{
    let n = order.len() as int;
    let all = handed_out(order, next, counts);
    if counts.len() > 0 {
        let before = counts.drop_last();
        let done = handed_out(order, next, before);
        let at = next_after(next, before, n);
        let c = handout(counts.last(), n);
        entries_come_in_turn(order, next, before);
        let k = done.len() as int;
        assert forall|i: int| 0 <= i < c implies in_turn(order, at, i) == in_turn(
            order,
            next,
            k + i,
        ) by {
            vstd::arithmetic::div_mod::lemma_add_mod_noop(at, i, n);
            vstd::arithmetic::div_mod::lemma_add_mod_noop(next + k, i, n);
        }
        assert(all =~= turns(order, next, k + c));
        vstd::arithmetic::div_mod::lemma_add_mod_noop(at, c, n);
        vstd::arithmetic::div_mod::lemma_add_mod_noop(next + k, c, n);
        vstd::arithmetic::div_mod::lemma_mod_sub_multiples_vanish(at + c, n);
        assert(next + (k + c) == (next + k) + c);
    } else {
        assert(all =~= turns(order, next, 0));
    }
}

/// No entry of a pool is handed out again until every other one has been:
/// between two handouts of the same entry, all others are handed out.
pub proof fn nothing_is_reused_early<T>(
    order: Seq<T>,
    next: int,
    counts: Seq<int>,
    i: int,
    j: int,
    other: int,
)
    requires
        0 <= next <= order.len(),
        order.no_duplicates(),
        0 <= i < j < handed_out(order, next, counts).len(),
        handed_out(order, next, counts)[i] == handed_out(order, next, counts)[j],
        0 <= other < order.len(),
        order[other] != handed_out(order, next, counts)[i],
    ensures
        exists|k: int|
            i < k < j && #[trigger] handed_out(order, next, counts)[k] == order[other],
{
    let n = order.len() as int;
    let all = handed_out(order, next, counts);
    entries_come_in_turn(order, next, counts);
    let a = (next + i) % n;
    let b = (next + j) % n;
    assert(all[i] == order[a] && all[j] == order[b]);
    assert(a == b);
    // The entry comes `d` handouts after the first of the two.
    let d = (other - a) % n;
    assert(0 <= d < n);
    let k = i + d;
    assert((next + k) % n == other) by {
        vstd::arithmetic::div_mod::lemma_add_mod_noop(next + i, d, n);
        vstd::arithmetic::div_mod::lemma_add_mod_noop(a, other - a, n);
        vstd::arithmetic::div_mod::lemma_small_mod(other as nat, n as nat);
        vstd::arithmetic::div_mod::lemma_small_mod(a as nat, n as nat);
        vstd::arithmetic::div_mod::lemma_small_mod(d as nat, n as nat);
        assert(next + k == (next + i) + d);
        assert(a + (other - a) == other);
    }
    assert(d != 0) by {
        if d == 0 {
            assert(k == i);
        }
    }
    assert(j - i >= n) by {
        if j - i < n {
            vstd::arithmetic::div_mod::lemma_fundamental_div_mod(next + i, n);
            vstd::arithmetic::div_mod::lemma_fundamental_div_mod(next + j, n);
            let (p, q) = ((next + i) / n, (next + j) / n);
            assert(j - i == n * (q - p)) by (nonlinear_arith)
                requires
                    next + i == n * p + a,
                    next + j == n * q + a,
            ;
            assert(q - p <= 0 || q - p >= 1);
            assert(false) by (nonlinear_arith)
                requires
                    0 < j - i < n,
                    j - i == n * (q - p),
            ;
        }
    }
    assert(all[k] == order[other]);
}

/// What a pool hands out from the start falls into blocks as long as it has
/// entries. Each full block holds the entries that the pool was made of, in
/// another order at most, and a block that was begun holds none more often than
/// they do.
pub proof fn blocks_hold_every_entry<T>(
    entries: Seq<T>,
    draws: Seq<usize>,
    counts: Seq<int>,
    block: int,
    len: int,
)
    requires
        0 < entries.len(),
        draws_fit(draws, entries.len() as int),
        0 <= block,
        0 <= len <= entries.len(),
        block * entries.len() + len <= handed_out(shuffled(entries, draws), 0, counts).len(),
    ensures
        ({
            let n = entries.len() as int;
            let all = handed_out(shuffled(entries, draws), 0, counts);
            let part = all.subrange(block * n, block * n + len);
            &&& len == n ==> part.to_multiset() == entries.to_multiset()
            &&& part.to_multiset().subset_of(entries.to_multiset())
        }),
{
    let n = entries.len() as int;
    let order = shuffled(entries, draws);
    shuffle_keeps_items(entries, draws);
    let all = handed_out(order, 0, counts);
    entries_come_in_turn(order, 0, counts);
    let from = block * n;
    assert(0 <= from) by (nonlinear_arith)
        requires
            0 <= block,
            0 < n,
            from == block * n,
    ;
    let part = all.subrange(from, from + len);
    assert forall|i: int| 0 <= i < len implies part[i] == order[i] by {
        assert(part[i] == all[from + i]);
        assert((from + i) % n == i) by {
            vstd::arithmetic::mul::lemma_mul_is_commutative(block, n);
            vstd::arithmetic::div_mod::lemma_mod_multiples_vanish(block, i, n);
            vstd::arithmetic::div_mod::lemma_small_mod(i as nat, n as nat);
        }
    }
    assert(part =~= order.take(len));
    if len == n {
        assert(order.take(len) =~= order);
    }
    let rest = order.skip(len);
    assert(order =~= order.take(len) + rest);
    vstd::seq_lib::lemma_multiset_commutative(order.take(len), rest);
    assert forall|x: T| #[trigger] part.to_multiset().count(x) <= entries.to_multiset().count(
        x,
    ) by {
        assert(order.to_multiset().count(x) == order.take(len).to_multiset().count(x)
            + rest.to_multiset().count(x));
    }
}

/// A pass over a pool hands out every entry once: what a fresh pool hands out
/// when asked for all of them is its entries, in another order at most.
pub proof fn pass_hands_out_each_once<T>(entries: Seq<T>, draws: Seq<usize>)
    requires
        0 < entries.len(),
        draws_fit(draws, entries.len() as int),
    ensures
        turns(
            shuffled(entries, draws),
            0,
            handout(entries.len() as int, entries.len() as int),
        ).to_multiset() == entries.to_multiset(),
{
    let n = entries.len() as int;
    let counts = seq![n];
    shuffle_keeps_items(entries, draws);
    reveal_with_fuel(handed_out, 2);
    assert(counts.drop_last() =~= Seq::<int>::empty());
    let all = handed_out(shuffled(entries, draws), 0, counts);
    assert(all =~= turns(shuffled(entries, draws), 0, n));
    blocks_hold_every_entry(entries, draws, counts, 0, n);
    assert(all.subrange(0, n) =~= all);
}

/// What one generated scene borrowed from the catalog.
#[derive(Debug)]
pub struct SceneRecord {
    pub index: usize,
    pub ids: Vec<String>,
    pub families: Vec<String>,
    pub sources: Vec<Source>,
    pub kind: Kind,
}

/// What a dataset borrowed from a catalog.
#[derive(Debug)]
pub struct Sidecar {
    pub catalog: String,
    pub split: Option<Split>,
    pub scenes: Vec<SceneRecord>,
}

/// The name of the sidecar of a dataset.
pub open spec fn sidecar_name(dataset: Seq<char>) -> Seq<char> {
    match paths::file_stem(dataset) {
        Some(stem) => stem + ".catalog.json"@,
        None => ".catalog.json"@,
    }
}

/// The sidecar that sits beside a dataset.
pub fn sidecar_path(dataset: &str) -> (result: String)
    ensures
        result@ == paths::with_file_name(dataset@, sidecar_name(dataset@)),
{
    let name = match file_stem_of(dataset) {
        Some(stem) => join2(stem.as_str(), ".catalog.json"),
        None => ".catalog.json".to_owned(),
    };
    replace_file_name(dataset, name.as_str())
}

proof fn lemma_id_found(entries: Seq<Entry>, id: Seq<char>, from: int, to: int)
    ensures
        earlier_id(entries, id, from, to) matches Some(k) ==> from <= k < to && entries[k].id@
            == id,
    decreases to - from,
{
    if from < to {
        lemma_id_found(entries, id, from + 1, to);
    }
}

proof fn lemma_first_fault(entries: Seq<Entry>, i: int)
    requires
        0 <= i,
    ensures
        first_fault(entries, i) is None <==> forall|k: int|
            i <= k < entries.len() ==> #[trigger] entry_fault(entries, k) is None,
    decreases entries.len() - i,
{
    if i < entries.len() {
        lemma_first_fault(entries, i + 1);
        if forall|k: int| i <= k < entries.len() ==> #[trigger] entry_fault(entries, k) is None {
            assert(entry_fault(entries, i) is None);
        }
    }
}

/// A catalog is taken in exactly if it lists something, every entry has an id and a
/// family, no id is listed twice, and no family is listed in both splits. What is
/// taken in is all of it, in its order.
pub proof fn sound_catalogs_are_taken_in(
    path: &str,
    file: CatalogFile,
    result: Result<Catalog, String>,
)
    requires
        call_ensures(Catalog::load, (path, file), result),
    ensures
        result is Ok <==> {
            &&& file.entries@.len() > 0
            &&& forall|i: int|
                0 <= i < file.entries@.len() ==> !text::blank((#[trigger] file.entries@[i]).id@)
                    && !text::blank(file.entries@[i].family@)
            &&& forall|i: int, j: int|
                0 <= i < j < file.entries@.len() ==> (#[trigger] file.entries@[i]).id@ != (
                #[trigger] file.entries@[j]).id@
            &&& forall|i: int, j: int|
                0 <= i < j < file.entries@.len() && (#[trigger] file.entries@[i]).family@ == (
                #[trigger] file.entries@[j]).family@ ==> file.entries@[i].split
                    == file.entries@[j].split
        },
        result matches Ok(catalog) ==> catalog.entries@ == file.entries@,
{
    let entries = file.entries@;
    lemma_first_fault(entries, 0);
    if result is Ok {
        sound_entries_are_apart(entries);
        assert forall|i: int| 0 <= i < entries.len() implies !text::blank(
            (#[trigger] entries[i]).id@,
        ) && !text::blank(entries[i].family@) by {
            assert(entry_fault(entries, i) is None);
        }
    } else if entries.len() > 0 {
        let k = choose|k: int|
            0 <= k < entries.len() && !(#[trigger] entry_fault(entries, k) is None);
        lemma_id_found(entries, entries[k].id@, 0, k);
        lemma_earlier_family(entries, entries[k].family@, 0, k);
        if !text::blank(entries[k].id@) && !text::blank(entries[k].family@) {
            match earlier_id(entries, entries[k].id@, 0, k) {
                Some(j) => {
                    assert(entries[j].id@ == entries[k].id@);
                },
                None => {
                    let j = earlier_family(entries, entries[k].family@, 0, k)->0;
                    assert(entries[j].family@ == entries[k].family@);
                    assert(entries[j].split != entries[k].split);
                },
            }
        }
    }
}

/// What is asked of a catalog is what comes: exactly the entries of the split and
/// of the kind that were asked for, and all of them where none was.
pub proof fn wanted_entries_come(
    catalog: Catalog,
    split: Option<Split>,
    kind: Option<Kind>,
    result: Result<Vec<&Entry>, String>,
    i: int,
)
    requires
        call_ensures(Catalog::filtered, (&catalog, split, kind), result),
        0 <= i < catalog.entries@.len(),
    ensures
        ({
            let e = catalog.entries@[i];
            let fits = (split is None || split == Some(e.split)) && (kind is None || kind == Some(
                e.kind,
            ));
            &&& fits ==> (result matches Ok(list) && exists|k: int|
                0 <= k < list@.len() && *(#[trigger] list@[k]) == e)
            &&& result matches Ok(list) ==> list@.len() > 0 && forall|k: int|
                0 <= k < list@.len() ==> catalog.entries@.contains(*(#[trigger] list@[k])) && (
                split is None || split == Some(list@[k].split)) && (kind is None || kind == Some(
                    list@[k].kind,
                ))
        }),
{
    let entries = catalog.entries@;
    let e = entries[i];
    let p = |e: Entry| wanted(e, split, kind);
    let picked = entries.filter(p);
    broadcast use vstd::seq_lib::group_filter_ensures;
    assert(picked == chosen(entries, split, kind));
    if (split is None || split == Some(e.split)) && (kind is None || kind == Some(e.kind)) {
        assert(p(e));
        entries.lemma_filter_contains(p, i);
        assert(picked.contains(e));
        let k = choose|k: int| 0 <= k < picked.len() && picked[k] == e;
        assert(picked.len() > 0);
        let list = result->Ok_0;
        assert(list@.map_values(|e: &Entry| *e)[k] == *list@[k]);
    }
    if result is Ok {
        let list = result->Ok_0;
        assert(list@.map_values(|e: &Entry| *e) == picked);
        assert forall|k: int| 0 <= k < list@.len() implies entries.contains(
            *(#[trigger] list@[k]),
        ) && (split is None || split == Some(list@[k].split)) && (kind is None || kind == Some(
            list@[k].kind,
        )) by {
            assert(list@.map_values(|e: &Entry| *e)[k] == *list@[k]);
            assert(picked[k] == *list@[k]);
            assert(p(picked[k]));
            entries.lemma_filter_contains_rev(p, picked[k]);
        }
    }
}

/// What is trained on and what is held out never share a family nor an asset.
pub proof fn splits_of_a_catalog_are_apart(
    catalog: Catalog,
    kind: Option<Kind>,
    other: Option<Kind>,
    train: Result<Vec<&Entry>, String>,
    holdout: Result<Vec<&Entry>, String>,
    a: int,
    b: int,
)
    requires
        catalog.wf(),
        call_ensures(Catalog::filtered, (&catalog, Some(Split::Train), kind), train),
        call_ensures(Catalog::filtered, (&catalog, Some(Split::Holdout), other), holdout),
        train is Ok,
        holdout is Ok,
        0 <= a < train->Ok_0@.len(),
        0 <= b < holdout->Ok_0@.len(),
    ensures
        train->Ok_0@[a].family@ != holdout->Ok_0@[b].family@,
        train->Ok_0@[a].id@ != holdout->Ok_0@[b].id@,
{
    let (x, y) = (train->Ok_0@, holdout->Ok_0@);
    let (f, g) = (x.map_values(|e: &Entry| *e), y.map_values(|e: &Entry| *e));
    assert(f[a] == *x[a] && g[b] == *y[b]);
    splits_share_nothing(catalog, kind, other, a, b);
}

/// A shuffle goes by its draws: the item at the first drawn place comes to the end,
/// the last item takes that place, and the rest is shuffled by the other draws.
pub proof fn shuffles_go_by_their_draws<T>(s: Seq<T>, draws: Seq<usize>)
    requires
        s.len() >= 2,
        draws_fit(draws, s.len() as int),
    ensures
        shuffled(s, draws).last() == s[draws[0] as int],
        shuffled(s, draws) == shuffled(
            s.update(draws[0] as int, s.last()).drop_last(),
            draws.skip(1),
        ).push(s[draws[0] as int]),
{
    lemma_shuffle_step(s, draws, s.len() - 1);
}

proof fn lemma_shuffle_step<T>(s: Seq<T>, draws: Seq<usize>, k: int)
    requires
        1 <= k < s.len(),
        draws_fit(draws, s.len() as int),
    ensures
        ({
            let rest = s.update(draws[0] as int, s.last()).drop_last();
            after_exchanges(s, draws, k) == after_exchanges(rest, draws.skip(1), k - 1).push(
                s[draws[0] as int],
            )
        }),
    decreases k,
{
    let n = s.len() as int;
    let rest = s.update(draws[0] as int, s.last()).drop_last();
    let v = s[draws[0] as int];
    if k == 1 {
        assert(after_exchanges(s, draws, 0) == s);
        assert(after_exchanges(s, draws, 1) =~= rest.push(v));
    } else {
        lemma_shuffle_step(s, draws, k - 1);
        assert(draws_fit(draws.skip(1), rest.len() as int)) by {
            assert forall|t: int| 0 <= t < rest.len() - 1 implies #[trigger] draws.skip(1)[t]
                <= rest.len() - 1 - t by {
                assert(draws[t + 1] <= n - 1 - (t + 1));
            }
        }
        lemma_exchanges_keep_len(rest, draws.skip(1), k - 2);
        let x = after_exchanges(rest, draws.skip(1), k - 2);
        assert(draws.skip(1)[k - 2] == draws[k - 1]);
        assert(draws[k - 1] <= n - 1 - (k - 1));
        assert(exchanged(x.push(v), n - k, draws[k - 1] as int) =~= exchanged(
            x,
            n - k,
            draws[k - 1] as int,
        ).push(v));
    }
}

/// As many entries are handed out as are asked for, but never more than there are
/// and never none.
pub proof fn handouts_are_what_is_asked_for(count: int, len: int)
    requires
        0 < len,
    ensures
        1 <= count <= len ==> handout(count, len) == count,
        count > len ==> handout(count, len) == len,
        count < 1 ==> handout(count, len) == 1,
{
}

} // verus!
