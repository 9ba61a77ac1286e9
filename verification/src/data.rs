//! The entry tree and its addressing scheme.
//!
//! An `EntryID` is a path through the entry tree: one signed number per
//! level, where `-1` marks the synthetic summary child of a node and any
//! other value is a zero-based slot index. `EntryInfo` is the immutable
//! schema of the tree, loaded once from the trace source.

use vstd::prelude::*;

use crate::timestamp::{Interval, Timestamp};

verus! {

/// A path addressing one node of the entry tree. Entries are encoded as
/// `i64` so that the summary child packs into the value `-1`; users
/// interact through the methods below or through `EntryIndex`.
#[derive(Debug, Eq, Hash)]
pub struct EntryID(Vec<i64>);

/// The classification of one path element: the summary child, or a
/// zero-based slot index.
#[derive(Debug, Clone, Copy, PartialEq, Eq, Structural)]
pub enum EntryIndex {
    Summary,
    Slot(u64),
}

impl View for EntryID {
    type V = Seq<i64>;

    closed spec fn view(&self) -> Seq<i64> {
        self.0@
    }
}

impl EntryID {
    /// A well-formed path holds slot indexes everywhere, except that its
    /// last element may be the summary sentinel.
    pub open spec fn wf(self) -> bool {
        forall|i: int|
            0 <= i < self@.len() ==> #[trigger] self@[i] >= -1 && (self@[i] == -1 ==> i == self@.len()
                - 1)
    }

    /// A path that addresses no summary: every element is a slot index.
    pub open spec fn is_slot_path(self) -> bool {
        forall|i: int| 0 <= i < self@.len() ==> #[trigger] self@[i] >= 0
    }

    /// Whether `prefix` is a literal prefix of `self`'s path.
    pub open spec fn spec_has_prefix(self, prefix: EntryID) -> bool {
        prefix@.len() <= self@.len() && self@.subrange(0, prefix@.len() as int) == prefix@
    }

    /// The empty path: the root of the tree.
    pub fn root() -> (r: Self)
        ensures
            r@ == Seq::<i64>::empty(),
            r.wf(),
            r.is_slot_path(),
    {
        EntryID(Vec::new())
    }

    /// A new path addressing the summary child of `self`.
    pub fn summary(&self) -> (r: Self)
        requires
            self.is_slot_path(),
        ensures
            r@ == self@.push(-1i64),
            r.wf(),
    {
        let mut path = self.clone_path();
        path.push(-1);
        EntryID(path)
    }

    /// A new path addressing the `index`-th child of `self`.
    pub fn child(&self, index: u64) -> (r: Self)
        requires
            self.is_slot_path(),
            index <= i64::MAX,
        ensures
            r@ == self@.push(index as i64),
            r.wf(),
            r.is_slot_path(),
    {
        let mut path = self.clone_path();
        path.push(index as i64);
        EntryID(path)
    }

    /// The depth of the addressed node: the number of path elements.
    pub fn level(&self) -> (r: u64)
        ensures
            r == self@.len(),
    {
        self.0.len() as u64
    }

    /// The slot index stored at the last level, or `None` for an empty
    /// path or a summary sentinel.
    pub fn last_slot_index(&self) -> (r: Option<u64>)
        ensures
            r == if self@.len() > 0 && self@.last() >= 0 {
                Some(self@.last() as u64)
            } else {
                None::<u64>
            },
    {
        if self.0.len() == 0 {
            return None;
        }
        let last = self.0[self.0.len() - 1];
        if last >= 0 {
            Some(last as u64)
        } else {
            None
        }
    }

    /// The slot index stored at depth `level`, or `None` past the end of
    /// the path or at a summary sentinel.
    pub fn slot_index(&self, level: u64) -> (r: Option<u64>)
        ensures
            r == if level < self@.len() && self@[level as int] >= 0 {
                Some(self@[level as int] as u64)
            } else {
                None::<u64>
            },
    {
        if level >= self.0.len() as u64 {
            return None;
        }
        let value = self.0[level as usize];
        if value >= 0 {
            Some(value as u64)
        } else {
            None
        }
    }

    /// The classification of the last path element, or `None` for the
    /// empty path.
    pub fn last_index(&self) -> (r: Option<EntryIndex>)
        ensures
            r == if self@.len() > 0 {
                if self@.last() >= 0 {
                    Some(EntryIndex::Slot(self@.last() as u64))
                } else {
                    Some(EntryIndex::Summary)
                }
            } else {
                None::<EntryIndex>
            },
    {
        if self.0.len() == 0 {
            return None;
        }
        let last = self.0[self.0.len() - 1];
        if last >= 0 {
            Some(EntryIndex::Slot(last as u64))
        } else {
            Some(EntryIndex::Summary)
        }
    }

    /// The classification of the path element at depth `level`, or
    /// `None` past the end of the path.
    pub fn index(&self, level: u64) -> (r: Option<EntryIndex>)
        ensures
            r == if level < self@.len() {
                if self@[level as int] >= 0 {
                    Some(EntryIndex::Slot(self@[level as int] as u64))
                } else {
                    Some(EntryIndex::Summary)
                }
            } else {
                None::<EntryIndex>
            },
    {
        if level >= self.0.len() as u64 {
            return None;
        }
        let value = self.0[level as usize];
        if value >= 0 {
            Some(EntryIndex::Slot(value as u64))
        } else {
            Some(EntryIndex::Summary)
        }
    }

    /// Whether `prefix`'s path is a literal prefix of `self`'s.
    pub fn has_prefix(&self, prefix: &EntryID) -> (r: bool)
        ensures
            r == self.spec_has_prefix(*prefix),
    {
        if prefix.0.len() > self.0.len() {
            assert(!self.spec_has_prefix(*prefix));
            return false;
        }
        let n = prefix.0.len();
        let mut i: usize = 0;
        while i < n
            invariant
                n == prefix@.len() <= self@.len(),
                0 <= i <= n,
                forall|j: int| 0 <= j < i ==> self@[j] == prefix@[j],
            decreases n - i,
        {
            if self.0[i] != prefix.0[i] {
                assert(self@.subrange(0, n as int)[i as int] != prefix@[i as int]);
                return false;
            }
            i += 1;
        }
        assert(self@.subrange(0, n as int) =~= prefix@);
        true
    }

    fn clone_path(&self) -> (r: Vec<i64>)
        ensures
            r@ == self@,
    {
        let mut path: Vec<i64> = Vec::new();
        let n = self.0.len();
        let mut i: usize = 0;
        while i < n
            invariant
                n == self@.len(),
                0 <= i <= n,
                path@ =~= self@.subrange(0, i as int),
            decreases n - i,
        {
            path.push(self.0[i]);
            i += 1;
        }
        assert(path@ =~= self@);
        path
    }
}

impl Clone for EntryID {
    fn clone(&self) -> (r: Self)
        ensures
            r@ == self@,
    {
        EntryID(self.clone_path())
    }
}

impl PartialEq for EntryID {
    fn eq(&self, other: &EntryID) -> (r: bool) {
        if self.0.len() != other.0.len() {
            assert(self@ != other@);
            return false;
        }
        let n = self.0.len();
        let mut i: usize = 0;
        while i < n
            invariant
                n == self@.len() == other@.len(),
                0 <= i <= n,
                forall|j: int| 0 <= j < i ==> self@[j] == other@[j],
            decreases n - i,
        {
            if self.0[i] != other.0[i] {
                return false;
            }
            i += 1;
        }
        assert(self@ =~= other@);
        true
    }
}

impl vstd::std_specs::cmp::PartialEqSpecImpl for EntryID {
    open spec fn obeys_eq_spec() -> bool {
        true
    }

    open spec fn eq_spec(&self, other: &EntryID) -> bool {
        self@ == other@
    }
}

/// An RGBA color, one byte per channel.
#[derive(Debug, Copy, Clone, PartialEq, Eq, Structural, Hash)]
pub struct Color {
    pub r: u8,
    pub g: u8,
    pub b: u8,
    pub a: u8,
}

/// One point of a utilization plot. The fraction in use is stored in
/// parts per million, so that `1_000_000` means fully utilized.
#[derive(Debug, Copy, Clone, PartialEq, Eq, Structural, Hash)]
pub struct UtilPoint {
    pub time: Timestamp,
    pub util_ppm: u32,
}

/// An identifier for one field of an item's metadata, issued by a
/// `FieldSchema`.
#[derive(Debug, Copy, Clone, PartialEq, Eq, Structural, Hash)]
pub struct FieldID(pub u64);

/// A unique identifier for one item of the trace.
#[derive(Debug, Copy, Clone, PartialEq, Eq, Structural, Hash)]
pub struct ItemUID(pub u64);

/// A reference from one item's metadata to another item.
#[derive(Debug)]
pub struct ItemLink {
    pub item_uid: ItemUID,
    pub title: String,
    pub interval: Interval,
    pub entry_id: EntryID,
}

/// One value of an item's metadata.
#[derive(Debug)]
pub enum Field {
    I64(i64),
    U64(u64),
    String(String),
    Interval(Interval),
    ItemLink(ItemLink),
    List(Vec<Field>),
    Empty,
}

/// The set of metadata fields a trace may carry, mapping each `FieldID`
/// to a display name and whether the field can be searched.
#[derive(Debug, Clone)]
pub struct FieldSchema {
    names: Vec<String>,
    searchable: Vec<bool>,
}

impl FieldSchema {
    /// The display names, by field identifier.
    pub closed spec fn names_view(self) -> Seq<Seq<char>> {
        self.names.deep_view()
    }

    /// Which fields can be searched, by field identifier.
    pub closed spec fn searchable_view(self) -> Seq<bool> {
        self.searchable@
    }

    pub open spec fn wf(self) -> bool {
        self.names_view().len() == self.searchable_view().len()
    }

    pub fn new() -> (r: FieldSchema)
        ensures
            r.wf(),
            r.names_view() == Seq::<Seq<char>>::empty(),
    {
        FieldSchema { names: Vec::new(), searchable: Vec::new() }
    }

    /// Whether some field already carries the given display name.
    pub fn contains_name(&self, name: &String) -> (r: bool)
        ensures
            r == self.names_view().contains(name@),
    {
        let n = self.names.len();
        let mut i: usize = 0;
        while i < n
            invariant
                n == self.names_view().len(),
                0 <= i <= n,
                forall|j: int| 0 <= j < i ==> self.names_view()[j] != name@,
            decreases n - i,
        {
            if self.names[i] == *name {
                assert(self.names_view()[i as int] == name@);
                return true;
            }
            i += 1;
        }
        false
    }

    /// Registers a new field under the given name and returns its
    /// identifier.
    pub fn insert(&mut self, name: String, searchable: bool) -> (r: FieldID)
        requires
            old(self).wf(),
            old(self).names_view().len() < u64::MAX,
        ensures
            final(self).wf(),
            r.0 == old(self).names_view().len(),
            final(self).names_view() == old(self).names_view().push(name@),
            final(self).searchable_view() == old(self).searchable_view().push(searchable),
    {
        let id = FieldID(self.names.len() as u64);
        self.names.push(name);
        self.searchable.push(searchable);
        id
    }

    /// The display name of the given field, or `None` for an identifier
    /// this schema never issued.
    pub fn get_name(&self, field: FieldID) -> (r: Option<&String>)
        ensures
            match r {
                Some(name) => field.0 < self.names_view().len() && name@ == self.names_view()[field.0 as int],
                None => field.0 >= self.names_view().len(),
            },
    {
        if field.0 < self.names.len() as u64 {
            let name = &self.names[field.0 as usize];
            assert(name@ == self.names_view()[field.0 as int]);
            Some(name)
        } else {
            None
        }
    }

    /// The identifiers of all searchable fields, in increasing order.
    pub fn searchable(&self) -> (r: Vec<FieldID>)
        requires
            self.wf(),
        ensures
            r@ == searchable_prefix(
                self.searchable_view(),
                self.searchable_view().len() as int,
            ),
    {
        let mut result: Vec<FieldID> = Vec::new();
        let n = self.searchable.len();
        let mut i: usize = 0;
        while i < n
            invariant
                self.wf(),
                n == self.searchable_view().len(),
                0 <= i <= n,
                result@ == searchable_prefix(self.searchable_view(), i as int),
            decreases n - i,
        {
            if self.searchable[i] {
                result.push(FieldID(i as u64));
            }
            i += 1;
        }
        result
    }
}

/// The identifiers of the searchable fields among the first `i` entries
/// of `s`, in increasing order.
pub open spec fn searchable_prefix(s: Seq<bool>, i: int) -> Seq<FieldID>
    decreases i,
{
    if i <= 0 {
        Seq::empty()
    } else if s[i - 1] {
        searchable_prefix(s, i - 1).push(FieldID((i - 1) as u64))
    } else {
        searchable_prefix(s, i - 1)
    }
}

/// An item as drawn in a slot: its identity, the time range it is drawn
/// over, and its color.
#[derive(Debug, Clone)]
pub struct Item {
    pub item_uid: ItemUID,
    pub interval: Interval,
    pub color: Color,
}

/// An item's metadata, fetched lazily for hover and search.
#[derive(Debug)]
pub struct ItemMeta {
    pub item_uid: ItemUID,
    /// Unlike the interval in `Item`, which may be expanded for
    /// visibility or sliced into tiles, this interval covers the whole
    /// duration of the original item.
    pub original_interval: Interval,
    pub title: String,
    pub fields: Vec<(FieldID, Field)>,
}

/// The address of one pre-aggregated chunk of data: the time range it
/// covers.
#[derive(Debug, Copy, Clone, PartialEq, Eq, Structural, Hash)]
pub struct TileID(pub Interval);

/// The tiles the trace source precomputed: one ordered list of tile
/// addresses per level of detail.
#[derive(Debug, Clone)]
pub struct TileSet {
    pub tiles: Vec<Vec<TileID>>,
}

impl TileSet {
    pub fn new() -> (r: TileSet)
        ensures
            r.tiles@.len() == 0,
    {
        TileSet { tiles: Vec::new() }
    }
}

/// A summary tile: utilization points for the covered range.
#[derive(Debug, Clone)]
pub struct SummaryTileData {
    pub utilization: Vec<UtilPoint>,
}

/// A delivered summary tile, echoing the entry and tile it was requested
/// for.
#[derive(Debug, Clone)]
pub struct SummaryTile {
    pub entry_id: EntryID,
    pub tile_id: TileID,
    pub data: SummaryTileData,
}

/// A slot tile: items by row, for plain rendering.
#[derive(Debug, Clone)]
pub struct SlotTileData {
    pub items: Vec<Vec<Item>>,
}

/// A delivered slot tile, echoing the entry and tile it was requested
/// for.
#[derive(Debug, Clone)]
pub struct SlotTile {
    pub entry_id: EntryID,
    pub tile_id: TileID,
    pub data: SlotTileData,
}

/// A slot metadata tile: item metadata by row, fetched lazily.
#[derive(Debug)]
pub struct SlotMetaTileData {
    pub items: Vec<Vec<ItemMeta>>,
}

/// A delivered slot metadata tile, echoing the entry and tile it was
/// requested for.
#[derive(Debug)]
pub struct SlotMetaTile {
    pub entry_id: EntryID,
    pub tile_id: TileID,
    pub data: SlotMetaTileData,
}

/// Everything a trace source announces once at load time: the shape of
/// the entry tree, the overall time bounds, the precomputed tiles, and
/// the metadata fields it carries.
#[derive(Debug)]
pub struct DataSourceInfo {
    pub entry_info: EntryInfo,
    pub interval: Interval,
    pub tile_set: TileSet,
    pub field_schema: FieldSchema,
}

/// The immutable schema of the entry tree: a panel with children, a slot
/// holding items, or a summary plot.
#[derive(Debug)]
pub enum EntryInfo {
    Panel {
        short_name: String,
        long_name: String,
        summary: Option<Box<EntryInfo>>,
        slots: Vec<EntryInfo>,
    },
    Slot { short_name: String, long_name: String, max_rows: u64 },
    Summary { color: Color },
}

impl EntryInfo {
    pub open spec fn is_panel(self) -> bool {
        self matches EntryInfo::Panel { .. }
    }

    /// The children of a panel; the empty sequence for the other kinds.
    pub open spec fn panel_slots(self) -> Seq<EntryInfo> {
        match self {
            EntryInfo::Panel { slots, .. } => slots@,
            _ => Seq::empty(),
        }
    }

    /// The summary child of a panel, if any.
    pub open spec fn panel_summary(self) -> Option<Box<EntryInfo>> {
        match self {
            EntryInfo::Panel { summary, .. } => summary,
            _ => None,
        }
    }

    /// The short display name; the empty sequence for a summary.
    pub open spec fn short_name_spec(self) -> Seq<char> {
        match self {
            EntryInfo::Panel { short_name, .. } => short_name@,
            EntryInfo::Slot { short_name, .. } => short_name@,
            EntryInfo::Summary { .. } => Seq::empty(),
        }
    }

    /// The node addressed by `path`, walking panels downward. A summary
    /// step returns the panel's summary child at once; a slot index past
    /// a panel's children resolves to nothing.
    pub open spec fn lookup(self, path: Seq<i64>) -> Option<EntryInfo>
        decreases path.len(),
    {
        if path.len() == 0 {
            Some(self)
        } else if !self.is_panel() {
            None
        } else if path[0] < 0 {
            match self.panel_summary() {
                Some(boxed) => Some(*boxed),
                None => None,
            }
        } else if path[0] < self.panel_slots().len() {
            self.panel_slots()[path[0] as int].lookup(path.skip(1))
        } else {
            None
        }
    }

    /// Whether walking `path` never applies an index to a slot or a
    /// summary: the address-schema mismatch that the tree's own
    /// construction rules out.
    pub open spec fn compatible_path(self, path: Seq<i64>) -> bool
        decreases path.len(),
    {
        path.len() == 0 || (self.is_panel() && (path[0] < 0 || path[0]
            >= self.panel_slots().len() || self.panel_slots()[path[0] as int].compatible_path(
            path.skip(1),
        )))
    }

    /// The node addressed by `entry_id`, or `None` if the entry was
    /// pruned from the tree.
    pub fn get(&self, entry_id: &EntryID) -> (r: Option<&EntryInfo>)
        requires
            self.compatible_path(entry_id@),
        ensures
            match r {
                Some(info) => self.lookup(entry_id@) == Some(*info),
                None => self.lookup(entry_id@) is None,
            },
    {
        proof {
            assert(entry_id@.skip(0) =~= entry_id@);
        }
        self.get_from(entry_id, 0)
    }

    fn get_from(&self, entry_id: &EntryID, level: u64) -> (r: Option<&EntryInfo>)
        requires
            level <= entry_id@.len(),
            self.compatible_path(entry_id@.skip(level as int)),
        ensures
            match r {
                Some(info) => self.lookup(entry_id@.skip(level as int)) == Some(*info),
                None => self.lookup(entry_id@.skip(level as int)) is None,
            },
        decreases entry_id@.len() - level,
    {
        if level == entry_id.level() {
            assert(entry_id@.skip(level as int).len() == 0);
            return Some(self);
        }
        let ghost path = entry_id@.skip(level as int);
        assert(path[0] == entry_id@[level as int]);
        assert(path.skip(1) =~= entry_id@.skip(level as int + 1));
        match self {
            EntryInfo::Panel { summary, slots, .. } => {
                match entry_id.index(level) {
                    Some(EntryIndex::Summary) => match summary {
                        Some(boxed) => Some(&**boxed),
                        None => None,
                    },
                    Some(EntryIndex::Slot(j)) => {
                        if j < slots.len() as u64 {
                            slots[j as usize].get_from(entry_id, level + 1)
                        } else {
                            None
                        }
                    },
                    None => None,
                }
            },
            _ => None,
        }
    }

    /// Whether the first two levels below this node are all panels, as
    /// the tree built from trace metadata guarantees.
    pub open spec fn two_panel_levels(self) -> bool {
        &&& self.is_panel()
        &&& forall|i: int|
            0 <= i < self.panel_slots().len() ==> (#[trigger] self.panel_slots()[i]).is_panel()
        &&& forall|i: int, j: int|
            0 <= i < self.panel_slots().len() && 0 <= j
                < self.panel_slots()[i].panel_slots().len() ==> (
            #[trigger] self.panel_slots()[i].panel_slots()[j]).is_panel()
    }

    /// The distinct short names of the second-level panels, in order of
    /// first occurrence: the kinds of processor, channel and memory the
    /// trace has.
    pub fn kinds(&self) -> (r: Vec<String>)
        requires
            self.two_panel_levels(),
        ensures
            r.deep_view() == dedup_first(grandchild_names(self.panel_slots())),
    {
        let mut result: Vec<String> = Vec::new();
        match self {
            EntryInfo::Panel { slots: nodes, .. } => {
                assert(self.panel_slots() == nodes@);
                let n = nodes.len();
                let mut i: usize = 0;
                while i < n
                    invariant
                        n == nodes@.len(),
                        0 <= i <= n,
                        forall|k: int| 0 <= k < n ==> (#[trigger] nodes@[k]).is_panel(),
                        forall|k: int, j: int|
                            0 <= k < n && 0 <= j < nodes@[k].panel_slots().len() ==> (
                            #[trigger] nodes@[k].panel_slots()[j]).is_panel(),
                        result.deep_view() == dedup_first(grandchild_names(nodes@.take(i as int))),
                    decreases n - i,
                {
                    match &nodes[i] {
                        EntryInfo::Panel { slots: node_kinds, .. } => {
                            assert(nodes@[i as int].panel_slots() == node_kinds@);
                            let m = node_kinds.len();
                            let mut j: usize = 0;
                            while j < m
                                invariant
                                    m == node_kinds@.len(),
                                    0 <= j <= m,
                                    0 <= i < n == nodes@.len(),
                                    nodes@[i as int].panel_slots() == node_kinds@,
                                    forall|k: int| 0 <= k < m ==> (#[trigger] node_kinds@[k]).is_panel(),
                                    result.deep_view() == dedup_first(
                                        grandchild_names(nodes@.take(i as int)) + slot_short_names(
                                            node_kinds@.take(j as int),
                                        ),
                                    ),
                                decreases m - j,
                            {
                                let ghost prev = grandchild_names(nodes@.take(i as int))
                                    + slot_short_names(node_kinds@.take(j as int));
                                proof {
                                    assert(node_kinds@.take(j as int + 1).drop_last() =~= node_kinds@.take(
                                        j as int,
                                    ));
                                    assert(slot_short_names(node_kinds@.take(j as int + 1)).drop_last()
                                        =~= slot_short_names(node_kinds@.take(j as int)));
                                    assert(grandchild_names(nodes@.take(i as int)) + slot_short_names(
                                        node_kinds@.take(j as int + 1),
                                    ) =~= prev.push(node_kinds@[j as int].short_name_spec()));
                                    assert(prev.push(node_kinds@[j as int].short_name_spec()).drop_last()
                                        =~= prev);
                                }
                                match &node_kinds[j] {
                                    EntryInfo::Panel { short_name, .. } => {
                                        assert(short_name@ == node_kinds@[j as int].short_name_spec());
                                        if !vec_contains_string(&result, short_name) {
                                            result.push(short_name.clone());
                                        }
                                    },
                                    _ => {},
                                }
                                j += 1;
                            }
                            proof {
                                assert(node_kinds@.take(m as int) =~= node_kinds@);
                                assert(nodes@.take(i as int + 1).drop_last() =~= nodes@.take(i as int));
                                assert(grandchild_names(nodes@.take(i as int + 1)) =~= grandchild_names(
                                    nodes@.take(i as int),
                                ) + slot_short_names(node_kinds@));
                            }
                        },
                        _ => {
                            proof {
                                assert(false);
                            }
                        },
                    }
                    i += 1;
                }
                proof {
                    assert(nodes@.take(n as int) =~= nodes@);
                }
            },
            _ => {
                proof {
                    assert(false);
                }
            },
        }
        result
    }

    /// The number of first-level children: one per node of the machine.
    pub fn nodes(&self) -> (r: u64)
        requires
            self.is_panel(),
            self.panel_slots().len() <= u64::MAX,
        ensures
            r == self.panel_slots().len(),
    {
        match self {
            EntryInfo::Panel { slots, .. } => slots.len() as u64,
            _ => 0,
        }
    }
}

/// The short names of a sequence of schema nodes, in order.
pub open spec fn slot_short_names(slots: Seq<EntryInfo>) -> Seq<Seq<char>> {
    Seq::new(slots.len(), |i: int| slots[i].short_name_spec())
}

/// The short names of all second-level nodes under `nodes`, walking the
/// nodes in order.
pub open spec fn grandchild_names(nodes: Seq<EntryInfo>) -> Seq<Seq<char>>
    decreases nodes.len(),
{
    if nodes.len() == 0 {
        Seq::empty()
    } else {
        grandchild_names(nodes.drop_last()) + slot_short_names(nodes.last().panel_slots())
    }
}

/// `s` with every repeated element removed, keeping first occurrences in
/// order.
pub open spec fn dedup_first(s: Seq<Seq<char>>) -> Seq<Seq<char>>
    decreases s.len(),
{
    if s.len() == 0 {
        Seq::empty()
    } else {
        let d = dedup_first(s.drop_last());
        if d.contains(s.last()) {
            d
        } else {
            d.push(s.last())
        }
    }
}

/// Whether some element of `v` holds the characters of `s`.
pub fn vec_contains_string(v: &Vec<String>, s: &String) -> (r: bool)
    ensures
        r == v.deep_view().contains(s@),
{
    let n = v.len();
    let mut i: usize = 0;
    while i < n
        invariant
            n == v.deep_view().len(),
            0 <= i <= n,
            forall|j: int| 0 <= j < i ==> v.deep_view()[j] != s@,
        decreases n - i,
    {
        if v[i] == *s {
            assert(v.deep_view()[i as int] == s@);
            return true;
        }
        i += 1;
    }
    false
}

/// A synchronous trace source, shared: every fetch blocks until its
/// result is ready. Tile results must echo the exact entry and tile
/// they were requested with; the `full` flag is a fidelity hint the
/// source may ignore.
pub trait DataSource: Sized {
    fn fetch_info(&self) -> DataSourceInfo;

    fn fetch_summary_tile(&self, entry_id: &EntryID, tile_id: TileID, full: bool) -> (r:
        SummaryTile)
        ensures
            r.entry_id@ == entry_id@,
            r.tile_id == tile_id,
    ;

    fn fetch_slot_tile(&self, entry_id: &EntryID, tile_id: TileID, full: bool) -> (r: SlotTile)
        ensures
            r.entry_id@ == entry_id@,
            r.tile_id == tile_id,
    ;

    fn fetch_slot_meta_tile(&self, entry_id: &EntryID, tile_id: TileID, full: bool) -> (r:
        SlotMetaTile)
        ensures
            r.entry_id@ == entry_id@,
            r.tile_id == tile_id,
    ;
}

/// A synchronous trace source, exclusive: as `DataSource`, for sources
/// that must mutate themselves to answer.
pub trait DataSourceMut: Sized {
    fn fetch_info(&mut self) -> DataSourceInfo;

    fn fetch_summary_tile(&mut self, entry_id: &EntryID, tile_id: TileID, full: bool) -> (r:
        SummaryTile)
        ensures
            r.entry_id@ == entry_id@,
            r.tile_id == tile_id,
    ;

    fn fetch_slot_tile(&mut self, entry_id: &EntryID, tile_id: TileID, full: bool) -> (r: SlotTile)
        ensures
            r.entry_id@ == entry_id@,
            r.tile_id == tile_id,
    ;

    fn fetch_slot_meta_tile(&mut self, entry_id: &EntryID, tile_id: TileID, full: bool) -> (r:
        SlotMetaTile)
        ensures
            r.entry_id@ == entry_id@,
            r.tile_id == tile_id,
    ;
}

impl<T: DataSource> DataSourceMut for T {
    fn fetch_info(&mut self) -> DataSourceInfo {
        DataSource::fetch_info(self)
    }

    fn fetch_summary_tile(&mut self, entry_id: &EntryID, tile_id: TileID, full: bool) -> (r:
        SummaryTile) {
        DataSource::fetch_summary_tile(self, entry_id, tile_id, full)
    }

    fn fetch_slot_tile(&mut self, entry_id: &EntryID, tile_id: TileID, full: bool) -> (r:
        SlotTile) {
        DataSource::fetch_slot_tile(self, entry_id, tile_id, full)
    }

    fn fetch_slot_meta_tile(&mut self, entry_id: &EntryID, tile_id: TileID, full: bool) -> (r:
        SlotMetaTile) {
        DataSource::fetch_slot_meta_tile(self, entry_id, tile_id, full)
    }
}

/// Prefixing is reflexive: every path is a prefix of itself.
pub proof fn lemma_has_prefix_reflexive(a: EntryID)
    ensures
        a.spec_has_prefix(a),
{
    assert(a@.subrange(0, a@.len() as int) =~= a@);
}

/// Prefixing is antisymmetric: two paths that are prefixes of each other
/// are the same path.
pub proof fn lemma_has_prefix_antisymmetric(a: EntryID, b: EntryID)
    requires
        a.spec_has_prefix(b),
        b.spec_has_prefix(a),
    ensures
        a@ == b@,
{
    assert(a@.subrange(0, a@.len() as int) =~= a@);
}

} // verus!
