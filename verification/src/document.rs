use vstd::prelude::*;

verus! {

/// One placed item instance: the item's name, the player that receives
/// it, and an optional price for priced locations such as shops.
pub struct ItemPlacement {
    pub item_name: String,
    pub owning_player: u32,
    pub price: Option<u32>,
}

/// One location of a world together with the item placed there.
pub struct LocationEntry {
    pub location_name: String,
    pub placement: ItemPlacement,
}

/// One world of a multi-world session: its name and its location map.
pub struct WorldLocations {
    pub world_name: String,
    pub locations: Vec<LocationEntry>,
}

/// The validated spoiler-log document. Only the per-world location map
/// is retained; all other fields of the source document are checked for
/// shape during parsing and then discarded.
pub struct SpoilerDocument {
    pub worlds: Vec<WorldLocations>,
}

/// The mathematical record of a single placement: which world's
/// location holds which item, owned by which player.
pub ghost struct EntryModel {
    pub world: Seq<char>,
    pub location: Seq<char>,
    pub item: Seq<char>,
    pub player: u32,
}

/// The placements of one world, in the order its location map lists them.
pub open spec fn world_model_entries(w: WorldLocations) -> Seq<EntryModel> {
    w.locations@.map_values(
        |le: LocationEntry|
            EntryModel {
                world: w.world_name@,
                location: le.location_name@,
                item: le.placement.item_name@,
                player: le.placement.owning_player,
            },
    )
}

/// `world_model_entries` as a first-class spec function.
pub open spec fn world_entries_fn() -> spec_fn(WorldLocations) -> Seq<EntryModel> {
    |w: WorldLocations| world_model_entries(w)
}

/// Every placement of the document, world by world, location by location.
pub open spec fn doc_entries(d: SpoilerDocument) -> Seq<EntryModel> {
    d.worlds@.flat_map(world_entries_fn())
}

impl SpoilerDocument {
    /// Well-formedness of a validated document: world names are unique,
    /// location names are unique within each world, and every owning
    /// player is a positive integer.
    pub open spec fn wf(&self) -> bool {
        &&& forall|i: int, j: int|
            0 <= i < j < self.worlds@.len() ==> (#[trigger] self.worlds@[i].world_name@)
                != (#[trigger] self.worlds@[j].world_name@)
        &&& forall|w: int|
            0 <= w < self.worlds@.len() ==> (#[trigger] self.worlds@[w]).wf_world()
    }
}

impl WorldLocations {
    /// Well-formedness of one world's location map.
    pub open spec fn wf_world(&self) -> bool {
        &&& forall|i: int, j: int|
            0 <= i < j < self.locations@.len() ==> (#[trigger] self.locations@[i].location_name@)
                != (#[trigger] self.locations@[j].location_name@)
        &&& forall|i: int|
            0 <= i < self.locations@.len() ==> (#[trigger] self.locations@[i]).placement.owning_player
                >= 1
    }
}

/// A flattened placement, ready for aggregation.
pub struct FlatEntry {
    pub world: String,
    pub location: String,
    pub item: String,
    pub player: u32,
}

impl View for FlatEntry {
    type V = EntryModel;

    open spec fn view(&self) -> EntryModel {
        EntryModel {
            world: self.world@,
            location: self.location@,
            item: self.item@,
            player: self.player,
        }
    }
}

/// The models of a sequence of flattened placements.
pub open spec fn entry_views(s: Seq<FlatEntry>) -> Seq<EntryModel> {
    s.map_values(|e: FlatEntry| e@)
}

/// Flattens the document's nested world and location maps into one list
/// of placements, in document order.
pub fn flatten_document(doc: &SpoilerDocument) -> (r: Vec<FlatEntry>)
    ensures
        entry_views(r@) == doc_entries(*doc),
{
    let mut out: Vec<FlatEntry> = Vec::new();
    let mut w: usize = 0;
    proof {
        assert(entry_views(out@) =~= doc.worlds@.take(0).flat_map(world_entries_fn()));
    }
    while w < doc.worlds.len()
        invariant
            w <= doc.worlds@.len(),
            entry_views(out@) == doc.worlds@.take(w as int).flat_map(world_entries_fn()),
        decreases doc.worlds@.len() - w,
    {
        let nloc = doc.worlds[w].locations.len();
        let mut l: usize = 0;
        while l < nloc
            invariant
                w < doc.worlds@.len(),
                nloc == doc.worlds@[w as int].locations@.len(),
                l <= nloc,
                entry_views(out@) == doc.worlds@.take(w as int).flat_map(world_entries_fn())
                    + world_model_entries(doc.worlds@[w as int]).take(l as int),
            decreases nloc - l,
        {
            let wref = &doc.worlds[w];
            let le = &wref.locations[l];
            let entry = FlatEntry {
                world: wref.world_name.clone(),
                location: le.location_name.clone(),
                item: le.placement.item_name.clone(),
                player: le.placement.owning_player,
            };
            let ghost before = entry_views(out@);
            out.push(entry);
            proof {
                let wm = world_model_entries(doc.worlds@[w as int]);
                assert(entry_views(out@) =~= before.push(wm[l as int]));
                assert(wm.take(l + 1) =~= wm.take(l as int).push(wm[l as int]));
                assert(entry_views(out@) =~= doc.worlds@.take(w as int).flat_map(
                    world_entries_fn(),
                ) + wm.take(l + 1));
            }
            l = l + 1;
        }
        proof {
            let wm = world_model_entries(doc.worlds@[w as int]);
            assert(wm.take(nloc as int) =~= wm);
            doc.worlds@.lemma_flat_map_take_append(world_entries_fn(), w as int);
            assert(entry_views(out@) =~= doc.worlds@.take(w + 1).flat_map(world_entries_fn()));
        }
        w = w + 1;
    }
    proof {
        assert(doc.worlds@.take(doc.worlds@.len() as int) =~= doc.worlds@);
    }
    out
}

} // verus!
