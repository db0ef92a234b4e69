//! The slots of an atlas: layers of square grids of tiles.
use vstd::prelude::*;

verus! {

/// How many tiles an atlas has: along each edge of a layer, and in layers.
#[derive(Debug, Clone, Copy, PartialEq, Eq, Structural)]
pub struct AtlasLayout {
    pub tiles_per_edge: u32,
    pub layers: u32,
}

/// Where a slot is: a layer, and a position in the grid of that layer.
#[derive(Debug, Clone, Copy, PartialEq, Eq, Structural)]
pub struct SlotAddress {
    pub layer: u32,
    pub tile_x: u32,
    pub tile_y: u32,
}

impl AtlasLayout {
    /// The number of slots in a layer.
    pub open spec fn slots_per_layer(&self) -> int {
        self.tiles_per_edge * self.tiles_per_edge
    }

    /// The number of slots.
    pub open spec fn slot_count(&self) -> int {
        self.slots_per_layer() * self.layers
    }

    /// The number of slots fits.
    pub open spec fn inv(&self) -> bool {
        self.slot_count() <= u32::MAX && self.slots_per_layer() <= u32::MAX
    }

    /// The address of a slot: slots are numbered row by row, layer by layer.
    pub open spec fn address_of(&self, slot: int) -> SlotAddress {
        let in_layer = slot % self.slots_per_layer();
        SlotAddress {
            layer: (slot / self.slots_per_layer()) as u32,
            tile_x: (in_layer % (self.tiles_per_edge as int)) as u32,
            tile_y: (in_layer / (self.tiles_per_edge as int)) as u32,
        }
    }

    pub fn new(tiles_per_edge: u32, layers: u32) -> (layout: Self)
        ensures
            layout == (AtlasLayout { tiles_per_edge, layers }),
    {
        AtlasLayout { tiles_per_edge, layers }
    }

    pub fn tiles_per_edge(&self) -> (tiles: u32)
        ensures
            tiles == self.tiles_per_edge,
    {
        self.tiles_per_edge
    }

    pub fn layers(&self) -> (layers: u32)
        ensures
            layers == self.layers,
    {
        self.layers
    }

    /// The number of slots.
    pub fn total_slots(&self) -> (count: u32)
        requires
            self.inv(),
        ensures
            count == self.slot_count(),
    {
        let per_layer: u32 = self.tiles_per_edge * self.tiles_per_edge;
        per_layer * self.layers
    }

    /// The address of a slot, if the atlas has it.
    pub fn slot_address(&self, slot_index: u32) -> (address: Option<SlotAddress>)
        requires
            self.inv(),
        ensures
            address == (if slot_index < self.slot_count() {
                Some(self.address_of(slot_index as int))
            } else {
                None
            }),
    {
        if slot_index >= self.total_slots() {
            return None;
        }
        proof {
            lemma_slot_in_atlas(*self, slot_index as int);
        }
        let per_layer: u32 = self.tiles_per_edge * self.tiles_per_edge;
        let in_layer: u32 = slot_index % per_layer;
        Some(
            SlotAddress {
                layer: slot_index / per_layer,
                tile_x: in_layer % self.tiles_per_edge,
                tile_y: in_layer / self.tiles_per_edge,
            },
        )
    }
}

/// The address of a slot lies within the atlas, and the slot can be found again
/// from it.
pub proof fn lemma_slot_in_atlas(layout: AtlasLayout, slot: int)
    requires
        0 <= slot < layout.slot_count(),
        layout.inv(),
    ensures
        layout.tiles_per_edge > 0,
        layout.slots_per_layer() > 0,
        layout.address_of(slot).layer < layout.layers,
        layout.address_of(slot).tile_x < layout.tiles_per_edge,
        layout.address_of(slot).tile_y < layout.tiles_per_edge,
        slot == layout.address_of(slot).layer * layout.slots_per_layer()
            + layout.address_of(slot).tile_y * layout.tiles_per_edge
            + layout.address_of(slot).tile_x,
{
    let edge = layout.tiles_per_edge as int;
    let per_layer = layout.slots_per_layer();
    let layers = layout.layers as int;
    assert(per_layer > 0) by (nonlinear_arith)
        requires
            0 <= slot < per_layer * layers,
            layers >= 0,
    ;
    assert(edge > 0) by (nonlinear_arith)
        requires
            per_layer == edge * edge,
            per_layer > 0,
            edge >= 0,
    ;
    vstd::arithmetic::div_mod::lemma_fundamental_div_mod(slot, per_layer);
    vstd::arithmetic::div_mod::lemma_mod_bound(slot, per_layer);
    let layer = slot / per_layer;
    let in_layer = slot % per_layer;
    assert(0 <= layer < layers) by (nonlinear_arith)
        requires
            slot == per_layer * layer + in_layer,
            0 <= in_layer < per_layer,
            0 <= slot < per_layer * layers,
    ;
    vstd::arithmetic::div_mod::lemma_fundamental_div_mod(in_layer, edge);
    vstd::arithmetic::div_mod::lemma_mod_bound(in_layer, edge);
    let y = in_layer / edge;
    let x = in_layer % edge;
    assert(0 <= y < edge) by (nonlinear_arith)
        requires
            in_layer == edge * y + x,
            0 <= x < edge,
            0 <= in_layer < edge * edge,
    ;
    assert(layer * per_layer == per_layer * layer && y * edge == edge * y) by (nonlinear_arith);
}

/// Two slots of an atlas have different addresses.
pub proof fn lemma_slot_addresses_differ(layout: AtlasLayout, left: int, right: int)
    requires
        0 <= left < layout.slot_count(),
        0 <= right < layout.slot_count(),
        layout.inv(),
        layout.address_of(left) == layout.address_of(right),
    ensures
        left == right,
{
    lemma_slot_in_atlas(layout, left);
    lemma_slot_in_atlas(layout, right);
}

} // verus!
