//! The atlas backends that are registered, and where tiles are in them.
use vstd::prelude::*;

use crate::atlas::AtlasLayout;
use crate::tiles::{TileKey, ATLAS_TILE_SIZE};

verus! {

/// The pixel formats of textures.
#[derive(Debug, Clone, Copy, PartialEq, Eq, Structural)]
pub enum TextureFormat {
    R8Unorm,
    Rg8Unorm,
    Rgba8Unorm,
    Bgra8Unorm,
    Rgba8UnormSrgb,
    Bgra8UnormSrgb,
    Rgba16Float,
    R32Float,
    R8Uint,
    Depth32Float,
}

/// What an atlas backend is for.
#[derive(Debug, Clone, Copy, PartialEq, Eq, Structural)]
pub enum BackendKind {
    Leaf,
    BranchCache,
}

/// The uses that a texture is made for.
#[derive(Debug, Clone, Copy, PartialEq, Eq, Structural)]
pub struct TextureUsage {
    pub copy_src: bool,
    pub copy_dst: bool,
    pub texture_binding: bool,
    pub storage_binding: bool,
    pub render_attachment: bool,
}

impl TextureUsage {
    /// No use at all.
    pub open spec fn nothing() -> TextureUsage {
        TextureUsage {
            copy_src: false,
            copy_dst: false,
            texture_binding: false,
            storage_binding: false,
            render_attachment: false,
        }
    }

    /// The uses of a backend for which none are asked: a leaf is written to in
    /// every way, a cache is only rendered to and sampled.
    pub open spec fn usual(kind: BackendKind) -> TextureUsage {
        match kind {
            BackendKind::Leaf => TextureUsage {
                copy_src: true,
                copy_dst: true,
                texture_binding: true,
                storage_binding: true,
                render_attachment: true,
            },
            BackendKind::BranchCache => TextureUsage {
                texture_binding: true,
                render_attachment: true,
                ..TextureUsage::nothing()
            },
        }
    }

    pub fn empty() -> (usage: TextureUsage)
        ensures
            usage == TextureUsage::nothing(),
    {
        TextureUsage {
            copy_src: false,
            copy_dst: false,
            texture_binding: false,
            storage_binding: false,
            render_attachment: false,
        }
    }

    /// The uses of a backend for which none are asked.
    pub fn default_usage_for_kind(kind: BackendKind) -> (usage: TextureUsage)
        ensures
            usage == TextureUsage::usual(kind),
    {
        match kind {
            BackendKind::Leaf => TextureUsage {
                copy_src: true,
                copy_dst: true,
                texture_binding: true,
                storage_binding: true,
                render_attachment: true,
            },
            BackendKind::BranchCache => TextureUsage {
                copy_src: false,
                copy_dst: false,
                texture_binding: true,
                storage_binding: false,
                render_attachment: true,
            },
        }
    }
}

/// How the texture of a backend is asked for.
#[derive(Debug, Clone, Copy, PartialEq, Eq, Structural)]
pub struct AtlasTextureConfig {
    pub format: TextureFormat,
    pub usage: TextureUsage,
    pub mip_level_count: u32,
    pub sample_count: u32,
}

impl Default for AtlasTextureConfig {
    fn default() -> (config: Self)
        ensures
            config == (AtlasTextureConfig {
                format: TextureFormat::Rgba8Unorm,
                usage: TextureUsage::nothing(),
                mip_level_count: 1,
                sample_count: 1,
            }),
    {
        AtlasTextureConfig {
            format: TextureFormat::Rgba8Unorm,
            usage: TextureUsage::empty(),
            mip_level_count: 1,
            sample_count: 1,
        }
    }
}

/// The texture to make for a backend.
#[derive(Debug, Clone, Copy, PartialEq, Eq, Structural)]
pub struct AtlasTexturePlan {
    pub edge_size: u32,
    pub layers: u32,
    pub format: TextureFormat,
    pub usage: TextureUsage,
    pub mip_level_count: u32,
    pub sample_count: u32,
}

/// Where a slot is in the texture of its backend: the layer, and its position
/// there in tiles and in texels.
#[derive(Debug, Clone, Copy, PartialEq, Eq)]
pub struct AtlasAddress {
    pub layer: u32,
    pub tile_offset: (u32, u32),
    pub texel_offset: (u32, u32),
}

/// Where a tile is: the backend whose texture holds it, the format of that
/// texture, and the address in it.
#[derive(Debug, Clone, Copy, PartialEq, Eq)]
pub struct AtlasResolvedAddress {
    pub backend_id: u8,
    pub format: TextureFormat,
    pub address: AtlasAddress,
}

/// What is known of a backend's texture.
#[derive(Debug, Clone, Copy, PartialEq, Eq, Structural)]
pub struct AtlasBackendResource {
    pub format: TextureFormat,
    pub layers: u32,
    pub kind: BackendKind,
}

#[derive(Debug, Clone, Copy, PartialEq, Eq, Structural)]
pub enum AtlasStorageRuntimeRegisterError {
    BackendLimitReached,
    NonContiguousBackendId { expected: u8, provided: u8 },
}

/// A registered backend.
#[derive(Debug, Clone, Copy, PartialEq, Eq, Structural)]
pub struct BackendBinding {
    pub layout: AtlasLayout,
    pub kind: BackendKind,
    pub format: TextureFormat,
}

/// The layers have slots, and the numbers of slots and of texels along an edge
/// fit.
pub open spec fn addressable(layout: AtlasLayout) -> bool {
    &&& layout.tiles_per_edge > 0
    &&& layout.tiles_per_edge * layout.tiles_per_edge <= u32::MAX
}

/// The slots with the highest bit clear are on the even layers, the others on
/// the odd ones.
pub open spec fn slot_parity(slot: u32) -> int {
    if slot < 0x8000_0000 {
        0
    } else {
        1
    }
}

/// The number of a slot among those of its parity.
pub open spec fn slot_in_parity(slot: u32) -> int {
    slot - 0x8000_0000 * slot_parity(slot)
}

/// The address of a slot: slots of one parity are numbered row by row, layer by
/// layer.
pub open spec fn address_in(layout: AtlasLayout, slot: u32) -> AtlasAddress {
    let edge = layout.tiles_per_edge as int;
    let in_layer = slot_in_parity(slot) % (edge * edge);
    let x = in_layer % edge;
    let y = in_layer / edge;
    AtlasAddress {
        layer: (slot_parity(slot) + 2 * (slot_in_parity(slot) / (edge * edge))) as u32,
        tile_offset: (x as u32, y as u32),
        texel_offset: ((x * ATLAS_TILE_SIZE) as u32, (y * ATLAS_TILE_SIZE) as u32),
    }
}

/// The slot of an address: it can be computed back, and the parts of the address
/// are small enough to be written down.
pub proof fn lemma_slot_of_address(layout: AtlasLayout, slot: u32)
    requires
        addressable(layout),
    ensures
        ({
            let edge = layout.tiles_per_edge as int;
            let address = address_in(layout, slot);
            let (x, y) = address.tile_offset;
            &&& x < edge
            &&& y < edge
            &&& edge <= 0xffff
            &&& address.layer == slot_parity(slot) + 2 * (slot_in_parity(slot) / (edge * edge))
            &&& slot_in_parity(slot) == (address.layer / 2) * (edge * edge) + y * edge + x
            &&& address.layer as int % 2 == slot_parity(slot)
            &&& address.texel_offset.0 == x * ATLAS_TILE_SIZE
            &&& address.texel_offset.1 == y * ATLAS_TILE_SIZE
        }),
{
    let edge = layout.tiles_per_edge as int;
    let per_layer = edge * edge;
    let index = slot_in_parity(slot);
    let in_layer = index % per_layer;
    assert(edge <= 0xffff) by (nonlinear_arith)
        requires
            edge * edge <= u32::MAX,
            edge > 0,
    ;
    assert(per_layer > 0) by (nonlinear_arith)
        requires
            edge > 0,
            per_layer == edge * edge,
    ;
    vstd::arithmetic::div_mod::lemma_fundamental_div_mod(index, per_layer);
    vstd::arithmetic::div_mod::lemma_fundamental_div_mod(in_layer, edge);
    assert(0 <= index / per_layer <= index) by (nonlinear_arith)
        requires
            index >= 0,
            per_layer > 0,
    ;
    assert(0 <= in_layer / edge < edge) by (nonlinear_arith)
        requires
            0 <= in_layer < edge * edge,
            edge > 0,
    ;
    let y = in_layer / edge;
    assert(per_layer * (index / per_layer) == (index / per_layer) * per_layer)
        by (nonlinear_arith);
    assert(edge * y == y * edge) by (nonlinear_arith);
}

/// Two slots of a backend never share a texel: they are on different layers, or
/// their squares do not meet.
pub proof fn lemma_slots_do_not_overlap(layout: AtlasLayout, first: u32, second: u32)
    requires
        addressable(layout),
        first != second,
    ensures
        ({
            let a = address_in(layout, first);
            let b = address_in(layout, second);
            ||| a.layer != b.layer
            ||| a.texel_offset.0 + ATLAS_TILE_SIZE <= b.texel_offset.0
            ||| b.texel_offset.0 + ATLAS_TILE_SIZE <= a.texel_offset.0
            ||| a.texel_offset.1 + ATLAS_TILE_SIZE <= b.texel_offset.1
            ||| b.texel_offset.1 + ATLAS_TILE_SIZE <= a.texel_offset.1
        }),
{
    lemma_slot_of_address(layout, first);
    lemma_slot_of_address(layout, second);
}

/// A slot lies within the edge of its layer.
pub proof fn lemma_slot_within_layer(layout: AtlasLayout, slot: u32)
    requires
        addressable(layout),
    ensures
        ({
            let address = address_in(layout, slot);
            let edge_size = layout.tiles_per_edge * ATLAS_TILE_SIZE;
            &&& address.texel_offset.0 + ATLAS_TILE_SIZE <= edge_size
            &&& address.texel_offset.1 + ATLAS_TILE_SIZE <= edge_size
        }),
{
    lemma_slot_of_address(layout, slot);
}

/// The address of a slot.
pub fn build_address(layout: AtlasLayout, slot: u32) -> (address: AtlasAddress)
    requires
        addressable(layout),
    ensures
        address == address_in(layout, slot),
{
    proof {
        lemma_slot_of_address(layout, slot);
    }
    let parity: u32 = slot >> 31;
    let index_within_parity: u32 = slot & 0x7FFF_FFFF;
    assert(parity == (if slot < 0x8000_0000 {
        0u32
    } else {
        1u32
    }) && index_within_parity == slot - 0x8000_0000 * parity) by (bit_vector)
        requires
            parity == slot >> 31,
            index_within_parity == slot & 0x7FFF_FFFF,
    ;
    let tiles_per_edge: u32 = layout.tiles_per_edge();
    let tiles_per_layer: u32 = tiles_per_edge * tiles_per_edge;
    assert(tiles_per_layer > 0) by (nonlinear_arith)
        requires
            tiles_per_edge > 0,
            tiles_per_layer == tiles_per_edge * tiles_per_edge,
    ;
    let layer_in_group: u32 = index_within_parity / tiles_per_layer;
    let tile_in_layer: u32 = index_within_parity % tiles_per_layer;
    let x: u32 = tile_in_layer % tiles_per_edge;
    let y: u32 = tile_in_layer / tiles_per_edge;
    AtlasAddress {
        layer: parity + 2 * layer_in_group,
        tile_offset: (x, y),
        texel_offset: (x * ATLAS_TILE_SIZE, y * ATLAS_TILE_SIZE),
    }
}

/// Where the tile of a key is among these backends: nowhere if its backend is
/// not registered.
pub open spec fn location(
    backends: Seq<BackendBinding>,
    key: TileKey,
) -> Option<AtlasResolvedAddress> {
    if key.backend < backends.len() {
        let backend = backends[key.backend as int];
        Some(
            AtlasResolvedAddress {
                backend_id: key.backend,
                format: backend.format,
                address: address_in(backend.layout, key.slot),
            },
        )
    } else {
        None
    }
}

/// The atlas backends, in the order of their ids.
#[derive(Debug)]
pub struct AtlasStorageRuntime {
    backends: Vec<BackendBinding>,
}

impl View for AtlasStorageRuntime {
    type V = Seq<BackendBinding>;

    closed spec fn view(&self) -> Seq<BackendBinding> {
        self.backends@
    }
}

impl Default for AtlasStorageRuntime {
    fn default() -> (runtime: Self)
        ensures
            runtime@ == Seq::<BackendBinding>::empty(),
            runtime.inv(),
    {
        AtlasStorageRuntime { backends: Vec::new() }
    }
}

impl AtlasStorageRuntime {
    /// Every backend can be addressed, and there is an id for each.
    pub open spec fn inv(&self) -> bool {
        &&& self@.len() <= 256
        &&& forall|id: int|
            0 <= id < self@.len() ==> addressable((#[trigger] self@[id]).layout)
    }

    pub fn new() -> (runtime: Self)
        ensures
            runtime@ == Seq::<BackendBinding>::empty(),
            runtime.inv(),
    {
        AtlasStorageRuntime { backends: Vec::new() }
    }

    pub fn with_capacity(capacity: usize) -> (runtime: Self)
        ensures
            runtime@ == Seq::<BackendBinding>::empty(),
            runtime.inv(),
    {
        AtlasStorageRuntime { backends: Vec::with_capacity(capacity) }
    }

    /// What is wrong with registering the next backend under this id: there are
    /// as many ids as a byte has values, and they are given out in order.
    pub open spec fn id_fault(&self, backend_id: u8) -> Option<AtlasStorageRuntimeRegisterError> {
        if self@.len() > u8::MAX {
            Some(AtlasStorageRuntimeRegisterError::BackendLimitReached)
        } else if backend_id != self@.len() {
            Some(
                AtlasStorageRuntimeRegisterError::NonContiguousBackendId {
                    expected: self@.len() as u8,
                    provided: backend_id,
                },
            )
        } else {
            None
        }
    }

    /// Checks that the next backend can be registered under this id.
    pub fn validate_backend_id(&self, backend_id: u8) -> (result: Result<
        (),
        AtlasStorageRuntimeRegisterError,
    >)
        ensures
            result == (match self.id_fault(backend_id) {
                Some(fault) => Err::<(), AtlasStorageRuntimeRegisterError>(fault),
                None => Ok(()),
            }),
    {
        let count: usize = self.backends.len();
        if count > 255 {
            return Err(AtlasStorageRuntimeRegisterError::BackendLimitReached);
        }
        let expected: u8 = count as u8;
        if backend_id != expected {
            return Err(
                AtlasStorageRuntimeRegisterError::NonContiguousBackendId {
                    expected,
                    provided: backend_id,
                },
            );
        }
        Ok(())
    }

    /// Registers the next backend and says what its texture must be: as large as
    /// the layout, with the uses that were asked for, or else the usual ones.
    pub fn create_backend(
        &mut self,
        backend_id: u8,
        kind: BackendKind,
        layout: AtlasLayout,
        config: AtlasTextureConfig,
    ) -> (result: Result<AtlasTexturePlan, AtlasStorageRuntimeRegisterError>)
        requires
            old(self).inv(),
            addressable(layout),
        ensures
            final(self).inv(),
            match old(self).id_fault(backend_id) {
                Some(fault) => result == Err::<
                    AtlasTexturePlan,
                    AtlasStorageRuntimeRegisterError,
                >(fault) && final(self)@ == old(self)@,
                None => {
                    &&& final(self)@ == old(self)@.push(
                        BackendBinding { layout, kind, format: config.format },
                    )
                    &&& result == Ok::<AtlasTexturePlan, AtlasStorageRuntimeRegisterError>(
                        AtlasTexturePlan {
                            edge_size: (layout.tiles_per_edge * ATLAS_TILE_SIZE) as u32,
                            layers: layout.layers,
                            format: config.format,
                            usage: if config.usage == TextureUsage::nothing() {
                                TextureUsage::usual(kind)
                            } else {
                                config.usage
                            },
                            mip_level_count: config.mip_level_count,
                            sample_count: config.sample_count,
                        },
                    )
                },
            },
    {
        match self.validate_backend_id(backend_id) {
            Err(error) => {
                return Err(error);
            },
            Ok(()) => {},
        }
        proof {
            lemma_slot_of_address(layout, 0);
        }
        let edge_size: u32 = layout.tiles_per_edge() * ATLAS_TILE_SIZE;
        let usage = if config.usage == TextureUsage::empty() {
            TextureUsage::default_usage_for_kind(kind)
        } else {
            config.usage
        };
        self.backends.push(BackendBinding { layout, kind, format: config.format });
        Ok(
            AtlasTexturePlan {
                edge_size,
                layers: layout.layers(),
                format: config.format,
                usage,
                mip_level_count: config.mip_level_count,
                sample_count: config.sample_count,
            },
        )
    }

    /// Where the tile of a key is, if its backend is registered.
    pub fn resolve(&self, key: TileKey) -> (resolved: Option<AtlasResolvedAddress>)
        requires
            self.inv(),
        ensures
            resolved == location(self@, key),
    {
        let backend_index: usize = key.backend_index() as usize;
        if backend_index >= self.backends.len() {
            return None;
        }
        let backend = self.backends[backend_index];
        assert(self@[backend_index as int] == backend);
        Some(
            AtlasResolvedAddress {
                backend_id: key.backend_index(),
                format: backend.format,
                address: build_address(backend.layout, key.slot_index()),
            },
        )
    }

    /// What is known of a backend, if it is registered.
    pub fn backend_resource(&self, backend_id: u8) -> (resource: Option<AtlasBackendResource>)
        ensures
            resource == (if backend_id < self@.len() {
                let backend = self@[backend_id as int];
                Some(
                    AtlasBackendResource {
                        format: backend.format,
                        layers: backend.layout.layers,
                        kind: backend.kind,
                    },
                )
            } else {
                None
            }),
    {
        let index: usize = backend_id as usize;
        if index >= self.backends.len() {
            return None;
        }
        let backend = self.backends[index];
        Some(
            AtlasBackendResource {
                format: backend.format,
                layers: backend.layout.layers(),
                kind: backend.kind,
            },
        )
    }
}

/// The squares at two places do not meet: they are in the textures of different
/// backends, on different layers, or side by side.
pub open spec fn apart(a: AtlasResolvedAddress, b: AtlasResolvedAddress) -> bool {
    ||| a.backend_id != b.backend_id
    ||| a.address.layer != b.address.layer
    ||| a.address.texel_offset.0 + ATLAS_TILE_SIZE <= b.address.texel_offset.0
    ||| b.address.texel_offset.0 + ATLAS_TILE_SIZE <= a.address.texel_offset.0
    ||| a.address.texel_offset.1 + ATLAS_TILE_SIZE <= b.address.texel_offset.1
    ||| b.address.texel_offset.1 + ATLAS_TILE_SIZE <= a.address.texel_offset.1
}

/// Tiles of different backends, or in different slots of one, never share a
/// texel of a texture.
pub proof fn lemma_located_tiles_do_not_overlap(
    backends: Seq<BackendBinding>,
    first: TileKey,
    second: TileKey,
)
    requires
        forall|id: int|
            0 <= id < backends.len() ==> addressable((#[trigger] backends[id]).layout),
        location(backends, first) is Some,
        location(backends, second) is Some,
        first.backend != second.backend || first.slot != second.slot,
    ensures
        apart(location(backends, first)->0, location(backends, second)->0),
{
    if first.backend == second.backend {
        let layout = backends[first.backend as int].layout;
        lemma_slots_do_not_overlap(layout, first.slot, second.slot);
    }
}

/// The bytes that a pixel takes.
pub fn texture_bytes_per_pixel(format: TextureFormat) -> (bytes: u32)
    ensures
        bytes == (match format {
            TextureFormat::R8Unorm => 1u32,
            TextureFormat::Rg8Unorm => 2,
            TextureFormat::Rgba16Float => 8,
            _ => 4,
        }),
{
    match format {
        TextureFormat::R8Unorm => 1,
        TextureFormat::Rg8Unorm => 2,
        TextureFormat::Rgba8Unorm | TextureFormat::Bgra8Unorm => 4,
        TextureFormat::Rgba16Float => 8,
        _ => 4,
    }
}

} // verus!
