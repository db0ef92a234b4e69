//! The passes that render layers and meshes into tiles of the atlas.
use vstd::prelude::*;

use crate::gpu_runtime::atlas_runtime::{
    AtlasResolvedAddress, AtlasStorageRuntime, BackendBinding, TextureFormat,
};
use crate::gpu_runtime::commands::{
    CanvasVec2, LeafBlendMode, MaterializeParametricCmd, RenderCmd, RenderSource,
};
use crate::gpu_runtime::native_words::native_bytes;
use crate::scalar::FloatBits;
use crate::tiles::TileKey;

verus! {

broadcast use crate::collections::group_viewed;

#[derive(Debug, Clone, Copy, PartialEq, Eq, Structural)]
pub enum RenderExecutorError {
    MissingTileBackend { tile_key: TileKey },
    PipelineNotInitialized,
}

/// The pipelines that tiles are drawn with.
#[derive(Debug, Clone, Copy, PartialEq, Eq, Structural)]
pub enum RenderPipelineKind {
    Normal,
    WriteErase,
    ImageNormal,
    ImageMultiply,
    CompositeNormal,
}

/// What the shader that draws one tile is told.
#[derive(Debug, Clone, Copy, PartialEq)]
pub struct RenderParams {
    pub src_layer: u32,
    pub src_x: u32,
    pub src_y: u32,
    pub origin_layer: u32,
    pub origin_x: u32,
    pub origin_y: u32,
    pub has_origin: u32,
    pub has_tint: u32,
    pub tint_r: FloatBits,
    pub tint_g: FloatBits,
    pub tint_b: FloatBits,
    pub opacity: FloatBits,
}

impl RenderParams {
    /// The words of the uniform buffer.
    pub open spec fn words(&self) -> Seq<u32> {
        seq![
            self.src_layer,
            self.src_x,
            self.src_y,
            self.origin_layer,
            self.origin_x,
            self.origin_y,
            self.has_origin,
            self.has_tint,
            self.tint_r.0,
            self.tint_g.0,
            self.tint_b.0,
            self.opacity.0,
        ]
    }

    /// The bytes of the uniform buffer.
    pub fn encode(&self) -> (bytes: Vec<u8>)
        ensures
            bytes@.len() == 48,
            crate::gpu_runtime::native_words::natively_laid_out(bytes@, self.words()),
    {
        let mut words: Vec<u32> = Vec::new();
        words.push(self.src_layer);
        words.push(self.src_x);
        words.push(self.src_y);
        words.push(self.origin_layer);
        words.push(self.origin_x);
        words.push(self.origin_y);
        words.push(self.has_origin);
        words.push(self.has_tint);
        words.push(self.tint_r.0);
        words.push(self.tint_g.0);
        words.push(self.tint_b.0);
        words.push(self.opacity.0);
        assert(words@ =~= self.words());
        native_bytes(&words)
    }
}

/// What is bound to draw a tile: where its texels are read, where those of the
/// earlier state are read, and the parameters.
#[derive(Debug, Clone, Copy, PartialEq)]
pub struct TileBinding {
    pub source: AtlasResolvedAddress,
    pub origin: AtlasResolvedAddress,
    pub params: RenderParams,
}

/// Where a tile is, or the error that its backend is not registered.
pub open spec fn found(backends: Seq<BackendBinding>, tile_key: TileKey) -> Result<
    AtlasResolvedAddress,
    RenderExecutorError,
> {
    match crate::gpu_runtime::atlas_runtime::location(backends, tile_key) {
        Some(resolved) => Ok(resolved),
        None => Err(RenderExecutorError::MissingTileBackend { tile_key }),
    }
}

/// Where a tile is.
pub fn find_tile(atlas_storage: &AtlasStorageRuntime, tile_key: TileKey) -> (resolved: Result<
    AtlasResolvedAddress,
    RenderExecutorError,
>)
    requires
        atlas_storage.inv(),
    ensures
        resolved == found(atlas_storage@, tile_key),
{
    match atlas_storage.resolve(tile_key) {
        Some(resolved) => Ok(resolved),
        None => Err(RenderExecutorError::MissingTileBackend { tile_key }),
    }
}

/// What is bound to draw a tile. The view of a texture starts at the layer of the
/// tile, so that the shader sees it as layer 0. Where the earlier state is not
/// given, or its backend is not registered, the tile itself is bound for it.
pub open spec fn binding(
    backends: Seq<BackendBinding>,
    src_tile_key: TileKey,
    opacity: FloatBits,
    rgb: Option<[FloatBits; 3]>,
    origin_tile_key: Option<TileKey>,
) -> Result<TileBinding, RenderExecutorError> {
    match found(backends, src_tile_key) {
        Err(error) => Err(error),
        Ok(source) => {
            let origin = match origin_tile_key {
                Some(tile_key) => crate::gpu_runtime::atlas_runtime::location(backends, tile_key),
                None => None,
            };
            Ok(
                TileBinding {
                    source,
                    origin: match origin {
                        Some(resolved) => resolved,
                        None => source,
                    },
                    params: RenderParams {
                        src_layer: 0,
                        src_x: source.address.texel_offset.0,
                        src_y: source.address.texel_offset.1,
                        origin_layer: 0,
                        origin_x: match origin {
                            Some(resolved) => resolved.address.texel_offset.0,
                            None => 0,
                        },
                        origin_y: match origin {
                            Some(resolved) => resolved.address.texel_offset.1,
                            None => 0,
                        },
                        has_origin: if origin is Some {
                            1
                        } else {
                            0
                        },
                        has_tint: if rgb is Some {
                            1
                        } else {
                            0
                        },
                        tint_r: match rgb {
                            Some(color) => color[0],
                            None => FloatBits(0),
                        },
                        tint_g: match rgb {
                            Some(color) => color[1],
                            None => FloatBits(0),
                        },
                        tint_b: match rgb {
                            Some(color) => color[2],
                            None => FloatBits(0),
                        },
                        opacity,
                    },
                },
            )
        },
    }
}

/// What is bound to draw a tile.
pub fn create_bind_group(
    atlas_storage: &AtlasStorageRuntime,
    src_tile_key: TileKey,
    opacity: FloatBits,
    rgb: Option<[FloatBits; 3]>,
    origin_tile_key: Option<TileKey>,
) -> (bound: Result<TileBinding, RenderExecutorError>)
    requires
        atlas_storage.inv(),
    ensures
        bound == binding(atlas_storage@, src_tile_key, opacity, rgb, origin_tile_key),
{
    let source = match find_tile(atlas_storage, src_tile_key) {
        Ok(resolved) => resolved,
        Err(error) => {
            return Err(error);
        },
    };
    let origin = match origin_tile_key {
        Some(tile_key) => atlas_storage.resolve(tile_key),
        None => None,
    };
    let (origin_x, origin_y, has_origin): (u32, u32, u32) = match origin {
        Some(resolved) => (resolved.address.texel_offset.0, resolved.address.texel_offset.1, 1),
        None => (0, 0, 0),
    };
    let (tint_r, tint_g, tint_b, has_tint): (FloatBits, FloatBits, FloatBits, u32) = match rgb {
        Some(color) => (color[0], color[1], color[2], 1),
        None => (FloatBits(0), FloatBits(0), FloatBits(0), 0),
    };
    Ok(
        TileBinding {
            source,
            origin: match origin {
                Some(resolved) => resolved,
                None => source,
            },
            params: RenderParams {
                src_layer: 0,
                src_x: source.address.texel_offset.0,
                src_y: source.address.texel_offset.1,
                origin_layer: 0,
                origin_x,
                origin_y,
                has_origin,
                has_tint,
                tint_r,
                tint_g,
                tint_b,
                opacity,
            },
        },
    )
}

/// A pass draws on one layer of one backend's texture.
#[derive(Debug, Clone, Copy, PartialEq, Eq, Structural)]
pub struct RenderPassKey {
    pub backend_id: u8,
    pub layer: u32,
    pub format: TextureFormat,
}

impl RenderPassKey {
    /// The pass that draws at a place.
    pub open spec fn at(resolved: AtlasResolvedAddress) -> RenderPassKey {
        RenderPassKey {
            backend_id: resolved.backend_id,
            layer: resolved.address.layer,
            format: resolved.format,
        }
    }

    pub fn of(resolved: AtlasResolvedAddress) -> (key: RenderPassKey)
        ensures
            key == RenderPassKey::at(resolved),
    {
        RenderPassKey {
            backend_id: resolved.backend_id,
            layer: resolved.address.layer,
            format: resolved.format,
        }
    }
}

/// One layer's tile that is drawn into a target.
#[derive(Debug, Clone, Copy, PartialEq)]
pub struct PreparedRenderSource {
    pub binding: TileBinding,
    pub pipeline: RenderPipelineKind,
}

/// A target and what is drawn into it, the lowest first. Nothing outside the
/// square that starts at the scissor's corner is touched.
#[derive(Debug, PartialEq)]
pub struct PreparedRenderTile {
    pub pass_key: RenderPassKey,
    pub scissor_x: u32,
    pub scissor_y: u32,
    pub sources: Vec<PreparedRenderSource>,
}

/// A target and what is drawn into it.
pub struct TileModel {
    pub pass_key: RenderPassKey,
    pub scissor_x: u32,
    pub scissor_y: u32,
    pub sources: Seq<PreparedRenderSource>,
}

impl View for PreparedRenderTile {
    type V = TileModel;

    open spec fn view(&self) -> TileModel {
        TileModel {
            pass_key: self.pass_key,
            scissor_x: self.scissor_x,
            scissor_y: self.scissor_y,
            sources: self.sources@,
        }
    }
}

/// The targets that are drawn in one pass.
#[derive(Debug, PartialEq)]
pub struct PreparedRenderPass {
    pub key: RenderPassKey,
    pub tiles: Vec<PreparedRenderTile>,
}

/// The targets that are drawn in one pass.
#[verifier::ext_equal]
pub struct PassModel {
    pub key: RenderPassKey,
    pub tiles: Seq<TileModel>,
}

impl View for PreparedRenderPass {
    type V = PassModel;

    open spec fn view(&self) -> PassModel {
        PassModel { key: self.key, tiles: crate::collections::viewed_seq(self.tiles@) }
    }
}

/// How a command is carried out: first every target is cleared, then the passes
/// draw.
#[derive(Debug, PartialEq)]
pub struct RenderCmdPlan {
    pub clears: Vec<AtlasResolvedAddress>,
    pub passes: Vec<PreparedRenderPass>,
}

/// How a command is carried out.
#[verifier::ext_equal]
pub struct CmdModel {
    pub clears: Seq<AtlasResolvedAddress>,
    pub passes: Seq<PassModel>,
}

impl View for RenderCmdPlan {
    type V = CmdModel;

    open spec fn view(&self) -> CmdModel {
        CmdModel { clears: self.clears@, passes: crate::collections::viewed_seq(self.passes@) }
    }
}

impl CmdModel {
    /// Nothing is done.
    pub open spec fn nothing() -> CmdModel {
        CmdModel { clears: Seq::empty(), passes: Seq::empty() }
    }
}

/// The pipeline that draws a layer.
pub open spec fn leaf_pipeline(blend_mode: LeafBlendMode) -> RenderPipelineKind {
    match blend_mode {
        LeafBlendMode::Normal => RenderPipelineKind::ImageNormal,
        LeafBlendMode::Multiply => RenderPipelineKind::ImageMultiply,
    }
}

/// A source has a tile for the target with this index.
pub open spec fn supplies(source: RenderSource, index: int) -> bool {
    index < source.tile_keys@.len() && source.tile_keys@[index] != TileKey::nothing()
}

/// What is drawn into the target with this index: the tiles of the sources that
/// have one, in order.
pub open spec fn drawn_sources(
    backends: Seq<BackendBinding>,
    from: Seq<RenderSource>,
    index: int,
) -> Result<Seq<PreparedRenderSource>, RenderExecutorError>
    decreases from.len(),
{
    if from.len() == 0 {
        Ok(Seq::empty())
    } else {
        match drawn_sources(backends, from.drop_last(), index) {
            Err(error) => Err(error),
            Ok(sources) => {
                let source = from.last();
                if !supplies(source, index) {
                    Ok(sources)
                } else {
                    match binding(
                        backends,
                        source.tile_keys@[index],
                        source.config.opacity,
                        None,
                        None,
                    ) {
                        Err(error) => Err(error),
                        Ok(bound) => Ok(
                            sources.push(
                                PreparedRenderSource {
                                    binding: bound,
                                    pipeline: leaf_pipeline(source.config.blend_mode),
                                },
                            ),
                        ),
                    }
                }
            },
        }
    }
}

/// The index of the pass with this key, or the number of passes if there is none.
pub open spec fn pass_index(passes: Seq<PassModel>, key: RenderPassKey) -> int
    decreases passes.len(),
{
    if passes.len() == 0 {
        0
    } else {
        let index = pass_index(passes.drop_last(), key);
        if index < passes.len() - 1 || passes.last().key == key {
            index
        } else {
            passes.len() as int
        }
    }
}

/// One more target: it is drawn last in the pass on its layer, which is a new one
/// if none of the passes is.
pub open spec fn filed(passes: Seq<PassModel>, tile: TileModel) -> Seq<PassModel> {
    let index = pass_index(passes, tile.pass_key);
    if index < passes.len() {
        passes.update(
            index,
            PassModel { key: passes[index].key, tiles: passes[index].tiles.push(tile) },
        )
    } else {
        passes.push(PassModel { key: tile.pass_key, tiles: seq![tile] })
    }
}

/// What is done for one more target, which comes at this index: it is cleared,
/// and drawn if any source has a tile for it. A key that names no tile asks for
/// nothing.
pub open spec fn with_target(
    backends: Seq<BackendBinding>,
    from: Seq<RenderSource>,
    plan: CmdModel,
    index: int,
    dst_tile_key: TileKey,
) -> Result<CmdModel, RenderExecutorError> {
    if dst_tile_key == TileKey::nothing() {
        Ok(plan)
    } else {
        match found(backends, dst_tile_key) {
            Err(error) => Err(error),
            Ok(target) => {
                let clears = plan.clears.push(target);
                match drawn_sources(backends, from, index) {
                    Err(error) => Err(error),
                    Ok(sources) => if sources.len() == 0 {
                        Ok(CmdModel { clears, passes: plan.passes })
                    } else {
                        Ok(
                            CmdModel {
                                clears,
                                passes: filed(
                                    plan.passes,
                                    TileModel {
                                        pass_key: RenderPassKey::at(target),
                                        scissor_x: target.address.texel_offset.0,
                                        scissor_y: target.address.texel_offset.1,
                                        sources,
                                    },
                                ),
                            },
                        )
                    },
                }
            },
        }
    }
}

/// What is done for these targets.
pub open spec fn prepared(
    backends: Seq<BackendBinding>,
    from: Seq<RenderSource>,
    to: Seq<TileKey>,
) -> Result<CmdModel, RenderExecutorError>
    decreases to.len(),
{
    if to.len() == 0 {
        Ok(CmdModel::nothing())
    } else {
        match prepared(backends, from, to.drop_last()) {
            Err(error) => Err(error),
            Ok(plan) => with_target(backends, from, plan, to.len() - 1, to.last()),
        }
    }
}

/// The targets that are cleared before a fault, or all of them without one. A
/// target is cleared before its sources are looked for.
pub open spec fn cleared_targets(
    backends: Seq<BackendBinding>,
    from: Seq<RenderSource>,
    to: Seq<TileKey>,
) -> Seq<AtlasResolvedAddress>
    decreases to.len(),
{
    if to.len() == 0 {
        Seq::empty()
    } else {
        let cleared = cleared_targets(backends, from, to.drop_last());
        if prepared(backends, from, to.drop_last()) is Err || to.last() == TileKey::nothing() {
            cleared
        } else {
            match found(backends, to.last()) {
                Ok(target) => cleared.push(target),
                Err(_) => cleared,
            }
        }
    }
}

/// The model of a result.
pub open spec fn planned<T: View>(result: Result<T, RenderExecutorError>) -> Result<
    T::V,
    RenderExecutorError,
> {
    match result {
        Ok(plan) => Ok(plan@),
        Err(error) => Err(error),
    }
}

/// A fault among the first sources is the fault.
proof fn lemma_source_fault_stays(
    backends: Seq<BackendBinding>,
    from: Seq<RenderSource>,
    count: int,
    index: int,
)
    requires
        0 <= count <= from.len(),
        drawn_sources(backends, from.take(count), index) is Err,
    ensures
        drawn_sources(backends, from, index) == drawn_sources(backends, from.take(count), index),
    decreases from.len() - count,
{
    if count < from.len() {
        assert(from.take(count + 1).drop_last() =~= from.take(count));
        lemma_source_fault_stays(backends, from, count + 1, index);
    } else {
        assert(from.take(count) =~= from);
    }
}

/// A fault among the first targets is the fault.
proof fn lemma_target_fault_stays(
    backends: Seq<BackendBinding>,
    from: Seq<RenderSource>,
    to: Seq<TileKey>,
    count: int,
)
    requires
        0 <= count <= to.len(),
        prepared(backends, from, to.take(count)) is Err,
    ensures
        prepared(backends, from, to) == prepared(backends, from, to.take(count)),
        cleared_targets(backends, from, to) == cleared_targets(backends, from, to.take(count)),
    decreases to.len() - count,
{
    if count < to.len() {
        assert(to.take(count + 1).drop_last() =~= to.take(count));
        lemma_target_fault_stays(backends, from, to, count + 1);
    } else {
        assert(to.take(count) =~= to);
    }
}

/// What is drawn into the target with this index.
fn prepare_sources(
    atlas_storage: &AtlasStorageRuntime,
    from: &Vec<RenderSource>,
    tile_idx: usize,
) -> (sources: Result<Vec<PreparedRenderSource>, RenderExecutorError>)
    requires
        atlas_storage.inv(),
    ensures
        planned(sources) == drawn_sources(atlas_storage@, from@, tile_idx as int),
{
    let mut sources: Vec<PreparedRenderSource> = Vec::new();
    let mut index: usize = 0;
    assert(from@.take(0) =~= Seq::<RenderSource>::empty());
    assert(sources@ =~= Seq::<PreparedRenderSource>::empty());
    while index < from.len()
        invariant
            atlas_storage.inv(),
            index <= from@.len(),
            drawn_sources(atlas_storage@, from@.take(index as int), tile_idx as int) == Ok::<
                Seq<PreparedRenderSource>,
                RenderExecutorError,
            >(sources@),
        decreases from@.len() - index,
    {
        let source = &from[index];
        proof {
            assert(from@.take(index + 1).drop_last() =~= from@.take(index as int));
            assert(from@.take(index + 1).last() == *source);
        }
        if tile_idx < source.tile_keys.len() && source.tile_keys[tile_idx] != TileKey::empty() {
            match create_bind_group(
                atlas_storage,
                source.tile_keys[tile_idx],
                source.config.opacity,
                None,
                None,
            ) {
                Ok(bound) => {
                    let pipeline = match source.config.blend_mode {
                        LeafBlendMode::Normal => RenderPipelineKind::ImageNormal,
                        LeafBlendMode::Multiply => RenderPipelineKind::ImageMultiply,
                    };
                    sources.push(PreparedRenderSource { binding: bound, pipeline });
                },
                Err(error) => {
                    proof {
                        lemma_source_fault_stays(
                            atlas_storage@,
                            from@,
                            index + 1,
                            tile_idx as int,
                        );
                    }
                    return Err(error);
                },
            }
        }
        index += 1;
    }
    assert(from@.take(index as int) =~= from@);
    Ok(sources)
}

/// The index of the pass with this key, or the number of passes.
fn find_pass(passes: &Vec<PreparedRenderPass>, key: RenderPassKey) -> (found: usize)
    ensures
        found == pass_index(crate::collections::viewed_seq(passes@), key),
        found <= passes@.len(),
{
    let ghost models = crate::collections::viewed_seq(passes@);
    let mut index: usize = 0;
    assert(models.take(0) =~= Seq::<PassModel>::empty());
    while index < passes.len()
        invariant
            models == crate::collections::viewed_seq(passes@),
            index <= passes@.len(),
            pass_index(models.take(index as int), key) == index,
        decreases passes@.len() - index,
    {
        proof {
            assert(models.take(index + 1).drop_last() =~= models.take(index as int));
            assert(models.take(index + 1).last() == models[index as int]);
        }
        if passes[index].key == key {
            proof {
                lemma_pass_found(models, index + 1, key);
            }
            return index;
        }
        index += 1;
    }
    assert(models.take(index as int) =~= models);
    index
}

/// A pass that is among the first ones is the one.
proof fn lemma_pass_found(passes: Seq<PassModel>, count: int, key: RenderPassKey)
    requires
        0 <= count <= passes.len(),
        pass_index(passes.take(count), key) < count,
    ensures
        pass_index(passes, key) == pass_index(passes.take(count), key),
    decreases passes.len() - count,
{
    if count < passes.len() {
        assert(passes.take(count + 1).drop_last() =~= passes.take(count));
        lemma_pass_found(passes, count + 1, key);
    } else {
        assert(passes.take(count) =~= passes);
    }
}

/// Files one more target among the passes.
fn file_tile(passes: &mut Vec<PreparedRenderPass>, tile: PreparedRenderTile)
    ensures
        crate::collections::viewed_seq(final(passes)@) == filed(
            crate::collections::viewed_seq(old(passes)@),
            tile@,
        ),
{
    let ghost models = crate::collections::viewed_seq(passes@);
    let index: usize = find_pass(passes, tile.pass_key);
    if index < passes.len() {
        let ghost before = passes@;
        let mut pass = passes.remove(index);
        pass.tiles.push(tile);
        passes.insert(index, pass);
        proof {
            assert(passes@ =~= before.update(index as int, pass));
            assert(crate::collections::viewed_seq(passes@) =~= filed(models, tile@));
        }
    } else {
        let key = tile.pass_key;
        let mut tiles: Vec<PreparedRenderTile> = Vec::new();
        tiles.push(tile);
        proof {
            assert(crate::collections::viewed_seq(tiles@) =~= seq![tile@]);
        }
        passes.push(PreparedRenderPass { key, tiles });
    }
}

/// What is drawn for the targets of a command: those with sources, in one pass
/// for each layer. Each target is cleared before, and noted with the others that
/// are. It fails with the first tile whose backend is not registered.
pub fn prepare_render_passes(
    atlas_storage: &AtlasStorageRuntime,
    cmd: &RenderCmd,
    clears: &mut Vec<AtlasResolvedAddress>,
) -> (prepared_passes: Result<Vec<PreparedRenderPass>, RenderExecutorError>)
    requires
        atlas_storage.inv(),
        old(clears)@.len() == 0,
    ensures
        final(clears)@ == cleared_targets(atlas_storage@, cmd.from@, cmd.to@),
        match prepared(atlas_storage@, cmd.from@, cmd.to@) {
            Ok(plan) => {
                &&& prepared_passes is Ok
                &&& plan == (CmdModel {
                    clears: final(clears)@,
                    passes: crate::collections::viewed_seq(prepared_passes->Ok_0@),
                })
            },
            Err(error) => prepared_passes == Err::<Vec<PreparedRenderPass>, _>(error),
        },
{
    let mut passes: Vec<PreparedRenderPass> = Vec::new();
    let mut tile_idx: usize = 0;
    proof {
        assert(cmd.to@.take(0) =~= Seq::<TileKey>::empty());
        assert(clears@ =~= Seq::<AtlasResolvedAddress>::empty());
        assert(CmdModel {
            clears: clears@,
            passes: crate::collections::viewed_seq(passes@),
        } =~= CmdModel::nothing());
    }
    while tile_idx < cmd.to.len()
        invariant
            atlas_storage.inv(),
            tile_idx <= cmd.to@.len(),
            clears@ == cleared_targets(
                atlas_storage@,
                cmd.from@,
                cmd.to@.take(tile_idx as int),
            ),
            prepared(atlas_storage@, cmd.from@, cmd.to@.take(tile_idx as int)) == Ok::<
                CmdModel,
                RenderExecutorError,
            >(
                (CmdModel {
                    clears: clears@,
                    passes: crate::collections::viewed_seq(passes@),
                }),
            ),
        decreases cmd.to@.len() - tile_idx,
    {
        let dst_tile_key = cmd.to[tile_idx];
        proof {
            let longer = cmd.to@.take(tile_idx + 1);
            assert(longer.drop_last() =~= cmd.to@.take(tile_idx as int));
            assert(longer.last() == dst_tile_key);
            if prepared(atlas_storage@, cmd.from@, longer) is Err {
                lemma_target_fault_stays(atlas_storage@, cmd.from@, cmd.to@, tile_idx + 1);
            }
        }
        if dst_tile_key != TileKey::empty() {
            let target = match find_tile(atlas_storage, dst_tile_key) {
                Ok(resolved) => resolved,
                Err(error) => {
                    return Err(error);
                },
            };
            clears.push(target);
            let sources = match prepare_sources(atlas_storage, &cmd.from, tile_idx) {
                Ok(sources) => sources,
                Err(error) => {
                    return Err(error);
                },
            };
            if sources.len() > 0 {
                file_tile(
                    &mut passes,
                    PreparedRenderTile {
                        pass_key: RenderPassKey::of(target),
                        scissor_x: target.address.texel_offset.0,
                        scissor_y: target.address.texel_offset.1,
                        sources,
                    },
                );
            }
        }
        tile_idx += 1;
    }
    assert(cmd.to@.take(tile_idx as int) =~= cmd.to@);
    Ok(passes)
}

/// The passes draw on different layers, each on its own one, and every target in
/// them has something drawn into it.
pub open spec fn by_layer(passes: Seq<PassModel>) -> bool {
    &&& forall|i: int, j: int|
        0 <= i < j < passes.len() ==> (#[trigger] passes[i]).key != (#[trigger] passes[j]).key
    &&& forall|i: int| 0 <= i < passes.len() ==> drawn_on(#[trigger] passes[i])
}

/// The targets of a pass are on its layer, and something is drawn into each.
pub open spec fn drawn_on(pass: PassModel) -> bool {
    &&& pass.tiles.len() > 0
    &&& forall|k: int|
        0 <= k < pass.tiles.len() ==> (#[trigger] pass.tiles[k]).pass_key == pass.key
            && pass.tiles[k].sources.len() > 0
}

/// A target is the square of a place.
pub open spec fn covers(target: AtlasResolvedAddress, tile: TileModel) -> bool {
    &&& tile.pass_key == RenderPassKey::at(target)
    &&& tile.scissor_x == target.address.texel_offset.0
    &&& tile.scissor_y == target.address.texel_offset.1
}

/// Whatever is drawn has been cleared first.
pub open spec fn cleared_first(plan: CmdModel) -> bool {
    forall|i: int, k: int|
        0 <= i < plan.passes.len() && 0 <= k < plan.passes[i].tiles.len()
            ==> #[trigger] is_cleared(plan.clears, plan.passes[i].tiles[k])
}

/// The target has been cleared.
pub open spec fn is_cleared(clears: Seq<AtlasResolvedAddress>, tile: TileModel) -> bool {
    exists|c: int| 0 <= c < clears.len() && covers(#[trigger] clears[c], tile)
}

/// What is found among the passes: the first one with the key.
pub proof fn lemma_pass_index(passes: Seq<PassModel>, key: RenderPassKey)
    ensures
        0 <= pass_index(passes, key) <= passes.len(),
        pass_index(passes, key) < passes.len() ==> passes[pass_index(passes, key)].key == key,
        pass_index(passes, key) == passes.len() ==> forall|i: int|
            0 <= i < passes.len() ==> (#[trigger] passes[i]).key != key,
    decreases passes.len(),
{
    if passes.len() > 0 {
        lemma_pass_index(passes.drop_last(), key);
        assert forall|i: int|
            0 <= i < passes.len() && pass_index(passes, key) == passes.len() implies (
        #[trigger] passes[i]).key != key by {
            if i < passes.len() - 1 {
                assert(passes.drop_last()[i] == passes[i]);
            }
        }
    }
}

proof fn lemma_filed_by_layer(passes: Seq<PassModel>, tile: TileModel)
    requires
        by_layer(passes),
        tile.sources.len() > 0,
    ensures
        by_layer(filed(passes, tile)),
{
    lemma_pass_index(passes, tile.pass_key);
    let after = filed(passes, tile);
    let index = pass_index(passes, tile.pass_key);
    assert forall|i: int| 0 <= i < after.len() implies drawn_on(#[trigger] after[i]) by {
        if i < passes.len() {
            assert(drawn_on(passes[i]));
        }
    }
}

proof fn lemma_filed_cleared(
    clears: Seq<AtlasResolvedAddress>,
    passes: Seq<PassModel>,
    target: AtlasResolvedAddress,
    tile: TileModel,
)
    requires
        cleared_first(CmdModel { clears, passes }),
        covers(target, tile),
    ensures
        cleared_first(CmdModel { clears: clears.push(target), passes: filed(passes, tile) }),
{
    lemma_pass_index(passes, tile.pass_key);
    let before = CmdModel { clears, passes };
    let after = CmdModel { clears: clears.push(target), passes: filed(passes, tile) };
    let index = pass_index(passes, tile.pass_key);
    assert forall|i: int, k: int|
        0 <= i < after.passes.len() && 0 <= k < after.passes[i].tiles.len() implies #[trigger] is_cleared(
        after.clears,
        after.passes[i].tiles[k],
    ) by {
        let drawn = after.passes[i].tiles[k];
        if i < passes.len() && k < passes[i].tiles.len() {
            assert(drawn == passes[i].tiles[k]);
            assert(is_cleared(before.clears, before.passes[i].tiles[k]));
            let c = choose|c: int| 0 <= c < clears.len() && covers(#[trigger] clears[c], drawn);
            assert(covers(after.clears[c], drawn));
        } else {
            assert(drawn == tile);
            assert(covers(after.clears[clears.len() as int], drawn));
        }
    }
}

proof fn lemma_more_cleared(
    clears: Seq<AtlasResolvedAddress>,
    passes: Seq<PassModel>,
    target: AtlasResolvedAddress,
)
    requires
        cleared_first(CmdModel { clears, passes }),
    ensures
        cleared_first(CmdModel { clears: clears.push(target), passes }),
{
    let before = CmdModel { clears, passes };
    let after = CmdModel { clears: clears.push(target), passes };
    assert forall|i: int, k: int|
        0 <= i < after.passes.len() && 0 <= k < after.passes[i].tiles.len() implies #[trigger] is_cleared(
        after.clears,
        after.passes[i].tiles[k],
    ) by {
        let drawn = after.passes[i].tiles[k];
        assert(is_cleared(before.clears, before.passes[i].tiles[k]));
        let c = choose|c: int| 0 <= c < clears.len() && covers(#[trigger] clears[c], drawn);
        assert(covers(after.clears[c], drawn));
    }
}

/// A command draws on each layer in one pass, and whatever it draws on it has
/// cleared first.
pub proof fn lemma_passes_of_command(
    backends: Seq<BackendBinding>,
    from: Seq<RenderSource>,
    to: Seq<TileKey>,
)
    requires
        prepared(backends, from, to) is Ok,
    ensures
        by_layer(prepared(backends, from, to)->Ok_0.passes),
        cleared_first(prepared(backends, from, to)->Ok_0),
    decreases to.len(),
{
    if to.len() > 0 {
        lemma_passes_of_command(backends, from, to.drop_last());
        let plan = prepared(backends, from, to.drop_last())->Ok_0;
        if to.last() != TileKey::nothing() {
            let target = found(backends, to.last())->Ok_0;
            let sources = drawn_sources(backends, from, to.len() - 1)->Ok_0;
            lemma_more_cleared(plan.clears, plan.passes, target);
            if sources.len() > 0 {
                let tile = TileModel {
                    pass_key: RenderPassKey::at(target),
                    scissor_x: target.address.texel_offset.0,
                    scissor_y: target.address.texel_offset.1,
                    sources,
                };
                lemma_filed_by_layer(plan.passes, tile);
                lemma_filed_cleared(plan.clears, plan.passes, target, tile);
            }
        }
    }
}

/// The places of the targets that a command names, in order.
pub open spec fn named_targets(
    backends: Seq<BackendBinding>,
    to: Seq<TileKey>,
) -> Seq<AtlasResolvedAddress>
    decreases to.len(),
{
    if to.len() == 0 {
        Seq::empty()
    } else if to.last() == TileKey::nothing() {
        named_targets(backends, to.drop_last())
    } else {
        named_targets(backends, to.drop_last()).push(found(backends, to.last())->Ok_0)
    }
}

/// A command clears exactly the targets that it names.
pub proof fn lemma_command_clears_its_targets(
    backends: Seq<BackendBinding>,
    from: Seq<RenderSource>,
    to: Seq<TileKey>,
)
    requires
        prepared(backends, from, to) is Ok,
    ensures
        prepared(backends, from, to)->Ok_0.clears == named_targets(backends, to),
    decreases to.len(),
{
    if to.len() > 0 {
        lemma_command_clears_its_targets(backends, from, to.drop_last());
    }
}

/// A command leaves a neighbor alone: the places that it clears do not meet that
/// of a tile which is in no slot of its targets. As it draws only where it has
/// cleared, it does not draw there either.
pub proof fn lemma_command_leaves_neighbors_alone(
    backends: Seq<BackendBinding>,
    from: Seq<RenderSource>,
    to: Seq<TileKey>,
    neighbor: TileKey,
    cleared: int,
)
    requires
        forall|id: int|
            0 <= id < backends.len() ==> crate::gpu_runtime::atlas_runtime::addressable(
                (#[trigger] backends[id]).layout,
            ),
        prepared(backends, from, to) is Ok,
        crate::gpu_runtime::atlas_runtime::location(backends, neighbor) is Some,
        forall|i: int|
            0 <= i < to.len() ==> (#[trigger] to[i]).backend != neighbor.backend || to[i].slot
                != neighbor.slot,
        0 <= cleared < prepared(backends, from, to)->Ok_0.clears.len(),
    ensures
        crate::gpu_runtime::atlas_runtime::apart(
            prepared(backends, from, to)->Ok_0.clears[cleared],
            crate::gpu_runtime::atlas_runtime::location(backends, neighbor)->0,
        ),
    decreases to.len(),
{
    if to.len() > 0 {
        let plan = prepared(backends, from, to.drop_last())->Ok_0;
        assert forall|i: int| 0 <= i < to.drop_last().len() implies (
        #[trigger] to.drop_last()[i]).backend != neighbor.backend || to.drop_last()[i].slot
            != neighbor.slot by {
            assert(to.drop_last()[i] == to[i]);
        }
        if cleared < plan.clears.len() {
            lemma_command_leaves_neighbors_alone(backends, from, to.drop_last(), neighbor, cleared);
        } else {
            assert(to.last() == to[to.len() - 1]);
            crate::gpu_runtime::atlas_runtime::lemma_located_tiles_do_not_overlap(
                backends,
                to.last(),
                neighbor,
            );
        }
    }
}

/// The format of the first tile, if its backend is registered.
pub open spec fn first_tile_format(
    backends: Seq<BackendBinding>,
    tile_keys: Seq<TileKey>,
) -> Option<TextureFormat> {
    if tile_keys.len() == 0 {
        None
    } else {
        match crate::gpu_runtime::atlas_runtime::location(backends, tile_keys[0]) {
            Some(resolved) => Some(resolved.format),
            None => None,
        }
    }
}

/// The format that commands with these targets are rendered in: that of the
/// first tile of the first command where it is known.
pub open spec fn detected_format(
    backends: Seq<BackendBinding>,
    targets: Seq<Seq<TileKey>>,
) -> TextureFormat
    decreases targets.len(),
{
    if targets.len() == 0 {
        TextureFormat::Rgba8Unorm
    } else {
        match first_tile_format(backends, targets[0]) {
            Some(format) => format,
            None => detected_format(backends, targets.drop_first()),
        }
    }
}

fn format_of_first(atlas_storage: &AtlasStorageRuntime, tile_keys: &Vec<TileKey>) -> (format: Option<
    TextureFormat,
>)
    requires
        atlas_storage.inv(),
    ensures
        format == first_tile_format(atlas_storage@, tile_keys@),
{
    if tile_keys.len() == 0 {
        return None;
    }
    match atlas_storage.resolve(tile_keys[0]) {
        Some(resolved) => Some(resolved.format),
        None => None,
    }
}

/// The targets of commands.
pub open spec fn render_targets(cmds: Seq<RenderCmd>) -> Seq<Seq<TileKey>> {
    cmds.map_values(|cmd: RenderCmd| cmd.to@)
}

/// The targets of commands.
pub open spec fn parametric_targets(cmds: Seq<MaterializeParametricCmd>) -> Seq<Seq<TileKey>> {
    cmds.map_values(|cmd: MaterializeParametricCmd| cmd.dst_tile_keys@)
}

/// The format that commands are rendered in.
pub fn detect_format(atlas_storage: &AtlasStorageRuntime, cmds: &Vec<RenderCmd>) -> (format:
    TextureFormat)
    requires
        atlas_storage.inv(),
    ensures
        format == detected_format(atlas_storage@, render_targets(cmds@)),
{
    let ghost targets = render_targets(cmds@);
    let mut index: usize = 0;
    assert(targets.skip(0) =~= targets);
    while index < cmds.len()
        invariant
            atlas_storage.inv(),
            targets == render_targets(cmds@),
            index <= cmds@.len(),
            detected_format(atlas_storage@, targets) == detected_format(
                atlas_storage@,
                targets.skip(index as int),
            ),
        decreases cmds@.len() - index,
    {
        proof {
            assert(targets.skip(index as int)[0] == cmds@[index as int].to@);
            assert(targets.skip(index as int).drop_first() =~= targets.skip(index + 1));
        }
        if let Some(format) = format_of_first(atlas_storage, &cmds[index].to) {
            return format;
        }
        index += 1;
    }
    TextureFormat::Rgba8Unorm
}

/// The format that meshes are drawn in.
pub fn detect_parametric_format(
    atlas_storage: &AtlasStorageRuntime,
    cmds: &Vec<MaterializeParametricCmd>,
) -> (format: TextureFormat)
    requires
        atlas_storage.inv(),
    ensures
        format == detected_format(atlas_storage@, parametric_targets(cmds@)),
{
    let ghost targets = parametric_targets(cmds@);
    let mut index: usize = 0;
    assert(targets.skip(0) =~= targets);
    while index < cmds.len()
        invariant
            atlas_storage.inv(),
            targets == parametric_targets(cmds@),
            index <= cmds@.len(),
            detected_format(atlas_storage@, targets) == detected_format(
                atlas_storage@,
                targets.skip(index as int),
            ),
        decreases cmds@.len() - index,
    {
        proof {
            assert(targets.skip(index as int)[0] == cmds@[index as int].dst_tile_keys@);
            assert(targets.skip(index as int).drop_first() =~= targets.skip(index + 1));
        }
        if let Some(format) = format_of_first(atlas_storage, &cmds[index].dst_tile_keys) {
            return format;
        }
        index += 1;
    }
    TextureFormat::Rgba8Unorm
}

/// How a command is carried out: one without targets or without sources asks for
/// nothing.
pub open spec fn encoded(backends: Seq<BackendBinding>, cmd: RenderCmd) -> Result<
    CmdModel,
    RenderExecutorError,
> {
    if cmd.to@.len() == 0 || cmd.from@.len() == 0 {
        Ok(CmdModel::nothing())
    } else {
        prepared(backends, cmd.from@, cmd.to@)
    }
}

/// What of a command is carried out: if it fails, the targets before the fault
/// have been cleared.
pub open spec fn carried_out(backends: Seq<BackendBinding>, cmd: RenderCmd) -> CmdModel {
    match encoded(backends, cmd) {
        Ok(plan) => plan,
        Err(_) => CmdModel {
            clears: cleared_targets(backends, cmd.from@, cmd.to@),
            passes: Seq::empty(),
        },
    }
}

/// Whether there is a fault, and which.
pub open spec fn answered<T>(result: Result<T, RenderExecutorError>) -> Result<
    (),
    RenderExecutorError,
> {
    match result {
        Ok(_) => Ok(()),
        Err(error) => Err(error),
    }
}

/// Adds how a command is carried out to what is done.
pub fn encode_cmd(
    atlas_storage: &AtlasStorageRuntime,
    cmd: &RenderCmd,
    plans: &mut Vec<RenderCmdPlan>,
) -> (result: Result<(), RenderExecutorError>)
    requires
        atlas_storage.inv(),
    ensures
        result == answered(encoded(atlas_storage@, *cmd)),
        crate::collections::viewed_seq(final(plans)@) == crate::collections::viewed_seq(
            old(plans)@,
        ).push(carried_out(atlas_storage@, *cmd)),
{
    let mut clears: Vec<AtlasResolvedAddress> = Vec::new();
    if cmd.to.len() == 0 || cmd.from.len() == 0 {
        let plan = RenderCmdPlan { clears, passes: Vec::new() };
        assert(plan@ =~= CmdModel::nothing());
        plans.push(plan);
        return Ok(());
    }
    match prepare_render_passes(atlas_storage, cmd, &mut clears) {
        Ok(passes) => {
            let plan = RenderCmdPlan { clears, passes };
            assert(plan@ == carried_out(atlas_storage@, *cmd));
            plans.push(plan);
            Ok(())
        },
        Err(error) => {
            let plan = RenderCmdPlan { clears, passes: Vec::new() };
            assert(plan@ =~= carried_out(atlas_storage@, *cmd));
            plans.push(plan);
            Err(error)
        },
    }
}

/// How commands are carried out, one after the other: the first fault stops them
/// all.
pub open spec fn all_encoded(backends: Seq<BackendBinding>, cmds: Seq<RenderCmd>) -> Result<
    Seq<CmdModel>,
    RenderExecutorError,
>
    decreases cmds.len(),
{
    if cmds.len() == 0 {
        Ok(Seq::empty())
    } else {
        match all_encoded(backends, cmds.drop_last()) {
            Err(error) => Err(error),
            Ok(plans) => match encoded(backends, cmds.last()) {
                Err(error) => Err(error),
                Ok(plan) => Ok(plans.push(plan)),
            },
        }
    }
}

/// What of commands is carried out: those before a fault, and the one with the
/// fault as far as it goes.
pub open spec fn all_carried_out(
    backends: Seq<BackendBinding>,
    cmds: Seq<RenderCmd>,
) -> Seq<CmdModel>
    decreases cmds.len(),
{
    if cmds.len() == 0 {
        Seq::empty()
    } else if all_encoded(backends, cmds.drop_last()) is Err {
        all_carried_out(backends, cmds.drop_last())
    } else {
        all_carried_out(backends, cmds.drop_last()).push(carried_out(backends, cmds.last()))
    }
}

/// Without a fault commands are carried out as planned.
pub proof fn lemma_commands_without_fault(backends: Seq<BackendBinding>, cmds: Seq<RenderCmd>)
    requires
        all_encoded(backends, cmds) is Ok,
    ensures
        all_carried_out(backends, cmds) == all_encoded(backends, cmds)->Ok_0,
    decreases cmds.len(),
{
    if cmds.len() > 0 {
        lemma_commands_without_fault(backends, cmds.drop_last());
    }
}

proof fn lemma_cmd_fault_stays(backends: Seq<BackendBinding>, cmds: Seq<RenderCmd>, count: int)
    requires
        0 <= count <= cmds.len(),
        all_encoded(backends, cmds.take(count)) is Err,
    ensures
        all_encoded(backends, cmds) == all_encoded(backends, cmds.take(count)),
        all_carried_out(backends, cmds) == all_carried_out(backends, cmds.take(count)),
    decreases cmds.len() - count,
{
    if count < cmds.len() {
        assert(cmds.take(count + 1).drop_last() =~= cmds.take(count));
        lemma_cmd_fault_stays(backends, cmds, count + 1);
    } else {
        assert(cmds.take(count) =~= cmds);
    }
}

/// The models of the plans in a result.
pub open spec fn all_planned<T: View>(result: Result<Vec<T>, RenderExecutorError>) -> Result<
    Seq<T::V>,
    RenderExecutorError,
> {
    match result {
        Ok(plans) => Ok(crate::collections::viewed_seq(plans@)),
        Err(error) => Err(error),
    }
}

/// Adds how commands are carried out to what is done.
pub fn encode_cmds(
    atlas_storage: &AtlasStorageRuntime,
    cmds: &Vec<RenderCmd>,
    plans: &mut Vec<RenderCmdPlan>,
) -> (result: Result<(), RenderExecutorError>)
    requires
        atlas_storage.inv(),
    ensures
        result == answered(all_encoded(atlas_storage@, cmds@)),
        crate::collections::viewed_seq(final(plans)@) == crate::collections::viewed_seq(
            old(plans)@,
        ) + all_carried_out(atlas_storage@, cmds@),
{
    let mut index: usize = 0;
    proof {
        assert(cmds@.take(0) =~= Seq::<RenderCmd>::empty());
        assert(crate::collections::viewed_seq(plans@) =~= crate::collections::viewed_seq(
            old(plans)@,
        ) + Seq::<CmdModel>::empty());
    }
    while index < cmds.len()
        invariant
            atlas_storage.inv(),
            index <= cmds@.len(),
            all_encoded(atlas_storage@, cmds@.take(index as int)) is Ok,
            crate::collections::viewed_seq(plans@) == crate::collections::viewed_seq(old(plans)@)
                + all_carried_out(atlas_storage@, cmds@.take(index as int)),
        decreases cmds@.len() - index,
    {
        proof {
            let longer = cmds@.take(index + 1);
            assert(longer.drop_last() =~= cmds@.take(index as int));
            assert(longer.last() == cmds@[index as int]);
            if all_encoded(atlas_storage@, longer) is Err {
                lemma_cmd_fault_stays(atlas_storage@, cmds@, index + 1);
            }
        }
        let encoded_cmd = encode_cmd(atlas_storage, &cmds[index], plans);
        proof {
            let longer = cmds@.take(index + 1);
            assert(crate::collections::viewed_seq(plans@) =~= crate::collections::viewed_seq(
                old(plans)@,
            ) + all_carried_out(atlas_storage@, longer));
        }
        if let Err(error) = encoded_cmd {
            return Err(error);
        }
        index += 1;
    }
    assert(cmds@.take(index as int) =~= cmds@);
    Ok(())
}

/// A tile that a mesh is drawn into, with its corner on the canvas.
#[derive(Debug, Clone, Copy, PartialEq)]
pub struct ParametricTile {
    pub target: AtlasResolvedAddress,
    pub tile_origin: CanvasVec2,
}

/// How a mesh is drawn: each tile is cleared, then the indexed triangles are
/// drawn into it.
#[derive(Debug, PartialEq)]
pub struct ParametricPlan {
    pub tiles: Vec<ParametricTile>,
    pub index_count: u32,
}

/// How a mesh is drawn.
#[verifier::ext_equal]
pub struct ParametricModel {
    pub tiles: Seq<ParametricTile>,
    pub index_count: u32,
}

impl View for ParametricPlan {
    type V = ParametricModel;

    open spec fn view(&self) -> ParametricModel {
        ParametricModel { tiles: self.tiles@, index_count: self.index_count }
    }
}

/// The tiles that a mesh is drawn into: those of the keys that name one.
pub open spec fn mesh_tiles(
    backends: Seq<BackendBinding>,
    tile_keys: Seq<TileKey>,
    origins: Seq<CanvasVec2>,
) -> Result<Seq<ParametricTile>, RenderExecutorError>
    decreases tile_keys.len(),
{
    if tile_keys.len() == 0 {
        Ok(Seq::empty())
    } else {
        match mesh_tiles(backends, tile_keys.drop_last(), origins) {
            Err(error) => Err(error),
            Ok(tiles) => if tile_keys.last() == TileKey::nothing() {
                Ok(tiles)
            } else {
                match found(backends, tile_keys.last()) {
                    Err(error) => Err(error),
                    Ok(target) => Ok(
                        tiles.push(
                            ParametricTile { target, tile_origin: origins[tile_keys.len() - 1] },
                        ),
                    ),
                }
            },
        }
    }
}

/// The tiles that a mesh is drawn into before a fault, or all of them without one.
pub open spec fn mesh_tiles_drawn(
    backends: Seq<BackendBinding>,
    tile_keys: Seq<TileKey>,
    origins: Seq<CanvasVec2>,
) -> Seq<ParametricTile>
    decreases tile_keys.len(),
{
    if tile_keys.len() == 0 {
        Seq::empty()
    } else {
        match mesh_tiles(backends, tile_keys, origins) {
            Ok(tiles) => tiles,
            Err(_) => mesh_tiles_drawn(backends, tile_keys.drop_last(), origins),
        }
    }
}

/// The number of tiles for which a command gives a key, a corner and an index.
pub open spec fn mesh_tile_count(cmd: MaterializeParametricCmd) -> int {
    let keys = cmd.dst_tile_keys@.len() as int;
    let origins = cmd.tile_origins@.len() as int;
    let indices = cmd.tile_indices@.len() as int;
    let first = if keys <= origins {
        keys
    } else {
        origins
    };
    if first <= indices {
        first
    } else {
        indices
    }
}

/// The indices that are drawn of a mesh: none if their number is too large.
pub open spec fn drawn_index_count(cmd: MaterializeParametricCmd) -> u32 {
    if cmd.mesh.indices@.len() <= u32::MAX {
        cmd.mesh.indices@.len() as u32
    } else {
        0
    }
}

/// How a mesh is drawn: one without vertices or without indices is not.
pub open spec fn materialized(backends: Seq<BackendBinding>, cmd: MaterializeParametricCmd) -> Result<
    ParametricModel,
    RenderExecutorError,
> {
    if cmd.mesh.vertices@.len() == 0 || cmd.mesh.indices@.len() == 0 {
        Ok(ParametricModel { tiles: Seq::empty(), index_count: 0 })
    } else {
        match mesh_tiles(
            backends,
            cmd.dst_tile_keys@.take(mesh_tile_count(cmd)),
            cmd.tile_origins@,
        ) {
            Err(error) => Err(error),
            Ok(tiles) => Ok(ParametricModel { tiles, index_count: drawn_index_count(cmd) }),
        }
    }
}

/// What of a mesh is drawn: if it fails, it is drawn into the tiles before the
/// fault.
pub open spec fn mesh_carried_out(
    backends: Seq<BackendBinding>,
    cmd: MaterializeParametricCmd,
) -> ParametricModel {
    match materialized(backends, cmd) {
        Ok(plan) => plan,
        Err(_) => ParametricModel {
            tiles: mesh_tiles_drawn(
                backends,
                cmd.dst_tile_keys@.take(mesh_tile_count(cmd)),
                cmd.tile_origins@,
            ),
            index_count: drawn_index_count(cmd),
        },
    }
}

proof fn lemma_mesh_fault_stays(
    backends: Seq<BackendBinding>,
    tile_keys: Seq<TileKey>,
    origins: Seq<CanvasVec2>,
    count: int,
)
    requires
        0 <= count <= tile_keys.len(),
        mesh_tiles(backends, tile_keys.take(count), origins) is Err,
    ensures
        mesh_tiles(backends, tile_keys, origins) == mesh_tiles(
            backends,
            tile_keys.take(count),
            origins,
        ),
        mesh_tiles_drawn(backends, tile_keys, origins) == mesh_tiles_drawn(
            backends,
            tile_keys.take(count),
            origins,
        ),
    decreases tile_keys.len() - count,
{
    if count < tile_keys.len() {
        assert(tile_keys.take(count + 1).drop_last() =~= tile_keys.take(count));
        lemma_mesh_fault_stays(backends, tile_keys, origins, count + 1);
    } else {
        assert(tile_keys.take(count) =~= tile_keys);
    }
}

/// Adds how a mesh is drawn to what is done.
pub fn encode_parametric_cmd(
    atlas_storage: &AtlasStorageRuntime,
    cmd: &MaterializeParametricCmd,
    plans: &mut Vec<ParametricPlan>,
) -> (result: Result<(), RenderExecutorError>)
    requires
        atlas_storage.inv(),
    ensures
        result == answered(materialized(atlas_storage@, *cmd)),
        crate::collections::viewed_seq(final(plans)@) == crate::collections::viewed_seq(
            old(plans)@,
        ).push(mesh_carried_out(atlas_storage@, *cmd)),
{
    if cmd.mesh.vertices.len() == 0 || cmd.mesh.indices.len() == 0 {
        let plan = ParametricPlan { tiles: Vec::new(), index_count: 0 };
        assert(plan@.tiles =~= Seq::<ParametricTile>::empty());
        plans.push(plan);
        return Ok(());
    }
    let index_len: usize = cmd.mesh.indices.len();
    let index_count: u32 = if index_len <= u32::MAX as usize {
        index_len as u32
    } else {
        0
    };
    let mut count: usize = cmd.dst_tile_keys.len();
    if cmd.tile_origins.len() < count {
        count = cmd.tile_origins.len();
    }
    if cmd.tile_indices.len() < count {
        count = cmd.tile_indices.len();
    }
    let ghost tile_keys = cmd.dst_tile_keys@.take(count as int);
    let mut tiles: Vec<ParametricTile> = Vec::new();
    let mut index: usize = 0;
    proof {
        assert(tile_keys.take(0) =~= Seq::<TileKey>::empty());
        assert(tiles@ =~= Seq::<ParametricTile>::empty());
    }
    while index < count
        invariant
            atlas_storage.inv(),
            index <= count,
            count <= cmd.dst_tile_keys@.len(),
            count <= cmd.tile_origins@.len(),
            count == mesh_tile_count(*cmd),
            cmd.mesh.vertices@.len() > 0,
            cmd.mesh.indices@.len() > 0,
            index_count == drawn_index_count(*cmd),
            plans@ == old(plans)@,
            tile_keys == cmd.dst_tile_keys@.take(count as int),
            mesh_tiles(atlas_storage@, tile_keys.take(index as int), cmd.tile_origins@) == Ok::<
                Seq<ParametricTile>,
                RenderExecutorError,
            >(tiles@),
        decreases count - index,
    {
        let dst_tile_key = cmd.dst_tile_keys[index];
        proof {
            let longer = tile_keys.take(index + 1);
            assert(longer.drop_last() =~= tile_keys.take(index as int));
            assert(longer.last() == dst_tile_key);
            if mesh_tiles(atlas_storage@, longer, cmd.tile_origins@) is Err {
                lemma_mesh_fault_stays(atlas_storage@, tile_keys, cmd.tile_origins@, index + 1);
            }
        }
        if dst_tile_key != TileKey::empty() {
            match find_tile(atlas_storage, dst_tile_key) {
                Ok(target) => {
                    tiles.push(ParametricTile { target, tile_origin: cmd.tile_origins[index] });
                },
                Err(error) => {
                    let plan = ParametricPlan { tiles, index_count };
                    proof {
                        let shorter = tile_keys.take(index as int);
                        assert(mesh_tiles_drawn(atlas_storage@, shorter, cmd.tile_origins@)
                            =~= plan.tiles@);
                        assert(plan@ =~= mesh_carried_out(atlas_storage@, *cmd));
                    }
                    plans.push(plan);
                    return Err(error);
                },
            }
        }
        index += 1;
    }
    assert(tile_keys.take(index as int) =~= tile_keys);
    let plan = ParametricPlan { tiles, index_count };
    assert(plan@ == mesh_carried_out(atlas_storage@, *cmd));
    plans.push(plan);
    Ok(())
}

/// How meshes are drawn, one after the other: the first fault stops them all.
pub open spec fn all_materialized(
    backends: Seq<BackendBinding>,
    cmds: Seq<MaterializeParametricCmd>,
) -> Result<Seq<ParametricModel>, RenderExecutorError>
    decreases cmds.len(),
{
    if cmds.len() == 0 {
        Ok(Seq::empty())
    } else {
        match all_materialized(backends, cmds.drop_last()) {
            Err(error) => Err(error),
            Ok(plans) => match materialized(backends, cmds.last()) {
                Err(error) => Err(error),
                Ok(plan) => Ok(plans.push(plan)),
            },
        }
    }
}

/// What of meshes is drawn: those before a fault, and the one with the fault as
/// far as it goes.
pub open spec fn all_meshes_carried_out(
    backends: Seq<BackendBinding>,
    cmds: Seq<MaterializeParametricCmd>,
) -> Seq<ParametricModel>
    decreases cmds.len(),
{
    if cmds.len() == 0 {
        Seq::empty()
    } else if all_materialized(backends, cmds.drop_last()) is Err {
        all_meshes_carried_out(backends, cmds.drop_last())
    } else {
        all_meshes_carried_out(backends, cmds.drop_last()).push(
            mesh_carried_out(backends, cmds.last()),
        )
    }
}

/// Without a fault meshes are drawn as planned.
pub proof fn lemma_meshes_without_fault(
    backends: Seq<BackendBinding>,
    cmds: Seq<MaterializeParametricCmd>,
)
    requires
        all_materialized(backends, cmds) is Ok,
    ensures
        all_meshes_carried_out(backends, cmds) == all_materialized(backends, cmds)->Ok_0,
    decreases cmds.len(),
{
    if cmds.len() > 0 {
        lemma_meshes_without_fault(backends, cmds.drop_last());
    }
}

proof fn lemma_parametric_fault_stays(
    backends: Seq<BackendBinding>,
    cmds: Seq<MaterializeParametricCmd>,
    count: int,
)
    requires
        0 <= count <= cmds.len(),
        all_materialized(backends, cmds.take(count)) is Err,
    ensures
        all_materialized(backends, cmds) == all_materialized(backends, cmds.take(count)),
        all_meshes_carried_out(backends, cmds) == all_meshes_carried_out(
            backends,
            cmds.take(count),
        ),
    decreases cmds.len() - count,
{
    if count < cmds.len() {
        assert(cmds.take(count + 1).drop_last() =~= cmds.take(count));
        lemma_parametric_fault_stays(backends, cmds, count + 1);
    } else {
        assert(cmds.take(count) =~= cmds);
    }
}

/// Adds how meshes are drawn to what is done.
pub fn encode_parametric_cmds(
    atlas_storage: &AtlasStorageRuntime,
    cmds: &Vec<MaterializeParametricCmd>,
    plans: &mut Vec<ParametricPlan>,
) -> (result: Result<(), RenderExecutorError>)
    requires
        atlas_storage.inv(),
    ensures
        result == answered(all_materialized(atlas_storage@, cmds@)),
        crate::collections::viewed_seq(final(plans)@) == crate::collections::viewed_seq(
            old(plans)@,
        ) + all_meshes_carried_out(atlas_storage@, cmds@),
{
    let mut index: usize = 0;
    proof {
        assert(cmds@.take(0) =~= Seq::<MaterializeParametricCmd>::empty());
        assert(crate::collections::viewed_seq(plans@) =~= crate::collections::viewed_seq(
            old(plans)@,
        ) + Seq::<ParametricModel>::empty());
    }
    while index < cmds.len()
        invariant
            atlas_storage.inv(),
            index <= cmds@.len(),
            all_materialized(atlas_storage@, cmds@.take(index as int)) is Ok,
            crate::collections::viewed_seq(plans@) == crate::collections::viewed_seq(old(plans)@)
                + all_meshes_carried_out(atlas_storage@, cmds@.take(index as int)),
        decreases cmds@.len() - index,
    {
        proof {
            let longer = cmds@.take(index + 1);
            assert(longer.drop_last() =~= cmds@.take(index as int));
            assert(longer.last() == cmds@[index as int]);
            if all_materialized(atlas_storage@, longer) is Err {
                lemma_parametric_fault_stays(atlas_storage@, cmds@, index + 1);
            }
        }
        let encoded_cmd = encode_parametric_cmd(atlas_storage, &cmds[index], plans);
        proof {
            let longer = cmds@.take(index + 1);
            assert(crate::collections::viewed_seq(plans@) =~= crate::collections::viewed_seq(
                old(plans)@,
            ) + all_meshes_carried_out(atlas_storage@, longer));
        }
        if let Err(error) = encoded_cmd {
            return Err(error);
        }
        index += 1;
    }
    assert(cmds@.take(index as int) =~= cmds@);
    Ok(())
}

} // verus!
