//! Frame versions, and the decision to render a group anew or from its cache.
use vstd::prelude::*;

use crate::collections::KeySet;
use crate::renderer::dirty::{DirtyTileMask, TileCoord, TileMaskModel};

verus! {

/// What a frame was planned from.
#[derive(Debug, Clone, Copy, PartialEq, Eq, Structural)]
pub struct FrameVersion {
    pub frame_id: u64,
    pub snapshot_revision: u64,
    pub state_epoch: u64,
}

/// Keeps a frame that was planned from outdated state from being committed.
#[derive(Debug, Clone, Copy, PartialEq, Eq, Structural)]
pub struct FrameSync {
    pub state_epoch: u64,
    pub last_committed_frame_id: Option<u64>,
}

impl Default for FrameSync {
    fn default() -> (sync: Self)
        ensures
            sync == (FrameSync { state_epoch: 0, last_committed_frame_id: None }),
    {
        FrameSync { state_epoch: 0, last_committed_frame_id: None }
    }
}

impl FrameSync {
    /// A frame of this version may be committed while the snapshot has this
    /// revision: nothing has changed since it was planned, and no later or
    /// equal frame has been committed.
    pub open spec fn allows(&self, version: FrameVersion, snapshot_revision: u64) -> bool {
        &&& version.state_epoch == self.state_epoch
        &&& version.snapshot_revision == snapshot_revision
        &&& match self.last_committed_frame_id {
            Some(last) => version.frame_id > last,
            None => true,
        }
    }

    /// Begins a new epoch.
    pub fn note_state_change(&mut self)
        requires
            old(self).state_epoch < u64::MAX,
        ensures
            final(self).state_epoch == old(self).state_epoch + 1,
            final(self).last_committed_frame_id == old(self).last_committed_frame_id,
    {
        self.state_epoch = self.state_epoch + 1;
    }

    /// The version of a frame that is planned now.
    pub fn version(&self, frame_id: u64, snapshot_revision: u64) -> (version: FrameVersion)
        ensures
            version == (FrameVersion { frame_id, snapshot_revision, state_epoch: self.state_epoch }),
    {
        FrameVersion { frame_id, snapshot_revision, state_epoch: self.state_epoch }
    }

    /// Tells whether a frame may be committed.
    pub fn can_commit(&self, version: FrameVersion, snapshot_revision: u64) -> (allowed: bool)
        ensures
            allowed == self.allows(version, snapshot_revision),
    {
        if version.state_epoch != self.state_epoch {
            return false;
        }
        if version.snapshot_revision != snapshot_revision {
            return false;
        }
        match self.last_committed_frame_id {
            Some(last) => version.frame_id > last,
            None => true,
        }
    }

    /// Commits a frame.
    pub fn commit(&mut self, version: FrameVersion, snapshot_revision: u64)
        requires
            old(self).allows(version, snapshot_revision),
        ensures
            final(self).last_committed_frame_id == Some(version.frame_id),
            final(self).state_epoch == old(self).state_epoch,
    {
        self.last_committed_frame_id = Some(version.frame_id);
    }
}

/// A frame that was planned before a change is never committed after it, not
/// even after further changes.
pub proof fn lemma_change_invalidates_earlier_frames(
    before: FrameSync,
    after: FrameSync,
    version: FrameVersion,
    planned_revision: u64,
    revision: u64,
)
    requires
        before.allows(version, planned_revision),
        after.state_epoch > before.state_epoch,
    ensures
        !after.allows(version, revision),
{
}

/// Committed frames have strictly ascending identifiers: after a frame has
/// been committed, neither it nor an earlier one is.
pub proof fn lemma_commits_ascend(
    after: FrameSync,
    committed: FrameVersion,
    version: FrameVersion,
    revision: u64,
)
    requires
        after.last_committed_frame_id == Some(committed.frame_id),
        after.allows(version, revision),
    ensures
        version.frame_id > committed.frame_id,
{
}

#[derive(Debug, Clone, Copy, PartialEq, Eq, Structural)]
pub enum GroupRerenderMode {
    UseCache,
    Rerender,
}

/// How a group is rendered: from its cache, or anew. When it is rendered anew,
/// `rerender_tiles` are the tiles concerned, and no set stands for all.
#[derive(Debug)]
pub struct GroupRenderDecision {
    pub mode: GroupRerenderMode,
    pub rerender_tiles: Option<KeySet<TileCoord>>,
}

/// Some tiles, or all of them.
pub type TileSelection = Option<Set<TileCoord>>;

/// The tiles that a set stands for, where no set stands for all.
pub open spec fn selection(tiles: Option<KeySet<TileCoord>>) -> TileSelection {
    match tiles {
        Some(tiles) => Some(tiles@),
        None => None,
    }
}

/// As `selection`, for a borrowed set.
pub open spec fn selected(tiles: Option<&KeySet<TileCoord>>) -> TileSelection {
    match tiles {
        Some(tiles) => Some(tiles@),
        None => None,
    }
}

/// The dirty tiles behind a borrowed mask.
pub open spec fn mask_of(mask: Option<&DirtyTileMask>) -> Option<TileMaskModel> {
    match mask {
        Some(mask) => Some(mask@),
        None => None,
    }
}

/// A copy of a selection of tiles.
pub fn copy_selection(tiles: Option<&KeySet<TileCoord>>) -> (copy: Option<KeySet<TileCoord>>)
    ensures
        selection(copy) == selected(tiles),
{
    match tiles {
        Some(tiles) => Some(tiles.duplicate()),
        None => None,
    }
}

/// The tiles of a group that are rendered anew: the active ones, and of these
/// the dirty ones where it is known which are dirty.
pub open spec fn rerendered(
    force_active_region: bool,
    group_dirty: Option<TileMaskModel>,
    active: TileSelection,
) -> TileSelection {
    match group_dirty {
        Some(TileMaskModel::Partial(tiles)) => if force_active_region {
            active
        } else {
            match active {
                Some(active_tiles) => Some(tiles.intersect(active_tiles)),
                None => Some(tiles),
            }
        },
        _ => active,
    }
}

/// The tiles of a group that are rendered anew.
pub fn rerender_tiles_for_group(
    force_active_region: bool,
    group_dirty: Option<&DirtyTileMask>,
    active_tiles: Option<&KeySet<TileCoord>>,
) -> (tiles: Option<KeySet<TileCoord>>)
    ensures
        selection(tiles) == rerendered(
            force_active_region,
            mask_of(group_dirty),
            selected(active_tiles),
        ),
{
    if force_active_region {
        return copy_selection(active_tiles);
    }
    match group_dirty {
        Some(DirtyTileMask::Partial(tiles)) => match active_tiles {
            Some(active) => Some(tiles.intersection(active)),
            None => Some(tiles.duplicate()),
        },
        _ => copy_selection(active_tiles),
    }
}

/// A decision on how to render a group.
#[verifier::ext_equal]
pub struct DecisionModel {
    pub mode: GroupRerenderMode,
    pub tiles: TileSelection,
}

impl View for GroupRenderDecision {
    type V = DecisionModel;

    open spec fn view(&self) -> DecisionModel {
        DecisionModel { mode: self.mode, tiles: selection(self.rerender_tiles) }
    }
}

/// A group is rendered anew if that is forced, if it has no cache, or if it is
/// dirty.
pub open spec fn decided(
    force_group_rerender: bool,
    cache_missing: bool,
    group_dirty: Option<TileMaskModel>,
    active: TileSelection,
) -> DecisionModel {
    if force_group_rerender || cache_missing || group_dirty is Some {
        DecisionModel {
            mode: GroupRerenderMode::Rerender,
            tiles: rerendered(force_group_rerender || cache_missing, group_dirty, active),
        }
    } else {
        DecisionModel { mode: GroupRerenderMode::UseCache, tiles: None }
    }
}

/// Decides how groups are rendered.
#[derive(Debug, Clone, Copy, PartialEq, Eq, Structural)]
pub struct GroupDecisionEngine {}

impl Default for GroupDecisionEngine {
    fn default() -> (engine: Self)
        ensures
            engine == (GroupDecisionEngine {  }),
    {
        GroupDecisionEngine {  }
    }
}

impl GroupDecisionEngine {
    /// Decides how a group is rendered.
    pub fn decide(
        &self,
        force_group_rerender: bool,
        cache_missing: bool,
        group_dirty: Option<&DirtyTileMask>,
        active_tiles: Option<&KeySet<TileCoord>>,
    ) -> (decision: GroupRenderDecision)
        ensures
            decision@ == decided(
                force_group_rerender,
                cache_missing,
                mask_of(group_dirty),
                selected(active_tiles),
            ),
    {
        if force_group_rerender || cache_missing || group_dirty.is_some() {
            let rerender_tiles = rerender_tiles_for_group(
                force_group_rerender || cache_missing,
                group_dirty,
                active_tiles,
            );
            GroupRenderDecision { mode: GroupRerenderMode::Rerender, rerender_tiles }
        } else {
            GroupRenderDecision { mode: GroupRerenderMode::UseCache, rerender_tiles: None }
        }
    }
}

/// Only active tiles are ever rendered anew, and every tile that is dirty and
/// active is.
pub proof fn lemma_rerendered_tiles_are_active_and_cover_the_dirty_ones(
    force_active_region: bool,
    dirty: Set<TileCoord>,
    active: Set<TileCoord>,
)
    ensures
        rerendered(
            force_active_region,
            Some(TileMaskModel::Partial(dirty)),
            Some(active),
        ) is Some,
        rerendered(
            force_active_region,
            Some(TileMaskModel::Partial(dirty)),
            Some(active),
        )->0.subset_of(active),
        dirty.intersect(active).subset_of(
            rerendered(
                force_active_region,
                Some(TileMaskModel::Partial(dirty)),
                Some(active),
            )->0,
        ),
{
}

} // verus!
