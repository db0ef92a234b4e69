//! The renderer's decisions: what to draw, what to cache, what to merge.
pub mod batch_laws;
pub mod brush;
pub mod brush_dabs;
pub mod brush_laws;
pub mod compose_laws;
pub mod composite;
pub mod composite_plan;
pub mod dab_laws;
pub mod dirty;
pub mod draw_builders;
pub mod draw_list;
pub mod driver;
pub mod export_laws;
pub mod frame;
pub mod frame_laws;
pub mod geometry;
pub mod group_cache;
pub mod group_laws;
pub mod group_tiles;
pub mod merge;
pub mod merge_flow_laws;
pub mod merge_laws;
pub mod merge_submission;
pub mod plan_laws;
pub mod plan_stats;
pub mod planning;
pub mod render_tree;
pub mod resolver;
pub mod slot_laws;
pub mod state;
pub mod texture_io;
pub mod texture_laws;
pub mod tile_image_export;
pub mod tile_renderer;
pub mod timing;
pub mod tree_laws;
pub mod view_laws;
pub mod view_ops;
