//! The rules of a server that renders Blender scenes: how a scene is uploaded
//! in chunks, how its frames are shared by several Blender processes, what
//! becomes of a process that fails, and what clients are told.
pub mod app_state;
pub mod archive;
pub mod blend_search;
pub mod chunks;
pub mod decimal;
pub mod frame_partition;
pub mod frame_range;
pub mod frontend;
pub mod json;
pub mod parallel_job;
pub mod render_plan;
pub mod reply;
pub mod stop;
pub mod text;
pub mod upload;
pub mod upload_run;
