//! A shared, named tree of coordinate frames with a transactional update
//! queue, cycle checking and chain lookup between any two frames.

pub mod broadcast;
pub mod buffer;
pub mod cycles;
pub mod laws;
pub mod loading;
pub mod lookup;
pub mod space_tree;
pub mod space_tree_ros;
pub mod structs;
pub mod updates;

pub use broadcast::{
    active_frames_to_broadcast, frames_to_broadcast, static_frames_to_broadcast,
    ACTIVE_TF_BROADCAST_RATE, STATIC_TF_BROADCAST_RATE,
};
pub use buffer::{BufferModel, FrameBuffer};
pub use cycles::{check_would_produce_cycle, is_cyclic, is_cyclic_all};
pub use loading::{
    describe_frame, frame_from_descriptor, load_new_scenario, ErrorMsg, FrameDescriptor,
};
pub use lookup::{
    get_tree_root, lookup_path, lookup_transform_in_tree, lookup_transform_with_root, PathView,
    TransformPath, MAX_RECURSION_DEPTH, MAX_TRANSFORM_CHAIN,
};
pub use space_tree::SpaceTreeServer;
pub use space_tree_ros::RosSpaceTreeServer;
pub use structs::{FrameView, TransformStamped};
pub use updates::{PendingUpdates, Update, UpdateView};
