//! The systems: one unit of per-tick behavior each, working on the entities
//! that hold its aspect.

pub mod collision;
pub mod control;
pub mod draw;
pub mod fade;
pub mod game;
pub mod mv;
pub mod shimmer;

pub use self::collision::CollisionSystem;
pub use self::control::ControlSystem;
pub use self::draw::DrawSystem;
pub use self::fade::FadeSystem;
pub use self::game::GameSystem;
pub use self::mv::MoveSystem;
pub use self::shimmer::ShimmerSystem;
