//! Balls: their size model, the record the host spawns, and the rules by
//! which they merge and enter the world.

pub mod ball;
pub mod insertion;
pub mod merge;
pub mod templates;

pub use ball::Ball;
pub use ball::BallSize;
pub use ball::LiveBall;
pub use insertion::insertion_check;
pub use merge::merge_check;
pub use templates::load_ball_templates;
