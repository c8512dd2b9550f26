// The physics core of a 2D orbital arcade game: bodies orbit and collide around fixed
// attractors, indexed each tick by a region quadtree.
//
// All quantities are integers. Lengths are fixed-point sub-pixels (`vector::SUBPIXELS`
// to a pixel); time is counted in ticks (240 to a second); angles in `ball::TURN` units
// to a full turn. Arithmetic that could leave the representable range saturates.
pub mod ball;
pub mod garden_level;
pub mod gravity;
pub mod quad_tree;
pub mod random;
pub mod sandbox_level;
pub mod simulation;
pub mod vector;
