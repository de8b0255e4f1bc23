//! Small puzzle-style computations served by a web service: the cube of an
//! XOR over integers taken from a path, the sum of strength fields, the
//! winners of a reindeer contest, and the slicing and chunking of a list of
//! strings.
//!
//! Every function here is a pure function of its request payload; transport,
//! JSON decoding and status codes are left to the caller.

pub mod batch;
pub mod contest;
pub mod decimal;
pub mod error;
pub mod greeting;
pub mod strength;
pub mod xor_cube;

pub use batch::{batch_slice, BatchOutput, BatchQuery};
pub use contest::{contest, winner_index, Attribute, ContestResult, ContestUser};
pub use decimal::decimal_text;
pub use error::RequestError;
pub use greeting::greeting;
pub use strength::{strength_sum, StrengthRecord};
pub use xor_cube::{parse_i64, parse_path, xor_cube, xor_cube_value};
