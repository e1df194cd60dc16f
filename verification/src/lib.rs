//! Input preparation for throughput benchmarks: random byte buffers, the list
//! of size exponents to sweep, and the labelled cases derived from that list.

pub mod chunk;
pub mod random;
pub mod sizes;
pub mod text;

pub use random::{gen_array, gen_vec};
pub use sizes::action_input;
