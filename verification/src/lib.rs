//! A lazy reduction-placement pass for unsigned-integer expressions in an
//! arithmetic-circuit intermediate representation.
//!
//! Every unsigned integer is encoded as an element of a large prime field;
//! keeping a value inside its canonical range `[0, 2^range)` costs an
//! expensive reduction gadget.  This pass walks a program bottom-up and
//! annotates every integer expression node with a proven upper bound (in
//! bits) on its value and a flag telling the consumer whether the value must
//! be reduced before use.  Reductions are deferred as long as the running
//! bound stays below the field's capacity, and forced where a bitwise
//! operator or the field capacity demands a canonical value.

pub mod bounds;
pub mod laws;
pub mod optimizer;
pub mod zir;
