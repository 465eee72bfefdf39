//! Iterated local search for combinatorial optimisation.
//!
//! A host supplies the problem: a solution type, a totally ordered score in
//! which lower is better, a calculator of scores, a generator of starting
//! solutions, a neighbourhood of moves and a perturbation. The library
//! supplies the bounded memory of a search, the descent through a
//! neighbourhood, and the outer loop that perturbs, descends again and
//! decides where to go on.
//!
//! What the library proves, it proves of hosts that keep a few laws: that
//! `==` and `<` on solutions and on scores behave as equality and as a total
//! order, that a clone equals the value it was made from, and that a
//! calculator gives one score to one solution. The laws are spelled out in
//! [`scored`]. The random draws are made by the `rand` crate; what the
//! library takes for granted of them stands in [`random`].

pub mod ackley;
pub mod descent;
pub mod history;
pub mod iterated_local_search;
pub mod local_search;
pub mod random;
pub mod ranking;
pub mod scored;
