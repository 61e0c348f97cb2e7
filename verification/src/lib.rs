//! Gift-exchange assignment under directed exclusions.
//!
//! Every participant gives to exactly one other participant and receives from
//! exactly one; nobody gives to themself, and no gift crosses a pair that
//! either side has ruled out.  Participants are referred to by their position
//! in the registry of a [`configuration::Configuration`].
//!
//! * [`configuration`], [`participant`], [`permutation`]: the data, and the
//!   checks that certify a candidate assignment set.
//! * [`flow_network`], [`matching`]: the strategy that always answers.  It
//!   builds a unit-capacity flow network, has `petgraph` compute a maximum
//!   flow ([`graph`]), and reads the flow as an assignment or as a report of
//!   who is blocked.  [`flow`], [`network_shape`], [`decoding`] and
//!   [`reduction`] hold the mathematics that ties the flow to the assignment.
//! * [`search`]: the strategy that draws rearrangements at random.
//! * [`submission`], [`notification`], [`text`]: from sign-up forms to a
//!   configuration, and from an assignment to the notes that are sent out.

pub mod configuration;
pub mod decoding;
pub mod flow;
pub mod flow_network;
pub mod graph;
pub mod id_set;
pub mod matching;
pub mod network_shape;
pub mod notification;
pub mod participant;
pub mod permutation;
pub mod reduction;
pub mod search;
pub mod submission;
pub mod text;
