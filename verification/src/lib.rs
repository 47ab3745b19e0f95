//! Map-reduce over a sequence of unsigned integers: split the sequence into
//! contiguous partitions, sum every partition, then sum the partial sums.
//!
//! The pieces, in the order in which a run uses them:
//! [`validate_arguments`], [`generate_data`], one of the two splitters
//! ([`partition_data_in_two`], [`partition_data`]), the map step
//! ([`map_data`] on each partition, or [`map_partitions`] on all of them),
//! [`collect_results`] where the partitions were handed to workers, and
//! [`reduce_data`].

pub mod arguments;
pub mod error;
pub mod executor;
pub mod generate;
pub mod laws;
pub mod partition;
pub mod summation;

pub use arguments::validate_arguments;
pub use error::{ArgumentFault, MapReduceError};
pub use executor::{collect_results, map_partitions};
pub use generate::generate_data;
pub use partition::{partition_data, partition_data_in_two, partition_sizes};
pub use summation::{map_data, reduce_data};
