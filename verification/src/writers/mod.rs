//! The packers, one for each version of the layout. New containers are written in the
//! latest one.

#[allow(unused)]
pub mod ver_1_0;
pub mod ver_1_1;

pub use ver_1_1::{
    write_header, HeaderStep, NoneStep, Packer, RecordStep, Steps, TocEntry,
};
