//! Decoding of Active Directory security descriptors, access control lists
//! and entries, with the Certificate Authority rights that follow from them.

pub mod bytes;
pub mod cert;
pub mod descriptor;
pub mod enterpriseca;
pub mod error;
pub mod guid;
pub mod text;
pub mod translate;
pub mod rights;
pub mod sid;
