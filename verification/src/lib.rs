//! NGAP (NG Application Protocol, 3GPP TS 38.413) helpers for 5G: builders
//! for common information elements, MSB-first bit-string conversion, PLMN
//! identity (TBCD) encoding and decoding, required/optional IE extraction,
//! and the scanning rules that derive IE identifiers and procedure codes
//! from the code generated out of the ASN.1 definitions.
#![allow(non_camel_case_types)]
use vstd::prelude::*;

pub mod bits;
pub mod codegen;
pub mod helpers;
pub mod lexical;
pub mod macros;
pub mod render;
pub mod ngap;
pub mod scan;
pub mod table;
pub mod text;

verus! {

/// Version of oxirush-ngap.
pub const VERSION: &'static str = "0.3.0";

} // verus!
