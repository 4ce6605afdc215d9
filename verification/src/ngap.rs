//! The NGAP information elements that the helpers build, with the field
//! names and shapes that the ASN.1 compiler gives them: octet strings are
//! byte vectors and bit strings are MSB-first bit strings.
use crate::bits::MsbBitVec;
use vstd::prelude::*;

verus! {

/// PLMN-Identity ::= OCTET STRING (SIZE(3)), TBCD-encoded MCC and MNC.
#[derive(Debug, PartialEq, Eq)]
pub struct PLMNIdentity(pub Vec<u8>);

/// AMFRegionID ::= BIT STRING (SIZE(8)).
#[derive(Debug, PartialEq, Eq)]
pub struct AMFRegionID(pub MsbBitVec);

/// AMFSetID ::= BIT STRING (SIZE(10)).
#[derive(Debug, PartialEq, Eq)]
pub struct AMFSetID(pub MsbBitVec);

/// AMFPointer ::= BIT STRING (SIZE(6)).
#[derive(Debug, PartialEq, Eq)]
pub struct AMFPointer(pub MsbBitVec);

/// GUAMI: Globally Unique AMF Identifier.
#[derive(Debug, PartialEq, Eq)]
pub struct GUAMI {
    pub plmn_identity: PLMNIdentity,
    pub amf_region_id: AMFRegionID,
    pub amf_set_id: AMFSetID,
    pub amf_pointer: AMFPointer,
}

/// TAC ::= OCTET STRING (SIZE(3)), Tracking Area Code.
#[derive(Debug, PartialEq, Eq)]
pub struct TAC(pub Vec<u8>);

/// TAI: Tracking Area Identity.
#[derive(Debug, PartialEq, Eq)]
pub struct TAI {
    pub plmn_identity: PLMNIdentity,
    pub tac: TAC,
}

/// NRCellIdentity ::= BIT STRING (SIZE(36)).
#[derive(Debug, PartialEq, Eq)]
pub struct NRCellIdentity(pub MsbBitVec);

/// NR-CGI: NR Cell Global Identity.
#[derive(Debug, PartialEq, Eq)]
pub struct NR_CGI {
    pub plmn_identity: PLMNIdentity,
    pub nr_cell_identity: NRCellIdentity,
}

/// The gNB-ID alternative of GNB-ID ::= BIT STRING (SIZE(22..32)).
#[derive(Debug, PartialEq, Eq)]
pub struct GNB_ID_gNB_ID(pub MsbBitVec);

/// GNB-ID ::= CHOICE { gNB-ID, ... }.
#[derive(Debug, PartialEq, Eq)]
pub enum GNB_ID {
    GNB_ID(GNB_ID_gNB_ID),
}

/// GlobalGNB-ID.
#[derive(Debug, PartialEq, Eq)]
pub struct GlobalGNB_ID {
    pub plmn_identity: PLMNIdentity,
    pub gnb_id: GNB_ID,
}

/// SST ::= OCTET STRING (SIZE(1)), Slice/Service Type.
#[derive(Debug, PartialEq, Eq)]
pub struct SST(pub Vec<u8>);

/// SD ::= OCTET STRING (SIZE(3)), Slice Differentiator.
#[derive(Debug, PartialEq, Eq)]
pub struct SD(pub Vec<u8>);

/// S-NSSAI: Single Network Slice Selection Assistance Information.
#[derive(Debug, PartialEq, Eq)]
pub struct S_NSSAI {
    pub sst: SST,
    pub sd: Option<SD>,
}

/// NRencryptionAlgorithms ::= BIT STRING (SIZE(16, ...)).
#[derive(Debug, PartialEq, Eq)]
pub struct NRencryptionAlgorithms(pub MsbBitVec);

/// NRintegrityProtectionAlgorithms ::= BIT STRING (SIZE(16, ...)).
#[derive(Debug, PartialEq, Eq)]
pub struct NRintegrityProtectionAlgorithms(pub MsbBitVec);

/// EUTRAencryptionAlgorithms ::= BIT STRING (SIZE(16, ...)).
#[derive(Debug, PartialEq, Eq)]
pub struct EUTRAencryptionAlgorithms(pub MsbBitVec);

/// EUTRAintegrityProtectionAlgorithms ::= BIT STRING (SIZE(16, ...)).
#[derive(Debug, PartialEq, Eq)]
pub struct EUTRAintegrityProtectionAlgorithms(pub MsbBitVec);

/// UESecurityCapabilities.
#[derive(Debug, PartialEq, Eq)]
pub struct UESecurityCapabilities {
    pub n_rencryption_algorithms: NRencryptionAlgorithms,
    pub n_rintegrity_protection_algorithms: NRintegrityProtectionAlgorithms,
    pub eutr_aencryption_algorithms: EUTRAencryptionAlgorithms,
    pub eutr_aintegrity_protection_algorithms: EUTRAintegrityProtectionAlgorithms,
}

} // verus!
