use oxirush_ngap::helpers::{
    bytes_to_bitvec, global_gnb_id, guami, int_to_bitvec, nr_cgi, plmn, plmn_from, s_nssai, tai,
    ue_security_capabilities, AMF_POINTER_BITS, AMF_REGION_ID_BITS, AMF_SET_ID_BITS,
};
use oxirush_ngap::bits::MsbBitVec;
use oxirush_ngap::ngap::GNB_ID;

fn bits(v: &MsbBitVec) -> Vec<bool> {
    let r = v.to_bools();
    assert_eq!(r.len(), v.len());
    for (i, b) in r.iter().enumerate() {
        assert_eq!(*b, v.get(i));
    }
    r
}

fn bools(s: &str) -> Vec<bool> {
    s.chars().map(|c| c == '1').collect()
}

#[test]
fn plmn_2digit_mnc() {
    let id = plmn("208", "93");
    assert_eq!(id.0, vec![0x02, 0xF8, 0x39]);
    let (mcc, mnc) = plmn_from(&id).unwrap();
    assert_eq!(mcc, "208");
    assert_eq!(mnc, "93");
}

#[test]
fn plmn_3digit_mnc() {
    let id = plmn("999", "070");
    let (mcc, mnc) = plmn_from(&id).unwrap();
    assert_eq!(mcc, "999");
    assert_eq!(mnc, "070");
}

#[test]
fn int_to_bitvec_width() {
    let bv = int_to_bitvec(1, 8);
    assert_eq!(bv.len(), 8);
    assert!(bv.get(7)); // LSB
    assert!(!bv.get(0)); // MSB
}

#[test]
fn guami_construction() {
    let g = guami(plmn("208", "93"), 1, 1, 0);
    assert_eq!(g.plmn_identity.0, vec![0x02, 0xF8, 0x39]);
    assert_eq!(g.amf_region_id.0.len(), AMF_REGION_ID_BITS);
    assert_eq!(g.amf_set_id.0.len(), AMF_SET_ID_BITS);
    assert_eq!(g.amf_pointer.0.len(), AMF_POINTER_BITS);
}

#[test]
fn nr_cgi_36bits() {
    let cgi = nr_cgi(plmn("208", "93"), 0x000001, 1);
    assert_eq!(cgi.nr_cell_identity.0.len(), 36);
}

#[test]
fn s_nssai_with_sd() {
    let n = s_nssai(1, Some([0x00, 0x00, 0x01]));
    assert_eq!(n.sst.0, vec![1]);
    assert_eq!(n.sd.unwrap().0, vec![0x00, 0x00, 0x01]);
}

#[test]
fn s_nssai_without_sd() {
    let n = s_nssai(1, None);
    assert_eq!(n.sst.0, vec![1]);
    assert!(n.sd.is_none());
}

#[test]
fn plmn_encodings_of_both_mnc_lengths() {
    assert_eq!(plmn("001", "01").0, vec![0x00, 0xF1, 0x10]);
    assert_eq!(plmn("310", "260").0, vec![0x13, 0x00, 0x62]);
    assert_eq!(plmn("999", "070").0, vec![0x99, 0x09, 0x70]);
}

#[test]
fn plmn_roundtrip_many() {
    for mcc in ["000", "208", "310", "999", "505"] {
        for mnc in ["00", "93", "01", "070", "999", "260"] {
            let (m, n) = plmn_from(&plmn(mcc, mnc)).unwrap();
            assert_eq!(m, mcc);
            assert_eq!(n, mnc);
        }
    }
}

#[test]
fn plmn_from_too_short() {
    assert!(plmn_from(&oxirush_ngap::ngap::PLMNIdentity(vec![0x02, 0xF8])).is_none());
    assert!(plmn_from(&oxirush_ngap::ngap::PLMNIdentity(vec![])).is_none());
}

#[test]
fn plmn_from_reads_nibbles_in_decimal() {
    // Nibbles above 9 are written as two decimal digits; extra octets are ignored.
    let (mcc, mnc) =
        plmn_from(&oxirush_ngap::ngap::PLMNIdentity(vec![0xBA, 0x3C, 0x21, 0xFF])).unwrap();
    assert_eq!(mcc, "101112");
    assert_eq!(mnc, "123");
}

#[test]
fn int_to_bitvec_keeps_lowest_bits_msb_first() {
    assert_eq!(bits(&int_to_bitvec(0b1011, 4)), bools("1011"));
    assert_eq!(bits(&int_to_bitvec(0b1011, 3)), bools("011"));
    assert_eq!(bits(&int_to_bitvec(0b1011, 6)), bools("001011"));
    assert_eq!(int_to_bitvec(u64::MAX, 0).len(), 0);
    assert_eq!(bits(&int_to_bitvec(u64::MAX, 64)), vec![true; 64]);
    let v = bits(&int_to_bitvec(0x8000_0000_0000_0001, 64));
    assert!(v[0] && v[63] && v[1..63].iter().all(|b| !b));
}

#[test]
fn int_to_bitvec_reads_back_modulo() {
    for (value, width) in [(1234567u64, 10usize), (0xdead_beef, 32), (77, 3), (5, 64)] {
        let v = bits(&int_to_bitvec(value, width));
        let read = v.iter().fold(0u128, |acc, b| acc * 2 + (*b as u128));
        assert_eq!(read, (value as u128) % (1u128 << width));
    }
}

#[test]
fn bytes_to_bitvec_eight_bits_per_byte() {
    let kgnb = bytes_to_bitvec(&[0u8; 32]);
    assert_eq!(kgnb.len(), 256);
    assert_eq!(bits(&bytes_to_bitvec(&[0xA5, 0x01])), bools("1010010100000001"));
    assert_eq!(bytes_to_bitvec(&[]).len(), 0);
}

#[test]
fn byte_as_bytes_and_as_integer_agree() {
    for b in [0u8, 1, 0x5A, 0x80, 0xFF] {
        assert_eq!(bytes_to_bitvec(&[b]), int_to_bitvec(b as u64, 8));
    }
}

#[test]
fn guami_field_bits() {
    let g = guami(plmn("208", "93"), 0xCA, 0x3FF, 0x2A);
    assert_eq!(bits(&g.amf_region_id.0), bools("11001010"));
    assert_eq!(bits(&g.amf_set_id.0), bools("1111111111"));
    assert_eq!(bits(&g.amf_pointer.0), bools("101010"));
    // Values wider than the field keep their lowest bits.
    let g = guami(plmn("208", "93"), 1, 0xFC01, 0xC1);
    assert_eq!(bits(&g.amf_set_id.0), bools("0000000001"));
    assert_eq!(bits(&g.amf_pointer.0), bools("000001"));
}

#[test]
fn nr_cell_identity_is_gnb_id_then_cell_id() {
    let cgi = nr_cgi(plmn("208", "93"), 0xAB_123456, 0xF789);
    let v = bits(&cgi.nr_cell_identity.0);
    assert_eq!(v.len(), 36);
    let gnb = global_gnb_id(plmn("208", "93"), 0xAB_123456);
    let GNB_ID::GNB_ID(id) = &gnb.gnb_id;
    assert_eq!(v[..24].to_vec(), bits(&id.0));
    assert_eq!(bits(&id.0), bits(&int_to_bitvec(0x123456, 24)));
    assert_eq!(v[24..].to_vec(), bits(&int_to_bitvec(0x789, 12)));
}

#[test]
fn tai_copies_tac() {
    let t = tai(plmn("208", "93"), &[0x00, 0x00, 0x01]);
    assert_eq!(t.plmn_identity.0, vec![0x02, 0xF8, 0x39]);
    assert_eq!(t.tac.0, vec![0x00, 0x00, 0x01]);
}

#[test]
fn ue_security_capabilities_layout() {
    let c = ue_security_capabilities(&[0xE0, 0x60]);
    assert_eq!(bits(&c.n_rencryption_algorithms.0), bools("1110000000000000"));
    assert_eq!(bits(&c.n_rintegrity_protection_algorithms.0), bools("0110000000000000"));
    assert_eq!(bits(&c.eutr_aencryption_algorithms.0), vec![false; 16]);
    assert_eq!(bits(&c.eutr_aintegrity_protection_algorithms.0), vec![false; 16]);
    let c = ue_security_capabilities(&[0x81]);
    assert_eq!(bits(&c.n_rencryption_algorithms.0), bools("1000000100000000"));
    assert_eq!(bits(&c.n_rintegrity_protection_algorithms.0), vec![false; 16]);
    let c = ue_security_capabilities(&[]);
    assert_eq!(bits(&c.n_rencryption_algorithms.0), vec![false; 16]);
}

#[test]
fn bytes_to_bitvec_of_concatenation() {
    let a = [0x12u8, 0xFE];
    let b = [0x80u8, 0x00, 0x7F];
    let mut ab = bits(&bytes_to_bitvec(&a));
    ab.extend(bits(&bytes_to_bitvec(&b)));
    assert_eq!(bits(&bytes_to_bitvec(&[a.as_slice(), b.as_slice()].concat())), ab);
    assert_eq!(bits(&bytes_to_bitvec(&[])), Vec::<bool>::new());
}
