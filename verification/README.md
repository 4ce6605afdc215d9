# oxirush-ngap

Helpers for the NGAP protocol (3GPP TS 38.413) of 5G, written in Verus and
verified against their contracts.

- `src/helpers.rs`: MSB-first bit strings from integers and byte strings,
  the TBCD encoding of a PLMN identity and its decoding, and builders for
  GUAMI, TAI, NR-CGI, GlobalGNB-ID, S-NSSAI and UESecurityCapabilities,
  with the laws that relate them (PLMN round trip, bit values, the layout
  of the NR cell identity).
- `src/ngap.rs`: the information elements that the builders produce.
- `src/bits.rs`: the bit string type, a `bitvec` `BitVec<u8, Msb0>` behind
  a small trusted interface.
- `src/macros.rs`: required/optional extraction of protocol IEs and
  `MissingIeError`.
- `src/codegen.rs`, `src/scan.rs`: the line shapes of the Rust code that the
  ASN.1 compiler generates, and the scans that derive from it the newtype
  `From` impls, the IE identifiers, the procedure codes and the procedures
  of each PDU direction.
- `src/render.rs`: the code appended to the generated module, written from
  those tables: the `From` impls, the `__ngap_ie_id!` and
  `__ngap_proc_code!` macros, the `NGAP_PDU` inspection methods and its
  `Display` impl.
- `src/lexical.rs`, `src/table.rs`, `src/text.rs`: character classes,
  lexicographic order, name-ordered tables, and text split into lines.
- `app/lib.rs`: the build step's I/O (reading the ASN.1 directory, running
  the ASN.1 compiler, reading the generated module and appending to it
  what `render_extra` writes), the APER
  encode/decode glue, and `MissingIeError` with `Display`.
