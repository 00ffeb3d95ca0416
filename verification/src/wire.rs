//! The mathematical model of the on-wire format.
//!
//! [`SpecSection`] and [`SpecModule`] are the abstract values of sections
//! and modules; the executable types view into them. [`section_bytes`]
//! and [`module_bytes`] define the serialized form, [`parse_section`],
//! [`parse_sections`] and [`parse_module`] define what decoding returns
//! on every input, and the lemmas at the end prove that decoding inverts
//! encoding on well-formed values.

use vstd::prelude::*;
use vstd::utf8::{decode_utf8, encode_utf8, valid_utf8};

use crate::error::WSError;
use crate::varint::{leb128, lemma_varint32_round_trip, spec_get32, spec_leb_decode};
use crate::wasm_module::{id_wf, spec_id_byte, spec_id_of_byte, SectionId};

verus! {

/// The abstract value of a section: a standard section is an identifier
/// with opaque payload bytes, a custom section a name with payload bytes.
#[verifier::ext_equal]
pub enum SpecSection {
    Standard { id: SectionId, payload: Seq<u8> },
    Custom { name: Seq<char>, payload: Seq<u8> },
}

/// The abstract value of a module: its 8-byte header and its sections,
/// in order.
#[verifier::ext_equal]
pub struct SpecModule {
    pub header: Seq<u8>,
    pub sections: Seq<SpecSection>,
}

/// The identifier of a section; custom sections always carry identifier
/// zero.
pub open spec fn spec_section_id(s: SpecSection) -> SectionId {
    match s {
        SpecSection::Standard { id, .. } => id,
        SpecSection::Custom { .. } => SectionId::CustomSection,
    }
}

/// The inner payload of a section: for a custom section, the bytes after
/// the name, without the name framing.
pub open spec fn spec_section_payload(s: SpecSection) -> Seq<u8> {
    match s {
        SpecSection::Standard { payload, .. } => payload,
        SpecSection::Custom { payload, .. } => payload,
    }
}

/// The on-wire payload of a custom section: the LEB128 byte length of
/// the UTF-8 name, the name bytes, then the inner payload.
pub open spec fn custom_outer(name: Seq<char>, payload: Seq<u8>) -> Seq<u8> {
    leb128(encode_utf8(name).len()) + encode_utf8(name) + payload
}

/// The bytes written between a section's length field and the next
/// section: verbatim for a standard section, the re-framed name and
/// payload for a custom one.
pub open spec fn wire_payload(s: SpecSection) -> Seq<u8> {
    match s {
        SpecSection::Standard { payload, .. } => payload,
        SpecSection::Custom { name, payload } => custom_outer(name, payload),
    }
}

/// The complete serialized form of one section: LEB128 identifier,
/// LEB128 payload length, payload.
pub open spec fn section_bytes(s: SpecSection) -> Seq<u8> {
    leb128(spec_id_byte(spec_section_id(s)) as nat) + leb128(wire_payload(s).len())
        + wire_payload(s)
}

/// The serialized form of a sequence of sections, in order.
pub open spec fn sections_bytes(ss: Seq<SpecSection>) -> Seq<u8>
    decreases ss.len(),
{
    if ss.len() == 0 {
        Seq::empty()
    } else {
        section_bytes(ss[0]) + sections_bytes(ss.drop_first())
    }
}

/// The header of a core module.
pub open spec fn spec_core_header() -> Seq<u8> {
    seq![0x00u8, 0x61u8, 0x73u8, 0x6du8, 0x01u8, 0x00u8, 0x00u8, 0x00u8]
}

/// The header of a component.
pub open spec fn spec_component_header() -> Seq<u8> {
    seq![0x00u8, 0x61u8, 0x73u8, 0x6du8, 0x0du8, 0x00u8, 0x01u8, 0x00u8]
}

/// The two byte sequences accepted as a module header.
pub open spec fn header_ok(h: Seq<u8>) -> bool {
    h == spec_core_header() || h == spec_component_header()
}

/// The complete serialized form of a module.
pub open spec fn module_bytes(m: SpecModule) -> Seq<u8> {
    m.header + sections_bytes(m.sections)
}

/// A section the codec can reproduce exactly: the identifier is one the
/// decoder yields for its byte, fits in one LEB128 byte, a standard
/// section is not a disguised custom section, and the payload length
/// fits the 32-bit length field.
pub open spec fn section_wf(s: SpecSection) -> bool {
    match s {
        SpecSection::Standard { id, payload } => {
            &&& id != SectionId::CustomSection
            &&& id_wf(id)
            &&& spec_id_byte(id) < 128
            &&& payload.len() < 0x1_0000_0000
        },
        SpecSection::Custom { name, payload } => custom_outer(name, payload).len()
            < 0x1_0000_0000,
    }
}

/// A module the codec can reproduce exactly: a recognized header and
/// well-formed sections.
pub open spec fn module_wf(m: SpecModule) -> bool {
    &&& header_ok(m.header)
    &&& forall|i: int| 0 <= i < m.sections.len() ==> section_wf(#[trigger] m.sections[i])
}

/// What decoding a custom section's on-wire payload yields: the name and
/// inner payload, a truncation error when the name is cut short, an
/// encoding error when it is not UTF-8.
pub open spec fn parse_custom(payload: Seq<u8>) -> Result<SpecSection, WSError> {
    match spec_get32(payload) {
        Err(e) => Err(e),
        Ok((nlen, k)) => {
            let rest = payload.subrange(k, payload.len() as int);
            if rest.len() < nlen {
                Err(WSError::TruncatedInput)
            } else {
                let name_bytes = rest.subrange(0, nlen as int);
                if !valid_utf8(name_bytes) {
                    Err(WSError::InvalidUtf8)
                } else {
                    Ok(
                        SpecSection::Custom {
                            name: decode_utf8(name_bytes),
                            payload: rest.subrange(nlen as int, rest.len() as int),
                        },
                    )
                }
            }
        },
    }
}

/// What constructing a section from an identifier and raw payload
/// yields: custom payloads are decoded, everything else is wrapped
/// verbatim.
pub open spec fn spec_section_new(id: SectionId, payload: Seq<u8>) -> Result<
    SpecSection,
    WSError,
> {
    if id == SectionId::CustomSection {
        parse_custom(payload)
    } else {
        Ok(SpecSection::Standard { id, payload })
    }
}

/// What decoding one section from the front of `bytes` yields: `None`
/// on an input that is already empty — the clean end of the section
/// list — or a section and the number of bytes it occupied.
pub open spec fn parse_section(bytes: Seq<u8>) -> Result<
    Option<(SpecSection, int)>,
    WSError,
> {
    if bytes.len() == 0 {
        Ok(None)
    } else {
        let id = spec_id_of_byte(bytes[0] % 128);
        let rest = bytes.subrange(1, bytes.len() as int);
        match spec_get32(rest) {
            Err(e) => Err(e),
            Ok((len, k)) => {
                let rest2 = rest.subrange(k, rest.len() as int);
                if rest2.len() < len {
                    Err(WSError::TruncatedInput)
                } else {
                    match spec_section_new(id, rest2.subrange(0, len as int)) {
                        Err(e) => Err(e),
                        Ok(s) => Ok(Some((s, 1 + k + len))),
                    }
                }
            },
        }
    }
}

/// What decoding sections until the clean end of input yields.
pub open spec fn parse_sections(bytes: Seq<u8>) -> Result<Seq<SpecSection>, WSError>
    decreases bytes.len(),
{
    match parse_section(bytes) {
        Err(e) => Err(e),
        Ok(None) => Ok(Seq::empty()),
        Ok(Some((s, n))) => {
            if 1 <= n <= bytes.len() {
                match parse_sections(bytes.subrange(n, bytes.len() as int)) {
                    Err(e) => Err(e),
                    Ok(ss) => Ok(seq![s] + ss),
                }
            } else {
                Err(WSError::TruncatedInput)
            }
        },
    }
}

/// What decoding a whole module yields: header validation followed by
/// the section list.
pub open spec fn parse_module(bytes: Seq<u8>) -> Result<SpecModule, WSError> {
    if bytes.len() < 8 {
        Err(WSError::TruncatedInput)
    } else {
        let h = bytes.subrange(0, 8);
        if !header_ok(h) {
            Err(WSError::UnsupportedModuleType)
        } else {
            match parse_sections(bytes.subrange(8, bytes.len() as int)) {
                Err(e) => Err(e),
                Ok(ss) => Ok(SpecModule { header: h, sections: ss }),
            }
        }
    }
}

/// A successful LEB128 chain decode consumes between 1 and `max` bytes,
/// and never more than the input holds.
pub proof fn lemma_leb_decode_bounds(bytes: Seq<u8>, max: nat)
    requires
        max >= 1,
    ensures
        spec_leb_decode(bytes, max) matches Ok((v, n)) ==> 1 <= n <= max && n <= bytes.len(),
    decreases max,
{
    if bytes.len() == 0 {
    } else if bytes[0] < 128 {
    } else if max <= 1 {
    } else {
        let sub = bytes.subrange(1, bytes.len() as int);
        lemma_leb_decode_bounds(sub, (max - 1) as nat);
        match spec_leb_decode(sub, (max - 1) as nat) {
            Ok((v, n)) => {
                assert(spec_leb_decode(bytes, max) == Ok::<(nat, int), WSError>(
                    (((bytes[0] - 128) as nat + 128 * v) as nat, n + 1),
                ));
            },
            Err(_) => {},
        }
    }
}

/// A successfully decoded section occupies between 1 byte and the whole
/// input.
pub proof fn lemma_parse_section_bounds(bytes: Seq<u8>)
    ensures
        parse_section(bytes) matches Ok(Some((s, n))) ==> 1 <= n <= bytes.len(),
{
    if bytes.len() != 0 {
        let rest = bytes.subrange(1, bytes.len() as int);
        lemma_leb_decode_bounds(rest, 5);
    }
}

/// Decoding the on-wire payload of a custom section yields its name and
/// inner payload back.
pub proof fn lemma_custom_round_trip(name: Seq<char>, payload: Seq<u8>)
    requires
        custom_outer(name, payload).len() < 0x1_0000_0000,
    ensures
        parse_custom(custom_outer(name, payload)) == Ok::<SpecSection, WSError>(
            SpecSection::Custom { name, payload },
        ),
{
    let nb = encode_utf8(name);
    let outer = custom_outer(name, payload);
    let lebn = leb128(nb.len());
    assert(outer =~= lebn + (nb + payload));
    lemma_varint32_round_trip(nb.len(), nb + payload);
    assert(spec_get32(outer) == Ok::<(u32, int), WSError>(
        (nb.len() as u32, lebn.len() as int),
    ));
    let rest = outer.subrange(lebn.len() as int, outer.len() as int);
    assert(rest =~= nb + payload);
    assert(rest.subrange(0, nb.len() as int) =~= nb);
    vstd::utf8::encode_utf8_valid_utf8(name);
    vstd::utf8::encode_utf8_decode_utf8(name);
    assert(rest.subrange(nb.len() as int, rest.len() as int) =~= payload);
}

/// Decoding the serialized form of a well-formed section — whatever
/// follows it — yields the section back and consumes exactly its bytes.
pub proof fn lemma_section_round_trip(s: SpecSection, rest: Seq<u8>)
    requires
        section_wf(s),
    ensures
        parse_section(section_bytes(s) + rest) == Ok::<Option<(SpecSection, int)>, WSError>(
            Some((s, section_bytes(s).len() as int)),
        ),
{
    let idb = spec_id_byte(spec_section_id(s));
    let wp = wire_payload(s);
    let bytes = section_bytes(s) + rest;
    assert(idb < 128);
    assert(leb128(idb as nat) =~= seq![idb]);
    assert(bytes[0] == idb);
    assert(bytes[0] % 128 == idb);
    crate::wasm_module::lemma_id_byte_bijective(spec_section_id(s), idb);
    assert(spec_id_of_byte(idb) == spec_section_id(s));
    let tail = bytes.subrange(1, bytes.len() as int);
    assert(tail =~= leb128(wp.len()) + (wp + rest));
    lemma_varint32_round_trip(wp.len(), wp + rest);
    let k = leb128(wp.len()).len() as int;
    assert(spec_get32(tail) == Ok::<(u32, int), WSError>((wp.len() as u32, k)));
    let rest2 = tail.subrange(k, tail.len() as int);
    assert(rest2 =~= wp + rest);
    assert(rest2.subrange(0, wp.len() as int) =~= wp);
    match s {
        SpecSection::Standard { id, payload } => {
            assert(spec_section_new(spec_section_id(s), wp) == Ok::<SpecSection, WSError>(s));
        },
        SpecSection::Custom { name, payload } => {
            lemma_custom_round_trip(name, payload);
            assert(spec_section_new(spec_section_id(s), wp) == Ok::<SpecSection, WSError>(s));
        },
    }
    assert(1 + k + wp.len() == section_bytes(s).len());
}

/// Serializing a concatenation of section sequences concatenates their
/// serialized forms.
pub proof fn lemma_sections_bytes_app(a: Seq<SpecSection>, b: Seq<SpecSection>)
    ensures
        sections_bytes(a + b) == sections_bytes(a) + sections_bytes(b),
    decreases a.len(),
{
    if a.len() == 0 {
        assert(a + b =~= b);
        assert(sections_bytes(a) + sections_bytes(b) =~= sections_bytes(b));
    } else {
        assert((a + b)[0] == a[0]);
        assert((a + b).drop_first() =~= a.drop_first() + b);
        assert((a + b).len() != 0);
        lemma_sections_bytes_app(a.drop_first(), b);
        assert(sections_bytes(a + b) =~= section_bytes(a[0]) + (sections_bytes(a.drop_first())
            + sections_bytes(b)));
        assert(section_bytes(a[0]) + (sections_bytes(a.drop_first()) + sections_bytes(b)) =~= (
        section_bytes(a[0]) + sections_bytes(a.drop_first())) + sections_bytes(b));
    }
}

/// Decoding the serialized form of a sequence of well-formed sections
/// yields the sequence back.
pub proof fn lemma_sections_round_trip(ss: Seq<SpecSection>)
    requires
        forall|i: int| 0 <= i < ss.len() ==> section_wf(#[trigger] ss[i]),
    ensures
        parse_sections(sections_bytes(ss)) == Ok::<Seq<SpecSection>, WSError>(ss),
    decreases ss.len(),
{
    if ss.len() == 0 {
        assert(sections_bytes(ss).len() == 0);
        assert(parse_sections(sections_bytes(ss)) == Ok::<Seq<SpecSection>, WSError>(
            Seq::empty(),
        ));
        assert(ss =~= Seq::<SpecSection>::empty());
    } else {
        let first = ss[0];
        let tail = ss.drop_first();
        let bytes = sections_bytes(ss);
        let n = section_bytes(first).len() as int;
        lemma_section_round_trip(first, sections_bytes(tail));
        assert(bytes == section_bytes(first) + sections_bytes(tail));
        assert(parse_section(bytes) == Ok::<Option<(SpecSection, int)>, WSError>(
            Some((first, n)),
        ));
        assert(n >= 1);
        assert(bytes.subrange(n, bytes.len() as int) =~= sections_bytes(tail));
        assert(forall|i: int| 0 <= i < tail.len() ==> section_wf(#[trigger] tail[i]));
        lemma_sections_round_trip(tail);
        assert(seq![first] + tail =~= ss);
    }
}

/// Round trip: decoding the serialized form of any well-formed module
/// yields the module back, byte for byte — unknown extension
/// identifiers, empty payloads and custom-section framing included.
pub proof fn lemma_module_round_trip(m: SpecModule)
    requires
        module_wf(m),
    ensures
        parse_module(module_bytes(m)) == Ok::<SpecModule, WSError>(m),
{
    let bytes = module_bytes(m);
    assert(m.header.len() == 8);
    assert(bytes.subrange(0, 8) =~= m.header);
    assert(bytes.subrange(8, bytes.len() as int) =~= sections_bytes(m.sections));
    lemma_sections_round_trip(m.sections);
    assert(parse_module(bytes) matches Ok(mm) && mm =~= m);
}

/// Header rejection: an input whose first 8 bytes are neither recognized
/// constant fails with the unsupported-module-type error, whatever
/// follows — no sections are ever produced from it.
pub proof fn lemma_header_rejected(bytes: Seq<u8>)
    requires
        bytes.len() >= 8,
        !header_ok(bytes.subrange(0, 8)),
    ensures
        parse_module(bytes) == Err::<SpecModule, WSError>(WSError::UnsupportedModuleType),
{
}

/// Truncation safety: a section whose declared payload length exceeds
/// what the input still holds fails with a truncation error, never a
/// short read.
pub proof fn lemma_truncated_payload(bytes: Seq<u8>, len: u32, k: int)
    requires
        bytes.len() >= 1,
        spec_get32(bytes.subrange(1, bytes.len() as int)) == Ok::<(u32, int), WSError>((len, k)),
        bytes.len() - 1 - k < len,
    ensures
        parse_section(bytes) == Err::<Option<(SpecSection, int)>, WSError>(
            WSError::TruncatedInput,
        ),
{
    let rest = bytes.subrange(1, bytes.len() as int);
    lemma_leb_decode_bounds(rest, 5);
    assert(rest.subrange(k, rest.len() as int).len() < len);
}

} // verus!
