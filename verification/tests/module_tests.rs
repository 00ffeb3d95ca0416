use wasm_sections::{ByteReader, CustomSection, Module, Section, SectionId, SectionLike,
    StandardSection, WSError};

const CORE_HEADER: [u8; 8] = [0x00, 0x61, 0x73, 0x6d, 0x01, 0x00, 0x00, 0x00];
const COMPONENT_HEADER: [u8; 8] = [0x00, 0x61, 0x73, 0x6d, 0x0d, 0x00, 0x01, 0x00];

fn serialize_module(m: &Module) -> Vec<u8> {
    let mut out = Vec::new();
    m.serialize(&mut out).unwrap();
    out
}

fn deserialize_module(bytes: &[u8]) -> Result<Module, WSError> {
    let mut r = ByteReader::new(bytes);
    Module::deserialize(&mut r)
}

#[test]
fn custom_section_exact_wire_bytes() {
    let sec = Section::Custom(CustomSection::new(String::from("name"), vec![1, 2, 3]));
    let mut out = Vec::new();
    sec.serialize(&mut out).unwrap();
    // id byte 0, payload length 8 = 1 (name-length varint) + 4 (name) + 3 (payload).
    assert_eq!(out, vec![0, 8, 4, b'n', b'a', b'm', b'e', 1, 2, 3]);
}

#[test]
fn custom_section_round_trip() {
    let sec = Section::Custom(CustomSection::new(String::from("name"), vec![1, 2, 3]));
    let mut out = Vec::new();
    sec.serialize(&mut out).unwrap();
    let mut r = ByteReader::new(&out);
    let back = Section::deserialize(&mut r).unwrap().unwrap();
    match back {
        Section::Custom(c) => {
            assert_eq!(c.name(), "name");
            assert_eq!(c.payload(), &[1, 2, 3]);
        },
        Section::Standard(_) => panic!("expected a custom section"),
    }
    assert_eq!(r.pos, out.len());
}

#[test]
fn custom_outer_payload_framing() {
    let c = CustomSection::new(String::from("name"), vec![1, 2, 3]);
    assert_eq!(c.outer_payload().unwrap(), vec![4, b'n', b'a', b'm', b'e', 1, 2, 3]);
}

#[test]
fn module_round_trip_with_all_section_kinds() {
    let m = Module {
        header: CORE_HEADER,
        sections: vec![
            Section::Standard(StandardSection::new(SectionId::Type, vec![0xaa, 0xbb])),
            Section::Custom(CustomSection::new(String::from("meta"), vec![9, 8, 7])),
            Section::Standard(StandardSection::new(SectionId::Extension(42), vec![])),
            Section::Standard(StandardSection::new(SectionId::Code, vec![0x00])),
            Section::Custom(CustomSection::new(String::new(), vec![])),
        ],
    };
    let bytes = serialize_module(&m);
    let back = deserialize_module(&bytes).unwrap();
    assert_eq!(back.header, CORE_HEADER);
    assert_eq!(back.sections.len(), 5);
    assert_eq!(back.sections[0].id(), SectionId::Type);
    assert_eq!(back.sections[0].payload(), &[0xaa, 0xbb]);
    assert_eq!(back.sections[1].id(), SectionId::CustomSection);
    assert_eq!(back.sections[1].payload(), &[9, 8, 7]);
    assert_eq!(back.sections[2].id(), SectionId::Extension(42));
    assert_eq!(back.sections[2].payload(), &[] as &[u8]);
    assert_eq!(back.sections[3].id(), SectionId::Code);
    assert_eq!(back.sections[4].id(), SectionId::CustomSection);
    assert_eq!(back.sections[4].payload(), &[] as &[u8]);
    // A second serialization reproduces the bytes exactly.
    assert_eq!(serialize_module(&back), bytes);
}

#[test]
fn component_header_round_trip() {
    let m = Module { header: COMPONENT_HEADER, sections: vec![] };
    let bytes = serialize_module(&m);
    let back = deserialize_module(&bytes).unwrap();
    assert_eq!(back.header, COMPONENT_HEADER);
    assert_eq!(back.sections.len(), 0);
}

#[test]
fn header_rejection_yields_unsupported_module_type() {
    let mut bytes = CORE_HEADER.to_vec();
    bytes[4] = 0x02;
    assert_eq!(deserialize_module(&bytes).unwrap_err(), WSError::UnsupportedModuleType);
    let zeros = [0u8; 8];
    assert_eq!(deserialize_module(&zeros).unwrap_err(), WSError::UnsupportedModuleType);
}

#[test]
fn short_header_is_truncated() {
    let bytes = [0x00u8, 0x61, 0x73];
    assert_eq!(deserialize_module(&bytes).unwrap_err(), WSError::TruncatedInput);
}

#[test]
fn declared_length_beyond_input_is_truncated() {
    // Section id 1, declared length 100, only 3 payload bytes present.
    let mut bytes = CORE_HEADER.to_vec();
    bytes.extend_from_slice(&[1, 100, 0xde, 0xad, 0xbe]);
    assert_eq!(deserialize_module(&bytes).unwrap_err(), WSError::TruncatedInput);
}

#[test]
fn invalid_utf8_custom_name_rejected() {
    // Custom section: name length 2, bytes 0xff 0xfe are not UTF-8.
    let mut bytes = CORE_HEADER.to_vec();
    bytes.extend_from_slice(&[0, 3, 2, 0xff, 0xfe]);
    assert_eq!(deserialize_module(&bytes).unwrap_err(), WSError::InvalidUtf8);
}

#[test]
fn custom_name_longer_than_payload_is_truncated() {
    // Custom section payload declares a 5-byte name but holds only 2 bytes.
    let mut bytes = CORE_HEADER.to_vec();
    bytes.extend_from_slice(&[0, 3, 5, b'a', b'b']);
    assert_eq!(deserialize_module(&bytes).unwrap_err(), WSError::TruncatedInput);
}

#[test]
fn trailing_garbage_length_field_overflow() {
    // Section length field is a varint longer than five bytes.
    let mut bytes = CORE_HEADER.to_vec();
    bytes.extend_from_slice(&[1, 0x80, 0x80, 0x80, 0x80, 0x80, 0x01]);
    assert_eq!(deserialize_module(&bytes).unwrap_err(), WSError::VarintOverflow);
}

#[test]
fn streaming_yields_sections_one_at_a_time_in_order() {
    let m = Module {
        header: CORE_HEADER,
        sections: vec![
            Section::Standard(StandardSection::new(SectionId::Import, vec![1])),
            Section::Custom(CustomSection::new(String::from("a"), vec![2, 2])),
            Section::Standard(StandardSection::new(SectionId::Data, vec![3, 3, 3])),
        ],
    };
    let bytes = serialize_module(&m);
    let mut r = ByteReader::new(&bytes);
    Module::stream_init(&mut r).unwrap();
    let mut it = Module::stream(r).unwrap();
    let pos_after_header = it.reader.pos;
    assert_eq!(pos_after_header, 8);

    let first = it.next().unwrap().unwrap();
    assert_eq!(first.id(), SectionId::Import);
    // Only the first section's bytes were consumed.
    assert!(it.reader.pos < bytes.len());

    let second = it.next().unwrap().unwrap();
    assert_eq!(second.id(), SectionId::CustomSection);
    assert_eq!(second.payload(), &[2, 2]);

    let third = it.next().unwrap().unwrap();
    assert_eq!(third.id(), SectionId::Data);
    assert_eq!(it.reader.pos, bytes.len());

    assert!(it.next().is_none());
}

#[test]
fn stream_init_must_see_header_before_sections() {
    let bytes = CORE_HEADER;
    let mut r = ByteReader::new(&bytes);
    let h = Module::stream_init(&mut r).unwrap();
    assert_eq!(h, CORE_HEADER);
    assert_eq!(r.pos, 8);
}

#[test]
fn section_new_standard_wraps_verbatim() {
    let s = Section::new(SectionId::Table, vec![7, 7]).unwrap();
    assert_eq!(s.id(), SectionId::Table);
    assert_eq!(s.payload(), &[7, 7]);
}

#[test]
fn section_new_custom_decodes_framing() {
    let s = Section::new(SectionId::CustomSection, vec![2, b'h', b'i', 0xff]).unwrap();
    match s {
        Section::Custom(c) => {
            assert_eq!(c.name(), "hi");
            assert_eq!(c.payload(), &[0xff]);
        },
        Section::Standard(_) => panic!("expected a custom section"),
    }
}

#[test]
fn section_new_custom_empty_remainder() {
    let s = Section::new(SectionId::CustomSection, vec![2, b'h', b'i']).unwrap();
    assert_eq!(s.payload(), &[] as &[u8]);
}

#[test]
fn module_default_is_blank() {
    let m = Module::default();
    assert_eq!(m.header, [0u8; 8]);
    assert!(m.sections.is_empty());
    let c = CustomSection::default();
    assert_eq!(c.name(), "");
    assert_eq!(c.payload(), &[] as &[u8]);
}
