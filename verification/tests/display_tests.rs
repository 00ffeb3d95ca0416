use wasm_sections::{CustomSection, Section, SectionId, SectionLike, StandardSection, WSError};

#[test]
fn section_id_labels() {
    assert_eq!(SectionId::CustomSection.display(), "custom section");
    assert_eq!(SectionId::Type.display(), "types section");
    assert_eq!(SectionId::Import.display(), "imports section");
    assert_eq!(SectionId::Function.display(), "functions section");
    assert_eq!(SectionId::Table.display(), "table section");
    assert_eq!(SectionId::Memory.display(), "memory section");
    assert_eq!(SectionId::Global.display(), "global section");
    assert_eq!(SectionId::Export.display(), "exports section");
    assert_eq!(SectionId::Start.display(), "start section");
    assert_eq!(SectionId::Element.display(), "elements section");
    assert_eq!(SectionId::Code.display(), "code section");
    assert_eq!(SectionId::Data.display(), "data section");
}

#[test]
fn extension_label_renders_decimal() {
    assert_eq!(SectionId::Extension(12).display(), "section id#12");
    assert_eq!(SectionId::Extension(42).display(), "section id#42");
    assert_eq!(SectionId::Extension(100).display(), "section id#100");
    assert_eq!(SectionId::Extension(200).display(), "section id#200");
    assert_eq!(SectionId::Extension(255).display(), "section id#255");
}

#[test]
fn section_display_strings() {
    let s = StandardSection::new(SectionId::Code, vec![1]);
    assert_eq!(s.display(false), "code section");
    assert_eq!(s.display(true), "code section");
    let c = CustomSection::new(String::from("name"), vec![]);
    assert_eq!(c.display(false), "custom section: [name]");
    assert_eq!(c.display(true), "custom section: [name]");
    let sec = Section::Custom(CustomSection::new(String::from("x"), vec![]));
    assert_eq!(sec.display(false), "custom section: [x]");
}

#[test]
fn id_byte_conversions_are_inverse() {
    for b in 0u8..=255 {
        let id = SectionId::from(b);
        assert_eq!(u8::from(id), b);
        if b >= 12 {
            assert_eq!(id, SectionId::Extension(b));
        }
    }
    assert_eq!(SectionId::from(0), SectionId::CustomSection);
    assert_eq!(SectionId::from(3), SectionId::Function);
    assert_eq!(SectionId::from(11), SectionId::Data);
    assert_eq!(u8::from(SectionId::Memory), 5);
}

#[test]
fn error_messages() {
    assert_eq!(WSError::Eof.message(), "end of stream");
    assert_eq!(WSError::TruncatedInput.message(), "truncated input");
    assert_eq!(WSError::VarintOverflow.message(), "varint value too large");
    assert_eq!(WSError::InvalidUtf8.message(), "invalid utf-8 in custom section name");
    assert_eq!(WSError::UnsupportedModuleType.message(), "unsupported module type");
}
