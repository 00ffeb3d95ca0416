//! Sections and modules of the WebAssembly binary container format.
//!
//! A module is an 8-byte header followed by sections. Each section is
//! identified by a single byte: values 0 through 11 name the kinds the
//! core specification defines, and every other byte is carried verbatim
//! as an extension identifier, so unknown section kinds survive a round
//! trip unchanged.

use vstd::prelude::*;
use vstd::string::StringExecFns;
use vstd::utf8::{decode_utf8, valid_utf8};

use crate::error::WSError;
use crate::reader::ByteReader;
use crate::varint;
use crate::wire::{
    custom_outer, header_ok, module_bytes, parse_module, parse_section, parse_sections,
    section_bytes, sections_bytes, spec_section_id, spec_section_new, spec_section_payload,
    SpecModule, SpecSection,
};

verus! {

/// A section identifier.
#[derive(Debug, Copy, Clone, Eq, PartialEq, Structural)]
pub enum SectionId {
    CustomSection,
    Type,
    Import,
    Function,
    Table,
    Memory,
    Global,
    Export,
    Start,
    Element,
    Code,
    Data,
    Extension(u8),
}

/// The identifier denoted by a byte: the twelve known kinds for 0–11,
/// and the byte itself as an extension otherwise.
pub open spec fn spec_id_of_byte(v: u8) -> SectionId {
    if v == 0 {
        SectionId::CustomSection
    } else if v == 1 {
        SectionId::Type
    } else if v == 2 {
        SectionId::Import
    } else if v == 3 {
        SectionId::Function
    } else if v == 4 {
        SectionId::Table
    } else if v == 5 {
        SectionId::Memory
    } else if v == 6 {
        SectionId::Global
    } else if v == 7 {
        SectionId::Export
    } else if v == 8 {
        SectionId::Start
    } else if v == 9 {
        SectionId::Element
    } else if v == 10 {
        SectionId::Code
    } else if v == 11 {
        SectionId::Data
    } else {
        SectionId::Extension(v)
    }
}

/// The byte denoting an identifier.
pub open spec fn spec_id_byte(id: SectionId) -> u8 {
    match id {
        SectionId::CustomSection => 0,
        SectionId::Type => 1,
        SectionId::Import => 2,
        SectionId::Function => 3,
        SectionId::Table => 4,
        SectionId::Memory => 5,
        SectionId::Global => 6,
        SectionId::Export => 7,
        SectionId::Start => 8,
        SectionId::Element => 9,
        SectionId::Code => 10,
        SectionId::Data => 11,
        SectionId::Extension(x) => x,
    }
}

/// An identifier as decoding produces it: the extension case is only
/// used for bytes outside the known range, so the byte mapping is a
/// bijection on such identifiers.
pub open spec fn id_wf(id: SectionId) -> bool {
    match id {
        SectionId::Extension(x) => x >= 12,
        _ => true,
    }
}

/// Mapping an identifier to its byte and back yields the identifier,
/// for every identifier the decoder can produce.
pub proof fn lemma_id_byte_bijective(id: SectionId, v: u8)
    ensures
        spec_id_byte(spec_id_of_byte(v)) == v,
        id_wf(spec_id_of_byte(v)),
        id_wf(id) ==> spec_id_of_byte(spec_id_byte(id)) == id,
{
}

impl From<u8> for SectionId {
    /// Decode a section identifier byte.
    fn from(v: u8) -> (r: Self) {
        if v == 0 {
            SectionId::CustomSection
        } else if v == 1 {
            SectionId::Type
        } else if v == 2 {
            SectionId::Import
        } else if v == 3 {
            SectionId::Function
        } else if v == 4 {
            SectionId::Table
        } else if v == 5 {
            SectionId::Memory
        } else if v == 6 {
            SectionId::Global
        } else if v == 7 {
            SectionId::Export
        } else if v == 8 {
            SectionId::Start
        } else if v == 9 {
            SectionId::Element
        } else if v == 10 {
            SectionId::Code
        } else if v == 11 {
            SectionId::Data
        } else {
            SectionId::Extension(v)
        }
    }
}

impl vstd::std_specs::convert::FromSpecImpl<u8> for SectionId {
    open spec fn obeys_from_spec() -> bool {
        true
    }

    open spec fn from_spec(v: u8) -> SectionId {
        spec_id_of_byte(v)
    }
}

impl From<SectionId> for u8 {
    /// Encode a section identifier as its byte.
    fn from(v: SectionId) -> (r: Self) {
        match v {
            SectionId::CustomSection => 0,
            SectionId::Type => 1,
            SectionId::Import => 2,
            SectionId::Function => 3,
            SectionId::Table => 4,
            SectionId::Memory => 5,
            SectionId::Global => 6,
            SectionId::Export => 7,
            SectionId::Start => 8,
            SectionId::Element => 9,
            SectionId::Code => 10,
            SectionId::Data => 11,
            SectionId::Extension(x) => x,
        }
    }
}

impl vstd::std_specs::convert::FromSpecImpl<SectionId> for u8 {
    open spec fn obeys_from_spec() -> bool {
        true
    }

    open spec fn from_spec(v: SectionId) -> u8 {
        spec_id_byte(v)
    }
}

/// The decimal digit character for `d`.
pub open spec fn spec_digit(d: nat) -> char
    recommends
        d < 10,
{
    if d == 0 {
        '0'
    } else if d == 1 {
        '1'
    } else if d == 2 {
        '2'
    } else if d == 3 {
        '3'
    } else if d == 4 {
        '4'
    } else if d == 5 {
        '5'
    } else if d == 6 {
        '6'
    } else if d == 7 {
        '7'
    } else if d == 8 {
        '8'
    } else {
        '9'
    }
}

/// The decimal rendering of `n`, without leading zeroes.
pub open spec fn spec_dec(n: nat) -> Seq<char>
    decreases n,
{
    if n < 10 {
        seq![spec_digit(n)]
    } else {
        spec_dec(n / 10) + seq![spec_digit(n % 10)]
    }
}

/// The human-readable label of an identifier, as [`SectionId::display`]
/// renders it.
pub open spec fn spec_id_label(id: SectionId) -> Seq<char> {
    match id {
        SectionId::CustomSection => "custom section"@,
        SectionId::Type => "types section"@,
        SectionId::Import => "imports section"@,
        SectionId::Function => "functions section"@,
        SectionId::Table => "table section"@,
        SectionId::Memory => "memory section"@,
        SectionId::Global => "global section"@,
        SectionId::Export => "exports section"@,
        SectionId::Start => "start section"@,
        SectionId::Element => "elements section"@,
        SectionId::Code => "code section"@,
        SectionId::Data => "data section"@,
        SectionId::Extension(x) => "section id#"@ + spec_dec(x as nat),
    }
}

/// Appends the character for the decimal digit `d` to `s`.
fn append_digit(s: &mut String, d: u8)
    requires
        d < 10,
    ensures
        final(s)@ == old(s)@ + seq![spec_digit(d as nat)],
{
    proof {
        reveal_strlit("0");
        reveal_strlit("1");
        reveal_strlit("2");
        reveal_strlit("3");
        reveal_strlit("4");
        reveal_strlit("5");
        reveal_strlit("6");
        reveal_strlit("7");
        reveal_strlit("8");
        reveal_strlit("9");
    }
    let t: &str = if d == 0 {
        "0"
    } else if d == 1 {
        "1"
    } else if d == 2 {
        "2"
    } else if d == 3 {
        "3"
    } else if d == 4 {
        "4"
    } else if d == 5 {
        "5"
    } else if d == 6 {
        "6"
    } else if d == 7 {
        "7"
    } else if d == 8 {
        "8"
    } else {
        "9"
    };
    s.append(t);
    proof {
        assert(final(s)@ =~= old(s)@ + seq![spec_digit(d as nat)]);
    }
}

/// Appends the decimal rendering of `v` to `s`.
fn append_dec_u8(s: &mut String, v: u8)
    ensures
        final(s)@ == old(s)@ + spec_dec(v as nat),
{
    if v >= 100 {
        append_digit(s, v / 100);
        append_digit(s, (v / 10) % 10);
        append_digit(s, v % 10);
        proof {
            let n = v as nat;
            assert(n / 10 / 10 == n / 100);
            assert(n / 10 >= 10 && n / 10 < 100 && n / 100 < 10);
            assert(spec_dec(n / 100) =~= seq![spec_digit(n / 100)]);
            assert(spec_dec(n / 10) =~= spec_dec(n / 10 / 10) + seq![spec_digit((n / 10) % 10)]);
            assert(spec_dec(n) =~= spec_dec(n / 10) + seq![spec_digit(n % 10)]);
            assert(final(s)@ =~= old(s)@ + spec_dec(n));
        }
    } else if v >= 10 {
        append_digit(s, v / 10);
        append_digit(s, v % 10);
        proof {
            let n = v as nat;
            assert(n / 10 < 10);
            assert(spec_dec(n / 10) =~= seq![spec_digit(n / 10)]);
            assert(spec_dec(n) =~= spec_dec(n / 10) + seq![spec_digit(n % 10)]);
            assert(final(s)@ =~= old(s)@ + spec_dec(n));
        }
    } else {
        append_digit(s, v);
        proof {
            assert(final(s)@ =~= old(s)@ + spec_dec(v as nat));
        }
    }
}

impl SectionId {
    /// A human-readable label for the identifier, such as
    /// `"types section"` or `"section id#42"`.
    pub fn display(&self) -> (r: String)
        ensures
            r@ == spec_id_label(*self),
    {
        match self {
            SectionId::CustomSection => String::from_str("custom section"),
            SectionId::Type => String::from_str("types section"),
            SectionId::Import => String::from_str("imports section"),
            SectionId::Function => String::from_str("functions section"),
            SectionId::Table => String::from_str("table section"),
            SectionId::Memory => String::from_str("memory section"),
            SectionId::Global => String::from_str("global section"),
            SectionId::Export => String::from_str("exports section"),
            SectionId::Start => String::from_str("start section"),
            SectionId::Element => String::from_str("elements section"),
            SectionId::Code => String::from_str("code section"),
            SectionId::Data => String::from_str("data section"),
            SectionId::Extension(x) => {
                let mut out = String::from_str("section id#");
                append_dec_u8(&mut out, *x);
                out
            },
        }
    }
}

/// The rendering of a section by [`SectionLike::display`]: the
/// identifier's label for a standard section, the bracketed name for a
/// custom one. The verbose flag is reserved and changes nothing yet.
pub open spec fn spec_section_display(s: SpecSection, verbose: bool) -> Seq<char> {
    match s {
        SpecSection::Standard { id, .. } => spec_id_label(id),
        SpecSection::Custom { name, .. } => "custom section: ["@ + name + "]"@,
    }
}

/// The name of a custom section; empty for a standard section.
pub open spec fn spec_custom_name(s: SpecSection) -> Seq<char> {
    match s {
        SpecSection::Custom { name, .. } => name,
        SpecSection::Standard { .. } => Seq::empty(),
    }
}

/// Common functions for a module section.
pub trait SectionLike: View<V = SpecSection> {
    /// The identifier of the section.
    fn id(&self) -> (r: SectionId)
        ensures
            r == spec_section_id(self@),
    ;

    /// The inner payload of the section; for a custom section this
    /// excludes the name framing.
    fn payload(&self) -> (r: &[u8])
        ensures
            r@ == spec_section_payload(self@),
    ;

    /// A human-readable representation of the section.
    fn display(&self, verbose: bool) -> (r: String)
        ensures
            r@ == spec_section_display(self@, verbose),
    ;
}

/// A standard section: an identifier other than the custom-section one,
/// and its raw payload.
#[derive(Debug, Clone)]
pub struct StandardSection {
    id: SectionId,
    payload: Vec<u8>,
}

impl View for StandardSection {
    type V = SpecSection;

    closed spec fn view(&self) -> SpecSection {
        SpecSection::Standard { id: self.id, payload: self.payload@ }
    }
}

impl StandardSection {
    /// Create a new standard section.
    pub fn new(id: SectionId, payload: Vec<u8>) -> (r: Self)
        ensures
            r@ == (SpecSection::Standard { id, payload: payload@ }),
    {
        Self { id, payload }
    }
}

impl SectionLike for StandardSection {
    fn id(&self) -> (r: SectionId) {
        self.id
    }

    fn payload(&self) -> (r: &[u8]) {
        self.payload.as_slice()
    }

    fn display(&self, verbose: bool) -> (r: String) {
        self.id.display()
    }
}

/// A custom section: a UTF-8 name and the payload that follows it.
#[derive(Debug, Clone)]
pub struct CustomSection {
    name: String,
    payload: Vec<u8>,
}

impl View for CustomSection {
    type V = SpecSection;

    closed spec fn view(&self) -> SpecSection {
        SpecSection::Custom { name: self.name@, payload: self.payload@ }
    }
}

impl Default for CustomSection {
    /// An empty custom section: empty name, empty payload.
    fn default() -> (r: Self)
        ensures
            r@ == (SpecSection::Custom { name: Seq::<char>::empty(), payload: Seq::<u8>::empty() }),
    {
        Self { name: String::new(), payload: Vec::new() }
    }
}

impl CustomSection {
    /// Create a new custom section.
    pub fn new(name: String, payload: Vec<u8>) -> (r: Self)
        ensures
            r@ == (SpecSection::Custom { name: name@, payload: payload@ }),
    {
        Self { name, payload }
    }

    /// The name of the custom section.
    pub fn name(&self) -> (r: &str)
        ensures
            r@ == spec_custom_name(self@),
    {
        self.name.as_str()
    }

    /// The custom section as it stands on the wire inside its length
    /// field: the LEB128 byte length of the name, the name, then the
    /// payload. Recomputed on every call, never cached.
    pub fn outer_payload(&self) -> (r: Result<Vec<u8>, WSError>)
        ensures
            r matches Ok(v) && v@ == custom_outer(spec_custom_name(self@), spec_section_payload(
                self@,
            )),
    {
        let mut w: Vec<u8> = Vec::new();
        let nb: &[u8] = self.name.as_str().as_bytes();
        match varint::put(&mut w, nb.len() as u64) {
            Ok(_) => {},
            Err(e) => {
                return Err(e);
            },
        }
        push_bytes(&mut w, nb);
        push_bytes(&mut w, self.payload.as_slice());
        proof {
            assert(w@ =~= custom_outer(self.name@, self.payload@));
        }
        Ok(w)
    }
}

impl SectionLike for CustomSection {
    fn id(&self) -> (r: SectionId) {
        SectionId::CustomSection
    }

    fn payload(&self) -> (r: &[u8]) {
        self.payload.as_slice()
    }

    fn display(&self, verbose: bool) -> (r: String) {
        let mut out = String::from_str("custom section: [");
        out.append(self.name.as_str());
        out.append("]");
        proof {
            assert(out@ =~= spec_section_display(self@, verbose));
        }
        out
    }
}

/// Appends all of `b` to `out`.
fn push_bytes(out: &mut Vec<u8>, b: &[u8])
    ensures
        final(out)@ == old(out)@ + b@,
{
    let mut i: usize = 0;
    while i < b.len()
        invariant
            i <= b@.len(),
            out@ == old(out)@ + b@.subrange(0, i as int),
        decreases b@.len() - i,
    {
        out.push(b[i]);
        i = i + 1;
        proof {
            assert(out@ =~= old(out)@ + b@.subrange(0, i as int));
        }
    }
    proof {
        assert(b@.subrange(0, b@.len() as int) =~= b@);
    }
}

/// Relies on `String::from_utf8`: it returns the string holding exactly
/// the given bytes when they are valid UTF-8, and an error otherwise.
#[verifier::external_body]
fn bytes_to_string(v: Vec<u8>) -> (r: Result<String, WSError>)
    ensures
        ({
            match r {
                Ok(s) => valid_utf8(v@) && s@ == decode_utf8(v@),
                Err(e) => !valid_utf8(v@) && e == WSError::InvalidUtf8,
            }
        }),
{
    match String::from_utf8(v) {
        Ok(s) => Ok(s),
        Err(_) => Err(WSError::InvalidUtf8),
    }
}

/// A WebAssembly module section.
#[derive(Debug, Clone)]
pub enum Section {
    /// A standard section.
    Standard(StandardSection),
    /// A custom section.
    Custom(CustomSection),
}

impl View for Section {
    type V = SpecSection;

    closed spec fn view(&self) -> SpecSection {
        match self {
            Section::Standard(s) => s@,
            Section::Custom(s) => s@,
        }
    }
}

impl SectionLike for Section {
    fn id(&self) -> (r: SectionId) {
        match self {
            Section::Standard(s) => s.id(),
            Section::Custom(s) => s.id(),
        }
    }

    fn payload(&self) -> (r: &[u8]) {
        match self {
            Section::Standard(s) => s.payload(),
            Section::Custom(s) => s.payload(),
        }
    }

    fn display(&self, verbose: bool) -> (r: String) {
        match self {
            Section::Standard(s) => s.display(verbose),
            Section::Custom(s) => s.display(verbose),
        }
    }
}

impl Section {
    /// Create a new section with the given identifier and payload.
    ///
    /// A custom-section identifier makes the payload be decoded as name
    /// framing followed by the inner payload; any other identifier wraps
    /// the payload verbatim.
    pub fn new(id: SectionId, payload: Vec<u8>) -> (r: Result<Self, WSError>)
        ensures
            ({
                match spec_section_new(id, payload@) {
                    Ok(sp) => r matches Ok(s) && s@ == sp,
                    Err(e) => r == Err::<Section, WSError>(e),
                }
            }),
    {
        match id {
            SectionId::CustomSection => {
                let mut rd = ByteReader::new(payload.as_slice());
                let name_len = match varint::get32(&mut rd) {
                    Ok(v) => v,
                    Err(e) => {
                        return Err(e);
                    },
                };
                let name_bytes = match rd.read_exact(name_len as usize) {
                    Ok(v) => v,
                    Err(e) => {
                        return Err(e);
                    },
                };
                let name = match bytes_to_string(name_bytes) {
                    Ok(s) => s,
                    Err(e) => {
                        return Err(e);
                    },
                };
                let inner = rd.read_to_end();
                Ok(Section::Custom(CustomSection::new(name, inner)))
            },
            _ => Ok(Section::Standard(StandardSection::new(id, payload))),
        }
    }
}

impl Section {
    /// Create a section from its serialized representation: identifier,
    /// length, payload. A clean end of input before the identifier byte
    /// is `Ok(None)` — the end of the section list, not a failure.
    pub fn deserialize(r: &mut ByteReader<'_>) -> (res: Result<Option<Self>, WSError>)
        requires
            old(r).wf(),
        ensures
            final(r).wf(),
            final(r).data@ == old(r).data@,
            ({
                match parse_section(old(r).remaining()) {
                    Ok(None) => (res matches Ok(o) && o is None && final(r).pos == old(r).pos),
                    Ok(Some((sp, n))) => (res matches Ok(o) && o matches Some(s) && s@ == sp
                        && final(r).pos == old(r).pos + n),
                    Err(e) => res == Err::<Option<Section>, WSError>(e),
                }
            }),
    {
        let ghost rem = old(r).remaining();
        let id_byte = match varint::get7(r) {
            Ok(b) => b,
            Err(WSError::Eof) => {
                return Ok(None);
            },
            Err(e) => {
                return Err(e);
            },
        };
        proof {
            assert(r.remaining() =~= rem.subrange(1, rem.len() as int));
        }
        let id = SectionId::from(id_byte);
        let ghost rest = rem.subrange(1, rem.len() as int);
        let len = match varint::get32(r) {
            Ok(v) => v,
            Err(e) => {
                return Err(e);
            },
        };
        proof {
            crate::wire::lemma_leb_decode_bounds(rest, 5);
            assert(r.remaining() =~= rest.subrange(
                r.pos - old(r).pos - 1,
                rest.len() as int,
            ));
        }
        let payload = match r.read_exact(len as usize) {
            Ok(v) => v,
            Err(e) => {
                return Err(e);
            },
        };
        match Section::new(id, payload) {
            Ok(s) => Ok(Some(s)),
            Err(e) => Err(e),
        }
    }

    /// Serialize the section: LEB128 identifier, LEB128 payload length,
    /// then the payload — re-framed name and payload for a custom
    /// section.
    pub fn serialize(&self, out: &mut Vec<u8>) -> (res: Result<(), WSError>)
        ensures
            res is Ok,
            final(out)@ == old(out)@ + section_bytes(self@),
    {
        match self {
            Section::Standard(s) => {
                let idb = u8::from(s.id());
                match varint::put(out, idb as u64) {
                    Ok(_) => {},
                    Err(e) => {
                        return Err(e);
                    },
                }
                let p = s.payload();
                match varint::put(out, p.len() as u64) {
                    Ok(_) => {},
                    Err(e) => {
                        return Err(e);
                    },
                }
                push_bytes(out, p);
                proof {
                    assert(final(out)@ =~= old(out)@ + section_bytes(self@));
                }
                Ok(())
            },
            Section::Custom(c) => {
                let op = match c.outer_payload() {
                    Ok(v) => v,
                    Err(e) => {
                        return Err(e);
                    },
                };
                match varint::put(out, 0u64) {
                    Ok(_) => {},
                    Err(e) => {
                        return Err(e);
                    },
                }
                match varint::put(out, op.len() as u64) {
                    Ok(_) => {},
                    Err(e) => {
                        return Err(e);
                    },
                }
                push_bytes(out, op.as_slice());
                proof {
                    assert(final(out)@ =~= old(out)@ + section_bytes(self@));
                }
                Ok(())
            },
        }
    }
}

/// A module header: 8 bytes, either the core-module constant or the
/// component constant.
pub type Header = [u8; 8];

/// A WebAssembly module: its header and its sections, in order. Section
/// order is preserved exactly; nothing is reordered or validated beyond
/// the container framing.
#[derive(Debug, Clone)]
pub struct Module {
    pub header: Header,
    pub sections: Vec<Section>,
}

impl View for Module {
    type V = SpecModule;

    open spec fn view(&self) -> SpecModule {
        SpecModule {
            header: self.header@,
            sections: Seq::new(self.sections@.len(), |i: int| self.sections@[i]@),
        }
    }
}

impl Default for Module {
    /// A blank module: an all-zero header and no sections. The header
    /// is not a recognized constant until the caller fills it in.
    fn default() -> (r: Module)
        ensures
            r@.header =~= Seq::new(8, |i: int| 0u8),
            r@.sections.len() == 0,
    {
        Module { header: [0u8, 0u8, 0u8, 0u8, 0u8, 0u8, 0u8, 0u8], sections: Vec::new() }
    }
}

impl Module {
    /// Read and validate the module's header. Must be called once,
    /// before streaming sections from the same source.
    pub fn stream_init(r: &mut ByteReader<'_>) -> (res: Result<Header, WSError>)
        requires
            old(r).wf(),
        ensures
            final(r).wf(),
            final(r).data@ == old(r).data@,
            ({
                let rem = old(r).remaining();
                if rem.len() < 8 {
                    res == Err::<Header, WSError>(WSError::TruncatedInput)
                        && final(r).pos == old(r).pos
                } else if header_ok(rem.subrange(0, 8)) {
                    res matches Ok(h) && h@ == rem.subrange(0, 8) && final(r).pos == old(r).pos + 8
                } else {
                    res == Err::<Header, WSError>(WSError::UnsupportedModuleType) && final(r).pos
                        == old(r).pos + 8
                }
            }),
    {
        let v = match r.read_exact(8) {
            Ok(v) => v,
            Err(e) => {
                return Err(e);
            },
        };
        let header: Header = [v[0], v[1], v[2], v[3], v[4], v[5], v[6], v[7]];
        proof {
            assert(header@ =~= v@);
        }
        let is_core = header[0] == 0x00 && header[1] == 0x61 && header[2] == 0x73 && header[3]
            == 0x6d && header[4] == 0x01 && header[5] == 0x00 && header[6] == 0x00 && header[7]
            == 0x00;
        let is_component = header[0] == 0x00 && header[1] == 0x61 && header[2] == 0x73 && header[3]
            == 0x6d && header[4] == 0x0d && header[5] == 0x00 && header[6] == 0x01 && header[7]
            == 0x00;
        proof {
            assert(is_core <==> header@ =~= crate::wire::spec_core_header());
            assert(is_component <==> header@ =~= crate::wire::spec_component_header());
        }
        if is_core || is_component {
            Ok(header)
        } else {
            Err(WSError::UnsupportedModuleType)
        }
    }

    /// Return an iterator over the sections of a module whose header has
    /// already been read. The source is read one section at a time and
    /// never has to be held in memory as a whole.
    pub fn stream<'t>(reader: ByteReader<'t>) -> (res: Result<SectionsIterator<'t>, WSError>)
        requires
            reader.wf(),
        ensures
            res matches Ok(it) && it.reader == reader,
    {
        Ok(SectionsIterator { reader })
    }

    /// Deserialize a whole module: validate the header, then collect
    /// every section in order. The first error aborts the collection;
    /// no partial module is produced.
    pub fn deserialize(r: &mut ByteReader<'_>) -> (res: Result<Module, WSError>)
        requires
            old(r).wf(),
        ensures
            final(r).wf(),
            final(r).data@ == old(r).data@,
            ({
                match parse_module(old(r).remaining()) {
                    Ok(mm) => (res matches Ok(m) && m@ == mm
                        && final(r).pos == final(r).data@.len()),
                    Err(e) => res == Err::<Module, WSError>(e),
                }
            }),
    {
        let ghost rem0 = old(r).remaining();
        let header = match Self::stream_init(r) {
            Ok(h) => h,
            Err(e) => {
                return Err(e);
            },
        };
        let ghost rest0 = r.remaining();
        proof {
            assert(rest0 =~= rem0.subrange(8, rem0.len() as int));
        }
        let mut sections: Vec<Section> = Vec::new();
        loop
            invariant
                r.wf(),
                r.data@ == old(r).data@,
                rem0 == old(r).remaining(),
                rem0.len() >= 8,
                header@ == rem0.subrange(0, 8),
                header_ok(header@),
                rest0 == rem0.subrange(8, rem0.len() as int),
                ({
                    let done = Seq::new(sections@.len(), |i: int| sections@[i]@);
                    match parse_sections(r.remaining()) {
                        Ok(ss) => parse_sections(rest0) == Ok::<Seq<SpecSection>, WSError>(
                            done + ss,
                        ),
                        Err(e) => parse_sections(rest0) == Err::<Seq<SpecSection>, WSError>(e),
                    }
                }),
            decreases r.remaining().len(),
        {
            let ghost cur = r.remaining();
            let ghost done = Seq::new(sections@.len(), |i: int| sections@[i]@);
            match Section::deserialize(r) {
                Err(e) => {
                    return Err(e);
                },
                Ok(None) => {
                    proof {
                        assert(cur.len() == 0);
                        assert(parse_sections(cur) == Ok::<Seq<SpecSection>, WSError>(
                            Seq::empty(),
                        ));
                        assert(done + Seq::<SpecSection>::empty() =~= done);
                    }
                    let m = Module { header, sections };
                    proof {
                        assert(m@.sections =~= done);
                        match parse_module(rem0) {
                            Ok(mm) => {
                                assert(m@ =~= mm);
                            },
                            Err(_) => {},
                        }
                    }
                    return Ok(m);
                },
                Ok(Some(s)) => {
                    proof {
                        crate::wire::lemma_parse_section_bounds(cur);
                    }
                    sections.push(s);
                    proof {
                        match parse_section(cur) {
                            Ok(Some((sp, n))) => {
                                assert(r.remaining() =~= cur.subrange(n, cur.len() as int));
                                let done2 = Seq::new(
                                    sections@.len(),
                                    |i: int| sections@[i]@,
                                );
                                assert(done2 =~= done + seq![sp]);
                                match parse_sections(r.remaining()) {
                                    Ok(ss) => {
                                        assert(parse_sections(cur) == Ok::<
                                            Seq<SpecSection>,
                                            WSError,
                                        >(seq![sp] + ss));
                                        assert(done + (seq![sp] + ss) =~= done2 + ss);
                                    },
                                    Err(_) => {},
                                }
                            },
                            _ => {
                                assert(false);
                            },
                        }
                    }
                },
            }
        }
    }

    /// Serialize the module: the header verbatim, then each section in
    /// original order.
    pub fn serialize(&self, out: &mut Vec<u8>) -> (res: Result<(), WSError>)
        ensures
            res is Ok,
            final(out)@ == old(out)@ + module_bytes(self@),
    {
        push_bytes(out, self.header.as_slice());
        let ghost secs = self@.sections;
        let mut i: usize = 0;
        proof {
            assert(secs.subrange(0, 0) =~= Seq::<SpecSection>::empty());
        }
        while i < self.sections.len()
            invariant
                i <= self.sections@.len(),
                secs == self@.sections,
                secs.len() == self.sections@.len(),
                out@ == old(out)@ + self.header@ + sections_bytes(secs.subrange(0, i as int)),
            decreases self.sections@.len() - i,
        {
            let s: &Section = &self.sections[i];
            let res = s.serialize(out);
            match res {
                Ok(_) => {},
                Err(e) => {
                    return Err(e);
                },
            }
            proof {
                assert(secs.subrange(0, (i + 1) as int) =~= secs.subrange(0, i as int) + seq![
                    secs[i as int],
                ]);
                crate::wire::lemma_sections_bytes_app(secs.subrange(0, i as int), seq![
                    secs[i as int],
                ]);
                assert(seq![secs[i as int]].drop_first() =~= Seq::<SpecSection>::empty());
                assert(sections_bytes(Seq::<SpecSection>::empty()) =~= Seq::<u8>::empty());
                assert(sections_bytes(seq![secs[i as int]]) == section_bytes(
                    seq![secs[i as int]][0],
                ) + sections_bytes(seq![secs[i as int]].drop_first()));
                assert(sections_bytes(seq![secs[i as int]]) =~= section_bytes(secs[i as int]));
                assert(out@ =~= old(out)@ + self.header@ + sections_bytes(
                    secs.subrange(0, (i + 1) as int),
                ));
            }
            i = i + 1;
        }
        proof {
            assert(secs.subrange(0, secs.len() as int) =~= secs);
            assert(out@ =~= old(out)@ + module_bytes(self@));
        }
        Ok(())
    }
}

/// An iterator over the sections of a module: a lazy, forward-only,
/// non-restartable traversal of the byte source handed to
/// [`Module::stream`].
pub struct SectionsIterator<'t> {
    /// The byte source, positioned after the sections already produced.
    pub reader: ByteReader<'t>,
}

impl<'t> SectionsIterator<'t> {
    /// Produce the next section: `None` at the clean end of input,
    /// `Some(Err(..))` on a decode failure — after which the iterator
    /// should not be used further.
    pub fn next(&mut self) -> (res: Option<Result<Section, WSError>>)
        requires
            old(self).reader.wf(),
        ensures
            final(self).reader.wf(),
            final(self).reader.data@ == old(self).reader.data@,
            ({
                match parse_section(old(self).reader.remaining()) {
                    Ok(None) => res is None,
                    Ok(Some((sp, n))) => (res matches Some(r) && r matches Ok(s) && s@ == sp
                        && final(self).reader.pos == old(self).reader.pos + n),
                    Err(e) => res == Some(Err::<Section, WSError>(e)),
                }
            }),
    {
        match Section::deserialize(&mut self.reader) {
            Err(e) => Some(Err(e)),
            Ok(None) => None,
            Ok(Some(section)) => Some(Ok(section)),
        }
    }
}

} // verus!
