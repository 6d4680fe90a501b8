//! What a parsed executable file holds, as plain values, and how it is
//! brought into the analysis state: symbols for the stubs of the procedure
//! linkage table, one navigation entry and one run of undecided bytes for
//! each section, and a request to analyse the entry point.
use crate::address::{Address, Interval};
use crate::loaders::demangle::{demangled, display_form, readable_name};
use crate::loaders::{LoaderError, LoaderErrorView};
use crate::memory::literal::{LiteralState, LiteralView};
use crate::memory::navigation::{section_views, Section, SectionView};
use crate::memory::{content, content_inserted, overlap_found, Memory};
use crate::symbol_resolver::{added, SymbolTable, SymbolView};
use crate::tab_viewer::signals::{SignalKind, TabSignals};
use crate::text::{decimal_string, decimal_text, hex_string, hex_text, upper_hex_string, upper_hex_text};
use vstd::prelude::*;
use vstd::slice::{slice_subrange, slice_to_vec};
use vstd::string::StringExecFns;

verus! {

/// The machine number of 32-bit x86 in an ELF header.
pub const EM_386: u16 = 3;

/// The machine number of x86-64 in an ELF header.
pub const EM_X86_64: u16 = 62;

/// The machine number of 32-bit x86 in a COFF header.
pub const COFF_MACHINE_X86: u16 = 0x14c;

/// The machine number of x86-64 in a COFF header.
pub const COFF_MACHINE_X86_64: u16 = 0x8664;

/// The type of an unused ELF section header.
pub const SHT_NULL: u32 = 0;

/// The type of an ELF note section.
pub const SHT_NOTE: u32 = 7;

/// The distance between two stubs of the procedure linkage table.
pub const PLT_ENTRY_SIZE: u64 = 16;

/// The size recorded for the symbol of a stub.
pub const PLT_SYMBOL_SIZE: u64 = 8;

/// The size first recorded for the headers of a PE file.
pub const PE_HEADERS_SIZE: usize = 1024;

/// The container format of a file, with the machine it was built for.
#[derive(Clone, Copy, Debug, PartialEq, Eq, Structural)]
pub enum Container {
    Elf { machine: u16 },
    Pe { machine: u16 },
    /// A format that is recognised but not analysed.
    Other,
}

/// The text of an optional string.
pub open spec fn text_of(o: Option<String>) -> Option<Seq<char>> {
    match o {
        Some(s) => Some(s@),
        None => None,
    }
}

/// A section header of an ELF file.
#[derive(Debug, PartialEq, Eq)]
pub struct ElfSection {
    /// The name, where the string table has one at the header's offset.
    pub name: Option<String>,
    pub kind: u32,
    pub address: u64,
    pub size: u64,
    /// Where the content lies in the file, start and end, if the section has
    /// content in the file.
    pub file_range: Option<(usize, usize)>,
}

pub struct ElfSectionView {
    pub name: Option<Seq<char>>,
    pub kind: u32,
    pub address: u64,
    pub size: u64,
    pub file_range: Option<(usize, usize)>,
}

impl View for ElfSection {
    type V = ElfSectionView;

    open spec fn view(&self) -> ElfSectionView {
        ElfSectionView {
            name: text_of(self.name),
            kind: self.kind,
            address: self.address,
            size: self.size,
            file_range: self.file_range,
        }
    }
}

/// What is read of an ELF file.
#[derive(Debug, PartialEq, Eq)]
pub struct ElfImage {
    pub entry: u64,
    pub sections: Vec<ElfSection>,
    /// For each relocation of the procedure linkage table, in order, the
    /// name of the symbol it refers to, where there is one.
    pub plt_symbols: Vec<Option<String>>,
}

pub struct ElfImageView {
    pub entry: u64,
    pub sections: Seq<ElfSectionView>,
    pub plt_symbols: Seq<Option<Seq<char>>>,
}

impl View for ElfImage {
    type V = ElfImageView;

    open spec fn view(&self) -> ElfImageView {
        ElfImageView {
            entry: self.entry,
            sections: self.sections@.map_values(|s: ElfSection| s@),
            plt_symbols: self.plt_symbols@.map_values(|o: Option<String>| text_of(o)),
        }
    }
}

/// A section of a PE file.
#[derive(Debug, PartialEq, Eq)]
pub struct PeSection {
    pub name: Option<String>,
    pub virtual_address: u32,
    pub virtual_size: u32,
    pub pointer_to_raw_data: u32,
    /// The content, padded with zeros up to the virtual size, if it lies
    /// inside the file.
    pub data: Option<Vec<u8>>,
}

pub struct PeSectionView {
    pub name: Option<Seq<char>>,
    pub virtual_address: u32,
    pub virtual_size: u32,
    pub pointer_to_raw_data: u32,
    pub data: Option<Seq<u8>>,
}

impl View for PeSection {
    type V = PeSectionView;

    open spec fn view(&self) -> PeSectionView {
        PeSectionView {
            name: text_of(self.name),
            virtual_address: self.virtual_address,
            virtual_size: self.virtual_size,
            pointer_to_raw_data: self.pointer_to_raw_data,
            data: match self.data {
                Some(d) => Some(d@),
                None => None,
            },
        }
    }
}

/// What is read of a PE file.
#[derive(Debug, PartialEq, Eq)]
pub struct PeImage {
    pub image_base: u64,
    pub entry: u32,
    pub sections: Vec<PeSection>,
}

pub struct PeImageView {
    pub image_base: u64,
    pub entry: u32,
    pub sections: Seq<PeSectionView>,
}

impl View for PeImage {
    type V = PeImageView;

    open spec fn view(&self) -> PeImageView {
        PeImageView {
            image_base: self.image_base,
            entry: self.entry,
            sections: self.sections@.map_values(|s: PeSection| s@),
        }
    }
}

/// The parts of the analysis state that loading changes.
pub struct LoadState {
    pub sections: Seq<SectionView>,
    pub literal: Seq<(Interval, LiteralView)>,
    pub symbols: Seq<SymbolView>,
}

/// The parts of `memory` that loading changes.
pub open spec fn load_state(memory: Memory) -> LoadState {
    LoadState {
        sections: section_views(memory.navigation.sections@),
        literal: content(memory.literal@),
        symbols: memory.symbols@,
    }
}

/// What a step of loading gives: nothing on success.
pub open spec fn step_view(r: Result<(), LoaderError>) -> Option<LoaderErrorView> {
    match r {
        Ok(_) => None,
        Err(e) => Some(e@),
    }
}

pub open spec fn unsupported_elf_machine(machine: u16) -> Seq<char> {
    "Unsupported architecture: e_machine = "@ + decimal_text(machine as nat)
        + ". Only x86 (EM_386) and x86-64 (EM_X86_64) are currently supported."@
}

pub open spec fn unsupported_pe_machine(machine: u16) -> Seq<char> {
    "Unsupported architecture: machine = 0x"@ + hex_text(machine as nat)
        + ". Only x86 (I386) and x86-64 (AMD64) are currently supported."@
}

pub open spec fn unsupported_format() -> Seq<char> {
    "Unsupported binary format. Only ELF and PE formats are currently supported."@
}

/// The identifier of the language to analyse the file with: 32-bit or
/// 64-bit little-endian x86, by the machine of the header. Any other
/// machine, and any other container, is refused.
pub open spec fn language_of(container: Container) -> Result<Seq<char>, LoaderErrorView> {
    match container {
        Container::Elf { machine } => if machine == EM_386 {
            Ok("x86:LE:32:default"@)
        } else if machine == EM_X86_64 {
            Ok("x86:LE:64:default"@)
        } else {
            Err(LoaderErrorView::MalformedFile(unsupported_elf_machine(machine)))
        },
        Container::Pe { machine } => if machine == COFF_MACHINE_X86 {
            Ok("x86:LE:32:default"@)
        } else if machine == COFF_MACHINE_X86_64 {
            Ok("x86:LE:64:default"@)
        } else {
            Err(LoaderErrorView::MalformedFile(unsupported_pe_machine(machine)))
        },
        Container::Other => Err(LoaderErrorView::MalformedFile(unsupported_format())),
    }
}

/// The identifier of the language to analyse the file with.
pub fn select_language(container: Container) -> (r: Result<String, LoaderError>)
    ensures
        match language_of(container) {
            Ok(id) => r is Ok && r->Ok_0@ == id,
            Err(e) => r is Err && r->Err_0@ == e,
        },
{
    match container {
        Container::Elf { machine } => {
            if machine == EM_386 {
                Ok(String::from_str("x86:LE:32:default"))
            } else if machine == EM_X86_64 {
                Ok(String::from_str("x86:LE:64:default"))
            } else {
                let mut text = String::from_str("Unsupported architecture: e_machine = ");
                let number = decimal_string(machine as u64);
                text.append(number.as_str());
                text.append(". Only x86 (EM_386) and x86-64 (EM_X86_64) are currently supported.");
                Err(LoaderError::MalformedFile(text))
            }
        },
        Container::Pe { machine } => {
            if machine == COFF_MACHINE_X86 {
                Ok(String::from_str("x86:LE:32:default"))
            } else if machine == COFF_MACHINE_X86_64 {
                Ok(String::from_str("x86:LE:64:default"))
            } else {
                let mut text = String::from_str("Unsupported architecture: machine = 0x");
                let number = hex_string(machine as u64);
                text.append(number.as_str());
                text.append(". Only x86 (I386) and x86-64 (AMD64) are currently supported.");
                Err(LoaderError::MalformedFile(text))
            }
        },
        Container::Other => Err(
            LoaderError::MalformedFile(
                String::from_str(
                    "Unsupported binary format. Only ELF and PE formats are currently supported.",
                ),
            ),
        ),
    }
}

/// The position of the first section of `sections`, from `from` on, that
/// has the name `name`; the length of `sections` if there is none.
pub open spec fn first_named(sections: Seq<ElfSectionView>, name: Seq<char>, from: int) -> int
    decreases sections.len() - from,
{
    if from < 0 || from >= sections.len() {
        sections.len() as int
    } else if sections[from].name == Some(name) {
        from
    } else {
        first_named(sections, name, from + 1)
    }
}

/// The address of the first stub of the procedure linkage table: that of
/// the first section named `.plt.sec`, or else of the first named `.plt`.
pub open spec fn plt_base(sections: Seq<ElfSectionView>) -> Option<u64> {
    let i = first_named(sections, ".plt.sec"@, 0);
    let j = first_named(sections, ".plt"@, 0);
    if i < sections.len() {
        Some(sections[i].address)
    } else if j < sections.len() {
        Some(sections[j].address)
    } else {
        None
    }
}

/// The symbols after the stubs from the `i`-th on have been named: the stub
/// of the `k`-th relocation stands `k` entries above `base` and gets the
/// readable form of the relocation's symbol name. A relocation without a
/// name, or whose stub would lie beyond the address space, names nothing.
pub open spec fn plt_symbols_added(
    symbols: Seq<SymbolView>,
    base: u64,
    names: Seq<Option<Seq<char>>>,
    i: int,
) -> Seq<SymbolView>
    decreases names.len() - i,
{
    if i < 0 || i >= names.len() {
        symbols
    } else {
        let next = match names[i] {
            Some(raw) => if base + i * PLT_ENTRY_SIZE <= u64::MAX {
                added(
                    symbols,
                    Address((base + i * PLT_ENTRY_SIZE) as u64),
                    PLT_SYMBOL_SIZE,
                    readable_name(raw, demangled(raw)),
                )
            } else {
                symbols
            },
            None => symbols,
        };
        plt_symbols_added(next, base, names, i + 1)
    }
}

/// Whether a section is passed over: unused headers, notes, and sections
/// without an address or without a size.
pub open spec fn elf_section_skipped(section: ElfSectionView) -> bool {
    section.kind == SHT_NULL || section.kind == SHT_NOTE || section.address == 0 || section.size
        == 0
}

pub open spec fn outside_file(start: usize, end: usize) -> Seq<char> {
    "Section offsets are outside (0x"@ + upper_hex_text(start as nat) + "..0x"@ + upper_hex_text(
        end as nat,
    ) + ") of file content size."@
}

pub open spec fn too_large() -> Seq<char> {
    "Section size does not fit in memory."@
}

pub open spec fn size_mismatch() -> Seq<char> {
    "Section content in the file does not have the size of the section."@
}

/// The bytes of a section: those of its range in the file, which must lie
/// inside the file and have the section's size, or zeros where it has no
/// content in the file. The section must lie inside the address space.
pub open spec fn elf_section_bytes(section: ElfSectionView, bytes: Seq<u8>) -> Result<
    Seq<u8>,
    LoaderErrorView,
> {
    if section.size > usize::MAX {
        Err(LoaderErrorView::MalformedFile(too_large()))
    } else if section.address + section.size > u64::MAX {
        Err(LoaderErrorView::MalformedFile(beyond_address_space()))
    } else {
        match section.file_range {
            None => Ok(Seq::new(section.size as nat, |i: int| 0u8)),
            Some((start, end)) => if start <= end <= bytes.len() {
                if end - start == section.size {
                    Ok(bytes.subrange(start as int, end as int))
                } else {
                    Err(LoaderErrorView::MalformedFile(size_mismatch()))
                }
            } else {
                Err(LoaderErrorView::MalformedFile(outside_file(start, end)))
            },
        }
    }
}

/// The name under which a section is listed.
pub open spec fn section_name(name: Option<Seq<char>>) -> Seq<char> {
    match name {
        Some(n) => n,
        None => "NoName"@,
    }
}

/// The state after the sections from the `i`-th on have been loaded, and
/// the error that stopped the loading, if one did. Each section that is not
/// passed over becomes a run of undecided bytes at its address and an entry
/// of the section list. Loading stops at the first section whose content
/// cannot be had or whose addresses are taken; that section leaves no trace.
pub open spec fn elf_sections_loaded(
    state: LoadState,
    sections: Seq<ElfSectionView>,
    bytes: Seq<u8>,
    i: int,
) -> (LoadState, Option<LoaderErrorView>)
    decreases sections.len() - i,
{
    if i < 0 || i >= sections.len() {
        (state, None)
    } else if elf_section_skipped(sections[i]) {
        elf_sections_loaded(state, sections, bytes, i + 1)
    } else {
        match elf_section_bytes(sections[i], bytes) {
            Err(e) => (state, Some(e)),
            Ok(raw) => {
                let literal = LiteralView::data(Address(sections[i].address), raw);
                match content_inserted(state.literal, literal) {
                    None => (
                        state,
                        Some(LoaderErrorView::Overlap(overlap_found(state.literal, literal))),
                    ),
                    Some(c) => elf_sections_loaded(
                        LoadState {
                            sections: state.sections.push(
                                SectionView {
                                    name: section_name(sections[i].name),
                                    virtual_address: Address(sections[i].address),
                                    virtual_size: sections[i].size as usize,
                                },
                            ),
                            literal: c,
                            symbols: state.symbols,
                        },
                        sections,
                        bytes,
                        i + 1,
                    ),
                }
            },
        }
    }
}

/// The state after an ELF file has been loaded, and the error that stopped
/// the loading, if one did: first the stubs are named, then the sections
/// are loaded.
pub open spec fn elf_loaded(state: LoadState, image: ElfImageView, bytes: Seq<u8>) -> (
    LoadState,
    Option<LoaderErrorView>,
) {
    let symbols = match plt_base(image.sections) {
        Some(base) => plt_symbols_added(state.symbols, base, image.plt_symbols, 0),
        None => state.symbols,
    };
    elf_sections_loaded(
        LoadState { sections: state.sections, literal: state.literal, symbols },
        image.sections,
        bytes,
        0,
    )
}

/// The requests after an ELF file has been loaded: one to analyse the entry
/// point, if the loading went through and the file names one.
pub open spec fn elf_requests(
    requests: Seq<SignalKind>,
    image: ElfImageView,
    error: Option<LoaderErrorView>,
) -> Seq<SignalKind> {
    if error is None && image.entry != 0 {
        requests.push(SignalKind::DefineFunctionStart(Address(image.entry)))
    } else {
        requests
    }
}

fn position_named(sections: &Vec<ElfSection>, name: &str) -> (r: Option<usize>)
    ensures
        match r {
            Some(i) => i < sections@.len() && i == first_named(
                sections@.map_values(|s: ElfSection| s@),
                name@,
                0,
            ),
            None => first_named(sections@.map_values(|s: ElfSection| s@), name@, 0)
                == sections@.len(),
        },
{
    let wanted = String::from_str(name);
    let ghost views = sections@.map_values(|s: ElfSection| s@);
    let mut i: usize = 0;
    while i < sections.len()
        invariant
            i <= sections@.len(),
            views == sections@.map_values(|s: ElfSection| s@),
            wanted@ == name@,
            first_named(views, name@, 0) == first_named(views, name@, i as int),
        decreases sections@.len() - i,
    {
        assert(views[i as int] == sections@[i as int]@);
        let found = match &sections[i].name {
            Some(n) => *n == wanted,
            None => false,
        };
        if found {
            return Some(i);
        }
        i += 1;
    }
    None
}

/// The address of the first stub of the procedure linkage table.
pub fn find_plt_base(sections: &Vec<ElfSection>) -> (r: Option<u64>)
    ensures
        r == plt_base(sections@.map_values(|s: ElfSection| s@)),
{
    let ghost views = sections@.map_values(|s: ElfSection| s@);
    match position_named(sections, ".plt.sec") {
        Some(i) => {
            assert(views[i as int] == sections@[i as int]@);
            Some(sections[i].address)
        },
        None => match position_named(sections, ".plt") {
            Some(j) => {
                assert(views[j as int] == sections@[j as int]@);
                Some(sections[j].address)
            },
            None => None,
        },
    }
}

/// Names the stubs of the procedure linkage table.
pub fn add_plt_symbols(symbols: &mut SymbolTable, base: u64, names: &Vec<Option<String>>)
    ensures
        final(symbols)@ == plt_symbols_added(
            old(symbols)@,
            base,
            names@.map_values(|o: Option<String>| text_of(o)),
            0,
        ),
{
    let ghost views = names@.map_values(|o: Option<String>| text_of(o));
    let mut i: usize = 0;
    while i < names.len()
        invariant
            i <= names@.len(),
            views == names@.map_values(|o: Option<String>| text_of(o)),
            plt_symbols_added(symbols@, base, views, i as int) == plt_symbols_added(
                old(symbols)@,
                base,
                views,
                0,
            ),
        decreases names@.len() - i,
    {
        assert(views[i as int] == text_of(names@[i as int]));
        match &names[i] {
            Some(raw) => {
                if i as u64 <= (u64::MAX - base) / PLT_ENTRY_SIZE {
                    let address: u64 = base + (i as u64) * PLT_ENTRY_SIZE;
                    let name = display_form(raw.as_str());
                    symbols.add(Address(address), PLT_SYMBOL_SIZE, name);
                }
            },
            None => {},
        }
        i += 1;
    }
}

fn zeros(n: usize) -> (v: Vec<u8>)
    ensures
        v@ == Seq::new(n as nat, |i: int| 0u8),
{
    let mut v: Vec<u8> = Vec::new();
    let mut i: usize = 0;
    while i < n
        invariant
            i <= n,
            v@ == Seq::new(i as nat, |k: int| 0u8),
        decreases n - i,
    {
        v.push(0u8);
        i += 1;
        assert(v@ =~= Seq::new(i as nat, |k: int| 0u8));
    }
    v
}

/// The bytes of a section.
pub fn elf_section_content(section: &ElfSection, bytes: &[u8]) -> (r: Result<Vec<u8>, LoaderError>)
    ensures
        match elf_section_bytes(section@, bytes@) {
            Ok(raw) => r is Ok && r->Ok_0@ == raw && raw.len() == section.size,
            Err(e) => r is Err && r->Err_0@ == e,
        },
        r is Ok ==> section.address + section.size <= u64::MAX,
{
    if section.size > usize::MAX as u64 {
        return Err(LoaderError::MalformedFile(String::from_str("Section size does not fit in memory.")));
    }
    if section.size > u64::MAX - section.address {
        return Err(
            LoaderError::MalformedFile(
                String::from_str("An address of the file lies beyond the address space."),
            ),
        );
    }
    let size: usize = section.size as usize;
    match section.file_range {
        None => Ok(zeros(size)),
        Some((start, end)) => {
            if start <= end && end <= bytes.len() {
                if end - start == size {
                    Ok(slice_to_vec(slice_subrange(bytes, start, end)))
                } else {
                    Err(
                        LoaderError::MalformedFile(
                            String::from_str(
                                "Section content in the file does not have the size of the section.",
                            ),
                        ),
                    )
                }
            } else {
                let mut text = String::from_str("Section offsets are outside (0x");
                let low = upper_hex_string(start as u64);
                text.append(low.as_str());
                text.append("..0x");
                let high = upper_hex_string(end as u64);
                text.append(high.as_str());
                text.append(") of file content size.");
                Err(LoaderError::MalformedFile(text))
            }
        },
    }
}

/// Loads the sections of an ELF file.
pub fn load_elf_sections(sections: &Vec<ElfSection>, bytes: &[u8], memory: &mut Memory) -> (r:
    Result<(), LoaderError>)
    requires
        old(memory).wf(),
    ensures
        final(memory).wf(),
        final(memory).navigation.function_span == old(memory).navigation.function_span,
        final(memory).same_analysis(old(memory)),
        ({
            let out = elf_sections_loaded(
                load_state(*old(memory)),
                sections@.map_values(|s: ElfSection| s@),
                bytes@,
                0,
            );
            load_state(*final(memory)) == out.0 && step_view(r) == out.1
        }),
{
    let ghost views = sections@.map_values(|s: ElfSection| s@);
    let ghost goal = elf_sections_loaded(load_state(*old(memory)), views, bytes@, 0);
    let mut i: usize = 0;
    while i < sections.len()
        invariant
            i <= sections@.len(),
            memory.wf(),
            memory.navigation.function_span == old(memory).navigation.function_span,
            memory.same_analysis(old(memory)),
            views == sections@.map_values(|s: ElfSection| s@),
            goal == elf_sections_loaded(load_state(*old(memory)), views, bytes@, 0),
            elf_sections_loaded(load_state(*memory), views, bytes@, i as int) == goal,
        decreases sections@.len() - i,
    {
        assert(views[i as int] == sections@[i as int]@);
        let section = &sections[i];
        let skipped = section.kind == SHT_NULL || section.kind == SHT_NOTE || section.address == 0
            || section.size == 0;
        if !skipped {
            let raw = match elf_section_content(section, bytes) {
                Ok(raw) => raw,
                Err(e) => {
                    return Err(e);
                },
            };
            let name = match &section.name {
                Some(n) => n.clone(),
                None => String::from_str("NoName"),
            };
            let literal = LiteralState::from_bytes(Address(section.address), raw);
            match memory.insert_literal(literal) {
                Ok(_) => {},
                Err(e) => {
                    return Err(LoaderError::Overlap(e));
                },
            }
            let ghost before = section_views(memory.navigation.sections@);
            memory.navigation.sections.push(
                Section::new(name, section.address, section.size as usize),
            );
            assert(section_views(memory.navigation.sections@) =~= before.push(
                SectionView {
                    name: section_name(views[i as int].name),
                    virtual_address: Address(section.address),
                    virtual_size: section.size as usize,
                },
            ));
        }
        i += 1;
    }
    Ok(())
}

/// Brings an ELF file into the analysis state: names the stubs of the
/// procedure linkage table, loads the sections, and asks for the entry
/// point to be analysed.
pub fn load_elf_image(
    image: &ElfImage,
    bytes: &[u8],
    memory: &mut Memory,
    signals: &mut TabSignals,
) -> (r: Result<(), LoaderError>)
    requires
        old(memory).wf(),
    ensures
        final(memory).wf(),
        final(memory).navigation.function_span == old(memory).navigation.function_span,
        final(memory).same_analysis(old(memory)),
        load_state(*final(memory)) == elf_loaded(load_state(*old(memory)), image@, bytes@).0,
        step_view(r) == elf_loaded(load_state(*old(memory)), image@, bytes@).1,
        final(signals).signals@ == old(signals).signals@,
        final(signals).new_signals@ == elf_requests(old(signals).new_signals@, image@, step_view(r)),
{
    match find_plt_base(&image.sections) {
        Some(base) => {
            add_plt_symbols(&mut memory.symbols, base, &image.plt_symbols);
        },
        None => {},
    }
    match load_elf_sections(&image.sections, bytes, memory) {
        Ok(_) => {},
        Err(e) => {
            return Err(e);
        },
    }
    if image.entry != 0 {
        signals.define_function(image.entry);
    }
    Ok(())
}

pub open spec fn headers_outside() -> Seq<char> {
    "The headers reach beyond the end of the file."@
}

pub open spec fn outside_file_plain() -> Seq<char> {
    "Section offsets are outside of file content size."@
}

pub open spec fn beyond_address_space() -> Seq<char> {
    "An address of the file lies beyond the address space."@
}

/// The state after the headers of a PE file have been loaded, and the error
/// that stopped it, if one did. The headers are what the file holds before
/// the content of its first section; they become undecided bytes at the
/// image base, and the entry of the section list that stands for them gets
/// their size. This happens once, while that entry is the only one.
pub open spec fn pe_headers_loaded(state: LoadState, image_base: u64, pointer: u32, bytes: Seq<u8>) -> (
    LoadState,
    Option<LoaderErrorView>,
) {
    if state.sections.len() != 1 {
        (state, None)
    } else if pointer > bytes.len() {
        (state, Some(LoaderErrorView::MalformedFile(headers_outside())))
    } else if image_base + pointer > u64::MAX {
        (state, Some(LoaderErrorView::MalformedFile(beyond_address_space())))
    } else {
        let literal = LiteralView::data(Address(image_base), bytes.subrange(0, pointer as int));
        match content_inserted(state.literal, literal) {
            None => (state, Some(LoaderErrorView::Overlap(overlap_found(state.literal, literal)))),
            Some(c) => (
                LoadState {
                    sections: state.sections.update(
                        0,
                        SectionView {
                            name: state.sections[0].name,
                            virtual_address: state.sections[0].virtual_address,
                            virtual_size: pointer as usize,
                        },
                    ),
                    literal: c,
                    symbols: state.symbols,
                },
                None,
            ),
        }
    }
}

/// The state after the sections of a PE file from the `i`-th on have been
/// loaded, and the error that stopped the loading, if one did. Each section
/// becomes a run of undecided bytes at its address above the image base and
/// an entry of the section list. Loading stops at the first section whose
/// content lies outside the file or beyond the address space, or whose
/// addresses are taken.
pub open spec fn pe_sections_loaded(state: LoadState, image: PeImageView, bytes: Seq<u8>, i: int) -> (
    LoadState,
    Option<LoaderErrorView>,
)
    decreases image.sections.len() - i,
{
    if i < 0 || i >= image.sections.len() {
        (state, None)
    } else {
        let section = image.sections[i];
        match section.data {
            None => (state, Some(LoaderErrorView::MalformedFile(outside_file_plain()))),
            Some(data) => {
                let headers = pe_headers_loaded(
                    state,
                    image.image_base,
                    section.pointer_to_raw_data,
                    bytes,
                );
                if headers.1 is Some {
                    headers
                } else if image.image_base + section.virtual_address + data.len() > u64::MAX {
                    (headers.0, Some(LoaderErrorView::MalformedFile(beyond_address_space())))
                } else {
                    let address = Address((image.image_base + section.virtual_address) as u64);
                    let literal = LiteralView::data(address, data);
                    match content_inserted(headers.0.literal, literal) {
                        None => (
                            headers.0,
                            Some(LoaderErrorView::Overlap(overlap_found(headers.0.literal, literal))),
                        ),
                        Some(c) => pe_sections_loaded(
                            LoadState {
                                sections: headers.0.sections.push(
                                    SectionView {
                                        name: section_name(section.name),
                                        virtual_address: address,
                                        virtual_size: section.virtual_size as usize,
                                    },
                                ),
                                literal: c,
                                symbols: headers.0.symbols,
                            },
                            image,
                            bytes,
                            i + 1,
                        ),
                    }
                }
            },
        }
    }
}

/// The state after a PE file has been loaded, and the error that stopped
/// the loading, if one did: an entry of the section list for the headers,
/// then the sections, and at last the entry point, which must lie inside
/// the address space.
pub open spec fn pe_loaded(state: LoadState, image: PeImageView, bytes: Seq<u8>) -> (
    LoadState,
    Option<LoaderErrorView>,
) {
    let out = pe_sections_loaded(
        LoadState {
            sections: state.sections.push(
                SectionView {
                    name: "Headers"@,
                    virtual_address: Address(image.image_base),
                    virtual_size: PE_HEADERS_SIZE,
                },
            ),
            literal: state.literal,
            symbols: state.symbols,
        },
        image,
        bytes,
        0,
    );
    if out.1 is None && image.image_base + image.entry > u64::MAX {
        (out.0, Some(LoaderErrorView::MalformedFile(beyond_address_space())))
    } else {
        out
    }
}

/// The requests after a PE file has been loaded: one to analyse the entry
/// point, if the loading went through.
pub open spec fn pe_requests(
    requests: Seq<SignalKind>,
    image: PeImageView,
    error: Option<LoaderErrorView>,
) -> Seq<SignalKind> {
    if error is None {
        requests.push(
            SignalKind::DefineFunctionStart(Address((image.image_base + image.entry) as u64)),
        )
    } else {
        requests
    }
}

/// Loads the headers of a PE file, once.
pub fn load_pe_headers(image_base: u64, pointer: u32, bytes: &[u8], memory: &mut Memory) -> (r:
    Result<(), LoaderError>)
    requires
        old(memory).wf(),
    ensures
        final(memory).wf(),
        final(memory).navigation.function_span == old(memory).navigation.function_span,
        final(memory).same_analysis(old(memory)),
        load_state(*final(memory)) == pe_headers_loaded(
            load_state(*old(memory)),
            image_base,
            pointer,
            bytes@,
        ).0,
        step_view(r) == pe_headers_loaded(load_state(*old(memory)), image_base, pointer, bytes@).1,
{
    if memory.navigation.sections.len() != 1 {
        return Ok(());
    }
    if pointer as usize > bytes.len() {
        return Err(
            LoaderError::MalformedFile(
                String::from_str("The headers reach beyond the end of the file."),
            ),
        );
    }
    if pointer as u64 > u64::MAX - image_base {
        return Err(
            LoaderError::MalformedFile(
                String::from_str("An address of the file lies beyond the address space."),
            ),
        );
    }
    let raw = slice_to_vec(slice_subrange(bytes, 0, pointer as usize));
    let literal = LiteralState::from_bytes(Address(image_base), raw);
    match memory.insert_literal(literal) {
        Ok(_) => {},
        Err(e) => {
            return Err(LoaderError::Overlap(e));
        },
    }
    let ghost before = section_views(memory.navigation.sections@);
    let first = memory.navigation.sections.remove(0);
    memory.navigation.sections.insert(
        0,
        Section {
            name: first.name,
            virtual_address: first.virtual_address,
            virtual_size: pointer as usize,
        },
    );
    assert(section_views(memory.navigation.sections@) =~= before.update(
        0,
        SectionView {
            name: before[0].name,
            virtual_address: before[0].virtual_address,
            virtual_size: pointer as usize,
        },
    ));
    Ok(())
}

/// Loads the sections of a PE file.
pub fn load_pe_sections(image: &PeImage, bytes: &[u8], memory: &mut Memory) -> (r: Result<
    (),
    LoaderError,
>)
    requires
        old(memory).wf(),
    ensures
        final(memory).wf(),
        final(memory).navigation.function_span == old(memory).navigation.function_span,
        final(memory).same_analysis(old(memory)),
        load_state(*final(memory)) == pe_sections_loaded(
            load_state(*old(memory)),
            image@,
            bytes@,
            0,
        ).0,
        step_view(r) == pe_sections_loaded(load_state(*old(memory)), image@, bytes@, 0).1,
{
    let ghost goal = pe_sections_loaded(load_state(*old(memory)), image@, bytes@, 0);
    let mut i: usize = 0;
    while i < image.sections.len()
        invariant
            i <= image.sections@.len(),
            memory.wf(),
            memory.navigation.function_span == old(memory).navigation.function_span,
            memory.same_analysis(old(memory)),
            goal == pe_sections_loaded(load_state(*old(memory)), image@, bytes@, 0),
            pe_sections_loaded(load_state(*memory), image@, bytes@, i as int) == goal,
        decreases image.sections@.len() - i,
    {
        assert(image@.sections[i as int] == image.sections@[i as int]@);
        let section = &image.sections[i];
        let data: Vec<u8> = match &section.data {
            Some(d) => slice_to_vec(d.as_slice()),
            None => {
                return Err(
                    LoaderError::MalformedFile(
                        String::from_str("Section offsets are outside of file content size."),
                    ),
                );
            },
        };
        match load_pe_headers(image.image_base, section.pointer_to_raw_data, bytes, memory) {
            Ok(_) => {},
            Err(e) => {
                return Err(e);
            },
        }
        if section.virtual_address as u64 > u64::MAX - image.image_base || data.len() as u64
            > u64::MAX - image.image_base - section.virtual_address as u64 {
            return Err(
                LoaderError::MalformedFile(
                    String::from_str("An address of the file lies beyond the address space."),
                ),
            );
        }
        let address: u64 = image.image_base + section.virtual_address as u64;
        let name = match &section.name {
            Some(n) => n.clone(),
            None => String::from_str("NoName"),
        };
        let literal = LiteralState::from_bytes(Address(address), data);
        match memory.insert_literal(literal) {
            Ok(_) => {},
            Err(e) => {
                return Err(LoaderError::Overlap(e));
            },
        }
        let ghost before = section_views(memory.navigation.sections@);
        memory.navigation.sections.push(Section::new(name, address, section.virtual_size as usize));
        assert(section_views(memory.navigation.sections@) =~= before.push(
            SectionView {
                name: section_name(image@.sections[i as int].name),
                virtual_address: Address(address),
                virtual_size: section.virtual_size as usize,
            },
        ));
        i += 1;
    }
    Ok(())
}

/// Brings a PE file into the analysis state: lists the headers, loads the
/// sections, and asks for the entry point to be analysed.
pub fn load_pe_image(
    image: &PeImage,
    bytes: &[u8],
    memory: &mut Memory,
    signals: &mut TabSignals,
) -> (r: Result<(), LoaderError>)
    requires
        old(memory).wf(),
    ensures
        final(memory).wf(),
        final(memory).navigation.function_span == old(memory).navigation.function_span,
        final(memory).same_analysis(old(memory)),
        load_state(*final(memory)) == pe_loaded(load_state(*old(memory)), image@, bytes@).0,
        step_view(r) == pe_loaded(load_state(*old(memory)), image@, bytes@).1,
        final(signals).signals@ == old(signals).signals@,
        final(signals).new_signals@ == pe_requests(old(signals).new_signals@, image@, step_view(r)),
{
    let ghost before = section_views(memory.navigation.sections@);
    memory.navigation.sections.push(
        Section::new(String::from_str("Headers"), image.image_base, PE_HEADERS_SIZE),
    );
    assert(section_views(memory.navigation.sections@) =~= before.push(
        SectionView {
            name: "Headers"@,
            virtual_address: Address(image.image_base),
            virtual_size: PE_HEADERS_SIZE,
        },
    ));
    match load_pe_sections(image, bytes, memory) {
        Ok(_) => {},
        Err(e) => {
            return Err(e);
        },
    }
    if image.entry as u64 > u64::MAX - image.image_base {
        return Err(
            LoaderError::MalformedFile(
                String::from_str("An address of the file lies beyond the address space."),
            ),
        );
    }
    signals.define_function(image.entry as u64 + image.image_base);
    Ok(())
}


} // verus!
