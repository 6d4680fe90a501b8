//! Reading an ELF or PE file with `goblin` and loading what it holds.
use crate::loaders::image::{
    elf_loaded, elf_requests, language_of, load_elf_image, load_pe_image, load_state, pe_loaded,
    pe_requests, select_language, Container, ElfImage, ElfImageView, ElfSection, LoadState, PeImage,
    PeImageView, PeSection,
};
use crate::loaders::{LoaderError, LoaderErrorView};
use crate::memory::Memory;
use crate::tab_viewer::signals::{SignalKind, TabSignals};
use vstd::prelude::*;
use vstd::string::StringExecFns;

verus! {

/// The error of `goblin`, carried from the parser to the text it is shown
/// by; nothing is known of what it holds.
#[verifier::external_type_specification]
#[verifier::external_body]
pub struct ExGoblinError(goblin::error::Error);

/// The container and machine that `goblin::Object::parse` finds in a file,
/// or nothing where it refuses the file.
pub uninterp spec fn parsed_container(bytes: Seq<u8>) -> Option<Container>;

/// What `goblin::elf::Elf::parse` finds in a file: the entry point, the
/// section headers with their names, and the names behind the relocations
/// of the procedure linkage table; or nothing where it refuses the file.
pub uninterp spec fn parsed_elf(bytes: Seq<u8>) -> Option<ElfImageView>;

/// What `goblin::pe::PE::parse` finds in a file: the image base, the entry
/// point, and the sections with their content; or nothing where it refuses
/// the file.
pub uninterp spec fn parsed_pe(bytes: Seq<u8>) -> Option<PeImageView>;

/// Calls `goblin::Object::parse` and tells the variants of its result
/// apart, keeping the machine number of the header. The result is what
/// that call gives for these bytes; an error is handed on as it is.
#[verifier::external_body]
pub(crate) fn read_container(bytes: &[u8]) -> (r: Result<Container, goblin::error::Error>)
    ensures
        match r {
            Ok(c) => parsed_container(bytes@) == Some(c),
            Err(_) => parsed_container(bytes@) is None,
        },
{
    match goblin::Object::parse(bytes)? {
        goblin::Object::Elf(elf) => Ok(Container::Elf { machine: elf.header.e_machine }),
        goblin::Object::PE(pe) => Ok(Container::Pe { machine: pe.header.coff_header.machine }),
        _ => Ok(Container::Other),
    }
}

/// The text that `goblin` gives for one of its errors through `Display`.
/// Nothing is said of the text.
#[verifier::external_body]
pub(crate) fn error_text(error: &goblin::error::Error) -> (text: String) {
    format!("{}", error)
}

/// Calls `goblin::elf::Elf::parse` and copies out of its result the entry
/// point, each section header with the name that `Strtab::get_at` finds for
/// it in the section string table and with the range that
/// `SectionHeader::file_range` gives, and for each relocation of the
/// procedure linkage table the name that `Symtab::get` and `Strtab::get_at`
/// find for its dynamic symbol. The result is what these give for the
/// bytes; nothing where the parser refuses them.
#[verifier::external_body]
pub(crate) fn read_elf(bytes: &[u8]) -> (r: Option<ElfImage>)
    ensures
        match r {
            Some(image) => parsed_elf(bytes@) == Some(image@),
            None => parsed_elf(bytes@) is None,
        },
{
    let elf = goblin::elf::Elf::parse(bytes).ok()?;
    let sections = elf.section_headers.iter().map(|s| ElfSection {
        name: elf.shdr_strtab.get_at(s.sh_name).map(String::from),
        kind: s.sh_type, address: s.sh_addr, size: s.sh_size,
        file_range: s.file_range().map(|r| (r.start, r.end)),
    }).collect();
    let plt_symbols = elf.pltrelocs.iter().map(|r| elf.dynsyms.get(r.r_sym)
        .and_then(|y| elf.dynstrtab.get_at(y.st_name)).map(String::from)).collect();
    Some(ElfImage { entry: elf.entry, sections, plt_symbols })
}

/// Calls `goblin::pe::PE::parse` and copies out of its result the image
/// base, the entry point, and each section with the name that
/// `SectionTable::name` gives and with the content that `SectionTable::data`
/// gives for it, none where `data` gives none or fails. The result is what
/// these give for the bytes; nothing where the parser refuses them.
#[verifier::external_body]
pub(crate) fn read_pe(bytes: &[u8]) -> (r: Option<PeImage>)
    ensures
        match r {
            Some(image) => parsed_pe(bytes@) == Some(image@),
            None => parsed_pe(bytes@) is None,
        },
{
    let pe = goblin::pe::PE::parse(bytes).ok()?;
    let sections = pe.sections.iter().map(|s| PeSection {
        name: s.name().ok().map(String::from),
        virtual_address: s.virtual_address, virtual_size: s.virtual_size,
        pointer_to_raw_data: s.pointer_to_raw_data,
        data: s.data(bytes).ok().flatten().map(|d| d.into_owned()),
    }).collect();
    Some(PeImage { image_base: pe.image_base, entry: pe.entry, sections })
}

pub open spec fn unreadable() -> Seq<char> {
    "The file could not be read as the format that it announces."@
}

/// What loading a file gives.
pub struct LoadOutcome {
    /// The parts of the analysis state that loading changes.
    pub state: LoadState,
    /// The requests that wait for the next frame.
    pub requests: Seq<SignalKind>,
    /// The identifier of the language to analyse the file with.
    pub result: Result<Seq<char>, LoaderErrorView>,
}

/// What loading gives for a file of the given container, read as `elf` or
/// as `pe`. The language is settled first: a container or machine that is
/// not analysed changes nothing. Then the file is loaded as its container
/// says; where that stops with an error, what was loaded before stays.
pub open spec fn load_outcome(
    container: Container,
    elf: Option<ElfImageView>,
    pe: Option<PeImageView>,
    bytes: Seq<u8>,
    state: LoadState,
    requests: Seq<SignalKind>,
) -> LoadOutcome {
    match language_of(container) {
        Err(e) => LoadOutcome { state, requests, result: Err(e) },
        Ok(language) => match container {
            Container::Elf { .. } => match elf {
                None => LoadOutcome {
                    state,
                    requests,
                    result: Err(LoaderErrorView::MalformedFile(unreadable())),
                },
                Some(image) => {
                    let out = elf_loaded(state, image, bytes);
                    LoadOutcome {
                        state: out.0,
                        requests: elf_requests(requests, image, out.1),
                        result: match out.1 {
                            None => Ok(language),
                            Some(e) => Err(e),
                        },
                    }
                },
            },
            Container::Pe { .. } => match pe {
                None => LoadOutcome {
                    state,
                    requests,
                    result: Err(LoaderErrorView::MalformedFile(unreadable())),
                },
                Some(image) => {
                    let out = pe_loaded(state, image, bytes);
                    LoadOutcome {
                        state: out.0,
                        requests: pe_requests(requests, image, out.1),
                        result: match out.1 {
                            None => Ok(language),
                            Some(e) => Err(e),
                        },
                    }
                },
            },
            Container::Other => LoadOutcome {
                state,
                requests,
                result: Err(LoaderErrorView::MalformedFile(unreadable())),
            },
        },
    }
}

/// The result of loading, with its texts as sequences of characters.
pub open spec fn result_view(r: Result<String, LoaderError>) -> Result<Seq<char>, LoaderErrorView> {
    match r {
        Ok(language) => Ok(language@),
        Err(e) => Err(e@),
    }
}

/// Loads an executable file into the analysis state and returns the
/// identifier of the language to analyse it with. A file that `goblin`
/// refuses changes nothing and gives `MalformedFile`.
pub fn load(bytes: &[u8], memory: &mut Memory, signals: &mut TabSignals) -> (r: Result<
    String,
    LoaderError,
>)
    requires
        old(memory).wf(),
    ensures
        final(memory).wf(),
        final(memory).navigation.function_span == old(memory).navigation.function_span,
        final(memory).same_analysis(old(memory)),
        final(signals).signals@ == old(signals).signals@,
        match parsed_container(bytes@) {
            None => r is Err && r->Err_0 is MalformedFile && load_state(*final(memory))
                == load_state(*old(memory)) && final(signals).new_signals@ == old(
                signals,
            ).new_signals@,
            Some(container) => {
                let out = load_outcome(
                    container,
                    parsed_elf(bytes@),
                    parsed_pe(bytes@),
                    bytes@,
                    load_state(*old(memory)),
                    old(signals).new_signals@,
                );
                load_state(*final(memory)) == out.state && final(signals).new_signals@
                    == out.requests && result_view(r) == out.result
            },
        },
{
    let container = match read_container(bytes) {
        Ok(c) => c,
        Err(e) => {
            return Err(LoaderError::MalformedFile(error_text(&e)));
        },
    };
    let language = match select_language(container) {
        Ok(l) => l,
        Err(e) => {
            return Err(e);
        },
    };
    match container {
        Container::Elf { .. } => match read_elf(bytes) {
            Some(image) => match load_elf_image(&image, bytes, memory, signals) {
                Ok(_) => Ok(language),
                Err(e) => Err(e),
            },
            None => Err(
                LoaderError::MalformedFile(
                    String::from_str("The file could not be read as the format that it announces."),
                ),
            ),
        },
        Container::Pe { .. } => match read_pe(bytes) {
            Some(image) => match load_pe_image(&image, bytes, memory, signals) {
                Ok(_) => Ok(language),
                Err(e) => Err(e),
            },
            None => Err(
                LoaderError::MalformedFile(
                    String::from_str("The file could not be read as the format that it announces."),
                ),
            ),
        },
        Container::Other => Err(
            LoaderError::MalformedFile(
                String::from_str("The file could not be read as the format that it announces."),
            ),
        ),
    }
}

} // verus!
