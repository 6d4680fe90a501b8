use bin_ast::address::{Address, Interval};
use bin_ast::loaders::demangle::{choose_name, display_form};
use bin_ast::loaders::image::{
    add_plt_symbols, elf_section_content, find_plt_base, load_elf_image, load_pe_image,
    select_language, Container, ElfImage, ElfSection, PeImage, PeSection,
};
use bin_ast::loaders::{load, LoaderError};
use bin_ast::memory::literal::{LiteralKind, LiteralState};
use bin_ast::memory::navigation::Section;
use bin_ast::memory::Memory;
use bin_ast::symbol_resolver::SymbolTable;
use bin_ast::tab_viewer::{SignalKind, TabSignals};

fn section(name: &str, kind: u32, address: u64, size: u64, file_range: Option<(usize, usize)>) -> ElfSection {
    ElfSection { name: Some(name.to_string()), kind, address, size, file_range }
}

fn push16(out: &mut Vec<u8>, v: u16) {
    out.extend_from_slice(&v.to_le_bytes());
}

fn push32(out: &mut Vec<u8>, v: u32) {
    out.extend_from_slice(&v.to_le_bytes());
}

fn push64(out: &mut Vec<u8>, v: u64) {
    out.extend_from_slice(&v.to_le_bytes());
}

fn section_header(out: &mut Vec<u8>, name: u32, kind: u32, flags: u64, addr: u64, offset: u64, size: u64) {
    push32(out, name);
    push32(out, kind);
    push64(out, flags);
    push64(out, addr);
    push64(out, offset);
    push64(out, size);
    push32(out, 0);
    push32(out, 0);
    push64(out, 1);
    push64(out, 0);
}

/// A 64-bit little-endian ELF file with one code section of eight bytes at
/// 0x401000 and a section string table.
fn small_elf(machine: u16) -> Vec<u8> {
    let mut out: Vec<u8> = vec![0x7f, b'E', b'L', b'F', 2, 1, 1, 0, 0, 0, 0, 0, 0, 0, 0, 0];
    push16(&mut out, 2);
    push16(&mut out, machine);
    push32(&mut out, 1);
    push64(&mut out, 0x401000);
    push64(&mut out, 0);
    push64(&mut out, 96);
    push32(&mut out, 0);
    push16(&mut out, 64);
    push16(&mut out, 56);
    push16(&mut out, 0);
    push16(&mut out, 64);
    push16(&mut out, 3);
    push16(&mut out, 2);
    assert_eq!(out.len(), 64);
    out.extend_from_slice(&[0x55, 0x48, 0x89, 0xe5, 0x31, 0xc0, 0x5d, 0xc3]);
    out.extend_from_slice(b"\0.text\0.shstrtab\0");
    while out.len() < 96 {
        out.push(0);
    }
    section_header(&mut out, 0, 0, 0, 0, 0, 0);
    section_header(&mut out, 1, 1, 6, 0x401000, 64, 8);
    section_header(&mut out, 7, 3, 0, 0, 72, 17);
    out
}

/// A PE32+ file with one section of sixteen bytes whose content starts at
/// offset 0x200.
fn small_pe(machine: u16) -> Vec<u8> {
    let mut out: Vec<u8> = vec![0; 0x40];
    out[0] = b'M';
    out[1] = b'Z';
    out[0x3c] = 0x40;
    out.extend_from_slice(b"PE\0\0");
    push16(&mut out, machine);
    push16(&mut out, 1);
    push32(&mut out, 0);
    push32(&mut out, 0);
    push32(&mut out, 0);
    push16(&mut out, 240);
    push16(&mut out, 0x22);
    // optional header, PE32+
    push16(&mut out, 0x20b);
    out.push(14);
    out.push(0);
    push32(&mut out, 0x200);
    push32(&mut out, 0);
    push32(&mut out, 0);
    push32(&mut out, 0x1000);
    push32(&mut out, 0x1000);
    push64(&mut out, 0x140000000);
    push32(&mut out, 0x1000);
    push32(&mut out, 0x200);
    push16(&mut out, 6);
    push16(&mut out, 0);
    push16(&mut out, 0);
    push16(&mut out, 0);
    push16(&mut out, 6);
    push16(&mut out, 0);
    push32(&mut out, 0);
    push32(&mut out, 0x2000);
    push32(&mut out, 0x200);
    push32(&mut out, 0);
    push16(&mut out, 3);
    push16(&mut out, 0);
    push64(&mut out, 0x100000);
    push64(&mut out, 0x1000);
    push64(&mut out, 0x100000);
    push64(&mut out, 0x1000);
    push32(&mut out, 0);
    push32(&mut out, 16);
    for _ in 0..16 {
        push64(&mut out, 0);
    }
    // section table
    out.extend_from_slice(b".text\0\0\0");
    push32(&mut out, 16);
    push32(&mut out, 0x1000);
    push32(&mut out, 16);
    push32(&mut out, 0x200);
    push32(&mut out, 0);
    push32(&mut out, 0);
    push16(&mut out, 0);
    push16(&mut out, 0);
    push32(&mut out, 0x60000020);
    while out.len() < 0x200 {
        out.push(0);
    }
    for i in 0..16u8 {
        out.push(0xc0 + i);
    }
    out
}

fn requests(signals: &TabSignals) -> &Vec<SignalKind> {
    &signals.new_signals
}

#[test]
fn language_follows_the_machine() {
    assert_eq!(select_language(Container::Elf { machine: 3 }), Ok("x86:LE:32:default".to_string()));
    assert_eq!(select_language(Container::Elf { machine: 62 }), Ok("x86:LE:64:default".to_string()));
    assert_eq!(select_language(Container::Pe { machine: 0x14c }), Ok("x86:LE:32:default".to_string()));
    assert_eq!(select_language(Container::Pe { machine: 0x8664 }), Ok("x86:LE:64:default".to_string()));
}

#[test]
fn unsupported_machines_and_formats_are_refused() {
    assert_eq!(
        select_language(Container::Elf { machine: 40 }),
        Err(LoaderError::MalformedFile(
            "Unsupported architecture: e_machine = 40. Only x86 (EM_386) and x86-64 (EM_X86_64) are currently supported."
                .to_string()
        ))
    );
    assert_eq!(
        select_language(Container::Pe { machine: 0xaa64 }),
        Err(LoaderError::MalformedFile(
            "Unsupported architecture: machine = 0xaa64. Only x86 (I386) and x86-64 (AMD64) are currently supported."
                .to_string()
        ))
    );
    assert_eq!(
        select_language(Container::Other),
        Err(LoaderError::MalformedFile(
            "Unsupported binary format. Only ELF and PE formats are currently supported.".to_string()
        ))
    );
}

#[test]
fn plt_base_prefers_plt_sec() {
    let sections = vec![
        section(".plt", 1, 0x1020, 0x40, Some((0x1020, 0x1060))),
        section(".plt.sec", 1, 0x1060, 0x40, Some((0x1060, 0x10a0))),
    ];
    assert_eq!(find_plt_base(&sections), Some(0x1060));
    let only_plt = vec![section(".text", 1, 0x2000, 4, None), section(".plt", 1, 0x1020, 0x40, None)];
    assert_eq!(find_plt_base(&only_plt), Some(0x1020));
    assert_eq!(find_plt_base(&vec![section(".text", 1, 0x2000, 4, None)]), None);
}

#[test]
fn plt_symbols_stand_sixteen_bytes_apart_under_readable_names() {
    let mut symbols = SymbolTable::new();
    let names = vec![Some("puts".to_string()), None, Some("_Z4facti".to_string())];
    add_plt_symbols(&mut symbols, 0x1060, &names);
    assert_eq!(symbols.len(), 2);
    assert_eq!(symbols.resolve(Address(0x1060)).unwrap().name, "puts");
    assert_eq!(symbols.resolve(Address(0x1060)).unwrap().size, 8);
    assert!(symbols.resolve(Address(0x1070)).is_none());
    assert_eq!(symbols.resolve(Address(0x1080)).unwrap().name, "fact(int)");
}

#[test]
fn plt_symbols_beyond_the_address_space_are_left_out() {
    let mut symbols = SymbolTable::new();
    let names = vec![Some("puts".to_string()), Some("exit".to_string())];
    add_plt_symbols(&mut symbols, u64::MAX - 15, &names);
    assert_eq!(symbols.len(), 1);
    assert_eq!(symbols.resolve(Address(u64::MAX - 15)).unwrap().name, "puts");
}

#[test]
fn demangling_gives_the_readable_form_or_the_name_itself() {
    assert_eq!(display_form("_Z4facti"), "fact(int)");
    assert_eq!(display_form("_ZN5space3fooEibc"), "space::foo(int, bool, char)");
    assert_eq!(display_form("main"), "main");
    assert_eq!(choose_name("raw", Some("nice".to_string())), "nice");
    assert_eq!(choose_name("raw", None), "raw");
}

#[test]
fn section_content_comes_from_the_file_or_is_zero() {
    let bytes = [1u8, 2, 3, 4, 5, 6];
    assert_eq!(elf_section_content(&section(".a", 1, 0x10, 3, Some((2, 5))), &bytes), Ok(vec![3, 4, 5]));
    assert_eq!(elf_section_content(&section(".bss", 8, 0x10, 4, None), &bytes), Ok(vec![0, 0, 0, 0]));
    assert_eq!(
        elf_section_content(&section(".a", 1, 0x10, 0x20, Some((0x1f, 0x3f))), &bytes),
        Err(LoaderError::MalformedFile(
            "Section offsets are outside (0x1F..0x3F) of file content size.".to_string()
        ))
    );
    assert_eq!(
        elf_section_content(&section(".a", 1, 0x10, 3, Some((1, 3))), &bytes),
        Err(LoaderError::MalformedFile(
            "Section content in the file does not have the size of the section.".to_string()
        ))
    );
    assert_eq!(
        elf_section_content(&section(".a", 1, u64::MAX - 1, 3, Some((1, 4))), &bytes),
        Err(LoaderError::MalformedFile("An address of the file lies beyond the address space.".to_string()))
    );
}

#[test]
fn elf_image_is_loaded_section_by_section() {
    let image = ElfImage {
        entry: 0x1004,
        sections: vec![
            section("", 0, 0, 0, Some((0, 0))),
            section(".note", 7, 0x900, 4, Some((0, 4))),
            section(".text", 1, 0x1000, 4, Some((2, 6))),
            ElfSection { name: None, kind: 8, address: 0x2000, size: 3, file_range: None },
            section(".comment", 1, 0, 4, Some((0, 4))),
            section(".empty", 1, 0x3000, 0, Some((0, 0))),
            section(".plt", 1, 0x4000, 2, Some((0, 2))),
        ],
        plt_symbols: vec![Some("_Z4facti".to_string())],
    };
    let bytes = [0xa0u8, 0xa1, 0xa2, 0xa3, 0xa4, 0xa5, 0xa6];
    let mut memory = Memory::new();
    let mut signals = TabSignals::new();
    assert_eq!(load_elf_image(&image, &bytes, &mut memory, &mut signals), Ok(()));
    assert_eq!(
        memory.navigation.sections,
        vec![
            Section::new(".text".to_string(), 0x1000, 4),
            Section::new("NoName".to_string(), 0x2000, 3),
            Section::new(".plt".to_string(), 0x4000, 2),
        ]
    );
    assert_eq!(memory.literal.len(), 3);
    assert_eq!(
        *memory.literal.entry(0),
        (
            Interval::new(Address(0x1000), Address(0x1004)),
            LiteralState::from_bytes(Address(0x1000), vec![0xa2, 0xa3, 0xa4, 0xa5])
        )
    );
    assert_eq!(memory.literal.entry(1).1.kind, LiteralKind::Data(vec![0, 0, 0]));
    assert_eq!(memory.symbols.resolve(Address(0x4000)).unwrap().name, "fact(int)");
    assert_eq!(requests(&signals), &vec![SignalKind::DefineFunctionStart(Address(0x1004))]);
}

#[test]
fn elf_without_entry_asks_for_nothing() {
    let image = ElfImage { entry: 0, sections: Vec::new(), plt_symbols: Vec::new() };
    let mut memory = Memory::new();
    let mut signals = TabSignals::new();
    assert_eq!(load_elf_image(&image, &[], &mut memory, &mut signals), Ok(()));
    assert!(requests(&signals).is_empty());
}

#[test]
fn overlapping_sections_stop_the_loading() {
    let image = ElfImage {
        entry: 0x1000,
        sections: vec![
            section(".a", 1, 0x1000, 4, Some((0, 4))),
            section(".b", 1, 0x1002, 4, Some((0, 4))),
            section(".c", 1, 0x2000, 4, Some((0, 4))),
        ],
        plt_symbols: Vec::new(),
    };
    let mut memory = Memory::new();
    let mut signals = TabSignals::new();
    let r = load_elf_image(&image, &[0, 1, 2, 3], &mut memory, &mut signals);
    match r {
        Err(LoaderError::Overlap(e)) => {
            assert_eq!(e.existing, Interval::new(Address(0x1000), Address(0x1004)))
        }
        other => panic!("expected an overlap, got {:?}", other),
    }
    assert_eq!(memory.literal.len(), 1);
    assert_eq!(memory.navigation.sections.len(), 1);
    assert!(requests(&signals).is_empty());
}

#[test]
fn pe_image_is_loaded_above_the_image_base() {
    let image = PeImage {
        image_base: 0x400000,
        entry: 0x1010,
        sections: vec![
            PeSection {
                name: Some(".text".to_string()),
                virtual_address: 0x1000,
                virtual_size: 0x20,
                pointer_to_raw_data: 4,
                data: Some(vec![7; 0x20]),
            },
            PeSection {
                name: None,
                virtual_address: 0x2000,
                virtual_size: 2,
                pointer_to_raw_data: 6,
                data: Some(vec![8, 9]),
            },
        ],
    };
    let bytes = [0x4du8, 0x5a, 0, 0, 1, 2, 3, 4];
    let mut memory = Memory::new();
    let mut signals = TabSignals::new();
    assert_eq!(load_pe_image(&image, &bytes, &mut memory, &mut signals), Ok(()));
    assert_eq!(
        memory.navigation.sections,
        vec![
            Section::new("Headers".to_string(), 0x400000, 4),
            Section::new(".text".to_string(), 0x401000, 0x20),
            Section::new("NoName".to_string(), 0x402000, 2),
        ]
    );
    assert_eq!(memory.literal.len(), 3);
    assert_eq!(memory.literal.entry(0).1.kind, LiteralKind::Data(vec![0x4d, 0x5a, 0, 0]));
    assert_eq!(memory.literal.entry(0).1.addr, Address(0x400000));
    assert_eq!(memory.literal.entry(1).1.addr, Address(0x401000));
    assert_eq!(memory.literal.entry(2).1.kind, LiteralKind::Data(vec![8, 9]));
    assert_eq!(requests(&signals), &vec![SignalKind::DefineFunctionStart(Address(0x401010))]);
}

#[test]
fn pe_section_outside_the_file_is_refused() {
    let image = PeImage {
        image_base: 0x400000,
        entry: 0,
        sections: vec![PeSection {
            name: Some(".text".to_string()),
            virtual_address: 0x1000,
            virtual_size: 4,
            pointer_to_raw_data: 0x200,
            data: None,
        }],
    };
    let mut memory = Memory::new();
    let mut signals = TabSignals::new();
    assert_eq!(
        load_pe_image(&image, &[0; 8], &mut memory, &mut signals),
        Err(LoaderError::MalformedFile("Section offsets are outside of file content size.".to_string()))
    );
    assert!(requests(&signals).is_empty());
    assert_eq!(memory.literal.len(), 0);
}

#[test]
fn real_elf_bytes_are_read_and_loaded() {
    let bytes = small_elf(62);
    let mut memory = Memory::new();
    let mut signals = TabSignals::new();
    assert_eq!(load(&bytes, &mut memory, &mut signals), Ok("x86:LE:64:default".to_string()));
    assert_eq!(memory.navigation.sections, vec![Section::new(".text".to_string(), 0x401000, 8)]);
    assert_eq!(memory.literal.len(), 1);
    assert_eq!(
        memory.literal.entry(0).1.kind,
        LiteralKind::Data(vec![0x55, 0x48, 0x89, 0xe5, 0x31, 0xc0, 0x5d, 0xc3])
    );
    assert_eq!(requests(&signals), &vec![SignalKind::DefineFunctionStart(Address(0x401000))]);
}

#[test]
fn elf_for_another_machine_is_refused_before_anything_is_loaded() {
    let bytes = small_elf(183);
    let mut memory = Memory::new();
    let mut signals = TabSignals::new();
    assert_eq!(
        load(&bytes, &mut memory, &mut signals),
        Err(LoaderError::MalformedFile(
            "Unsupported architecture: e_machine = 183. Only x86 (EM_386) and x86-64 (EM_X86_64) are currently supported."
                .to_string()
        ))
    );
    assert_eq!(memory.literal.len(), 0);
    assert!(memory.navigation.sections.is_empty());
    assert!(requests(&signals).is_empty());
}

#[test]
fn real_pe_bytes_are_read_and_loaded() {
    let bytes = small_pe(0x8664);
    let mut memory = Memory::new();
    let mut signals = TabSignals::new();
    assert_eq!(load(&bytes, &mut memory, &mut signals), Ok("x86:LE:64:default".to_string()));
    assert_eq!(
        memory.navigation.sections,
        vec![
            Section::new("Headers".to_string(), 0x140000000, 0x200),
            Section::new(".text".to_string(), 0x140001000, 16),
        ]
    );
    assert_eq!(memory.literal.len(), 2);
    assert_eq!(memory.literal.entry(0).1.kind.size(), 0x200);
    assert_eq!(
        memory.literal.entry(1).1.kind,
        LiteralKind::Data((0..16u8).map(|i| 0xc0 + i).collect())
    );
    assert_eq!(requests(&signals), &vec![SignalKind::DefineFunctionStart(Address(0x140001000))]);
}

#[test]
fn bytes_that_are_no_file_are_malformed() {
    let mut memory = Memory::new();
    let mut signals = TabSignals::new();
    match load(&[1, 2, 3], &mut memory, &mut signals) {
        Err(LoaderError::MalformedFile(text)) => assert!(!text.is_empty()),
        other => panic!("expected a malformed file, got {:?}", other),
    }
    let mut truncated = small_elf(62);
    truncated.truncate(80);
    assert!(matches!(load(&truncated, &mut memory, &mut signals), Err(LoaderError::MalformedFile(_))));
    assert_eq!(memory.literal.len(), 0);
    assert!(requests(&signals).is_empty());
}

#[test]
fn formats_that_are_not_analysed_are_refused() {
    // a Unix archive
    let mut bytes = b"!<arch>\n".to_vec();
    bytes.extend_from_slice(&[b' '; 16]);
    let mut memory = Memory::new();
    let mut signals = TabSignals::new();
    assert!(matches!(load(&bytes, &mut memory, &mut signals), Err(LoaderError::MalformedFile(_))));
    // sixteen bytes of no known magic
    assert_eq!(
        load(&[0x11; 16], &mut memory, &mut signals),
        Err(LoaderError::MalformedFile(
            "Unsupported binary format. Only ELF and PE formats are currently supported.".to_string()
        ))
    );
}

#[test]
fn loader_error_has_a_message() {
    assert_eq!(LoaderError::MalformedFile("x".to_string()).message(), "x");
}
