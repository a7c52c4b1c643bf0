use mapfile::{
    export_entry, rva_from_raw, sanitize_name, Address, Class, Field, LibObject, MapFile,
    ParseError, Stage,
};

fn map_text(lines: &[&str]) -> String {
    lines.join("\r\n")
}

fn example_lines() -> Vec<&'static str> {
    vec![
        "foo.exe",
        "",
        "Timestamp is 5AAA0000 (Thu Jan 01 00:00:00 2018)",
        "",
        "Preferred load address is 10000000",
        "",
        " Start         Length     Name                   Class",
        " 0001:00001000 00000100H .text                   CODE",
        "",
        "  Address         Publics by Value              Rva+Base       Lib:Object",
        "",
        " 0001:00001000       _main                      10001000 f   libfoo:main.obj",
        "",
        " entry point at        0001:00001000",
        "",
        " Static symbols",
        "",
        " 0001:00002000       _helper                    10002000     libfoo:helper.obj",
        "",
    ]
}

fn with_line(index: usize, text: &'static str) -> String {
    let mut lines = example_lines();
    lines[index] = text;
    map_text(&lines)
}

#[test]
fn parse() {
    let map = MapFile::load(&map_text(&example_lines())).unwrap();
    assert_eq!(map.file_name, "foo.exe");
    assert_eq!(map.timestamp, "Thu Jan 01 00:00:00 201");
    assert_eq!(map.preferred_load_addr, 0x1000_0000);
    assert_eq!(map.entrypoint, Address { seg: 1, addr: 0x1000 });

    assert_eq!(map.sections.len(), 1);
    let s = &map.sections[0];
    assert_eq!(s.name, ".text");
    assert_eq!(s.class, Class::Code);
    assert_eq!(s.addr, Address { seg: 1, addr: 0x1000 });
    assert_eq!(s.len, 0x100);

    assert_eq!(map.functions.len(), 1);
    let f = &map.functions[0];
    assert_eq!(f.symbol, "_main");
    assert_eq!(f.addr, Address { seg: 1, addr: 0x1000 });
    assert_eq!(f.rva.0, 0x1000);
    assert_eq!(f.flags, vec!['f']);
    match &f.libobj {
        LibObject::LibObj(lib, obj) => {
            assert_eq!(lib.as_deref(), Some("libfoo"));
            assert_eq!(obj, "main.obj");
        }
        LibObject::Absolute => panic!("expected a library object"),
    }

    assert_eq!(map.static_symbols.len(), 1);
    let st = &map.static_symbols[0];
    assert_eq!(st.symbol, "_helper");
    assert_eq!(st.addr, Address { seg: 1, addr: 0x2000 });
    assert_eq!(st.rva.0, 0x2000);
    assert!(st.flags.is_empty());
    match &st.libobj {
        LibObject::LibObj(lib, obj) => {
            assert_eq!(lib.as_deref(), Some("libfoo"));
            assert_eq!(obj, "helper.obj");
        }
        LibObject::Absolute => panic!("expected a library object"),
    }
}

#[test]
fn export() {
    let map = MapFile::load(&map_text(&example_lines())).unwrap();
    assert!(map.can_export());
    assert_eq!(map.export(), "268439552 _main\n268443648 _helper\n");
}

#[test]
fn export_is_deterministic() {
    let map = MapFile::load(&map_text(&example_lines())).unwrap();
    assert_eq!(map.export(), map.export());
}

#[test]
fn export_demangles_names() {
    let text = with_line(
        11,
        " 0001:00001000       ?x@@3HA                    10001000 f   libfoo:main.obj",
    );
    let map = MapFile::load(&text).unwrap();
    assert_eq!(map.export(), "268439552 x\n268443648 _helper\n");
}

#[test]
fn export_entry_uses_demangled_name() {
    assert_eq!(export_entry(0x10, 0x100, "?x@@3HA", Some("x".to_string())), "272 x\n");
    assert_eq!(export_entry(0x10, 0x100, "?x@@3HA", None), "272 ?x@@3HA\n");
    assert_eq!(export_entry(0, 0, "a::b", None), "0 a__b\n");
    assert_eq!(
        export_entry(0, u64::MAX, "n", None),
        "18446744073709551615 n\n"
    );
}

#[test]
fn sanitize_replaces_other_characters() {
    assert_eq!(sanitize_name("a b::c<d>"), "a_b__c_d_");
    assert_eq!(sanitize_name("Az09_$?@xyz"), "Az09_$?@xyz");
    assert_eq!(sanitize_name(""), "");
    assert_eq!(sanitize_name("é-ü"), "___");
}

#[test]
fn sanitize_is_idempotent() {
    for s in ["a b::c<d>", "operator<<", "plain", "", "x y z"] {
        let once = sanitize_name(s);
        assert_eq!(sanitize_name(&once), once);
    }
}

#[test]
fn rva_conversion() {
    assert_eq!(rva_from_raw(0, 0x1000_0000), Some(0));
    assert_eq!(rva_from_raw(0x1000_1000, 0x1000_0000), Some(0x1000));
    assert_eq!(rva_from_raw(0x1000_0000, 0x1000_0000), Some(0));
    assert_eq!(rva_from_raw(0x0FFF_FFFF, 0x1000_0000), None);
}

#[test]
fn zero_rva_and_absolute_symbol() {
    let text = with_line(
        17,
        " 0002:00000000       ___safe_se_handler_count   00000000     <absolute>",
    );
    let map = MapFile::load(&text).unwrap();
    let st = &map.static_symbols[0];
    assert_eq!(st.rva.0, 0);
    assert_eq!(st.addr, Address { seg: 2, addr: 0 });
    assert!(matches!(st.libobj, LibObject::Absolute));
    assert_eq!(map.export(), "268439552 _main\n268435456 ___safe_se_handler_count\n");
}

#[test]
fn object_without_library_and_several_flags() {
    let text = with_line(
        11,
        " 0001:00001000       _main                      10001000 f i  main.obj",
    );
    let map = MapFile::load(&text).unwrap();
    let f = &map.functions[0];
    assert_eq!(f.flags, vec!['f', 'i']);
    match &f.libobj {
        LibObject::LibObj(lib, obj) => {
            assert!(lib.is_none());
            assert_eq!(obj, "main.obj");
        }
        LibObject::Absolute => panic!("expected an object"),
    }
}

#[test]
fn unrecognized_class_fails() {
    let text = with_line(7, " 0001:00001000 00000100H .text                   TEXT");
    assert_eq!(MapFile::load(&text).unwrap_err(), ParseError::UnrecognizedClass { line: 8 });
}

#[test]
fn data_class_is_read() {
    let text = with_line(7, " 0002:00000000 00000200H .data                   DATA");
    let map = MapFile::load(&text).unwrap();
    assert_eq!(map.sections[0].class, Class::Data);
    assert_eq!(map.sections[0].len, 0x200);
    assert_eq!(map.sections[0].addr, Address { seg: 2, addr: 0 });
}

#[test]
fn missing_timestamp_fails() {
    let text = with_line(2, "Timestamp is 5AAA0000");
    assert_eq!(MapFile::load(&text).unwrap_err(), ParseError::MissingTimestamp);
}

#[test]
fn missing_load_address_fails() {
    let text = with_line(4, "Preferred load address 10000000");
    assert_eq!(MapFile::load(&text).unwrap_err(), ParseError::MissingLoadAddress);
    let text = with_line(4, "Preferred load address is xyz");
    assert_eq!(MapFile::load(&text).unwrap_err(), ParseError::MissingLoadAddress);
}

#[test]
fn invalid_address_fails() {
    let text = with_line(7, " 0001:zz 00000100H .text CODE");
    assert_eq!(
        MapFile::load(&text).unwrap_err(),
        ParseError::InvalidNumber { stage: Stage::Sections, line: 8, field: Field::Address }
    );
    let text = with_line(7, " 70000:00001000 00000100H .text CODE");
    assert_eq!(
        MapFile::load(&text).unwrap_err(),
        ParseError::InvalidNumber { stage: Stage::Sections, line: 8, field: Field::Segment }
    );
}

#[test]
fn missing_section_field_fails() {
    let text = with_line(7, " 0001:00001000 00000100H");
    assert_eq!(
        MapFile::load(&text).unwrap_err(),
        ParseError::MissingField { stage: Stage::Sections, line: 8, field: Field::Name }
    );
}

#[test]
fn missing_libobj_fails() {
    let text = with_line(11, " 0001:00001000       _main                      10001000 f");
    assert_eq!(
        MapFile::load(&text).unwrap_err(),
        ParseError::MissingField { stage: Stage::Functions, line: 12, field: Field::LibObject }
    );
}

#[test]
fn rva_below_load_address_fails() {
    let text = with_line(11, " 0001:00001000       _main                      00001000 f   main.obj");
    assert_eq!(
        MapFile::load(&text).unwrap_err(),
        ParseError::RvaBelowLoadAddress { stage: Stage::Functions, line: 12 }
    );
}

#[test]
fn invalid_rva_fails() {
    let text = with_line(17, " 0001:00002000       _helper                    1000G000     helper.obj");
    assert_eq!(
        MapFile::load(&text).unwrap_err(),
        ParseError::InvalidNumber { stage: Stage::StaticSymbols, line: 18, field: Field::Rva }
    );
}

#[test]
fn missing_entry_point_fails() {
    let text = with_line(13, " entry is nowhere");
    assert_eq!(
        MapFile::load(&text).unwrap_err(),
        ParseError::NotFound { field: Field::EntryPoint }
    );
}

#[test]
fn line_feed_only_input_is_one_line() {
    let text = example_lines().join("\n");
    assert_eq!(
        MapFile::load(&text).unwrap_err(),
        ParseError::NotFound { field: Field::EntryPoint }
    );
}

#[test]
fn empty_input_fails() {
    assert_eq!(
        MapFile::load("").unwrap_err(),
        ParseError::NotFound { field: Field::EntryPoint }
    );
}

#[test]
fn counts_follow_data_lines() {
    let mut lines = example_lines();
    lines.insert(8, " 0002:00000000 00000200H .data                   DATA");
    lines.insert(9, " caption without digits");
    lines.insert(14, " 0001:00001010       _other                     10001010     libfoo:other.obj");
    lines.push(" 0002:00000010       _s2                        10000010     s2.obj");
    let map = MapFile::load(&map_text(&lines)).unwrap();
    assert_eq!(map.sections.len(), 2);
    assert_eq!(map.functions.len(), 2);
    assert_eq!(map.static_symbols.len(), 2);
    assert_eq!(map.functions[1].symbol, "_other");
    assert_eq!(map.static_symbols[1].symbol, "_s2");
    assert_eq!(
        map.export(),
        "268439552 _main\n268439568 _other\n268443648 _helper\n268435472 _s2\n"
    );
}

#[test]
fn file_name_is_trimmed() {
    let text = with_line(0, "  foo.exe \t");
    assert_eq!(MapFile::load(&text).unwrap().file_name, "foo.exe");
}

#[test]
fn guard_symbol_with_long_number_is_not_demangled() {
    let text = with_line(
        11,
        " 0001:00001000       ?$TSS12345678901@x@4HA     10001000 f   libfoo:main.obj",
    );
    let map = MapFile::load(&text).unwrap();
    assert_eq!(
        map.export(),
        "268439552 ?$TSS12345678901@x@4HA\n268443648 _helper\n"
    );
}

#[test]
fn string_escape_below_letters_is_not_demangled() {
    let text = with_line(
        11,
        " 0001:00001000       ??_C@_01A@?$!!@            10001000 f   libfoo:main.obj",
    );
    let map = MapFile::load(&text).unwrap();
    assert_eq!(map.export(), "268439552 ??_C@_01A@?$__@\n268443648 _helper\n");
}

#[test]
fn long_symbol_is_demangled() {
    let name = "a".repeat(300);
    let row = format!(" 0001:00001000 ?{}@@3HA 10001000 f libfoo:main.obj", name);
    let mut lines: Vec<String> = example_lines().iter().map(|l| l.to_string()).collect();
    lines[11] = row;
    let map = MapFile::load(&lines.join("\r\n")).unwrap();
    assert_eq!(map.export(), format!("268439552 {}\n268443648 _helper\n", name));
}

#[test]
fn overlong_symbol_is_not_demangled() {
    let long = format!("?{}@@3HA", "a".repeat(5000));
    let row = format!(" 0001:00001000 {} 10001000 f libfoo:main.obj", long);
    let mut lines: Vec<String> = example_lines().iter().map(|l| l.to_string()).collect();
    lines[11] = row;
    let map = MapFile::load(&lines.join("\r\n")).unwrap();
    assert_eq!(map.export(), format!("268439552 {}\n268443648 _helper\n", long));
}

#[test]
fn minimum_template_index_is_not_demangled() {
    let text = with_line(
        11,
        " 0001:00001000       ?x@@3?IAAAAAAA@            10001000 f   libfoo:main.obj",
    );
    let map = MapFile::load(&text).unwrap();
    assert_eq!(map.export(), "268439552 ?x@@3?IAAAAAAA@\n268443648 _helper\n");
}

#[test]
fn admissible_symbols() {
    let chars = |s: &str| s.chars().collect::<Vec<char>>();
    assert!(mapfile::export::demangle_admissible(&chars("?x@@3HA")));
    assert!(mapfile::export::demangle_admissible(&chars("??$vector@H@std@@QAE@XZ")));
    assert!(!mapfile::export::demangle_admissible(&chars("?$TSS1234567890@x@4HA")));
    assert!(mapfile::export::demangle_admissible(&chars("?$TSS123456789@x@4HA")));
    assert!(mapfile::export::demangle_admissible(&chars("?x1234567890@@3HA")));
    assert!(!mapfile::export::demangle_admissible(&chars("?a?$0A")));
    assert!(!mapfile::export::demangle_admissible(&chars("?x@@3?IAAAAAAA@")));
    assert!(mapfile::export::demangle_admissible(&chars(&"a".repeat(4096))));
    assert!(!mapfile::export::demangle_admissible(&chars(&"a".repeat(4097))));
}

#[test]
fn entry_point_token_with_other_digits() {
    let text = with_line(13, " entry point at        2:1A");
    let map = MapFile::load(&text).unwrap();
    assert_eq!(map.entrypoint, Address { seg: 2, addr: 0x1A });
}

#[test]
fn plus_signed_numbers_are_read() {
    let text = with_line(7, " +0001:+00001000 +00000100H .text CODE");
    let map = MapFile::load(&text).unwrap();
    assert_eq!(map.sections[0].addr, Address { seg: 1, addr: 0x1000 });
    assert_eq!(map.sections[0].len, 0x100);
    let text = with_line(4, "Preferred load address is +10000000");
    assert_eq!(MapFile::load(&text).unwrap().preferred_load_addr, 0x1000_0000);
}

#[test]
fn lone_plus_is_not_a_number() {
    let text = with_line(11, " 0001:00001000       _main                      + f   main.obj");
    assert_eq!(
        MapFile::load(&text).unwrap_err(),
        ParseError::InvalidNumber { stage: Stage::Functions, line: 12, field: Field::Rva }
    );
}
