use dxf::code_pair::{as_bool, as_i16, flag_is_set, set_flag, expected_kind, CodePair, CodePairValue, DxfError, ValueKind};
use dxf::drawing::{kind_admits, Drawing};
use dxf::geometry_settings::SectionGeometrySettings;
use dxf::handle::{as_handle, parse_handle};
use dxf::pair_stream::PairStream;
use dxf::section::{read_objects_section, Object, ObjectKind};
use dxf::section_type_settings::SectionTypeSettings;
use dxf::tokenizer::{next_pair, read_pairs, PairStep};
use dxf::schema::{max_version_or_latest, split_type_strings};
use dxf::version::{is_version_in_range, AcadVersion};
use dxf::writer::write_pairs;

fn str_pair(code: u16, s: &str) -> CodePair {
    CodePair { code, value: CodePairValue::Str(String::from(s)) }
}

fn kinds() -> Vec<ObjectKind> {
    vec![
        ObjectKind { object_type: String::from("DICTIONARYVAR"), min_version: AcadVersion::R13, max_version: AcadVersion::R2013 },
        ObjectKind { object_type: String::from("IMAGEDEF"), min_version: AcadVersion::R14, max_version: AcadVersion::R2013 },
        ObjectKind { object_type: String::from("LAYER_FILTER"), min_version: AcadVersion::R13, max_version: AcadVersion::R2004 },
        ObjectKind { object_type: String::from("IDBUFFER"), min_version: AcadVersion::R13, max_version: AcadVersion::R2013 },
    ]
}

#[test]
fn handle_text_is_upper_hex_without_leading_zeros() {
    assert_eq!("0", as_handle(0));
    assert_eq!("A1", as_handle(0xa1));
    assert_eq!("DEADBEEF", as_handle(0xDEAD_BEEF));
    assert_eq!("FFFFFFFFFFFFFFFF", as_handle(u64::MAX));
}

#[test]
fn handle_parse_accepts_either_case() {
    assert_eq!(Some(0xDEAD_BEEF), parse_handle("deadbeef"));
    assert_eq!(Some(0xDEAD_BEEF), parse_handle("DEADBEEF"));
    assert_eq!(Some(u64::MAX), parse_handle("FFFFFFFFFFFFFFFF"));
    assert_eq!(None, parse_handle(""));
    assert_eq!(None, parse_handle("10000000000000000"));
    assert_eq!(None, parse_handle("12G"));
    assert_eq!(None, parse_handle(" 1"));
}

#[test]
fn handle_round_trip_on_samples() {
    for h in [0u64, 1, 15, 16, 255, 0xABCDEF, 0x8000_0000_0000_0000, u64::MAX - 1, u64::MAX] {
        assert_eq!(Some(h), parse_handle(as_handle(h).as_str()));
    }
}

#[test]
fn code_kinds_follow_the_ranges() {
    assert_eq!(ValueKind::Str, expected_kind(0));
    assert_eq!(ValueKind::Double, expected_kind(10));
    assert_eq!(ValueKind::Short, expected_kind(70));
    assert_eq!(ValueKind::Integer, expected_kind(90));
    assert_eq!(ValueKind::Str, expected_kind(100));
    assert_eq!(ValueKind::Long, expected_kind(160));
    assert_eq!(ValueKind::Boolean, expected_kind(290));
    assert_eq!(ValueKind::Binary, expected_kind(310));
    assert_eq!(ValueKind::Handle, expected_kind(330));
    assert_eq!(ValueKind::Str, expected_kind(1000));
    assert_eq!(ValueKind::Binary, expected_kind(1004));
    assert_eq!(ValueKind::Handle, expected_kind(1005));
    assert_eq!(ValueKind::Double, expected_kind(1040));
    assert_eq!(ValueKind::Short, expected_kind(1070));
    assert_eq!(ValueKind::Integer, expected_kind(1071));
}

#[test]
fn flags_as_booleans() {
    assert!(as_bool(3));
    assert!(!as_bool(0));
    assert_eq!(1, as_i16(true));
    assert_eq!(0, as_i16(false));
}

#[test]
fn versions_are_ordered() {
    assert!(AcadVersion::R2000.at_least(AcadVersion::R14));
    assert!(!AcadVersion::R12.at_least(AcadVersion::R13));
    assert!(is_version_in_range(AcadVersion::R2004, AcadVersion::R13, AcadVersion::R2004));
    assert!(!is_version_in_range(AcadVersion::R2007, AcadVersion::R13, AcadVersion::R2004));
}

#[test]
fn tokenizer_reads_typed_values() {
    let text = "  0\r\nSECTION\r\n 70\r\n   -54\r\n 90\r\n 123456\r\n160\r\n-9000000000\r\n 10\r\n 1.5e3 \r\n290\r\n3\r\n310\r\ndeadbeef\r\n330\r\n a1 \r\n  5\r\n a1 \r\n";
    let pairs = read_pairs(text.as_bytes()).unwrap();
    assert_eq!(vec![
        str_pair(0, "SECTION"),
        CodePair::new_i16(70, -54),
        CodePair::new_i32(90, 123456),
        CodePair { code: 160, value: CodePairValue::Long(-9_000_000_000) },
        CodePair { code: 10, value: CodePairValue::Double(String::from("1.5e3")) },
        CodePair { code: 290, value: CodePairValue::Boolean(3) },
        CodePair { code: 310, value: CodePairValue::Binary(vec![0xde, 0xad, 0xbe, 0xef]) },
        CodePair::new_handle(330, 0xa1),
        str_pair(5, " a1 "),
    ], pairs);
}

#[test]
fn tokenizer_takes_mixed_line_endings() {
    let pairs = read_pairs("0\nSECTION\r2\r\nOBJECTS\n0\rEOF".as_bytes()).unwrap();
    assert_eq!(vec![str_pair(0, "SECTION"), str_pair(2, "OBJECTS"), str_pair(0, "EOF")], pairs);
    // a line feed then a carriage return end one line and leave an empty one
    assert_eq!(Err(DxfError::MalformedInteger(21)), read_pairs("0\nSECTION\r2\r\nOBJECTS\n\r0\nEOF".as_bytes()));
}

#[test]
fn tokenizer_drops_comments() {
    let pairs = read_pairs("999\r\na comment\r\n0\r\nEOF\r\n".as_bytes()).unwrap();
    assert_eq!(vec![str_pair(0, "EOF")], pairs);
}

#[test]
fn tokenizer_on_empty_input() {
    assert_eq!(Ok(vec![]), read_pairs(b""));
    match next_pair(b"", 0) {
        PairStep::End => (),
        _ => panic!("expected the end"),
    }
}

#[test]
fn tokenizer_errors() {
    assert_eq!(Err(DxfError::MalformedInteger(0)), read_pairs(b"abc\r\nx"));
    assert_eq!(Err(DxfError::MalformedInteger(0)), read_pairs(b"70000\r\nx"));
    assert_eq!(Err(DxfError::MalformedInteger(4)), read_pairs(b"70\r\nxyz"));
    assert_eq!(Err(DxfError::MalformedInteger(4)), read_pairs(b"70\r\n40000"));
    assert_eq!(Err(DxfError::MalformedFloat(4)), read_pairs(b"10\r\n1.2.3"));
    assert_eq!(Err(DxfError::MalformedHandle(5)), read_pairs(b"330\r\nXYZ"));
    assert_eq!(Err(DxfError::MalformedBinary(5)), read_pairs(b"310\r\nABC"));
    assert_eq!(Err(DxfError::UnexpectedEof(1)), read_pairs(b"0"));
    assert_eq!(Err(DxfError::UnexpectedEof(3)), read_pairs(b"0\r\n"));
    let mut binary = b"AutoCAD Binary DXF\r\n\x1a\0".to_vec();
    binary.extend_from_slice(&[0, 0]);
    assert_eq!(Err(DxfError::UnexpectedByte(22)), read_pairs(&binary));
}

#[test]
fn tokenizer_step_moves_forward() {
    let text = b"  1\r\nabc\r\n  2\r\ndef";
    match next_pair(text, 0) {
        PairStep::Pair(p, n) => {
            assert_eq!(str_pair(1, "abc"), p);
            assert_eq!(10, n);
            match next_pair(text, n) {
                PairStep::Pair(q, m) => {
                    assert_eq!(str_pair(2, "def"), q);
                    assert_eq!(text.len(), m);
                },
                _ => panic!("expected a pair"),
            }
        },
        _ => panic!("expected a pair"),
    }
}

#[test]
fn writer_formats_each_kind() {
    let pairs = vec![
        CodePair::new_i16(70, 3),
        CodePair::new_i16(71, -54),
        CodePair::new_i32(90, 0),
        CodePair { code: 160, value: CodePairValue::Long(-12) },
        CodePair { code: 290, value: CodePairValue::Boolean(1) },
        CodePair { code: 310, value: CodePairValue::Binary(vec![0x0f, 0xa0]) },
        CodePair::new_handle(5, 0xa1),
        CodePair { code: 1040, value: CodePairValue::Double(String::from("1.1")) },
        str_pair(1000, "text"),
    ];
    assert_eq!(
        " 70\r\n     3\r\n 71\r\n   -54\r\n 90\r\n        0\r\n160\r\n-12\r\n290\r\n     1\r\n310\r\n0FA0\r\n  5\r\nA1\r\n1040\r\n1.1\r\n1000\r\ntext\r\n",
        write_pairs(&pairs)
    );
}

#[test]
fn writer_output_reads_back() {
    let pairs = vec![
        CodePair::new_i16(70, -32768),
        CodePair::new_i32(90, i32::MAX),
        CodePair { code: 160, value: CodePairValue::Long(i64::MIN) },
        CodePair::new_handle(330, u64::MAX),
        CodePair { code: 310, value: CodePairValue::Binary(vec![0, 1, 254, 255]) },
        str_pair(1, "some string"),
    ];
    assert_eq!(Ok(pairs.clone()), read_pairs(write_pairs(&pairs).as_bytes()));
}

fn sample_settings() -> SectionTypeSettings {
    let mut g = SectionGeometrySettings::default();
    g.section_type = 2;
    g.geometry_count = 5;
    g.bit_flags = 7;
    g.color = 1;
    g.layer_name = String::from("layer");
    g.line_type_name = String::from("dashed");
    g.line_type_scale = String::from("2.5");
    g.plot_style_name = String::from("style");
    g.line_weight = 13;
    g.face_transparency = 40;
    g.edge_transparency = 50;
    g.hatch_pattern_type = 1;
    g.hatch_pattern_name = String::from("ANSI31");
    g.hatch_angle = String::from("45");
    g.hatch_scale = String::from("1.5");
    g.hatch_spacing = String::from("0.25");
    let mut h = SectionGeometrySettings::default();
    h.layer_name = String::from("other");
    SectionTypeSettings {
        section_type: 1,
        is_generation_option: true,
        source_object_handles: vec![0xA1, 0xB2],
        destination_object_handle: 0xC3,
        destination_file_name: String::from("out.dwg"),
        geometry_settings: vec![g, h],
    }
}

#[test]
fn section_type_settings_round_trip() {
    let ss = sample_settings();
    let mut pairs = vec![];
    ss.write(&mut pairs);
    assert_eq!(4 + 2 + 4 + 17 * 2 + 1, pairs.len());
    assert_eq!(str_pair(1, "SectionTypeSettings"), pairs[0]);
    assert_eq!(CodePair::new_i32(91, 1), pairs[2]);
    assert_eq!(CodePair::new_i32(92, 2), pairs[3]);
    assert_eq!(CodePair::new_handle(330, 0xA1), pairs[4]);
    assert_eq!(str_pair(3, "SectionTypeSettingsEnd"), pairs[pairs.len() - 1]);
    pairs.push(str_pair(0, "ENDSEC"));
    let mut iter = PairStream::from_pairs(pairs);
    let back = SectionTypeSettings::read(&mut iter).unwrap().unwrap();
    assert_eq!(ss, back);
    // the pair after the settings is the next one taken
    assert_eq!(Some(str_pair(0, "ENDSEC")), iter.next_pair());
    assert_eq!(None, iter.next_pair());
}

#[test]
fn section_type_settings_stop_before_code_zero() {
    let mut iter = PairStream::from_pairs(vec![str_pair(0, "ENDSEC")]);
    assert_eq!(Ok(None), SectionTypeSettings::read(&mut iter));
    assert_eq!(Some(str_pair(0, "ENDSEC")), iter.next_pair());
    let mut empty = PairStream::from_pairs(vec![]);
    assert_eq!(Ok(None), SectionTypeSettings::read(&mut empty));
}

#[test]
fn section_type_settings_leave_unknown_code() {
    let mut iter = PairStream::from_pairs(vec![
        CodePair::new_i32(90, 4),
        CodePair::new_handle(331, 0x10),
        str_pair(7, "not ours"),
        CodePair::new_i32(90, 9),
    ]);
    let ss = SectionTypeSettings::read(&mut iter).unwrap().unwrap();
    assert_eq!(4, ss.section_type);
    assert_eq!(0x10, ss.destination_object_handle);
    assert_eq!(Some(str_pair(7, "not ours")), iter.next_pair());
    assert_eq!(Some(CodePair::new_i32(90, 9)), iter.next_pair());
}

#[test]
fn section_type_settings_wrong_value_kind() {
    let mut iter = PairStream::from_pairs(vec![str_pair(90, "four")]);
    assert_eq!(Err(DxfError::WrongValueType(90)), SectionTypeSettings::read(&mut iter));
}

#[test]
fn geometry_settings_read_one_entry() {
    let mut pairs = vec![];
    let mut g = SectionGeometrySettings::default();
    g.layer_name = String::from("walls");
    g.color = 5;
    g.write(&mut pairs);
    assert_eq!(17, pairs.len());
    pairs.push(str_pair(3, "SectionTypeSettingsEnd"));
    let mut iter = PairStream::from_pairs(pairs);
    assert_eq!(Ok(Some(g)), SectionGeometrySettings::read(&mut iter));
    // the next entry does not start: the end marker of the enclosing settings stays
    assert_eq!(Ok(None), SectionGeometrySettings::read(&mut iter));
    assert_eq!(Some(str_pair(3, "SectionTypeSettingsEnd")), iter.next_pair());
}

#[test]
fn geometry_settings_defaults() {
    let g = SectionGeometrySettings::default();
    assert_eq!("1", g.line_type_scale);
    assert_eq!("1", g.hatch_scale);
    assert_eq!("0", g.hatch_angle);
    assert_eq!("", g.layer_name);
    assert_eq!(SectionTypeSettings::default().geometry_settings.len(), 0);
}

#[test]
fn pair_stream_put_back() {
    let mut iter = PairStream::from_pairs(vec![str_pair(1, "a"), str_pair(2, "b")]);
    let first = iter.next_pair().unwrap();
    iter.put_back(first);
    assert_eq!(Some(str_pair(1, "a")), iter.next_pair());
    assert_eq!(Some(str_pair(2, "b")), iter.next_pair());
    assert_eq!(None, iter.next_pair());
}

#[test]
fn unknown_record_keeps_known_ones() {
    let with = Drawing::read(
        "0\r\nSECTION\r\n2\r\nOBJECTS\r\n0\r\nDICTIONARYVAR\r\n1\r\nvalue\r\n0\r\nUNSUPPORTED_OBJECT\r\n1\r\nfoo\r\n0\r\nIMAGEDEF\r\n1\r\npath\r\n10\r\n11\r\n20\r\n22\r\n0\r\nENDSEC\r\n0\r\nEOF".as_bytes(),
        &kinds(),
        AcadVersion::R2013,
    ).unwrap();
    let without = Drawing::read(
        "0\r\nSECTION\r\n2\r\nOBJECTS\r\n0\r\nDICTIONARYVAR\r\n1\r\nvalue\r\n0\r\nIMAGEDEF\r\n1\r\npath\r\n10\r\n11\r\n20\r\n22\r\n0\r\nENDSEC\r\n0\r\nEOF".as_bytes(),
        &kinds(),
        AcadVersion::R2013,
    ).unwrap();
    assert_eq!(2, with.objects.len());
    assert_eq!(without, with);
    assert_eq!(vec![str_pair(1, "value")], with.objects[0].pairs);
    assert_eq!(vec![
        str_pair(1, "path"),
        CodePair { code: 10, value: CodePairValue::Double(String::from("11")) },
        CodePair { code: 20, value: CodePairValue::Double(String::from("22")) },
    ], with.objects[1].pairs);
}

#[test]
fn objects_section_stops_after_endsec() {
    let mut iter = PairStream::from_pairs(vec![
        str_pair(0, "IDBUFFER"),
        CodePair::new_handle(5, 0x2A),
        str_pair(0, "ENDSEC"),
        str_pair(0, "EOF"),
    ]);
    let objects = read_objects_section(&mut iter, &kinds()).unwrap();
    assert_eq!(1, objects.len());
    assert_eq!(0x2A, objects[0].handle);
    assert_eq!(Some(str_pair(0, "EOF")), iter.next_pair());
}

#[test]
fn objects_section_wrong_handle_kind() {
    let mut iter = PairStream::from_pairs(vec![str_pair(0, "IDBUFFER"), str_pair(5, "nothex")]);
    assert_eq!(Err(DxfError::WrongValueType(5)), read_objects_section(&mut iter, &kinds()));
    let mut owner = PairStream::from_pairs(vec![str_pair(0, "IDBUFFER"), str_pair(330, "A1")]);
    assert_eq!(Err(DxfError::WrongValueType(330)), read_objects_section(&mut owner, &kinds()));
    let mut good = PairStream::from_pairs(vec![str_pair(0, "IDBUFFER"), str_pair(5, "A1")]);
    assert_eq!(0xA1, read_objects_section(&mut good, &kinds()).unwrap()[0].handle);
}

#[test]
fn drawing_read_reports_tokenizer_error() {
    assert_eq!(
        Err(DxfError::MalformedHandle(29)),
        Drawing::read("0\r\nSECTION\r\n2\r\nOBJECTS\r\n330\r\nnothex\r\n".as_bytes(), &kinds(), AcadVersion::R2013)
    );
}

#[test]
fn gated_record_is_not_written() {
    let drawing = Drawing {
        version: AcadVersion::R2007,
        objects: vec![Object {
            object_type: String::from("LAYER_FILTER"),
            handle: 1,
            owner_handle: 0,
            pairs: vec![str_pair(8, "one")],
        }],
    };
    assert!(!kind_admits(&kinds(), &String::from("LAYER_FILTER"), AcadVersion::R2007));
    assert_eq!(
        "  0\r\nSECTION\r\n  2\r\nHEADER\r\n  9\r\n$ACADVER\r\n  1\r\nAC1021\r\n  0\r\nENDSEC\r\n  0\r\nSECTION\r\n  2\r\nOBJECTS\r\n  0\r\nENDSEC\r\n  0\r\nEOF\r\n",
        drawing.to_text(&kinds())
    );
    let old = Drawing { version: AcadVersion::R12, objects: vec![] };
    assert_eq!(
        "  0\r\nSECTION\r\n  2\r\nHEADER\r\n  9\r\n$ACADVER\r\n  1\r\nAC1009\r\n  0\r\nENDSEC\r\n  0\r\nEOF\r\n",
        old.to_text(&kinds())
    );
}

#[test]
fn record_with_extension_and_x_data_round_trips() {
    let text = vec![
        "  0", "SECTION",
        "  2", "HEADER",
        "  9", "$ACADVER",
        "  1", "AC1015",
        "  0", "ENDSEC",
        "  0", "SECTION",
        "  2", "OBJECTS",
        "  0", "IDBUFFER",
        "  5", "A",
        "330", "0",
        "102", "{IXMILIA",
        "  1", "some string",
        "102", "}",
        "1001", "IXMILIA",
        "1040", "1.1",
        "  0", "ENDSEC",
        "  0", "EOF",
        "",
    ].join("\r\n");
    let drawing = Drawing::read(text.as_bytes(), &kinds(), AcadVersion::R12).unwrap();
    assert_eq!(AcadVersion::R2000, drawing.version);
    assert_eq!(1, drawing.objects.len());
    assert_eq!(5, drawing.objects[0].pairs.len());
    assert_eq!(text, drawing.to_text(&kinds()));
}

#[test]
fn header_names_the_release() {
    let text = "0\r\nSECTION\r\n2\r\nHEADER\r\n9\r\n$ACADVER\r\n1\r\nAC1018\r\n0\r\nENDSEC\r\n0\r\nEOF";
    assert_eq!(AcadVersion::R2004, Drawing::read(text.as_bytes(), &kinds(), AcadVersion::R12).unwrap().version);
    let unknown = "0\r\nSECTION\r\n2\r\nHEADER\r\n9\r\n$ACADVER\r\n1\r\nAC9999\r\n0\r\nENDSEC\r\n0\r\nEOF";
    assert_eq!(AcadVersion::R14, Drawing::read(unknown.as_bytes(), &kinds(), AcadVersion::R14).unwrap().version);
}

#[test]
fn schema_lists_and_versions() {
    assert_eq!(vec!["DIMENSION"], split_type_strings("DIMENSION"));
    assert_eq!(vec!["ARC", "CIRCLE", ""], split_type_strings("ARC,CIRCLE,"));
    assert_eq!(vec![""], split_type_strings(""));
    assert_eq!(AcadVersion::R2004, max_version_or_latest("R2004"));
    assert_eq!(AcadVersion::R2013, max_version_or_latest(""));
    assert_eq!(AcadVersion::R2013, max_version_or_latest("R99"));
}

#[test]
fn nested_extension_groups_stay_inside() {
    let obj = Object {
        object_type: String::from("IDBUFFER"),
        handle: 0,
        owner_handle: 0,
        pairs: vec![
            str_pair(102, "{OUTER"),
            str_pair(1, "a"),
            str_pair(102, "{INNER"),
            str_pair(1, "b"),
            str_pair(102, "}"),
            str_pair(102, "}"),
            str_pair(8, "not in a group"),
            str_pair(102, "{SECOND"),
            str_pair(1, "c"),
            str_pair(102, "}"),
            str_pair(102, "{OPEN"),
            str_pair(1, "d"),
        ],
    };
    let groups = obj.extension_groups();
    assert_eq!(3, groups.len());
    assert_eq!("OUTER", groups[0].application_name);
    assert_eq!(vec![
        str_pair(1, "a"),
        str_pair(102, "{INNER"),
        str_pair(1, "b"),
        str_pair(102, "}"),
    ], groups[0].items);
    assert_eq!("SECOND", groups[1].application_name);
    assert_eq!(vec![str_pair(1, "c")], groups[1].items);
    assert_eq!("OPEN", groups[2].application_name);
    assert_eq!(vec![str_pair(1, "d")], groups[2].items);
}

#[test]
fn x_data_by_application() {
    let obj = Object {
        object_type: String::from("IDBUFFER"),
        handle: 0,
        owner_handle: 0,
        pairs: vec![
            str_pair(1000, "before any application"),
            str_pair(1001, "FIRST"),
            CodePair { code: 1040, value: CodePairValue::Double(String::from("1.1")) },
            CodePair::new_i16(1070, 7),
            str_pair(1001, "SECOND"),
            CodePair::new_i32(1071, 9),
        ],
    };
    let x = obj.x_data();
    assert_eq!(2, x.len());
    assert_eq!("FIRST", x[0].application_name);
    assert_eq!(vec![
        CodePair { code: 1040, value: CodePairValue::Double(String::from("1.1")) },
        CodePair::new_i16(1070, 7),
    ], x[0].items);
    assert_eq!("SECOND", x[1].application_name);
    assert_eq!(vec![CodePair::new_i32(1071, 9)], x[1].items);
}

fn with_handle(h: u64) -> Object {
    Object { object_type: String::from("IDBUFFER"), handle: h, owner_handle: 0, pairs: vec![] }
}

#[test]
fn missing_handles_are_given_out() {
    let mut drawing = Drawing { version: AcadVersion::R2000, objects: vec![with_handle(0), with_handle(5), with_handle(0)] };
    assert!(drawing.assign_handles());
    let handles: Vec<u64> = drawing.objects.iter().map(|o| o.handle).collect();
    assert_eq!(vec![6, 5, 7], handles);
    let mut full = Drawing { version: AcadVersion::R2000, objects: vec![with_handle(u64::MAX), with_handle(0)] };
    assert!(!full.assign_handles());
    assert_eq!(0, full.objects[1].handle);
}

#[test]
fn flags_set_and_clear() {
    let mut flags: i16 = 0b1010;
    set_flag(&mut flags, 0b0001, true);
    assert_eq!(0b1011, flags);
    set_flag(&mut flags, 0b1000, false);
    assert_eq!(0b0011, flags);
    assert!(flag_is_set(flags, 0b0011));
    assert!(!flag_is_set(flags, 0b0100));
}
