use dxf::code_pair::{as_bool, flag_is_set, set_flag, CodePair, CodePairValue};
use dxf::drawing::Drawing;
use dxf::section::{Object, ObjectKind};
use dxf::version::AcadVersion;

fn kind(name: &str, min_version: AcadVersion, max_version: AcadVersion) -> ObjectKind {
    ObjectKind { object_type: String::from(name), min_version, max_version }
}

fn kinds() -> Vec<ObjectKind> {
    vec![
        kind("ACAD_PROXY_OBJECT", AcadVersion::R2000, AcadVersion::R2013),
        kind("DICTIONARY", AcadVersion::R13, AcadVersion::R2013),
        kind("DICTIONARYVAR", AcadVersion::R13, AcadVersion::R2013),
        kind("IDBUFFER", AcadVersion::R13, AcadVersion::R2013),
        kind("IMAGEDEF", AcadVersion::R14, AcadVersion::R2013),
        kind("LAYER_FILTER", AcadVersion::R13, AcadVersion::R2004),
        kind("LAYOUT", AcadVersion::R13, AcadVersion::R2000),
        kind("LIGHTLIST", AcadVersion::R2007, AcadVersion::R2007),
        kind("SUNSTUDY", AcadVersion::R2007, AcadVersion::R2013),
        kind("VBA_PROJECT", AcadVersion::R2000, AcadVersion::R2013),
    ]
}

fn parse_drawing(s: &str) -> Drawing {
    Drawing::read(s.as_bytes(), &kinds(), AcadVersion::R2013).unwrap()
}

fn from_section(section: &str, body: &str) -> Drawing {
    parse_drawing(vec!["0", "SECTION", "2", section, body, "0", "ENDSEC", "0", "EOF"].join("\r\n").as_str())
}

fn read_object(object_type: &str, body: String) -> Object {
    let drawing = from_section("OBJECTS", vec!["0", object_type, body.as_str()].join("\r\n").as_str());
    assert_eq!(1, drawing.objects.len());
    drawing.objects[0].clone()
}

fn new_object(object_type: &str, pairs: Vec<CodePair>) -> Object {
    Object { object_type: String::from(object_type), handle: 0, owner_handle: 0, pairs }
}

fn assert_contains(drawing: &Drawing, contents: String) {
    let actual = drawing.to_text(&kinds());
    assert!(actual.contains(contents.as_str()), "expected\n{}\nin\n{}", contents, actual);
}

fn str_pair(code: u16, s: &str) -> CodePair {
    CodePair { code, value: CodePairValue::Str(String::from(s)) }
}

fn real_value(o: &Object, code: u16) -> f64 {
    for p in &o.pairs {
        if p.code == code {
            if let CodePairValue::Double(t) = &p.value {
                return t.parse::<f64>().unwrap();
            }
        }
    }
    panic!("no real value of code {}", code)
}

fn str_values(o: &Object, code: u16) -> Vec<String> {
    let mut r = vec![];
    for p in &o.pairs {
        if p.code == code {
            if let CodePairValue::Str(t) = &p.value {
                r.push(t.clone());
            }
        }
    }
    r
}

#[test]
fn read_empty_objects_section() {
    let drawing = parse_drawing(vec!["0", "SECTION", "2", "OBJECTS", "0", "ENDSEC", "0", "EOF"].join("\r\n").as_str());
    assert_eq!(0, drawing.objects.len());
}

#[test]
fn read_unsupported_object() {
    let drawing = parse_drawing(vec![
        "0", "SECTION",
            "2", "OBJECTS",
                "0", "UNSUPPORTED_OBJECT",
                    "1", "unsupported string",
        "0", "ENDSEC",
        "0", "EOF"].join("\r\n").as_str());
    assert_eq!(0, drawing.objects.len());
}

#[test]
fn read_unsupported_object_between_supported_objects() {
    let drawing = parse_drawing(vec![
        "0", "SECTION",
            "2", "OBJECTS",
                "0", "DICTIONARYVAR",
                "0", "UNSUPPORTED_OBJECT",
                    "1", "unsupported string",
                "0", "IMAGEDEF",
        "0", "ENDSEC",
        "0", "EOF"].join("\r\n").as_str());
    assert_eq!(2, drawing.objects.len());
    match drawing.objects[0].object_type.as_str() {
        "DICTIONARYVAR" => (),
        _ => panic!("expected a dictionary variable"),
    }
    match drawing.objects[1].object_type.as_str() {
        "IMAGEDEF" => (),
        _ => panic!("expected an image definition"),
    }
}

#[test]
fn read_common_object_fields() {
    let obj = read_object("IMAGEDEF", vec!["5", "DEADBEEF"].join("\r\n"));
    assert_eq!(0xDEADBEEF, obj.handle);
}

#[test]
fn read_image_def() {
    let obj = read_object("IMAGEDEF", vec![
        "1", "path/to/file", // path
        "10", "11", // image_width
        "20", "22", // image_height
        ].join("\r\n"));
    match obj.object_type.as_str() {
        "IMAGEDEF" => {
            assert_eq!(11.0, real_value(&obj, 10));
            assert_eq!(22.0, real_value(&obj, 20));
        },
        _ => panic!("expected an image definition"),
    }
}

#[test]
fn write_common_object_fields() {
    let mut drawing = Drawing { version: AcadVersion::R14, objects: vec![] }; // IMAGEDEF is only supported on R14+
    drawing.objects.push(new_object("IMAGEDEF", vec![]));
    assert!(drawing.assign_handles());
    assert_contains(&drawing, vec![
        "  0", "IMAGEDEF",
        "  5", "1",
    ].join("\r\n"));
}

#[test]
fn write_specific_object_fields() {
    let mut drawing = Drawing { version: AcadVersion::R14, objects: vec![] }; // IMAGEDEF is only supported on R14+
    drawing.objects.push(new_object("IMAGEDEF", vec![
        str_pair(100, "AcDbRasterImageDef"),
        CodePair::new_i32(90, 0),
        str_pair(1, "path/to/file"),
    ]));
    assert_contains(&drawing, vec![
        "100", "AcDbRasterImageDef",
        " 90", "        0",
        "  1", "path/to/file",
    ].join("\r\n"));
}

#[test]
fn read_multiple_objects() {
    let drawing = from_section("OBJECTS", vec![
        "0", "DICTIONARYVAR",
            "1", "value", // value
        "0", "IMAGEDEF",
            "1", "path/to/file", // file_path
            "10", "11", // image_width
            ].join("\r\n").as_str());
    assert_eq!(2, drawing.objects.len());

    // verify dictionary value
    match drawing.objects[0].object_type.as_str() {
        "DICTIONARYVAR" => {
            assert_eq!(vec!["value"], str_values(&drawing.objects[0], 1));
        },
        _ => panic!("expected a dictionary variable"),
    }

    // verify image definition
    match drawing.objects[1].object_type.as_str() {
        "IMAGEDEF" => {
            assert_eq!(vec!["path/to/file"], str_values(&drawing.objects[1], 1));
            assert_eq!(11.0, real_value(&drawing.objects[1], 10));
        },
        _ => panic!("expected an image definition"),
    }
}

#[test]
fn read_field_with_multiples_specific() {
    let obj = read_object("LAYER_FILTER", vec!["8", "one", "8", "two", "8", "three"].join("\r\n"));
    match obj.object_type.as_str() {
        "LAYER_FILTER" => {
            assert_eq!(vec!["one", "two", "three"], str_values(&obj, 8));
        },
        _ => panic!("expected a layer filter"),
    }
}

#[test]
fn write_field_with_multiples_specific() {
    let mut drawing = Drawing { version: AcadVersion::R2004, objects: vec![] }; // LAYER_FILTER is only supported up to 2004
    drawing.objects.push(new_object("LAYER_FILTER", vec![
        str_pair(8, "one"),
        str_pair(8, "two"),
        str_pair(8, "three"),
    ]));
    assert_contains(&drawing, vec!["  8", "one", "  8", "two", "  8", "three"].join("\r\n"));
}

#[test]
fn read_object_with_post_parse() {
    let obj = read_object("VBA_PROJECT", vec![
        "310", "deadbeef", // data
        "310", "01234567",
    ].join("\r\n"));
    match obj.object_type.as_str() {
        "VBA_PROJECT" => {
            let data = obj.binary_data(310);
            assert_eq!(8, data.len());
            assert_eq!(vec![0xde, 0xad, 0xbe, 0xef, 0x01, 0x23, 0x45, 0x67], data);
        },
        _ => panic!("expected a VBA_PROJECT"),
    }
}

#[test]
fn write_object_with_write_order() {
    let mut drawing = Drawing { version: AcadVersion::R2004, objects: vec![] }; // LAYER_FILTER is only supported up to 2004
    drawing.objects.push(new_object("LAYER_FILTER", vec![
        str_pair(100, "AcDbFilter"),
        str_pair(100, "AcDbLayerFilter"),
        str_pair(8, "one"),
        str_pair(8, "two"),
        str_pair(8, "three"),
    ]));
    assert_contains(&drawing, vec![
        "100", "AcDbFilter",
        "100", "AcDbLayerFilter",
        "  8", "one",
        "  8", "two",
        "  8", "three",
    ].join("\r\n"));
}

#[test]
fn read_object_with_flags() {
    let obj = read_object("LAYOUT", vec!["100", "AcDbLayout", "70", "3"].join("\r\n"));
    match obj.object_type.as_str() {
        "LAYOUT" => {
            let flags = obj.pairs.iter().find_map(|p| match p.value {
                CodePairValue::Short(v) if p.code == 70 => Some(v),
                _ => None,
            }).unwrap();
            assert!(flag_is_set(flags, 1)); // is_ps_lt_scale
            assert!(flag_is_set(flags, 2)); // is_lim_check
        },
        _ => panic!("expected a LAYOUT"),
    }
}

#[test]
fn write_object_with_flags() {
    let mut drawing = Drawing { version: AcadVersion::R2000, objects: vec![] }; // LAYOUT is only supported up to R2000
    let mut layout_flags: i16 = 0;
    assert_eq!(0, layout_flags);
    set_flag(&mut layout_flags, 1, true); // is_ps_lt_scale
    set_flag(&mut layout_flags, 2, true); // is_lim_check
    let tab_order: i16 = -54;
    drawing.objects.push(new_object("LAYOUT", vec![
        CodePair::new_i16(70, layout_flags),
        CodePair::new_i16(71, tab_order),
    ]));
    assert_contains(&drawing, vec![
        " 70", "     3", // flags
        " 71", "   -54", // sentinel to make sure we're not reading a header value
    ].join("\r\n"));
}

#[test]
fn read_object_with_handles() {
    let obj = read_object("LIGHTLIST", vec![
        "5", "A1", // handle
        "330", "A2", // owner handle
    ].join("\r\n"));
    assert_eq!(0xa1, obj.handle);
    assert_eq!(0xa2, obj.owner_handle);
    match obj.object_type.as_str() {
        "LIGHTLIST" => (),
        _ => panic!("expected a light list"),
    }
}

#[test]
fn write_object_with_handles() {
    let mut drawing = Drawing { version: AcadVersion::R2007, objects: vec![] }; // LIGHTLIST only supported up to 2007
    drawing.objects.push(Object {
        object_type: String::from("LIGHTLIST"),
        handle: 0xa1,
        owner_handle: 0xa2,
        pairs: vec![],
    });
    assert_contains(&drawing, vec![
        "  0", "LIGHTLIST",
        "  5", "A1",
        "330", "A2",
    ].join("\r\n"));
}

#[test]
fn read_dictionary() {
    let dict = read_object("DICTIONARY", vec![
        "  3", "key1",
        "350", "AAAA",
        "  3", "key2",
        "350", "BBBB",
    ].join("\r\n"));
    assert_eq!(vec!["key1", "key2"], str_values(&dict, 3));
    let handles: Vec<u64> = dict.pairs.iter().filter_map(|p| match p.value {
        CodePairValue::Handle(h) if p.code == 350 => Some(h),
        _ => None,
    }).collect();
    assert_eq!(2, handles.len());
    assert_eq!(vec![0xAAAA, 0xBBBB], handles);
}

#[test]
fn write_dictionary() {
    let dict = new_object("DICTIONARY", vec![
        str_pair(3, "key1"),
        CodePair::new_handle(350, 0xAAAA),
        str_pair(3, "key2"),
        CodePair::new_handle(350, 0xBBBB),
    ]);
    let drawing = Drawing { version: AcadVersion::R2013, objects: vec![dict] };
    assert_contains(&drawing, vec![
        "  3", "key1",
        "350", "AAAA",
        "  3", "key2",
        "350", "BBBB",
    ].join("\r\n"));
}

#[test]
fn read_sunstudy() {
    // validates that code 290 values (ideally boolean) can be read as integers, too
    let ss = read_object("SUNSTUDY", vec![
        "290", "1", // use_subset
        "290", "3", // hours
        "290", "4",
        "290", "5",
    ].join("\r\n"));
    match ss.object_type.as_str() {
        "SUNSTUDY" => {
            let flags: Vec<i16> = ss.pairs.iter().filter_map(|p| match p.value {
                CodePairValue::Boolean(v) if p.code == 290 => Some(v),
                _ => None,
            }).collect();
            assert!(as_bool(flags[0]));
            assert_eq!(vec![3, 4, 5], flags[1..].to_vec());
        },
        _ => panic!("expected a sunstudy"),
    }
}

#[test]
fn write_version_specific_object() {
    let mut drawing = Drawing { version: AcadVersion::R2013, objects: vec![] };
    drawing.objects.push(new_object("ACAD_PROXY_OBJECT", vec![]));

    // ACAD_PROXY_OBJECT not supported in R14 and below
    drawing.version = AcadVersion::R14;
    assert_contains(&drawing, vec![
        "  0", "SECTION",
        "  2", "OBJECTS",
        "  0", "ENDSEC",
    ].join("\r\n"));

    // but it is in R2000 and above
    drawing.version = AcadVersion::R2000;
    assert_contains(&drawing, vec![
        "  0", "SECTION",
        "  2", "OBJECTS",
        "  0", "ACAD_PROXY_OBJECT",
    ].join("\r\n"));
}

#[test]
fn read_extension_data() {
    let obj = read_object("IDBUFFER", vec![
        "102", "{IXMILIA",
        "  1", "some string",
        "102", "}",
    ].join("\r\n"));
    let groups = obj.extension_groups();
    assert_eq!(1, groups.len());
    let group = &groups[0];
    assert_eq!("IXMILIA", group.application_name);
    match group.items[0] {
        ref p if p.code == 1 => assert_eq!(&CodePair::new_str(1, "some string"), p),
        _ => panic!("expected a code pair"),
    }
}

#[test]
fn write_extension_data() {
    let drawing = Drawing {
        version: AcadVersion::R14,
        objects: vec![new_object("IDBUFFER", vec![
            str_pair(102, "{IXMILIA"),
            str_pair(1, "some string"),
            str_pair(102, "}"),
        ])],
    };
    assert_contains(&drawing, vec![
        "102", "{IXMILIA",
        "  1", "some string",
        "102", "}",
    ].join("\r\n"));
}

#[test]
fn read_x_data() {
    let obj = read_object("IDBUFFER", vec![
        "1001", "IXMILIA",
        "1000", "some string",
    ].join("\r\n"));
    let x_data = obj.x_data();
    assert_eq!(1, x_data.len());
    let x = &x_data[0];
    assert_eq!("IXMILIA", x.application_name);
    match x.items[0].value {
        CodePairValue::Str(ref s) => assert_eq!("some string", s),
        _ => panic!("expected a string"),
    }
}

#[test]
fn write_x_data() {
    let drawing = Drawing {
        version: AcadVersion::R2000,
        objects: vec![new_object("IDBUFFER", vec![
            str_pair(1001, "IXMILIA"),
            CodePair { code: 1040, value: CodePairValue::Double(String::from("1.1")) },
        ])],
    };
    assert_contains(&drawing, vec![
        "1001", "IXMILIA",
        "1040", "1.1",
        "  0", "ENDSEC", // xdata is written after all the object's other code pairs
    ].join("\r\n"));
}
