use planner::plan::{DecodeError, Fault, Plan};

fn plan(title: &str, description: &str, utc: &str, local: &str) -> Plan {
    Plan {
        title: title.to_string(),
        description: description.to_string(),
        created_utc: utc.to_string(),
        created_local: local.to_string(),
    }
}

fn same(a: &Plan, b: &Plan) -> bool {
    a.title == b.title
        && a.description == b.description
        && a.created_utc == b.created_utc
        && a.created_local == b.created_local
}

fn fault_of(line: &str) -> Fault {
    match Plan::parse(line) {
        Ok(p) => panic!("the line was read as {:?}", p),
        Err(DecodeError { line: named, fault }) => {
            assert_eq!(named, line);
            fault
        }
    }
}

#[test]
fn encode_writes_the_four_members_in_order() {
    let p = plan("Groceries", "milk, eggs", "2024-01-01T00:00:00+00:00", "2024-01-01T02:00:00+02:00");
    assert_eq!(
        p.encode(),
        "{\"title\":\"Groceries\",\"description\":\"milk, eggs\",\"created_utc\":\"2024-01-01T00:00:00+00:00\",\"created_local\":\"2024-01-01T02:00:00+02:00\"}"
    );
}

#[test]
fn encode_escapes_what_json_asks_for() {
    let p = plan("a\"b\\c", "l1\nl2\r\t\u{08}\u{0c}\u{01}\u{1f}/\u{7f}é😀", "", "");
    assert_eq!(
        p.encode(),
        "{\"title\":\"a\\\"b\\\\c\",\"description\":\"l1\\nl2\\r\\t\\b\\f\\u0001\\u001f/\u{7f}é😀\",\"created_utc\":\"\",\"created_local\":\"\"}"
    );
}

#[test]
fn encode_agrees_with_serde_json() {
    let p = plan("a\"b\\c", "l1\nl2\r\t\u{08}\u{0c}\u{00}\u{1f}/\u{7f}é😀", "x", "y");
    let mut object = serde_json::Map::new();
    object.insert("title".to_string(), serde_json::Value::String(p.title.clone()));
    object.insert("description".to_string(), serde_json::Value::String(p.description.clone()));
    object.insert("created_utc".to_string(), serde_json::Value::String(p.created_utc.clone()));
    object.insert("created_local".to_string(), serde_json::Value::String(p.created_local.clone()));
    let read: serde_json::Value = serde_json::from_str(&p.encode()).unwrap();
    assert_eq!(read, serde_json::Value::Object(object));
    assert_eq!(
        p.encode(),
        format!(
            "{{\"title\":{},\"description\":{},\"created_utc\":{},\"created_local\":{}}}",
            serde_json::to_string(&p.title).unwrap(),
            serde_json::to_string(&p.description).unwrap(),
            serde_json::to_string(&p.created_utc).unwrap(),
            serde_json::to_string(&p.created_local).unwrap()
        )
    );
}

#[test]
fn parse_reads_what_serde_json_writes() {
    let mut object = serde_json::Map::new();
    object.insert("title".to_string(), serde_json::Value::String("T \"q\" \\ \n".to_string()));
    object.insert("description".to_string(), serde_json::Value::String("\u{0} \u{1b} ü 漢 😀".to_string()));
    object.insert("created_utc".to_string(), serde_json::Value::String("u".to_string()));
    object.insert("created_local".to_string(), serde_json::Value::String("l".to_string()));
    let compact = serde_json::to_string(&serde_json::Value::Object(object.clone())).unwrap();
    let pretty = serde_json::to_string_pretty(&serde_json::Value::Object(object)).unwrap();
    let expected = plan("T \"q\" \\ \n", "\u{0} \u{1b} ü 漢 😀", "u", "l");
    assert!(same(&Plan::parse(&compact).unwrap(), &expected));
    assert!(same(&Plan::parse(&pretty).unwrap(), &expected));
}

#[test]
fn round_trip_gives_the_record_back() {
    let cases = vec![
        plan("Groceries", "milk, eggs", "2024-01-01T00:00:00+00:00", "2024-01-01T02:00:00+02:00"),
        plan("", "", "", ""),
        plan("\"", "\\", "\n", "\u{0}"),
        plan("}{,:", "\\u0041", "\\", "\"\"\""),
        plan("tab\there", "\u{1f}\u{7f}\u{80}\u{d7ff}\u{e000}\u{ffff}\u{10000}\u{10ffff}", "not a time", " "),
    ];
    for p in cases.iter() {
        let back = Plan::parse(&p.encode()).unwrap();
        assert!(same(&back, p), "{:?} came back as {:?}", p, back);
    }
}

#[test]
fn parse_takes_blanks_and_any_order() {
    let line = " \t{ \"created_local\" : \"L\" ,\r\n \"title\":\"T\", \"created_utc\":\"U\",\"description\" :\"D\" } \r";
    let p = Plan::parse(line).unwrap();
    assert!(same(&p, &plan("T", "D", "U", "L")));
}

#[test]
fn parse_takes_every_escape() {
    let line = "{\"title\":\"\\\"\\\\\\/\\b\\f\\n\\r\\t\",\"description\":\"\\u0041\\u00e9\\u00E9\\u6f22\\ud83d\\ude00\\uD83D\\uDE00\",\"created_utc\":\"\\u0000\",\"created_local\":\"\"}";
    let p = Plan::parse(line).unwrap();
    assert!(same(&p, &plan("\"\\/\u{08}\u{0c}\n\r\t", "Aéé漢😀😀", "\u{0}", "")));
}

#[test]
fn parse_refuses_what_is_no_object_of_strings() {
    let good = "{\"title\":\"T\",\"description\":\"D\",\"created_utc\":\"U\",\"created_local\":\"L\"}";
    assert!(Plan::parse(good).is_ok());
    for line in [
        "",
        "   ",
        "not json",
        "[\"T\",\"D\",\"U\",\"L\"]",
        "\"title\"",
        "{",
        "{\"title\"}",
        "{\"title\":}",
        "{\"title\":\"T\"",
        "{\"title\":\"T\",}",
        "{,\"title\":\"T\"}",
        "{\"title\":\"T\" \"description\":\"D\"}",
        "{\"title\":1,\"description\":\"D\",\"created_utc\":\"U\",\"created_local\":\"L\"}",
        "{\"title\":null,\"description\":\"D\",\"created_utc\":\"U\",\"created_local\":\"L\"}",
        "{\"title\":\"T\",\"description\":\"D\",\"created_utc\":\"U\",\"created_local\":\"L\"} x",
        "{\"title\":\"T\",\"description\":\"D\",\"created_utc\":\"U\",\"created_local\":\"L\"}{}",
        "x{\"title\":\"T\",\"description\":\"D\",\"created_utc\":\"U\",\"created_local\":\"L\"}",
        "{\"title\":\"T\u{01}\",\"description\":\"D\",\"created_utc\":\"U\",\"created_local\":\"L\"}",
        "{\"title\":\"T\nT\",\"description\":\"D\",\"created_utc\":\"U\",\"created_local\":\"L\"}",
        "{\"title\":\"\\x\",\"description\":\"D\",\"created_utc\":\"U\",\"created_local\":\"L\"}",
        "{\"title\":\"\\u12\",\"description\":\"D\",\"created_utc\":\"U\",\"created_local\":\"L\"}",
        "{\"title\":\"\\u12g4\",\"description\":\"D\",\"created_utc\":\"U\",\"created_local\":\"L\"}",
        "{\"title\":\"\\ud83d\",\"description\":\"D\",\"created_utc\":\"U\",\"created_local\":\"L\"}",
        "{\"title\":\"\\ud83dx\",\"description\":\"D\",\"created_utc\":\"U\",\"created_local\":\"L\"}",
        "{\"title\":\"\\ud83d\\u0041\",\"description\":\"D\",\"created_utc\":\"U\",\"created_local\":\"L\"}",
        "{\"title\":\"\\ude00\",\"description\":\"D\",\"created_utc\":\"U\",\"created_local\":\"L\"}",
        "{\"title\":\"T\\\",\"description\":\"D\",\"created_utc\":\"U\",\"created_local\":\"L\"}",
        "{'title':'T','description':'D','created_utc':'U','created_local':'L'}",
    ] {
        assert_eq!(fault_of(line), Fault::Syntax, "{:?}", line);
        assert!(serde_json::from_str::<std::collections::BTreeMap<String, String>>(line).is_err(), "{:?}", line);
    }
}

#[test]
fn parse_refuses_other_members_than_the_four() {
    for line in [
        "{}",
        " { } ",
        "{\"title\":\"T\"}",
        "{\"title\":\"T\",\"description\":\"D\",\"created_utc\":\"U\"}",
        "{\"description\":\"D\",\"created_utc\":\"U\",\"created_local\":\"L\"}",
        "{\"title\":\"T\",\"description\":\"D\",\"created_utc\":\"U\",\"added_local\":\"L\"}",
        "{\"Title\":\"T\",\"description\":\"D\",\"created_utc\":\"U\",\"created_local\":\"L\"}",
        "{\"title\":\"T\",\"title\":\"T\",\"created_utc\":\"U\",\"created_local\":\"L\"}",
        "{\"title\":\"T\",\"description\":\"D\",\"created_utc\":\"U\",\"created_local\":\"L\",\"title\":\"T\"}",
        "{\"title\":\"T\",\"description\":\"D\",\"created_utc\":\"U\",\"created_local\":\"L\",\"more\":\"M\"}",
    ] {
        assert_eq!(fault_of(line), Fault::Fields, "{:?}", line);
    }
}

#[test]
fn parse_names_the_line_it_refuses() {
    let e = Plan::parse("{\"title\": oops}").unwrap_err();
    assert_eq!(e.line, "{\"title\": oops}");
    assert_eq!(e.fault, Fault::Syntax);
    let e = Plan::parse("{\"title\":\"only\"}").unwrap_err();
    assert_eq!(e.line, "{\"title\":\"only\"}");
    assert_eq!(e.fault, Fault::Fields);
}

#[test]
fn keys_may_be_written_with_escapes() {
    let line = "{\"t\\u0069tle\":\"T\",\"description\":\"D\",\"created_utc\":\"U\",\"created_local\":\"L\"}";
    assert!(same(&Plan::parse(line).unwrap(), &plan("T", "D", "U", "L")));
}
