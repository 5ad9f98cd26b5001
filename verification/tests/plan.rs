use planner::clock::Instant;
use planner::plan::{shown_or_stored, CreateError, Plan};

fn at() -> Instant {
    Instant::new(1_704_067_200, 0).unwrap()
}

#[test]
fn new_stamps_the_plan_with_both_texts() {
    let p = Plan::new("Groceries".to_string(), "milk, eggs".to_string(), at()).unwrap();
    assert_eq!(p.title, "Groceries");
    assert_eq!(p.description, "milk, eggs");
    assert_eq!(p.created_utc, "2024-01-01T00:00:00+00:00");
    assert_eq!(p.created_local, "2024-01-01T02:00:00+02:00");
}

#[test]
fn new_keeps_the_title_as_it_was_typed() {
    let p = Plan::new("  padded \t".to_string(), String::new(), at()).unwrap();
    assert_eq!(p.get_title(), "  padded \t");
    assert_eq!(p.get_desc(), "");
}

#[test]
fn new_refuses_a_blank_title() {
    for title in ["", " ", "\t\n", " \u{a0}\u{2003}\u{3000}\u{85}\u{1680}\u{2028}\u{2029}\u{202f}\u{205f}\u{0b}\u{0c}\r"] {
        assert_eq!(title.trim(), "");
        assert_eq!(
            Plan::new(title.to_string(), "d".to_string(), at()).unwrap_err(),
            CreateError::BlankTitle,
            "{:?}",
            title
        );
    }
}

#[test]
fn new_takes_what_trimming_leaves_something_of() {
    for title in ["x", " x ", "\u{200b}", "\u{feff}", "\u{1c}", "\u{180e}", "_", "\u{0}"] {
        assert_ne!(title.trim(), "", "{:?}", title);
        assert!(Plan::new(title.to_string(), String::new(), at()).is_ok(), "{:?}", title);
    }
}

#[test]
fn blank_agrees_with_trim_on_every_character() {
    let near = 0u32..=0x3100;
    let far = (0x3100u32..=0x11_0000).step_by(97);
    for code in near.chain(far) {
        if let Some(c) = char::from_u32(code) {
            let title = c.to_string();
            assert_eq!(
                Plan::new(title.clone(), String::new(), at()).is_err(),
                title.trim().is_empty(),
                "U+{:04X}",
                code
            );
        }
    }
}

#[test]
fn getters_give_the_fields() {
    let p = Plan {
        title: "t".to_string(),
        description: "d".to_string(),
        created_utc: "u".to_string(),
        created_local: "l".to_string(),
    };
    assert_eq!(p.get_title(), "t");
    assert_eq!(p.get_desc(), "d");
    assert_eq!(p.get_time_utc(), "u");
    assert_eq!(p.get_time_local(), "l");
}

#[test]
fn formatted_dt_shows_the_local_time() {
    let p = Plan::new("t".to_string(), "d".to_string(), at()).unwrap();
    assert_eq!(p.formatted_dt(), Some("01 Jan 2024 02:00:00".to_string()));
    assert_eq!(p.time_label(), "01 Jan 2024 02:00:00");
}

#[test]
fn a_time_that_cannot_be_read_is_shown_as_stored() {
    let p = Plan {
        title: "Test Item 1".to_string(),
        description: "This is an item for testing".to_string(),
        created_utc: "Time will go here eventually".to_string(),
        created_local: "Time will go here eventually".to_string(),
    };
    assert_eq!(p.formatted_dt(), None);
    assert_eq!(p.time_label(), "Time will go here eventually");
    let back = Plan::parse(&p.encode()).unwrap();
    assert_eq!(back.created_local, "Time will go here eventually");
}

#[test]
fn the_label_is_the_formatted_time_or_the_stored_text() {
    assert_eq!(shown_or_stored(Some("01 Jan 2024 02:00:00".to_string()), "stored"), "01 Jan 2024 02:00:00");
    assert_eq!(shown_or_stored(Some(String::new()), "stored"), "");
    assert_eq!(shown_or_stored(None, "stored"), "stored");
    assert_eq!(shown_or_stored(None, ""), "");
}
