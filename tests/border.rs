use oi3h::border::{
    border_command, parse_border, toggle_border, validate_border, Border, ToggleError,
};
use oi3h::model::NodeBorder;

fn b(border: NodeBorder, width: Option<i32>) -> Border {
    Border { border, width }
}

#[test]
fn test_parse_border() {
    assert_eq!(
        parse_border("none"),
        Ok(Border {
            border: NodeBorder::NoBorder,
            width: None
        })
    );
    assert_eq!(
        parse_border("normal"),
        Ok(Border {
            border: NodeBorder::Normal,
            width: None
        })
    );
    assert_eq!(
        parse_border("pixel"),
        Ok(Border {
            border: NodeBorder::Pixel,
            width: None
        })
    );
    assert_eq!(
        parse_border("normal 2"),
        Ok(Border {
            border: NodeBorder::Normal,
            width: Some(2)
        })
    );
    assert_eq!(
        parse_border("pixel 2"),
        Ok(Border {
            border: NodeBorder::Pixel,
            width: Some(2)
        })
    );
}

#[test]
fn parse_border_keeps_the_width() {
    let none = parse_border("none").unwrap();
    assert_eq!((none.border, none.width), (NodeBorder::NoBorder, None));
    let normal = parse_border("normal").unwrap();
    assert_eq!((normal.border, normal.width), (NodeBorder::Normal, None));
    let pixel = parse_border("pixel 2").unwrap();
    assert_eq!((pixel.border, pixel.width), (NodeBorder::Pixel, Some(2)));
    let negative = parse_border("normal -7").unwrap();
    assert_eq!(negative.width, Some(-7));
    let plus = parse_border("pixel +3").unwrap();
    assert_eq!(plus.width, Some(3));
}

#[test]
fn parse_border_ignores_case_and_spacing() {
    let p = parse_border("  PiXeL \t 12  ").unwrap();
    assert_eq!((p.border, p.width), (NodeBorder::Pixel, Some(12)));
    let n = parse_border("NONE").unwrap();
    assert_eq!(n.border, NodeBorder::NoBorder);
}

#[test]
fn parse_border_none_drops_width_and_extra_tokens_are_ignored() {
    let n = parse_border("none 5").unwrap();
    assert_eq!((n.border, n.width), (NodeBorder::NoBorder, None));
    let p = parse_border("pixel 3 extra").unwrap();
    assert_eq!((p.border, p.width), (NodeBorder::Pixel, Some(3)));
}

#[test]
fn parse_border_rejects_bad_input() {
    assert!(parse_border("").is_err());
    assert!(parse_border("   ").is_err());
    assert!(parse_border("thick").is_err());
    assert!(parse_border("pixel x").is_err());
    assert!(parse_border("pixel 2147483648").is_err());
    assert!(parse_border("none x").is_err());
    assert_eq!(parse_border("normal -2147483648").unwrap().width, Some(i32::MIN));
}

#[test]
fn validate_border_reports_validity() {
    assert_eq!(validate_border("normal 4".to_string()), Ok(()));
    assert!(validate_border("dotted".to_string()).is_err());
}

#[test]
fn border_text_round_trips() {
    for s in ["none", "normal", "normal 4", "pixel -12", "PIXEL 0", "pixel 2147483647"] {
        let parsed = parse_border(s).unwrap();
        let text = parsed.to_text();
        let again = parse_border(&text).unwrap();
        assert_eq!((again.border, again.width), (parsed.border, parsed.width));
    }
    assert_eq!(b(NodeBorder::Pixel, Some(-12)).to_text(), "pixel -12");
    assert_eq!(b(NodeBorder::Normal, None).to_text(), "normal");
    assert_eq!(b(NodeBorder::NoBorder, None).to_text(), "none");
}

#[test]
fn border_command_text() {
    assert_eq!(border_command("", &b(NodeBorder::NoBorder, None)), "[] border none");
    assert_eq!(
        border_command("class=\"Foo\"", &b(NodeBorder::Normal, Some(4))),
        "[class=\"Foo\"] border normal 4"
    );
    assert_eq!(border_command("", &b(NodeBorder::Pixel, None)), "[] border pixel");
}

#[test]
fn borders_compare_by_kind_only() {
    assert_eq!(b(NodeBorder::Pixel, Some(2)), b(NodeBorder::Pixel, Some(9)));
    assert_ne!(b(NodeBorder::Pixel, Some(2)), b(NodeBorder::Normal, Some(2)));
}

#[test]
fn toggle_from_absent_state_goes_to_second_entry() {
    let states = vec![b(NodeBorder::NoBorder, None), b(NodeBorder::Normal, Some(4))];
    let next = toggle_border(&states, &b(NodeBorder::Pixel, Some(3))).unwrap();
    assert_eq!((next.border, next.width), (NodeBorder::Normal, Some(4)));
}

#[test]
fn toggle_wraps_after_last_entry() {
    let states = vec![b(NodeBorder::NoBorder, None), b(NodeBorder::Pixel, Some(2))];
    let next = toggle_border(&states, &b(NodeBorder::Pixel, Some(5))).unwrap();
    assert_eq!((next.border, next.width), (NodeBorder::NoBorder, None));
}

#[test]
fn toggle_advances_from_first_entry() {
    let states = vec![b(NodeBorder::NoBorder, None), b(NodeBorder::Normal, Some(4))];
    let next = toggle_border(&states, &b(NodeBorder::NoBorder, Some(0))).unwrap();
    assert_eq!((next.border, next.width), (NodeBorder::Normal, Some(4)));
}

#[test]
fn toggle_single_entry_stays() {
    let states = vec![b(NodeBorder::Pixel, Some(1))];
    let next = toggle_border(&states, &b(NodeBorder::Normal, Some(2))).unwrap();
    assert_eq!((next.border, next.width), (NodeBorder::Pixel, Some(1)));
}

#[test]
fn toggle_rejects_duplicate_kinds() {
    let states = vec![
        b(NodeBorder::NoBorder, None),
        b(NodeBorder::Pixel, Some(2)),
        b(NodeBorder::Pixel, Some(9)),
    ];
    assert_eq!(
        toggle_border(&states, &b(NodeBorder::Normal, None)),
        Err(ToggleError::DuplicateStates)
    );
}

#[test]
fn toggle_rejects_empty_list() {
    assert_eq!(
        toggle_border(&vec![], &b(NodeBorder::Normal, None)),
        Err(ToggleError::NoStates)
    );
}
