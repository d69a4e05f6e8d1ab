use mumowrk::error::EngineError;
use mumowrk::workspace_id::WorkspaceId;

#[test]
fn encode_joins_fields_with_dashes() {
    assert_eq!(WorkspaceId::new("main", 0, 1).to_string(), "main-0-1");
    assert_eq!(WorkspaceId::new("side", 12, -3).to_string(), "side-12--3");
    assert_eq!(WorkspaceId::new("g", 999, -2147483648).to_string(), "g-999--2147483648");
}

#[test]
fn decode_of_encode_gives_the_identifier_back() {
    for (g, s, i) in [("main", 0usize, 1i32), ("side_2", 7, -4), ("x", 123456, 0), ("G9", 1, i32::MAX), ("g", 0, i32::MIN)] {
        let id = WorkspaceId::parse_safe(&WorkspaceId::new(g, s, i).to_string()).unwrap();
        assert_eq!(id.get_monitor_group_name(), g);
        assert_eq!(id.get_monitor_index(), s);
        assert_eq!(id.get_index(), i);
    }
}

#[test]
fn decode_rejects_ill_formed_names() {
    assert!(WorkspaceId::parse_safe("not-an-id").is_none());
    assert!(WorkspaceId::parse_safe("a-b-1").is_none());
    assert!(WorkspaceId::parse_safe("").is_none());
    assert!(WorkspaceId::parse_safe("main").is_none());
    assert!(WorkspaceId::parse_safe("-0-1").is_none());
    assert!(WorkspaceId::parse_safe("main--1").is_none());
    assert!(WorkspaceId::parse_safe("main-0-").is_none());
    assert!(WorkspaceId::parse_safe("main-0--").is_none());
    assert!(WorkspaceId::parse_safe("main-0-1-2").is_none());
    assert!(WorkspaceId::parse_safe("ma.in-0-1").is_none());
    assert!(WorkspaceId::parse_safe("main-0-1 ").is_none());
}

#[test]
fn decode_reads_leading_zeros_and_signs() {
    let id = WorkspaceId::parse_safe("main-01--007").unwrap();
    assert_eq!(id.get_monitor_group_name(), "main");
    assert_eq!(id.get_monitor_index(), 1);
    assert_eq!(id.get_index(), -7);
}

#[test]
fn decode_accepts_unicode_word_characters() {
    let id = WorkspaceId::parse_safe("bürö-2-3").unwrap();
    assert_eq!(id.get_monitor_group_name(), "bürö");
    assert_eq!(id.get_monitor_index(), 2);
    assert_eq!(id.get_index(), 3);
}

#[test]
fn decode_rejects_out_of_range_numbers() {
    assert!(WorkspaceId::parse_safe("main-0-2147483648").is_none());
    assert!(WorkspaceId::parse_safe("main-0--2147483649").is_none());
    assert_eq!(WorkspaceId::parse_safe("main-0--2147483648").unwrap().get_index(), i32::MIN);
    assert!(WorkspaceId::parse_safe("main-99999999999999999999999-1").is_none());
}

#[test]
fn strict_decode_reports_parse_error() {
    assert_eq!(WorkspaceId::parse("main-0-1").unwrap().get_index(), 1);
    assert_eq!(WorkspaceId::parse("unmanaged").unwrap_err(), EngineError::ParseError);
}
