use barblocks::block::error::ErrorKind;
use barblocks::block::{parse, Alignment, Block, BlockBuilder, BuildError, GlobalConfig};
use barblocks::text::color::Color;

#[test]
fn scenario_global_and_one_left_command_block() {
    let text = "bg: #000000\n>\nalign: left\ncommand: echo hi\ninterval: 5\n";
    let (global, config) = parse(text, 1).unwrap();
    assert_eq!(global.background, Some(Color { a: 255, r: 0, g: 0, b: 0 }));
    let left = config.get(Alignment::Left).unwrap();
    assert_eq!(left.len(), 1);
    let block = &left[0];
    assert_eq!(block.alignment, Alignment::Left);
    assert_eq!(block.interval, 5);
    assert_eq!(block.fan_out(), 1);
    assert_eq!(block.command(), Some(&"echo hi".to_string()));
    assert!(config.get(Alignment::Middle).is_none());
    assert!(config.get(Alignment::Right).is_none());
}

#[test]
fn scenario_multi_monitor_replicates_to_the_monitor_count() {
    let text = "\n>status\nalign: right\ncommand: echo x\nmulti_monitor: true\n";
    let (_, config) = parse(text, 3).unwrap();
    let right = config.get(Alignment::Right).unwrap();
    assert_eq!(right[0].fan_out(), 3);
}

#[test]
fn without_multi_monitor_the_fan_out_stays_one() {
    let text = "\n>status\nalign: right\ncommand: echo x\n";
    let (_, config) = parse(text, 3).unwrap();
    assert_eq!(config.get(Alignment::Right).unwrap()[0].fan_out(), 1);
}

#[test]
fn blocks_group_under_their_alignment_in_declaration_order() {
    let text =
        "\n>a\nalign: left\nstatic: first\n>b\nalign: right\nstatic: middle-one\n>c\nalign: left\nstatic: second\n";
    let (_, config) = parse(text, 1).unwrap();
    let left = config.get(Alignment::Left).unwrap();
    assert_eq!(left.len(), 2);
    assert!(matches!(&left[0].content, barblocks::block::Content::Static(s) if s == "first"));
    assert!(matches!(&left[1].content, barblocks::block::Content::Static(s) if s == "second"));
    let right = config.get(Alignment::Right).unwrap();
    assert_eq!(right.len(), 1);
    assert!(config.get(Alignment::Middle).is_none());
}

#[test]
fn a_line_without_a_colon_is_fatal() {
    let e = parse("no separator here\n>\nalign: left\nstatic: x\n", 1).unwrap_err();
    assert_eq!(e.kind, ErrorKind::MissingSeparator);
    assert_eq!(e.line, "no separator here");
    assert_eq!(e.message(), "tried to parse 'no separator here' but missing :");
}

#[test]
fn a_bad_color_aborts_the_whole_parse() {
    let e = parse("bg: zz\n>\nalign: left\nstatic: x\n", 1).unwrap_err();
    assert!(matches!(e.kind, ErrorKind::InvalidColor(_)));
    assert_eq!(e.line, "bg: zz");
}

#[test]
fn a_bad_boolean_in_a_block_is_fatal() {
    let e = parse("\n>\nalign: left\nstatic: x\nraw: yes\n", 1).unwrap_err();
    assert_eq!(e.kind, ErrorKind::InvalidBoolean);
    assert_eq!(e.line, "raw: yes");
}

#[test]
fn a_bad_alignment_is_fatal() {
    let e = parse("\n>\nalign: sideways\nstatic: x\n", 1).unwrap_err();
    assert_eq!(e.kind, ErrorKind::InvalidAlignment);
}

#[test]
fn a_bad_interval_is_fatal() {
    let e = parse("\n>\nalign: left\nstatic: x\ninterval: soon\n", 1).unwrap_err();
    assert_eq!(e.kind, ErrorKind::InvalidNumber);
}

#[test]
fn a_bad_offset_is_fatal() {
    let e = parse("\n>\nalign: left\nstatic: x\noffset: wide\n", 1).unwrap_err();
    assert_eq!(e.kind, ErrorKind::InvalidNumber);
}

#[test]
fn an_unrecognized_key_is_skipped() {
    let text = "\n>\nalign: left\nstatic: x\nnot_a_key: whatever\n";
    let (_, config) = parse(text, 1).unwrap();
    assert_eq!(config.get(Alignment::Left).unwrap().len(), 1);
}

#[test]
fn keys_lose_their_decoration_and_values_one_trailing_quote() {
    let text = "\n>\n*-align: left\nstatic: 'kept quote'\n";
    let (_, config) = parse(text, 1).unwrap();
    let left = config.get(Alignment::Left).unwrap();
    assert!(
        matches!(&left[0].content, barblocks::block::Content::Static(s) if s == "'kept quote"),
    );
}

#[test]
fn a_block_without_content_is_a_content_missing_error() {
    let e = parse("\n>title\nalign: left\n", 1).unwrap_err();
    assert_eq!(e.kind, ErrorKind::MissingContent);
    assert_eq!(e.line, "BLOCK DEFINITION");
}

#[test]
fn a_block_without_alignment_is_an_alignment_missing_error() {
    let e = parse("\n>title\nstatic: x\n", 1).unwrap_err();
    assert_eq!(e.kind, ErrorKind::MissingAlignment);
}

#[test]
fn empty_text_gives_the_default_global_and_no_blocks() {
    let (global, config) = parse("", 1).unwrap();
    assert_eq!(global.background, None);
    assert_eq!(global.bottom, false);
    assert!(config.get(Alignment::Left).is_none());
    assert!(config.get(Alignment::Middle).is_none());
    assert!(config.get(Alignment::Right).is_none());
}

#[test]
fn alignment_names_are_read_case_insensitively() {
    assert_eq!(Alignment::from_str("left"), Some(Alignment::Left));
    assert_eq!(Alignment::from_str("Left"), Some(Alignment::Left));
    assert_eq!(Alignment::from_str("LEFT"), Some(Alignment::Left));
    assert_eq!(Alignment::from_str("MiDdLe"), Some(Alignment::Middle));
    assert_eq!(Alignment::from_str("right"), Some(Alignment::Right));
    assert_eq!(Alignment::from_str("sideways"), None);
}

#[test]
fn global_options_accept_their_one_letter_aliases() {
    let g = GlobalConfig::try_from(
        "B: #ff0000\nf: monospace 9\nb: true\na: 4\nu: 2\ng: 1920x22\nn: main\nseparator: |\n",
    )
    .unwrap();
    assert_eq!(g.background, Some(Color { a: 255, r: 255, g: 0, b: 0 }));
    assert_eq!(g.font.as_ref().map(|f| f.name.as_str()), Some("monospace 9"));
    assert_eq!(g.bottom, true);
    assert_eq!(g.n_clickables, Some(4));
    assert_eq!(g.underline_width, Some(2));
    assert_eq!(g.base_geometry.as_deref(), Some("1920x22"));
    assert_eq!(g.name.as_deref(), Some("main"));
    assert_eq!(g.separator.as_deref(), Some("|"));
    assert_eq!(g.tray, false);
}

#[test]
fn global_numbers_reject_overflow_and_junk() {
    assert!(GlobalConfig::try_from("a: 4294967296\n").is_err());
    assert!(GlobalConfig::try_from("a: many\n").is_err());
    assert_eq!(GlobalConfig::try_from("a: 4294967295\n").unwrap().n_clickables, Some(u32::MAX));
}

#[test]
fn block_parse_reads_one_section() {
    let b = Block::parse("hdr\nalign: middle\nstatic: hello\nsignal: true\nraw: false\n", 1).unwrap();
    assert_eq!(b.alignment, Alignment::Middle);
    assert!(b.signal);
    assert!(!b.raw);
    assert_eq!(b.interval, 10);
}

#[test]
fn block_actions_store_positionally() {
    let b = Block::parse(
        "hdr\nalign: left\nstatic: x\nleft-click: a\nmiddle-click: b\nright-click: c\nscroll-up: d\nscroll-down: e\n",
        1,
    )
    .unwrap();
    let got: Vec<Option<&str>> = b.actions.iter().map(|a| a.as_deref()).collect();
    assert_eq!(got, vec![Some("a"), Some("b"), Some("c"), Some("d"), Some("e")]);
}

#[test]
fn builder_without_content_fails_first() {
    let b = BlockBuilder::default();
    let b = b.action(0, "click");
    assert_eq!(b.build(1).unwrap_err(), BuildError::MissingContent);
}

#[test]
fn builder_without_alignment_fails_after_content() {
    let b = BlockBuilder::default().content_static("x");
    assert_eq!(b.build(1).unwrap_err(), BuildError::MissingAlignment);
}

#[test]
fn builder_defaults_the_interval_to_ten() {
    let mut b = BlockBuilder::default().content_command("date");
    b.alignment = Some(Alignment::Left);
    let block = b.build(1).unwrap();
    assert_eq!(block.interval, 10);
    assert_eq!(block.fan_out(), 1);
}

#[test]
fn builder_replicates_only_when_asked() {
    let mut b = BlockBuilder::default().content_command("date");
    b.alignment = Some(Alignment::Left);
    b.multi_monitor = true;
    assert_eq!(b.build(4).unwrap().fan_out(), 4);
}

#[test]
fn the_section_header_is_discarded() {
    let b = Block::parse("hdr\nalign: left\ncommand: echo hi\nmulti_monitor: true", 3).unwrap();
    assert_eq!(b.alignment, Alignment::Left);
    assert_eq!(b.command(), Some(&"echo hi".to_string()));
    assert_eq!(b.fan_out(), 3);
}

#[test]
fn a_colonless_header_has_no_effect_on_the_result() {
    // the header lacks a colon and is still ignored; only the builder speaks
    let e = Block::parse("no colon header\n\n   \n", 1).unwrap_err();
    assert_eq!(e.kind, ErrorKind::MissingContent);
    assert_eq!(e.line, "BLOCK DEFINITION");
}

#[test]
fn the_error_names_the_first_colonless_option_line() {
    let e = Block::parse("header\nalign: left\nbroken line\nalso broken\nstatic: x\n", 1)
        .unwrap_err();
    assert_eq!(e.kind, ErrorKind::MissingSeparator);
    assert_eq!(e.line, "broken line");
}
