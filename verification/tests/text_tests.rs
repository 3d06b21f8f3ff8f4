use barblocks::block::{drain_texts, parse, Alignment};
use barblocks::text::color::Color;
use barblocks::text::{Attributes, Font, Offset, Padding};

#[test]
fn offsets_keep_their_digits_exactly() {
    let o = Offset::from_str("12.5").unwrap();
    assert!(!o.neg);
    assert_eq!(o.int_digits, vec![1, 2]);
    assert_eq!(o.frac_digits, vec![5]);

    let n = Offset::from_str("-3").unwrap();
    assert!(n.neg);
    assert_eq!(n.int_digits, vec![3]);
    assert_eq!(n.frac_digits, Vec::<u8>::new());

    assert!(Offset::from_str(".5").is_some());
    assert!(Offset::from_str("7.").is_some());
    assert!(Offset::from_str("").is_none());
    assert!(Offset::from_str(".").is_none());
    assert!(Offset::from_str("1.2.3").is_none());
    assert!(Offset::from_str("wide").is_none());
}

#[test]
fn default_attributes_are_white_on_nothing() {
    let a = Attributes::default();
    assert_eq!(a.fg_color, Color::white());
    assert_eq!(a.bg_color, None);
    assert_eq!(a.font.name, "");
}

#[test]
fn attribute_builders_replace_one_field_each() {
    let a = Attributes::default()
        .with_fg_color(Color::red())
        .with_bg_color(Some(Color::black()))
        .with_font(Font::new("mono"))
        .with_padding(Padding::left(Offset::from_str("3").unwrap()));
    assert_eq!(a.fg_color, Color::red());
    assert_eq!(a.bg_color, Some(Color::black()));
    assert_eq!(a.font.name, "mono");
    assert_eq!(a.padding.left.int_digits, vec![3]);
    assert_eq!(a.padding.right.int_digits, vec![0]);
}

#[test]
fn to_text_styles_the_drained_value() {
    let text = "\n>\nalign: left\nstatic: hello\nfg: #FF0000\nbg: #000000\noffset: 7\n";
    let (_, mut config) = parse(text, 1).unwrap();
    let block = &mut config.left[0];
    let t = block.to_text(0).unwrap();
    assert_eq!(t.text, "hello");
    assert_eq!(t.attr.fg_color, Color::red());
    assert_eq!(t.attr.bg_color, Some(Color::black()));
    assert_eq!(t.attr.padding.left.int_digits, vec![7]);
    // a static block is always pending: a second drain yields the same text
    let t2 = block.to_text(0).unwrap();
    assert_eq!(t2.text, "hello");
}

#[test]
fn to_text_ignores_the_offset_in_the_middle() {
    let text = "\n>\nalign: middle\nstatic: hi\noffset: 7\n";
    let (_, mut config) = parse(text, 1).unwrap();
    let t = config.middle[0].to_text(0).unwrap();
    assert_eq!(t.attr.padding.left.int_digits, vec![0]);
}

#[test]
fn to_text_skips_a_drained_command_block() {
    let text = "\n>\nalign: left\ncommand: echo hi\n";
    let (_, mut config) = parse(text, 1).unwrap();
    let block = &mut config.left[0];
    // nothing was stored yet, so there is nothing to render
    assert!(block.to_text(0).is_none());
    block.update(&vec![Ok("ready".to_string())]);
    let t = block.to_text(0).unwrap();
    assert_eq!(t.text, "ready");
    assert!(block.to_text(0).is_none());
}

#[test]
fn a_render_pass_collects_only_pending_blocks_in_order() {
    let text = "\n>\nalign: left\ncommand: echo hi\n>\nalign: left\nstatic: fixed\n";
    let (_, mut config) = parse(text, 1).unwrap();
    // the command block has stored nothing yet, so only the static text shows
    let pass = drain_texts(&mut config.left, 0);
    assert_eq!(pass.len(), 1);
    assert_eq!(pass[0].text, "fixed");
    // after a refresh both contribute, in declaration order
    config.left[0].update(&vec![Ok("polled".to_string())]);
    let pass = drain_texts(&mut config.left, 0);
    assert_eq!(pass.len(), 2);
    assert_eq!(pass[0].text, "polled");
    assert_eq!(pass[1].text, "fixed");
    // the command block is drained now, the static one never is
    let pass = drain_texts(&mut config.left, 0);
    assert_eq!(pass.len(), 1);
    assert_eq!(pass[0].text, "fixed");
}
