use barblocks::block::one_or_more::OneOrMore;
use barblocks::block::Content;

fn cmd_content(cmd: &str) -> Content {
    Content::Cmd { cmd: cmd.to_string(), last_run: OneOrMore::One(String::new()) }
}

#[test]
fn one_or_more_starts_scalar_and_promotes_on_push() {
    let mut o: OneOrMore<u32> = OneOrMore::One(7);
    assert!(matches!(o, OneOrMore::One(_)));
    assert_eq!(o.len(), 1);
    o.push(8);
    assert!(matches!(o, OneOrMore::More(_)));
    assert_eq!(o.len(), 2);
    assert_eq!(*o.get(0), 7);
    assert_eq!(*o.get(1), 8);
}

#[test]
fn one_or_more_never_reverts_to_scalar() {
    let mut o: OneOrMore<u32> = OneOrMore::One(1);
    o.push(2);
    o.push(3);
    assert!(matches!(o, OneOrMore::More(_)));
    o.set(1, 9);
    assert!(matches!(o, OneOrMore::More(_)));
    assert_eq!(o.len(), 3);
    assert_eq!(*o.get(1), 9);
}

#[test]
fn one_or_more_scalar_answers_every_index() {
    let o: OneOrMore<u32> = OneOrMore::One(5);
    assert_eq!(*o.get(0), 5);
    assert_eq!(*o.get(4), 5);
}

#[test]
fn one_or_more_iter_walks_the_slots() {
    let mut o: OneOrMore<u32> = OneOrMore::One(1);
    o.push(2);
    let mut it = o.iter();
    assert_eq!(it.next(), Some(&1));
    assert_eq!(it.next(), Some(&2));
    assert_eq!(it.next(), None);

    let single: OneOrMore<u32> = OneOrMore::One(9);
    let mut it = single.iter();
    assert_eq!(it.next(), Some(&9));
    assert_eq!(it.next(), None);
}

#[test]
fn static_take_returns_the_same_text_every_time() {
    let mut c = Content::Static("fixed".to_string());
    assert_eq!(c.take(0), Some("fixed".to_string()));
    assert_eq!(c.take(0), Some("fixed".to_string()));
    assert_eq!(c.take(3), Some("fixed".to_string()));
}

#[test]
fn cmd_take_drains_exactly_once_per_update() {
    let mut c = cmd_content("echo hi");
    c.update(&vec![Ok("hi".to_string())]);
    assert_eq!(c.take(0), Some("hi".to_string()));
    assert_eq!(c.take(0), None);
    c.update(&vec![Ok("again".to_string())]);
    assert_eq!(c.take(0), Some("again".to_string()));
    assert_eq!(c.take(0), None);
}

#[test]
fn cmd_update_keeps_only_the_first_line() {
    let mut c = cmd_content("echo");
    c.update(&vec![Ok("first\nsecond\nthird".to_string())]);
    assert_eq!(c.take(0), Some("first".to_string()));
}

#[test]
fn cmd_update_stores_the_error_text_on_failure() {
    let mut c = cmd_content("bad");
    c.update(&vec![Err("spawn failed".to_string())]);
    assert!(!c.is_empty(0));
    assert_eq!(c.take(0), Some("spawn failed".to_string()));
}

#[test]
fn cmd_update_with_empty_output_gives_nothing_to_drain() {
    let mut c = cmd_content("true");
    c.update(&vec![Ok("".to_string())]);
    assert!(c.is_empty(0));
    assert_eq!(c.take(0), None);
}

#[test]
fn persistent_take_drains_like_cmd() {
    let mut c = Content::Persistent {
        cmd: "sub".to_string(),
        last_run: OneOrMore::One("pending".to_string()),
    };
    assert_eq!(c.take(0), Some("pending".to_string()));
    assert_eq!(c.take(0), None);
}

#[test]
fn replicate_grows_a_command_buffer() {
    let c = cmd_content("echo").replicate_to_mon(3);
    assert_eq!(c.fan_out(), 3);
    let again = c.replicate_to_mon(2);
    assert_eq!(again.fan_out(), 3);
}

#[test]
fn replicate_leaves_static_content_alone() {
    let c = Content::Static("s".to_string()).replicate_to_mon(4);
    assert_eq!(c.fan_out(), 1);
    assert!(matches!(c, Content::Static(_)));
}

#[test]
fn per_monitor_slots_drain_independently() {
    let mut c = cmd_content("echo").replicate_to_mon(2);
    c.update(&vec![Ok("zero".to_string()), Ok("one".to_string())]);
    assert_eq!(c.take(1), Some("one".to_string()));
    assert_eq!(c.take(1), None);
    assert_eq!(c.take(0), Some("zero".to_string()));
    assert_eq!(c.take(0), None);
}

#[test]
fn update_leaves_static_and_persistent_alone() {
    let mut s = Content::Static("s".to_string());
    s.update(&vec![]);
    assert_eq!(s.take(0), Some("s".to_string()));

    let mut p = Content::Persistent {
        cmd: "sub".to_string(),
        last_run: OneOrMore::One("kept".to_string()),
    };
    p.update(&vec![]);
    assert_eq!(p.take(0), Some("kept".to_string()));
}
