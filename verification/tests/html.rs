use browser::html::{lex, Node};

fn text(s: &str) -> Node {
    Node::Text(s.to_string())
}

fn tag(s: &str) -> Node {
    Node::Tag(s.to_string())
}

#[test]
fn test_lex() {
    assert_eq!(
        lex(Some("<p>hej</p>".into())),
        vec![
            Node::Tag("p".to_string()),
            Node::Text("hej".to_string()),
            Node::Tag("/p".to_string())
        ]
    )
}

#[test]
fn lex_of_nothing_is_empty() {
    assert_eq!(lex(None), vec![]);
    assert_eq!(lex(Some(String::new())), vec![]);
}

#[test]
fn lex_keeps_text_around_tags() {
    assert_eq!(lex(Some("hello".into())), vec![text("hello")]);
    assert_eq!(
        lex(Some("a<b>c</b>d".into())),
        vec![text("a"), tag("b"), text("c"), tag("/b"), text("d")]
    );
    assert_eq!(lex(Some("<i>ö</i>".into())), vec![tag("i"), text("ö"), tag("/i")]);
}

#[test]
fn lex_drops_an_open_tag_at_the_end() {
    assert_eq!(lex(Some("a<b".into())), vec![text("a")]);
    assert_eq!(lex(Some("<".into())), vec![]);
}

#[test]
fn lex_keeps_empty_tags() {
    assert_eq!(lex(Some("<>".into())), vec![tag("")]);
    assert_eq!(lex(Some(">".into())), vec![tag("")]);
}

#[test]
fn lex_treats_stray_delimiters_as_the_state_machine_does() {
    assert_eq!(lex(Some("a>b".into())), vec![tag("a"), text("b")]);
    assert_eq!(lex(Some("<a<b>".into())), vec![text("a"), tag("b")]);
    assert_eq!(lex(Some("<a>>".into())), vec![tag("a"), tag("")]);
}
