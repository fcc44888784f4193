use grid_runner::smart_text::{
    parse, parse_alpha, parse_alpha_numeric, parse_icon, parse_name, parse_named, parse_node,
    parse_nodes, parse_space, parse_text, ParseNode,
};

#[test]
fn test_parse_space() {
    assert_eq!(parse_space(" "), Some((ParseNode::Space, "")));
    assert_eq!(parse_space("  "), Some((ParseNode::Space, "")));
    assert_eq!(parse_space("{"), None);
    assert_eq!(parse_space("{icon:turn}left on"), None);
    assert_eq!(
        parse_space("{icon:turn}left on{icon:round}{named:round}"),
        None
    );
}

#[test]
fn test_parse_alpha() {
    assert_eq!(parse_alpha("abc"), Some((1, "bc")));
    assert_eq!(parse_alpha("_abc"), Some((1, "abc")));
    assert_eq!(parse_alpha("1abc"), None);
    assert_eq!(parse_alpha(""), None);
}

#[test]
fn test_parse_alpha_numeric() {
    assert_eq!(parse_alpha_numeric("abc"), Some((1, "bc")));
    assert_eq!(parse_alpha_numeric("_abc"), Some((1, "abc")));
    assert_eq!(parse_alpha_numeric("1abc"), Some((1, "abc")));
    assert_eq!(parse_alpha_numeric(""), None);
}

#[test]
fn test_parse_name() {
    assert_eq!(parse_name("abc"), Some(("abc", "")));
    assert_eq!(parse_name("_abc"), Some(("_abc", "")));
    assert_eq!(parse_name("a1_bc"), Some(("a1_bc", "")));
    assert_eq!(parse_name("a1_bc}"), Some(("a1_bc", "}")));
    assert_eq!(parse_name("1abc"), None);
    assert_eq!(parse_name(""), None);
}

#[test]
fn test_parse_text() {
    assert_eq!(parse_text("hello"), Some((ParseNode::Text("hello"), "")));
    assert_eq!(
        parse_text("hello{world}"),
        Some((ParseNode::Text("hello"), "{world}"))
    );
    assert_eq!(parse_text(""), None);
    assert_eq!(parse_text("{"), None);
}

#[test]
fn test_parse_icon() {
    assert_eq!(
        parse_icon("{icon:gold}"),
        Some((ParseNode::Icon("gold"), ""))
    );
    assert_eq!(
        parse_icon("{icon:_abc}{def}"),
        Some((ParseNode::Icon("_abc"), "{def}"))
    );
    assert_eq!(parse_icon("abc"), None);
    assert_eq!(parse_icon("{icon:"), None);
}

#[test]
fn test_parse_named() {
    assert_eq!(
        parse_named("{named:apple_count}"),
        Some((ParseNode::Named("apple_count"), ""))
    );
    assert_eq!(
        parse_named("{named:banana_count}{rest}"),
        Some((ParseNode::Named("banana_count"), "{rest}"))
    );
    assert_eq!(parse_named("abc"), None);
    assert_eq!(parse_named("{named:"), None);
}

#[test]
fn test_parse_node() {
    assert_eq!(parse_node("hello"), Some((ParseNode::Text("hello"), "")));
    assert_eq!(
        parse_node("{icon:gold}"),
        Some((ParseNode::Icon("gold"), ""))
    );
    assert_eq!(
        parse_node("{named:apple_count}"),
        Some((ParseNode::Named("apple_count"), ""))
    );
    assert_eq!(parse_node(""), None);
}

#[test]
fn test_parse_nodes() {
    assert_eq!(
        parse_nodes("hello world"),
        Some((
            ParseNode::Nodes(vec![
                ParseNode::Text("hello"),
                ParseNode::Space,
                ParseNode::Text("world")
            ]),
            ""
        ))
    );
    assert_eq!(parse_nodes("hello"), Some((ParseNode::Text("hello"), "")));
    assert_eq!(
        parse_nodes("hello{world}"),
        Some((ParseNode::Text("hello"), "{world}"))
    );
    assert_eq!(
        parse_nodes("hello{icon:gold}world"),
        Some((
            ParseNode::Nodes(vec![
                ParseNode::Text("hello"),
                ParseNode::Icon("gold"),
                ParseNode::Text("world")
            ]),
            ""
        ))
    );
    assert_eq!(
        parse_nodes("{icon:gold}{named:apple}"),
        Some((
            ParseNode::Nodes(vec![ParseNode::Icon("gold"), ParseNode::Named("apple")]),
            ""
        ))
    );
    assert_eq!(parse_nodes(""), None);
}

#[test]
fn test_parse() {
    assert_eq!(parse("hello"), Some(ParseNode::Text("hello")));
    assert_eq!(
        parse("hello{icon:gold}world"),
        Some(ParseNode::Nodes(vec![
            ParseNode::Text("hello"),
            ParseNode::Icon("gold"),
            ParseNode::Text("world")
        ]))
    );
    assert_eq!(parse("{hinted:{hi}{there}}hello{world}"), None);
    assert_eq!(parse(""), None);
    assert_eq!(parse("}"), None);

    assert_eq!(parse("{hinted:{hi}{there}}hello{world}}"), None);
    assert_eq!(parse("{hinted:{hi}{there"), None);
}

#[test]
fn parse_keeps_multibyte_words_and_unicode_space() {
    assert_eq!(
        parse("héllo\u{a0}wörld"),
        Some(ParseNode::Nodes(vec![
            ParseNode::Text("héllo"),
            ParseNode::Space,
            ParseNode::Text("wörld")
        ]))
    );
    assert_eq!(parse_name("ab-c"), Some(("ab", "-c")));
    assert_eq!(parse_icon("{icon:Gold}"), None);
    assert_eq!(parse_named("{named:abc"), None);
}
