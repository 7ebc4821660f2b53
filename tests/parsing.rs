use ftml::element::{Container, ContainerType, Element};
use ftml::parse::{parse, ExceptionKind, ParseError, ParseOutcome, MAX_DEPTH};
use ftml::rule::{RuleId, RuleKind};

fn parsed(text: &str) -> ParseOutcome {
    match parse(text) {
        Ok(outcome) => outcome,
        Err(error) => panic!("unexpected fatal error: {:?}", error),
    }
}

fn text(s: &str) -> Element {
    Element::Text(s.to_string())
}

fn kinds(outcome: &ParseOutcome) -> Vec<ExceptionKind> {
    outcome.exceptions.iter().map(|e| e.kind).collect()
}

#[test]
fn deletion_block_scenario() {
    let outcome = parsed("[[del]]old[[/del]]");
    assert_eq!(outcome.elements.len(), 1);
    match &outcome.elements[0] {
        Element::Container(c) => {
            assert_eq!(c.ctype, ContainerType::Deletion);
            assert_eq!(c.ctype.name(), "deletion");
            assert_eq!(c.elements, vec![text("old")]);
            assert!(c.attributes.is_empty());
        }
        other => panic!("expected a container, got {:?}", other),
    }
    assert!(outcome.exceptions.is_empty());
    assert!(outcome.paragraph_safe);
}

#[test]
fn alias_parses_like_canonical_name() {
    let canonical = parsed("[[del]]old[[/del]]");
    let alias = parsed("[[deletion]]old[[/deletion]]");
    let mixed = parsed("[[deletion]]old[[/del]]");
    assert_eq!(canonical.elements, alias.elements);
    assert_eq!(canonical.elements, mixed.elements);
    assert!(alias.exceptions.is_empty());
    assert_eq!(alias.paragraph_safe, canonical.paragraph_safe);
    let bold = parsed("[[b]]x[[/b]]");
    let strong = parsed("[[strong]]x[[/strong]]");
    assert_eq!(bold.elements, strong.elements);
}

#[test]
fn every_rule_resolves_its_canonical_name() {
    let ids = [
        RuleId::Bold,
        RuleId::Italics,
        RuleId::Underline,
        RuleId::Strikethrough,
        RuleId::Deletion,
        RuleId::Insertion,
        RuleId::Mark,
        RuleId::Superscript,
        RuleId::Subscript,
        RuleId::Monospace,
        RuleId::Span,
        RuleId::Div,
        RuleId::Blockquote,
    ];
    for id in ids {
        let source = format!("[[{}]]x[[/{}]]", id.name(), id.name());
        let outcome = parsed(&source);
        assert!(outcome.exceptions.is_empty(), "{}", source);
        match (&outcome.elements[0], id.rule().kind) {
            (Element::Container(c), RuleKind::Container(ct)) => assert_eq!(c.ctype, ct),
            other => panic!("unexpected {:?}", other),
        }
    }
}

#[test]
fn unknown_block_is_text_with_exception() {
    let outcome = parsed("[[nosuch]]x");
    assert_eq!(outcome.elements, vec![text("[[nosuch]]"), text("x")]);
    assert_eq!(kinds(&outcome), vec![ExceptionKind::NoSuchBlock]);
    assert_eq!(outcome.exceptions[0].start, 0);
    assert_eq!(outcome.exceptions[0].end, 10);
    assert!(!outcome.exceptions[0].description().is_empty());
}

#[test]
fn block_names_are_case_sensitive() {
    let outcome = parsed("[[DEL]]x[[/DEL]]");
    assert_eq!(kinds(&outcome), vec![ExceptionKind::NoSuchBlock]);
    assert_eq!(outcome.elements[0], text("[[DEL]]"));
}

#[test]
fn plain_text_is_one_element() {
    let outcome = parsed("hello [ world ]] [[ x");
    assert_eq!(outcome.elements, vec![text("hello [ world ]] [[ x")]);
    assert!(outcome.exceptions.is_empty());
    let empty = parsed("");
    assert!(empty.elements.is_empty());
    assert!(empty.paragraph_safe);
}

#[test]
fn disallowed_star_is_an_exception() {
    let outcome = parsed("[[*del]]a[[/del]]");
    assert_eq!(kinds(&outcome), vec![ExceptionKind::BlockDisallowsStar]);
    match &outcome.elements[0] {
        Element::Container(c) => assert_eq!(c.elements, vec![text("a")]),
        other => panic!("unexpected {:?}", other),
    }
}

#[test]
fn disallowed_score_is_an_exception() {
    let outcome = parsed("[[del_]]a[[/del]]");
    assert_eq!(kinds(&outcome), vec![ExceptionKind::BlockDisallowsScore]);
    assert_eq!(outcome.elements.len(), 1);
}

#[test]
fn disallowed_newline_is_an_exception() {
    let outcome = parsed("[[del]]\na[[/del]]");
    assert_eq!(kinds(&outcome), vec![ExceptionKind::BlockDisallowsNewlines]);
    match &outcome.elements[0] {
        Element::Container(c) => assert_eq!(c.elements, vec![text("\na")]),
        other => panic!("unexpected {:?}", other),
    }
    let div = parsed("[[div]]\na[[/div]]");
    assert!(div.exceptions.is_empty());
}

#[test]
fn layout_block_wraps_its_body_in_a_paragraph() {
    let outcome = parsed("[[div]]hi[[/div]]");
    let paragraph = Element::Container(Container::new(ContainerType::Paragraph, vec![text("hi")], vec![]));
    assert_eq!(
        outcome.elements,
        vec![Element::Container(Container::new(ContainerType::Div, vec![paragraph], vec![]))]
    );
    assert!(!outcome.paragraph_safe);
    assert!(outcome.exceptions.is_empty());
}

#[test]
fn score_switches_paragraphs_off() {
    let outcome = parsed("[[div_]]hi[[/div]]");
    assert_eq!(
        outcome.elements,
        vec![Element::Container(Container::new(ContainerType::Div, vec![text("hi")], vec![]))]
    );
    assert!(outcome.exceptions.is_empty());
}

#[test]
fn one_unsafe_child_makes_the_container_unsafe() {
    assert!(parsed("[[span]]x[[/span]]").paragraph_safe);
    assert!(parsed("[[span]]a[[b]]x[[/b]]c[[/span]]").paragraph_safe);
    assert!(!parsed("[[span]]a[[div]]x[[/div]]c[[/span]]").paragraph_safe);
    assert!(!parsed("[[div]]x[[/div]]").paragraph_safe);
    assert!(!parsed("a[[footnoteblock]]").paragraph_safe);
}

#[test]
fn unsafe_body_is_not_wrapped() {
    let outcome = parsed("[[quote]][[div]]x[[/div]][[/quote]]");
    match &outcome.elements[0] {
        Element::Container(c) => {
            assert_eq!(c.ctype, ContainerType::Blockquote);
            match &c.elements[0] {
                Element::Container(inner) => assert_eq!(inner.ctype, ContainerType::Div),
                other => panic!("unexpected {:?}", other),
            }
        }
        other => panic!("unexpected {:?}", other),
    }
}

#[test]
fn nesting_beyond_the_limit_is_fatal() {
    let deep = format!("{}{}", "[[span]]".repeat(MAX_DEPTH + 1), "[[/span]]".repeat(MAX_DEPTH + 1));
    assert_eq!(parse(&deep).err(), Some(ParseError::RecursionLimitExceeded));
    let unclosed = "[[span]]".repeat(MAX_DEPTH + 1);
    assert!(parse(&unclosed).is_ok());
    let closed = format!("{}x{}", "[[b]]".repeat(MAX_DEPTH + 5), "[[/b]]".repeat(MAX_DEPTH + 5));
    assert_eq!(parse(&closed).err(), Some(ParseError::RecursionLimitExceeded));
}

#[test]
fn nesting_up_to_the_limit_parses() {
    let at_limit = format!("{}x{}", "[[b]]".repeat(MAX_DEPTH), "[[/b]]".repeat(MAX_DEPTH));
    let outcome = parsed(&at_limit);
    assert!(outcome.exceptions.is_empty());
    assert_eq!(outcome.elements.len(), 1);
}

#[test]
fn unknown_argument_is_kept_and_reported() {
    let outcome = parsed("[[span onclick=\"x\" class=\"c\"]]t[[/span]]");
    match &outcome.elements[0] {
        Element::Container(c) => {
            assert_eq!(
                c.attributes,
                vec![("onclick".to_string(), "x".to_string()), ("class".to_string(), "c".to_string())]
            );
            assert_eq!(c.elements, vec![text("t")]);
        }
        other => panic!("unexpected {:?}", other),
    }
    assert_eq!(kinds(&outcome), vec![ExceptionKind::UnknownArgument]);
    assert_eq!(outcome.exceptions[0].start, 7);
    assert_eq!(outcome.exceptions[0].end, 18);
}

#[test]
fn malformed_argument_is_skipped() {
    let outcome = parsed("[[span class=c id=\"i\"]]t[[/span]]");
    assert_eq!(kinds(&outcome), vec![ExceptionKind::MalformedArgument]);
    match &outcome.elements[0] {
        Element::Container(c) => assert_eq!(c.attributes, vec![("id".to_string(), "i".to_string())]),
        other => panic!("unexpected {:?}", other),
    }
}

#[test]
fn repeated_argument_keeps_the_first() {
    let outcome = parsed("[[span id=\"a\" id=\"b\"]]t[[/span]]");
    assert_eq!(kinds(&outcome), vec![ExceptionKind::DuplicateArgument]);
    match &outcome.elements[0] {
        Element::Container(c) => assert_eq!(c.attributes, vec![("id".to_string(), "a".to_string())]),
        other => panic!("unexpected {:?}", other),
    }
}

#[test]
fn unclosed_block_is_text_with_exception() {
    let outcome = parsed("[[b]]abc");
    assert_eq!(outcome.elements, vec![text("[[b]]"), text("abc")]);
    assert_eq!(kinds(&outcome), vec![ExceptionKind::MissingCloseBlock]);
    assert_eq!((outcome.exceptions[0].start, outcome.exceptions[0].end), (0, 5));
    let del = parsed("[[del]]x");
    assert_eq!(del.elements, vec![text("[[del]]"), text("x")]);
    assert_eq!(kinds(&del), vec![ExceptionKind::MissingCloseBlock]);
}

#[test]
fn block_whose_closer_is_taken_by_an_inner_block_is_text() {
    let outcome = parsed("[[b]]a[[b]]c[[/b]]");
    assert_eq!(
        outcome.elements,
        vec![
            text("[[b]]"),
            text("a"),
            Element::Container(Container::new(ContainerType::Bold, vec![text("c")], vec![])),
        ]
    );
    assert_eq!(kinds(&outcome), vec![ExceptionKind::MissingCloseBlock]);
}

#[test]
fn footnote_body_is_text() {
    let outcome = parsed("a[[footnote]]see note[[/footnote]]b");
    assert_eq!(
        outcome.elements,
        vec![text("a"), Element::Footnote("see note".to_string()), text("b")]
    );
    assert!(outcome.exceptions.is_empty());
    assert!(outcome.paragraph_safe);
}

#[test]
fn footnote_block_takes_a_title() {
    let outcome = parsed("[[footnoteblock title=\"Notes\"]]");
    assert_eq!(outcome.elements, vec![Element::FootnoteBlock(Some("Notes".to_string()))]);
    assert!(outcome.exceptions.is_empty());
    let untitled = parsed("[[footnoteblock]]");
    assert_eq!(untitled.elements, vec![Element::FootnoteBlock(None)]);
}

#[test]
fn rule_descriptors() {
    let del = RuleId::Deletion.rule();
    assert!(!del.accepts_star && !del.accepts_score && !del.accepts_newlines);
    assert!(del.paragraph_safe);
    assert_eq!(RuleId::Deletion.name(), "del");
    let div = RuleId::Div.rule();
    assert!(div.accepts_score && div.accepts_newlines && div.paragraphs && !div.paragraph_safe);
    assert_eq!(ContainerType::Monospace.html_tag(), "code");
}

#[test]
fn unclosed_footnote_is_text() {
    let outcome = parsed("a[[footnote]]rest");
    assert_eq!(outcome.elements, vec![text("a"), text("[[footnote]]"), text("rest")]);
    assert_eq!(kinds(&outcome), vec![ExceptionKind::MissingCloseBlock]);
}

#[test]
fn exceptions_do_not_stop_the_document() {
    let outcome = parsed("[[x]][[b foo]]y[[/b]][[i]]z[[/i]]");
    assert_eq!(
        kinds(&outcome),
        vec![ExceptionKind::NoSuchBlock, ExceptionKind::MalformedArgument]
    );
    assert_eq!(outcome.elements.len(), 3);
    assert_eq!(
        outcome.elements[2],
        Element::Container(Container::new(ContainerType::Italics, vec![text("z")], vec![]))
    );
}

#[test]
fn nesting_with_text_between_is_still_fatal() {
    let n = MAX_DEPTH / 2 + 1;
    let deep = format!("intro {}{}", "[[span]]a [[b]]x".repeat(n), "[[/b]]y[[/span]]".repeat(n));
    assert_eq!(parse(&deep).err(), Some(ParseError::RecursionLimitExceeded));
}

#[test]
fn unknown_argument_in_any_position_is_kept() {
    let outcome = parsed("[[del class=\"c\" foo=\"bar\"]]x[[/del]]");
    match &outcome.elements[0] {
        Element::Container(c) => {
            assert_eq!(c.ctype, ContainerType::Deletion);
            assert_eq!(
                c.attributes,
                vec![("class".to_string(), "c".to_string()), ("foo".to_string(), "bar".to_string())]
            );
            assert_eq!(c.elements, vec![text("x")]);
        }
        other => panic!("unexpected {:?}", other),
    }
    assert_eq!(kinds(&outcome), vec![ExceptionKind::UnknownArgument]);
}

#[test]
fn attribute_keys_stay_unique() {
    let outcome = parsed("[[span a=\"1\" b=\"2\" a=\"3\" b=\"4\"]]t[[/span]]");
    match &outcome.elements[0] {
        Element::Container(c) => assert_eq!(
            c.attributes,
            vec![("a".to_string(), "1".to_string()), ("b".to_string(), "2".to_string())]
        ),
        other => panic!("unexpected {:?}", other),
    }
}

#[test]
fn alias_gives_same_exception_kinds() {
    let canonical = parsed("[[del foo=\"x\" bad]]a[[nosuch]][[/del]]");
    let alias = parsed("[[deletion foo=\"x\" bad]]a[[nosuch]][[/deletion]]");
    assert_eq!(canonical.elements, alias.elements);
    assert_eq!(kinds(&canonical), kinds(&alias));
    assert_eq!(
        kinds(&alias),
        vec![ExceptionKind::UnknownArgument, ExceptionKind::MalformedArgument, ExceptionKind::NoSuchBlock]
    );
}
