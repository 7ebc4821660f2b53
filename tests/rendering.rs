use ftml::element::{Container, ContainerType, Element};
use ftml::parse::parse;
use ftml::render::{finish, render, render_footnote, render_footnote_block, render_into, MessageCatalog, RenderContext};

fn html_of(text: &str, catalog: &MessageCatalog, locale: &str) -> (String, Vec<String>) {
    let outcome = parse(text).expect("parses");
    let output = render(&outcome.elements, catalog, locale);
    (output.html, output.footnotes)
}

#[test]
fn footnote_scenario() {
    let catalog = MessageCatalog::new();
    let (html, footnotes) = html_of("a[[footnote]]see note[[/footnote]] b[[footnoteblock]]", &catalog, "en");
    assert!(html.contains("data-footnote-content-id=\"wj-footnote-1\">1</button>"));
    assert_eq!(html.matches("<li").count(), 1);
    assert!(html.contains("scrollToFootnote('wj-footnote-ref-1')\">1<span class=\"wj-footnote-sep\">.</span></a>"));
    assert!(html.contains("<div class=\"wj-footnote-contents\">see note</div>"));
    assert!(html.contains("<div class=\"wj-title\">Footnotes</div>"));
    assert_eq!(footnotes, vec!["see note".to_string()]);
}

#[test]
fn footnote_reference_exact_output() {
    let catalog = MessageCatalog::new();
    let mut ctx = RenderContext::new(&catalog, "en");
    assert_eq!(ctx.next_footnote_index(), 1);
    render_footnote(&mut ctx, "x");
    assert_eq!(ctx.next_footnote_index(), 2);
    assert_eq!(
        finish(&ctx),
        "<span class=\"wj-footnote-ref\"><button is=\"wj-footnote-ref-marker\" class=\"wj-footnote-ref-marker\" \
         type=\"button\" role=\"link\" aria-label=\"Footnote 1.\" data-footnote-ref-id=\"wj-footnote-ref-1\" \
         data-footnote-content-id=\"wj-footnote-1\">1</button><span class=\"wj-footnote-ref-tooltip\" \
         aria-hidden=\"true\"><span class=\"wj-footnote-ref-tooltip-label\">Footnote 1.</span><span \
         class=\"wj-footnote-ref-contents\">x</span></span></span>"
    );
}

#[test]
fn footnote_list_exact_output() {
    let catalog = MessageCatalog::new();
    let mut ctx = RenderContext::new(&catalog, "en");
    render_footnote_block(&mut ctx, Some("T"));
    render_footnote(&mut ctx, "b");
    let html = finish(&ctx);
    let list = "<div is=\"wj-footnotes-list\" class=\"wj-footnotes-list\"><div class=\"wj-title\">T</div><ol>\
                <li class=\"wj-footnote\" id=\"wj-footnote-1\"><a href=\"javascript:;\" \
                onclick=\"WIKIJUMP.page.utils.scrollToFootnote('wj-footnote-ref-1')\">1<span \
                class=\"wj-footnote-sep\">.</span></a><div class=\"wj-footnote-contents\">b</div></li></ol></div>";
    assert!(html.starts_with(list));
    assert_eq!(ctx.footnotes, vec!["b".to_string()]);
}

#[test]
fn footnote_indices_follow_walk_order() {
    let catalog = MessageCatalog::new();
    let (html, footnotes) = html_of(
        "[[footnote]]one[[/footnote]][[b]][[footnote]]two[[/footnote]][[/b]][[footnote]]three[[/footnote]]",
        &catalog,
        "en",
    );
    assert_eq!(footnotes, vec!["one".to_string(), "two".to_string(), "three".to_string()]);
    let first = html.find(">1</button>").unwrap();
    let second = html.find(">2</button>").unwrap();
    let third = html.find(">3</button>").unwrap();
    assert!(first < second && second < third);
    assert!(html.contains("<span class=\"wj-footnote-ref-contents\">two</span>"));
}

#[test]
fn footnote_indices_past_nine() {
    let catalog = MessageCatalog::new();
    let source = "[[footnote]]n[[/footnote]]".repeat(12);
    let (html, footnotes) = html_of(&source, &catalog, "en");
    assert_eq!(footnotes.len(), 12);
    assert!(html.contains(">12</button>"));
    assert!(html.contains("aria-label=\"Footnote 10.\""));
}

#[test]
fn list_before_references_still_lists_them() {
    let catalog = MessageCatalog::new();
    let (html, _) = html_of("[[footnoteblock]]x[[footnote]]late[[/footnote]]", &catalog, "en");
    let list = html.find("wj-footnotes-list").unwrap();
    let item = html.find("<div class=\"wj-footnote-contents\">late</div>").unwrap();
    let marker = html.find(">1</button>").unwrap();
    assert!(list < item && item < marker);
}

#[test]
fn omitted_list_is_no_error() {
    let catalog = MessageCatalog::new();
    let (html, footnotes) = html_of("a[[footnote]]dropped[[/footnote]]", &catalog, "en");
    assert!(!html.contains("wj-footnotes-list"));
    assert!(!html.contains("<li"));
    assert_eq!(footnotes, vec!["dropped".to_string()]);
}

#[test]
fn every_footnote_list_holds_all_footnotes() {
    let catalog = MessageCatalog::new();
    let (html, _) = html_of(
        "[[footnote]]a[[/footnote]][[footnoteblock]][[footnote]]b[[/footnote]][[footnoteblock]]",
        &catalog,
        "en",
    );
    assert_eq!(html.matches("wj-footnotes-list\" class").count(), 2);
    assert_eq!(html.matches("<li").count(), 4);
}

#[test]
fn localized_strings_are_used() {
    let mut catalog = MessageCatalog::new();
    catalog.add("fr", "footnote", "Note");
    catalog.add("fr", "footnote-block-title", "Notes");
    catalog.add("fr", "footnote", "Ignored");
    let (html, _) = html_of("[[footnote]]x[[/footnote]][[footnoteblock]]", &catalog, "fr");
    assert!(html.contains("aria-label=\"Note 1.\""));
    assert!(html.contains("<div class=\"wj-title\">Notes</div>"));
    let (english, _) = html_of("[[footnote]]x[[/footnote]][[footnoteblock]]", &catalog, "en");
    assert!(english.contains("aria-label=\"Footnote 1.\""));
    assert!(english.contains("<div class=\"wj-title\">Footnotes</div>"));
}

#[test]
fn explicit_title_wins() {
    let mut catalog = MessageCatalog::new();
    catalog.add("en", "footnote-block-title", "Localized");
    let (html, _) = html_of("[[footnoteblock title=\"Mine\"]]", &catalog, "en");
    assert!(html.contains("<div class=\"wj-title\">Mine</div>"));
}

#[test]
fn catalog_lookup() {
    let mut catalog = MessageCatalog::new();
    catalog.add("en", "k", "v1");
    catalog.add("en", "k", "v2");
    assert_eq!(catalog.get_message("en", "k"), Some("v1".to_string()));
    assert_eq!(catalog.get_message("de", "k"), None);
    assert_eq!(catalog.message_or("de", "k", "d"), "d".to_string());
}

#[test]
fn container_renders_exactly() {
    let catalog = MessageCatalog::new();
    let (html, _) = html_of("[[del]]old[[/del]]", &catalog, "en");
    assert_eq!(html, "<del>old</del>");
    let (div, _) = html_of("[[div class=\"c\"]]x[[/div]]", &catalog, "en");
    assert_eq!(div, "<div class=\"c\"><p>x</p></div>");
}

#[test]
fn unknown_argument_renders_inert() {
    let catalog = MessageCatalog::new();
    let outcome = parse("[[span onclick=\"alert(1)\" class=\"c\"]]t[[/span]]").unwrap();
    assert_eq!(outcome.exceptions.len(), 1);
    let html = render(&outcome.elements, &catalog, "en").html;
    assert_eq!(html, "<span data-onclick=\"alert(1)\" class=\"c\">t</span>");
}

#[test]
fn text_is_escaped() {
    let catalog = MessageCatalog::new();
    let (html, _) = html_of("<b>&\"'", &catalog, "en");
    assert_eq!(html, "&lt;b&gt;&amp;&quot;&#39;");
    let (note, _) = html_of("[[footnote]]<x>[[/footnote]][[footnoteblock title=\"<t>\"]]", &catalog, "en");
    assert!(note.contains("<span class=\"wj-footnote-ref-contents\">&lt;x&gt;</span>"));
    assert!(note.contains("<div class=\"wj-title\">&lt;t&gt;</div>"));
    assert!(!note.contains("<x>"));
}

#[test]
fn attribute_names_are_sanitized() {
    let catalog = MessageCatalog::new();
    let element = Element::Container(Container::new(
        ContainerType::Span,
        vec![Element::Text("t".to_string())],
        vec![("on click\"".to_string(), "v\"".to_string())],
    ));
    let html = render(&vec![element], &catalog, "en").html;
    assert_eq!(html, "<span data-on-click-=\"v&quot;\">t</span>");
}

#[test]
fn footnote_indices_rise_by_one_across_any_content() {
    let catalog = MessageCatalog::new();
    let mut ctx = RenderContext::new(&catalog, "en");
    render_footnote(&mut ctx, "first");
    let between = parse("[[div]][[b]]x[[/b]][[footnoteblock]][[/div]]y").unwrap();
    render_into(&between.elements, &mut ctx);
    assert_eq!(ctx.next_footnote_index(), 2);
    render_footnote(&mut ctx, "second");
    let inner = parse("[[span]][[footnote]]inner[[/footnote]][[/span]]").unwrap();
    render_into(&inner.elements, &mut ctx);
    render_footnote(&mut ctx, "fourth");
    assert_eq!(ctx.footnotes, vec!["first", "second", "inner", "fourth"]);
    let html = finish(&ctx);
    assert!(html.contains(">2</button>"));
    assert!(html.contains(">4</button>"));
}
