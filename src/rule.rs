//! The table of block rules, and lookup of a block name in it.

use vstd::prelude::*;
use crate::element::ContainerType;
use crate::text::same_text;

verus! {

/// Identifies one block rule of the table.
#[derive(Clone, Copy, Debug, PartialEq, Eq, Structural)]
pub enum RuleId {
    Bold,
    Italics,
    Underline,
    Strikethrough,
    Deletion,
    Insertion,
    Mark,
    Superscript,
    Subscript,
    Monospace,
    Span,
    Div,
    Blockquote,
    Footnote,
    FootnoteBlock,
}

/// What a block produces.
#[derive(Clone, Copy, Debug, PartialEq, Eq, Structural)]
pub enum RuleKind {
    /// A container of the given type whose body is parsed as markup.
    Container(ContainerType),
    /// A footnote reference whose body is taken as plain text.
    Footnote,
    /// A footnote list; it has a head and no body.
    FootnoteBlock,
}

/// An immutable descriptor of a block rule.
#[derive(Clone, Copy, Debug, PartialEq, Eq, Structural)]
pub struct BlockRule {
    pub id: RuleId,
    /// Whether `[[*name]]` is allowed.
    pub accepts_star: bool,
    /// Whether `[[name_]]` is allowed; for a rule with paragraphs it
    /// switches their wrapping off.
    pub accepts_score: bool,
    /// Whether a newline may follow the opening tag directly.
    pub accepts_newlines: bool,
    /// Whether the block may stand inside a paragraph, given safe children.
    pub paragraph_safe: bool,
    /// Whether the body is wrapped into a paragraph.
    pub paragraphs: bool,
    pub kind: RuleKind,
}

impl RuleId {
    /// The names a rule accepts: its canonical name first, then its aliases.
    pub open spec fn names(self) -> Seq<Seq<char>> {
        match self {
            RuleId::Bold => seq!["b"@, "bold"@, "strong"@],
            RuleId::Italics => seq!["i"@, "italics"@, "em"@],
            RuleId::Underline => seq!["u"@, "underline"@],
            RuleId::Strikethrough => seq!["s"@, "strikethrough"@],
            RuleId::Deletion => seq!["del"@, "deletion"@],
            RuleId::Insertion => seq!["ins"@, "insertion"@],
            RuleId::Mark => seq!["mark"@, "highlight"@],
            RuleId::Superscript => seq!["sup"@, "super"@, "superscript"@],
            RuleId::Subscript => seq!["sub"@, "subscript"@],
            RuleId::Monospace => seq!["tt"@, "mono"@, "monospace"@],
            RuleId::Span => seq!["span"@],
            RuleId::Div => seq!["div"@],
            RuleId::Blockquote => seq!["blockquote"@, "quote"@],
            RuleId::Footnote => seq!["footnote"@],
            RuleId::FootnoteBlock => seq!["footnoteblock"@],
        }
    }

    /// The canonical name of the rule.
    pub fn name(self) -> (r: &'static str)
        ensures
            r@ == self.names()[0],
    {
        match self {
            RuleId::Bold => "b",
            RuleId::Italics => "i",
            RuleId::Underline => "u",
            RuleId::Strikethrough => "s",
            RuleId::Deletion => "del",
            RuleId::Insertion => "ins",
            RuleId::Mark => "mark",
            RuleId::Superscript => "sup",
            RuleId::Subscript => "sub",
            RuleId::Monospace => "tt",
            RuleId::Span => "span",
            RuleId::Div => "div",
            RuleId::Blockquote => "blockquote",
            RuleId::Footnote => "footnote",
            RuleId::FootnoteBlock => "footnoteblock",
        }
    }

    pub open spec fn spec_rule(self) -> BlockRule {
        match self {
            RuleId::Bold => inline_rule(self, ContainerType::Bold),
            RuleId::Italics => inline_rule(self, ContainerType::Italics),
            RuleId::Underline => inline_rule(self, ContainerType::Underline),
            RuleId::Strikethrough => inline_rule(self, ContainerType::Strikethrough),
            RuleId::Deletion => inline_rule(self, ContainerType::Deletion),
            RuleId::Insertion => inline_rule(self, ContainerType::Insertion),
            RuleId::Mark => inline_rule(self, ContainerType::Mark),
            RuleId::Superscript => inline_rule(self, ContainerType::Superscript),
            RuleId::Subscript => inline_rule(self, ContainerType::Subscript),
            RuleId::Monospace => inline_rule(self, ContainerType::Monospace),
            RuleId::Span => BlockRule {
                id: self,
                accepts_star: false,
                accepts_score: true,
                accepts_newlines: false,
                paragraph_safe: true,
                paragraphs: false,
                kind: RuleKind::Container(ContainerType::Span),
            },
            RuleId::Div => layout_rule(self, ContainerType::Div),
            RuleId::Blockquote => layout_rule(self, ContainerType::Blockquote),
            RuleId::Footnote => BlockRule {
                id: self,
                accepts_star: false,
                accepts_score: false,
                accepts_newlines: false,
                paragraph_safe: true,
                paragraphs: false,
                kind: RuleKind::Footnote,
            },
            RuleId::FootnoteBlock => BlockRule {
                id: self,
                accepts_star: false,
                accepts_score: false,
                accepts_newlines: true,
                paragraph_safe: false,
                paragraphs: false,
                kind: RuleKind::FootnoteBlock,
            },
        }
    }

    /// The descriptor of the rule.
    pub fn rule(self) -> (r: BlockRule)
        ensures
            r == self.spec_rule(),
    {
        match self {
            RuleId::Bold => inline(self, ContainerType::Bold),
            RuleId::Italics => inline(self, ContainerType::Italics),
            RuleId::Underline => inline(self, ContainerType::Underline),
            RuleId::Strikethrough => inline(self, ContainerType::Strikethrough),
            RuleId::Deletion => inline(self, ContainerType::Deletion),
            RuleId::Insertion => inline(self, ContainerType::Insertion),
            RuleId::Mark => inline(self, ContainerType::Mark),
            RuleId::Superscript => inline(self, ContainerType::Superscript),
            RuleId::Subscript => inline(self, ContainerType::Subscript),
            RuleId::Monospace => inline(self, ContainerType::Monospace),
            RuleId::Span => BlockRule {
                id: self,
                accepts_star: false,
                accepts_score: true,
                accepts_newlines: false,
                paragraph_safe: true,
                paragraphs: false,
                kind: RuleKind::Container(ContainerType::Span),
            },
            RuleId::Div => layout(self, ContainerType::Div),
            RuleId::Blockquote => layout(self, ContainerType::Blockquote),
            RuleId::Footnote => BlockRule {
                id: self,
                accepts_star: false,
                accepts_score: false,
                accepts_newlines: false,
                paragraph_safe: true,
                paragraphs: false,
                kind: RuleKind::Footnote,
            },
            RuleId::FootnoteBlock => BlockRule {
                id: self,
                accepts_star: false,
                accepts_score: false,
                accepts_newlines: true,
                paragraph_safe: false,
                paragraphs: false,
                kind: RuleKind::FootnoteBlock,
            },
        }
    }
}

fn inline(id: RuleId, ctype: ContainerType) -> (r: BlockRule)
    ensures
        r == inline_rule(id, ctype),
{
    BlockRule {
        id,
        accepts_star: false,
        accepts_score: false,
        accepts_newlines: false,
        paragraph_safe: true,
        paragraphs: false,
        kind: RuleKind::Container(ctype),
    }
}

fn layout(id: RuleId, ctype: ContainerType) -> (r: BlockRule)
    ensures
        r == layout_rule(id, ctype),
{
    BlockRule {
        id,
        accepts_star: false,
        accepts_score: true,
        accepts_newlines: true,
        paragraph_safe: false,
        paragraphs: true,
        kind: RuleKind::Container(ctype),
    }
}

/// An inline wrapper: no modifiers, safe inside a paragraph, no paragraphs of its own.
pub open spec fn inline_rule(id: RuleId, ctype: ContainerType) -> BlockRule {
    BlockRule {
        id,
        accepts_star: false,
        accepts_score: false,
        accepts_newlines: false,
        paragraph_safe: true,
        paragraphs: false,
        kind: RuleKind::Container(ctype),
    }
}

/// A layout block: it takes the score modifier and newlines, wraps its body
/// into a paragraph, and is not safe inside one.
pub open spec fn layout_rule(id: RuleId, ctype: ContainerType) -> BlockRule {
    BlockRule {
        id,
        accepts_star: false,
        accepts_score: true,
        accepts_newlines: true,
        paragraph_safe: false,
        paragraphs: true,
        kind: RuleKind::Container(ctype),
    }
}

impl RuleId {
    /// Whether `name` is one of the names the rule accepts.
    pub open spec fn accepts(self, name: Seq<char>) -> bool {
        match self {
            RuleId::Bold => name == "b"@ || name == "bold"@ || name == "strong"@,
            RuleId::Italics => name == "i"@ || name == "italics"@ || name == "em"@,
            RuleId::Underline => name == "u"@ || name == "underline"@,
            RuleId::Strikethrough => name == "s"@ || name == "strikethrough"@,
            RuleId::Deletion => name == "del"@ || name == "deletion"@,
            RuleId::Insertion => name == "ins"@ || name == "insertion"@,
            RuleId::Mark => name == "mark"@ || name == "highlight"@,
            RuleId::Superscript => name == "sup"@ || name == "super"@ || name == "superscript"@,
            RuleId::Subscript => name == "sub"@ || name == "subscript"@,
            RuleId::Monospace => name == "tt"@ || name == "mono"@ || name == "monospace"@,
            RuleId::Span => name == "span"@,
            RuleId::Div => name == "div"@,
            RuleId::Blockquote => name == "blockquote"@ || name == "quote"@,
            RuleId::Footnote => name == "footnote"@,
            RuleId::FootnoteBlock => name == "footnoteblock"@,
        }
    }
}

/// The rule that a block name resolves to, by exact, case-sensitive match.
pub open spec fn lookup(name: Seq<char>) -> Option<RuleId> {
    if RuleId::Bold.accepts(name) {
        Some(RuleId::Bold)
    } else if RuleId::Italics.accepts(name) {
        Some(RuleId::Italics)
    } else if RuleId::Underline.accepts(name) {
        Some(RuleId::Underline)
    } else if RuleId::Strikethrough.accepts(name) {
        Some(RuleId::Strikethrough)
    } else if RuleId::Deletion.accepts(name) {
        Some(RuleId::Deletion)
    } else if RuleId::Insertion.accepts(name) {
        Some(RuleId::Insertion)
    } else if RuleId::Mark.accepts(name) {
        Some(RuleId::Mark)
    } else if RuleId::Superscript.accepts(name) {
        Some(RuleId::Superscript)
    } else if RuleId::Subscript.accepts(name) {
        Some(RuleId::Subscript)
    } else if RuleId::Monospace.accepts(name) {
        Some(RuleId::Monospace)
    } else if RuleId::Span.accepts(name) {
        Some(RuleId::Span)
    } else if RuleId::Div.accepts(name) {
        Some(RuleId::Div)
    } else if RuleId::Blockquote.accepts(name) {
        Some(RuleId::Blockquote)
    } else if RuleId::Footnote.accepts(name) {
        Some(RuleId::Footnote)
    } else if RuleId::FootnoteBlock.accepts(name) {
        Some(RuleId::FootnoteBlock)
    } else {
        None
    }
}

fn is_any(v: &Vec<char>, from: usize, to: usize, a: &str, b: &str, c: &str) -> (r: bool)
    requires
        from <= to <= v@.len(),
    ensures
        r == (v@.subrange(from as int, to as int) == a@ || v@.subrange(from as int, to as int)
            == b@ || v@.subrange(from as int, to as int) == c@),
{
    same_text(v, from, to, a) || same_text(v, from, to, b) || same_text(v, from, to, c)
}

/// Resolves the block name `v[from..to]` in the table.
pub fn lookup_rule(v: &Vec<char>, from: usize, to: usize) -> (r: Option<RuleId>)
    requires
        from <= to <= v@.len(),
    ensures
        r == lookup(v@.subrange(from as int, to as int)),
{
    if is_any(v, from, to, "b", "bold", "strong") {
        Some(RuleId::Bold)
    } else if is_any(v, from, to, "i", "italics", "em") {
        Some(RuleId::Italics)
    } else if is_any(v, from, to, "u", "underline", "underline") {
        Some(RuleId::Underline)
    } else if is_any(v, from, to, "s", "strikethrough", "strikethrough") {
        Some(RuleId::Strikethrough)
    } else if is_any(v, from, to, "del", "deletion", "deletion") {
        Some(RuleId::Deletion)
    } else if is_any(v, from, to, "ins", "insertion", "insertion") {
        Some(RuleId::Insertion)
    } else if is_any(v, from, to, "mark", "highlight", "highlight") {
        Some(RuleId::Mark)
    } else if is_any(v, from, to, "sup", "super", "superscript") {
        Some(RuleId::Superscript)
    } else if is_any(v, from, to, "sub", "subscript", "subscript") {
        Some(RuleId::Subscript)
    } else if is_any(v, from, to, "tt", "mono", "monospace") {
        Some(RuleId::Monospace)
    } else if is_any(v, from, to, "span", "span", "span") {
        Some(RuleId::Span)
    } else if is_any(v, from, to, "div", "div", "div") {
        Some(RuleId::Div)
    } else if is_any(v, from, to, "blockquote", "quote", "quote") {
        Some(RuleId::Blockquote)
    } else if is_any(v, from, to, "footnote", "footnote", "footnote") {
        Some(RuleId::Footnote)
    } else if is_any(v, from, to, "footnoteblock", "footnoteblock", "footnoteblock") {
        Some(RuleId::FootnoteBlock)
    } else {
        None
    }
}

/// No two rules share a name: a name resolves to a rule exactly when that
/// rule accepts it.
pub proof fn lemma_names_unique(id: RuleId, name: Seq<char>)
    ensures
        id.accepts(name) <==> lookup(name) == Some(id),
{
    reveal_strlit("b");
    assert("b"@.len() == 1);
    reveal_strlit("bold");
    assert("bold"@.len() == 4);
    reveal_strlit("strong");
    assert("strong"@.len() == 6);
    reveal_strlit("i");
    assert("i"@.len() == 1);
    reveal_strlit("italics");
    assert("italics"@.len() == 7);
    reveal_strlit("em");
    assert("em"@.len() == 2);
    reveal_strlit("u");
    assert("u"@.len() == 1);
    reveal_strlit("underline");
    assert("underline"@.len() == 9);
    reveal_strlit("s");
    assert("s"@.len() == 1);
    reveal_strlit("strikethrough");
    assert("strikethrough"@.len() == 13);
    reveal_strlit("del");
    assert("del"@.len() == 3);
    reveal_strlit("deletion");
    assert("deletion"@.len() == 8);
    reveal_strlit("ins");
    assert("ins"@.len() == 3);
    reveal_strlit("insertion");
    assert("insertion"@.len() == 9);
    reveal_strlit("mark");
    assert("mark"@.len() == 4);
    reveal_strlit("highlight");
    assert("highlight"@.len() == 9);
    reveal_strlit("sup");
    assert("sup"@.len() == 3);
    reveal_strlit("super");
    assert("super"@.len() == 5);
    reveal_strlit("superscript");
    assert("superscript"@.len() == 11);
    reveal_strlit("sub");
    assert("sub"@.len() == 3);
    reveal_strlit("subscript");
    assert("subscript"@.len() == 9);
    reveal_strlit("tt");
    assert("tt"@.len() == 2);
    reveal_strlit("mono");
    assert("mono"@.len() == 4);
    reveal_strlit("monospace");
    assert("monospace"@.len() == 9);
    reveal_strlit("span");
    assert("span"@.len() == 4);
    reveal_strlit("div");
    assert("div"@.len() == 3);
    reveal_strlit("blockquote");
    assert("blockquote"@.len() == 10);
    reveal_strlit("quote");
    assert("quote"@.len() == 5);
    reveal_strlit("footnote");
    assert("footnote"@.len() == 8);
    reveal_strlit("footnoteblock");
    assert("footnoteblock"@.len() == 13);
    if id.accepts(name) {
        match id {
            RuleId::Bold => {},
            RuleId::Italics => {
                assert("i"@[0] != "b"@[0]);
            },
            RuleId::Underline => {
                assert("u"@[0] != "b"@[0]);
                assert("u"@[0] != "i"@[0]);
            },
            RuleId::Strikethrough => {
                assert("s"@[0] != "b"@[0]);
                assert("s"@[0] != "i"@[0]);
                assert("s"@[0] != "u"@[0]);
            },
            RuleId::Deletion => {},
            RuleId::Insertion => {
                assert("insertion"@[0] != "underline"@[0]);
                assert("ins"@[0] != "del"@[0]);
            },
            RuleId::Mark => {
                assert("mark"@[0] != "bold"@[0]);
                assert("highlight"@[0] != "underline"@[0]);
                assert("highlight"@[0] != "insertion"@[0]);
            },
            RuleId::Superscript => {
                assert("sup"@[0] != "del"@[0]);
                assert("sup"@[0] != "ins"@[0]);
            },
            RuleId::Subscript => {
                assert("subscript"@[0] != "underline"@[0]);
                assert("sub"@[0] != "del"@[0]);
                assert("sub"@[0] != "ins"@[0]);
                assert("subscript"@[0] != "insertion"@[0]);
                assert("subscript"@[0] != "highlight"@[0]);
                assert("sub"@[2] != "sup"@[2]);
            },
            RuleId::Monospace => {
                assert("mono"@[0] != "bold"@[0]);
                assert("tt"@[0] != "em"@[0]);
                assert("monospace"@[0] != "underline"@[0]);
                assert("monospace"@[0] != "insertion"@[0]);
                assert("mono"@[1] != "mark"@[1]);
                assert("monospace"@[0] != "highlight"@[0]);
                assert("monospace"@[0] != "subscript"@[0]);
            },
            RuleId::Span => {
                assert("span"@[0] != "bold"@[0]);
                assert("span"@[0] != "mark"@[0]);
                assert("span"@[0] != "mono"@[0]);
            },
            RuleId::Div => {
                assert("div"@[1] != "del"@[1]);
                assert("div"@[0] != "ins"@[0]);
                assert("div"@[0] != "sup"@[0]);
                assert("div"@[0] != "sub"@[0]);
            },
            RuleId::Blockquote => {
                assert("quote"@[0] != "super"@[0]);
            },
            RuleId::Footnote => {
                assert("footnote"@[0] != "deletion"@[0]);
            },
            RuleId::FootnoteBlock => {
                assert("footnoteblock"@[0] != "strikethrough"@[0]);
            },
        }
    }
}

} // verus!
