//! The block parser: wikitext to elements, recoverable exceptions and
//! paragraph safety, or the fatal recursion-limit condition.

use vstd::prelude::*;
use crate::element::{keys_unique, AttrsModel, Container, ContainerType, Element, ElementModel, attrs_model, lemma_models_push, models_of, model_of, option_model};
use crate::rule::{BlockRule, RuleId, RuleKind, lookup, lookup_rule};
use crate::text::{chars_of, same_str, same_text, string_of};

verus! {

/// How deeply blocks may nest before parsing fails as a whole.
pub const MAX_DEPTH: usize = 100;

/// The kind of a recoverable parse exception.
#[derive(Clone, Copy, Debug, PartialEq, Eq, Structural)]
pub enum ExceptionKind {
    NoSuchBlock,
    BlockDisallowsStar,
    BlockDisallowsScore,
    BlockDisallowsNewlines,
    MalformedArgument,
    UnknownArgument,
    DuplicateArgument,
    MissingCloseBlock,
}

/// A recoverable diagnostic with the span of text it concerns.
#[derive(Clone, Copy, Debug, PartialEq, Eq, Structural)]
pub struct ParseException {
    pub kind: ExceptionKind,
    pub start: usize,
    pub end: usize,
}

impl ExceptionKind {
    pub open spec fn spec_description(self) -> Seq<char> {
        match self {
            ExceptionKind::NoSuchBlock => "no block rule has this name"@,
            ExceptionKind::BlockDisallowsStar => "this block does not accept the star modifier"@,
            ExceptionKind::BlockDisallowsScore => "this block does not accept the score modifier"@,
            ExceptionKind::BlockDisallowsNewlines => "this block may not be followed by a newline"@,
            ExceptionKind::MalformedArgument => "malformed argument"@,
            ExceptionKind::UnknownArgument => "unknown argument; it is kept but has no effect"@,
            ExceptionKind::DuplicateArgument => "argument given twice; the first is kept"@,
            ExceptionKind::MissingCloseBlock => "block is not closed; its opening tag is kept as text"@,
        }
    }
}

impl ParseException {
    /// A human-readable description of the exception.
    pub fn description(&self) -> (r: &'static str)
        ensures
            r@ == self.kind.spec_description(),
    {
        match self.kind {
            ExceptionKind::NoSuchBlock => "no block rule has this name",
            ExceptionKind::BlockDisallowsStar => "this block does not accept the star modifier",
            ExceptionKind::BlockDisallowsScore => "this block does not accept the score modifier",
            ExceptionKind::BlockDisallowsNewlines => "this block may not be followed by a newline",
            ExceptionKind::MalformedArgument => "malformed argument",
            ExceptionKind::UnknownArgument => "unknown argument; it is kept but has no effect",
            ExceptionKind::DuplicateArgument => "argument given twice; the first is kept",
            ExceptionKind::MissingCloseBlock => "block is not closed; its opening tag is kept as text",
        }
    }
}

/// The fatal parse condition.
#[derive(Clone, Copy, Debug, PartialEq, Eq, Structural)]
pub enum ParseError {
    RecursionLimitExceeded,
}

pub open spec fn exc(kind: ExceptionKind, start: int, end: int) -> ParseException {
    ParseException { kind, start: start as usize, end: end as usize }
}

pub open spec fn is_name_char(c: char) -> bool {
    ('a' <= c && c <= 'z') || ('A' <= c && c <= 'Z') || ('0' <= c && c <= '9') || c == '-'
}

pub open spec fn is_key_char(c: char) -> bool {
    is_name_char(c) || c == '_'
}

pub open spec fn is_space(c: char) -> bool {
    c == ' ' || c == '\t' || c == '\n' || c == '\r'
}

/// The end of the run of name characters (key characters if `key`) in
/// `s[i..end]` that starts at `i`.
pub open spec fn run_end(s: Seq<char>, i: int, end: int, key: bool) -> int
    decreases end - i,
{
    if 0 <= i < end && end <= s.len() && (if key {
        is_key_char(s[i])
    } else {
        is_name_char(s[i])
    }) {
        run_end(s, i + 1, end, key)
    } else {
        i
    }
}

/// The first `]]` at or after `j`.
pub open spec fn find_brackets(s: Seq<char>, j: int) -> Option<int>
    decreases s.len() - j,
{
    if 0 <= j && j + 1 < s.len() {
        if s[j] == ']' && s[j + 1] == ']' {
            Some(j)
        } else {
            find_brackets(s, j + 1)
        }
    } else {
        None
    }
}

/// The positions of an opening tag `[[*name_ head]]`.
#[derive(Clone, Copy, Debug, PartialEq, Eq, Structural)]
pub struct OpenTag {
    pub start: usize,
    pub name_start: usize,
    pub name_end: usize,
    pub star: bool,
    pub score: bool,
    /// The head holds the arguments: `head_start..head_end`; `]]` follows it.
    pub head_start: usize,
    pub head_end: usize,
    /// Whether a newline follows the tag directly.
    pub newline: bool,
}

impl OpenTag {
    pub open spec fn end(self) -> int {
        self.head_end + 2
    }
}

/// The opening tag that starts at `p`, if one does.
pub open spec fn open_tag(s: Seq<char>, p: int) -> Option<OpenTag> {
    if 0 <= p && p + 1 < s.len() && s[p] == '[' && s[p + 1] == '[' {
        let star = s.len() - p > 2 && s[p + 2] == '*';
        let ns = if star {
            p + 3
        } else {
            p + 2
        };
        let ne = run_end(s, ns, s.len() as int, false);
        if ne == ns {
            None
        } else {
            let score = ne < s.len() && s[ne] == '_';
            let hs = if score {
                ne + 1
            } else {
                ne
            };
            match find_brackets(s, hs) {
                None => None,
                Some(k) => Some(
                    OpenTag {
                        start: p as usize,
                        name_start: ns as usize,
                        name_end: ne as usize,
                        star,
                        score,
                        head_start: hs as usize,
                        head_end: k as usize,
                        newline: s.len() - k > 2 && s[k + 2] == '\n',
                    },
                ),
            }
        }
    } else {
        None
    }
}

/// The end of a closing tag `[[/name]]` for rule `id` that starts at `q`,
/// if one does.
pub open spec fn closer_at(s: Seq<char>, q: int, id: RuleId) -> Option<int> {
    if 0 <= q && q + 2 < s.len() && s[q] == '[' && s[q + 1] == '[' && s[q + 2] == '/' {
        let ne = run_end(s, q + 3, s.len() as int, false);
        if ne + 1 < s.len() && s[ne] == ']' && s[ne + 1] == ']' && lookup(s.subrange(q + 3, ne))
            == Some(id) {
            Some(ne + 2)
        } else {
            None
        }
    } else {
        None
    }
}

/// The first closing tag for `id` at or after `q`.
pub open spec fn find_closer(s: Seq<char>, q: int, id: RuleId) -> Option<int>
    decreases s.len() - q,
{
    if 0 <= q < s.len() {
        if closer_at(s, q, id) is Some {
            Some(q)
        } else {
            find_closer(s, q + 1, id)
        }
    } else {
        None
    }
}

/// Whether plain text stops at `q`: a tag opens there, or the enclosing
/// block closes there.
pub open spec fn stops(s: Seq<char>, q: int, closer: Option<RuleId>) -> bool {
    open_tag(s, q) is Some || match closer {
        Some(id) => closer_at(s, q, id) is Some,
        None => false,
    }
}

/// The end of the plain text that continues at `q`.
pub open spec fn text_end(s: Seq<char>, q: int, closer: Option<RuleId>) -> int
    decreases s.len() - q,
{
    if 0 <= q < s.len() && !stops(s, q, closer) {
        text_end(s, q + 1, closer)
    } else {
        q
    }
}

/// The first position at or after `i`, before `end`, that holds whitespace.
pub open spec fn word_end(s: Seq<char>, i: int, end: int) -> int
    decreases end - i,
{
    if 0 <= i < end && end <= s.len() && !is_space(s[i]) {
        word_end(s, i + 1, end)
    } else {
        i
    }
}

/// The first `"` at or after `i`, before `end`; `end` if there is none.
pub open spec fn find_quote(s: Seq<char>, i: int, end: int) -> int
    decreases end - i,
{
    if 0 <= i < end && end <= s.len() && s[i] != '"' {
        find_quote(s, i + 1, end)
    } else {
        i
    }
}

/// Whether `key` is an argument that a block of this kind knows.
pub open spec fn known_argument(kind: RuleKind, key: Seq<char>) -> bool {
    match kind {
        RuleKind::Container(_) => key == "class"@ || key == "id"@ || key == "style"@ || key
            == "title"@ || key == "lang"@ || key == "dir"@,
        RuleKind::Footnote => false,
        RuleKind::FootnoteBlock => key == "title"@,
    }
}

pub open spec fn has_key(attrs: AttrsModel, key: Seq<char>) -> bool {
    exists|j: int| 0 <= j < attrs.len() && (#[trigger] attrs[j]).0 == key
}

/// The arguments in `s[i..end]`, added to those already gathered.
///
/// An argument is `key="value"`; arguments are separated by whitespace. A
/// malformed one is skipped up to the next whitespace, a repeated key is
/// dropped, and a key the block does not know is kept: each of these is an
/// exception.
pub open spec fn parse_args(
    s: Seq<char>,
    i: int,
    end: int,
    kind: RuleKind,
    attrs: AttrsModel,
    excs: Seq<ParseException>,
) -> (AttrsModel, Seq<ParseException>)
    decreases end - i,
{
    if i < 0 || i >= end || end > s.len() {
        (attrs, excs)
    } else if is_space(s[i]) {
        parse_args(s, i + 1, end, kind, attrs, excs)
    } else {
        let ke = run_end(s, i, end, true);
        let q = find_quote(s, ke + 2, end);
        if ke > i && ke + 1 < end && s[ke] == '=' && s[ke + 1] == '"' && ke + 2 <= q < end {
            let key = s.subrange(i, ke);
            let value = s.subrange(ke + 2, q);
            if has_key(attrs, key) {
                parse_args(
                    s,
                    q + 1,
                    end,
                    kind,
                    attrs,
                    excs.push(exc(ExceptionKind::DuplicateArgument, i, q + 1)),
                )
            } else {
                let excs2 = if known_argument(kind, key) {
                    excs
                } else {
                    excs.push(exc(ExceptionKind::UnknownArgument, i, q + 1))
                };
                parse_args(s, q + 1, end, kind, attrs.push((key, value)), excs2)
            }
        } else {
            let w = if i < word_end(s, i, end) <= end {
                word_end(s, i, end)
            } else {
                end
            };
            parse_args(s, w, end, kind, attrs, excs.push(exc(ExceptionKind::MalformedArgument, i, w)))
        }
    }
}

/// The exceptions for modifiers that the tag carries and the rule refuses.
pub open spec fn flag_exceptions(t: OpenTag, r: BlockRule) -> Seq<ParseException> {
    let a: Seq<ParseException> = if t.star && !r.accepts_star {
        seq![exc(ExceptionKind::BlockDisallowsStar, t.start as int, t.end())]
    } else {
        seq![]
    };
    let b: Seq<ParseException> = if t.score && !r.accepts_score {
        seq![exc(ExceptionKind::BlockDisallowsScore, t.start as int, t.end())]
    } else {
        seq![]
    };
    let c: Seq<ParseException> = if t.newline && !r.accepts_newlines {
        seq![exc(ExceptionKind::BlockDisallowsNewlines, t.start as int, t.end())]
    } else {
        seq![]
    };
    a + b + c
}

/// The value of the first `title` attribute.
pub open spec fn title_of(attrs: AttrsModel) -> Option<Seq<char>>
    decreases attrs.len(),
{
    if attrs.len() == 0 {
        None
    } else if attrs[0].0 == "title"@ {
        Some(attrs[0].1)
    } else {
        title_of(attrs.drop_first())
    }
}

/// The result of parsing a sequence of elements.
pub struct SeqOutcome {
    pub elements: Seq<ElementModel>,
    pub exceptions: Seq<ParseException>,
    pub safe: bool,
    /// Where parsing stopped: after the closing tag, or at the end of input.
    pub end: int,
    /// Whether the closing tag of the enclosing block was found.
    pub closed: bool,
}

/// The result of parsing one element.
pub struct StepOutcome {
    pub element: ElementModel,
    pub exceptions: Seq<ParseException>,
    pub safe: bool,
    pub next: int,
}

/// Whether a body is wrapped into a paragraph: the rule asks for it, the
/// score modifier does not switch it off, and the body is non-empty and
/// paragraph-safe.
pub open spec fn wraps(r: BlockRule, score: bool, body: SeqOutcome) -> bool {
    r.paragraphs && !(score && r.accepts_score) && body.elements.len() > 0 && body.safe
}

pub open spec fn body_elements(r: BlockRule, score: bool, body: SeqOutcome) -> Seq<ElementModel> {
    if wraps(r, score, body) {
        seq![ElementModel::Container(ContainerType::Paragraph, body.elements, seq![])]
    } else {
        body.elements
    }
}

/// A block whose closing tag does not follow builds nothing: its opening
/// tag stands as plain text, with a `MissingCloseBlock` exception.
pub open spec fn unclosed(s: Seq<char>, t: OpenTag) -> StepOutcome {
    StepOutcome {
        element: ElementModel::Text(s.subrange(t.start as int, t.end())),
        exceptions: seq![exc(ExceptionKind::MissingCloseBlock, t.start as int, t.end())],
        safe: true,
        next: t.end(),
    }
}

/// Whether the block that `t` opens for rule `id`, parsed at `depth`, is
/// closed by its own tag, so that it does not fall back to plain text.
pub open spec fn block_closes(s: Seq<char>, t: OpenTag, id: RuleId, depth: int) -> bool {
    match id.spec_rule().kind {
        RuleKind::Container(_) => find_closer(s, t.end(), id) is Some && match parse_seq(
            s,
            t.end(),
            depth + 1,
            Some(id),
        ) {
            Some(b) => b.closed,
            None => true,
        },
        RuleKind::Footnote => find_closer(s, t.end(), id) is Some,
        RuleKind::FootnoteBlock => true,
    }
}

/// The elements from `pos` on, up to the closing tag of `closer` or the end
/// of input; `None` when blocks nest deeper than `MAX_DEPTH`.
pub open spec fn parse_seq(s: Seq<char>, pos: int, depth: int, closer: Option<RuleId>) -> Option<
    SeqOutcome,
>
    decreases MAX_DEPTH - depth, s.len() - pos, 1int,
{
    if depth < 0 || depth > MAX_DEPTH || pos < 0 {
        None
    } else if pos >= s.len() {
        Some(
            SeqOutcome {
                elements: seq![],
                exceptions: seq![],
                safe: true,
                end: s.len() as int,
                closed: false,
            },
        )
    } else if closer is Some && closer_at(s, pos, closer->0) is Some {
        Some(
            SeqOutcome {
                elements: seq![],
                exceptions: seq![],
                safe: true,
                end: closer_at(s, pos, closer->0)->0,
                closed: true,
            },
        )
    } else {
        match step(s, pos, depth, closer) {
            None => None,
            Some(st) => if st.next <= pos || st.next > s.len() {
                None
            } else {
                match parse_seq(s, st.next, depth, closer) {
                    None => None,
                    Some(rest) => Some(
                        SeqOutcome {
                            elements: seq![st.element] + rest.elements,
                            exceptions: st.exceptions + rest.exceptions,
                            safe: st.safe && rest.safe,
                            end: rest.end,
                            closed: rest.closed,
                        },
                    ),
                }
            },
        }
    }
}

/// The one element that starts at `pos`.
pub open spec fn step(s: Seq<char>, pos: int, depth: int, closer: Option<RuleId>) -> Option<
    StepOutcome,
>
    decreases MAX_DEPTH - depth, s.len() - pos, 0int,
{
    if depth < 0 || depth > MAX_DEPTH || pos < 0 {
        None
    } else {
        match open_tag(s, pos) {
            None => {
                let e = text_end(s, pos + 1, closer);
                Some(
                    StepOutcome {
                        element: ElementModel::Text(s.subrange(pos, e)),
                        exceptions: seq![],
                        safe: true,
                        next: e,
                    },
                )
            },
            Some(t) => match lookup(s.subrange(t.name_start as int, t.name_end as int)) {
                None => Some(
                    StepOutcome {
                        element: ElementModel::Text(s.subrange(pos, t.end())),
                        exceptions: seq![exc(ExceptionKind::NoSuchBlock, pos, t.end())],
                        safe: true,
                        next: t.end(),
                    },
                ),
                Some(id) => if depth >= MAX_DEPTH {
                    None
                } else {
                    let r = id.spec_rule();
                    let args = parse_args(
                        s,
                        t.head_start as int,
                        t.head_end as int,
                        r.kind,
                        seq![],
                        seq![],
                    );
                    let head = flag_exceptions(t, r) + args.1;
                    match r.kind {
                        RuleKind::Container(ct) => if find_closer(s, t.end(), id) is None {
                            Some(unclosed(s, t))
                        } else {
                            match parse_seq(s, t.end(), depth + 1, Some(id)) {
                                None => None,
                                Some(body) => if !body.closed {
                                    Some(unclosed(s, t))
                                } else {
                                    Some(
                                        StepOutcome {
                                            element: ElementModel::Container(
                                                ct,
                                                body_elements(r, t.score, body),
                                                args.0,
                                            ),
                                            exceptions: head + body.exceptions,
                                            safe: r.paragraph_safe && body.safe,
                                            next: body.end,
                                        },
                                    )
                                },
                            }
                        },
                        RuleKind::Footnote => match find_closer(s, t.end(), id) {
                            None => Some(unclosed(s, t)),
                            Some(q) => Some(
                                StepOutcome {
                                    element: ElementModel::Footnote(s.subrange(t.end(), q)),
                                    exceptions: head,
                                    safe: r.paragraph_safe,
                                    next: closer_at(s, q, id)->0,
                                },
                            ),
                        },
                        RuleKind::FootnoteBlock => Some(
                            StepOutcome {
                                element: ElementModel::FootnoteBlock(title_of(args.0)),
                                exceptions: head,
                                safe: r.paragraph_safe,
                                next: t.end(),
                            },
                        ),
                    }
                },
            },
        }
    }
}

/// The parse of a whole document.
pub open spec fn parse_document(s: Seq<char>) -> Option<SeqOutcome> {
    parse_seq(s, 0, 0, None)
}


fn name_char(c: char) -> (r: bool)
    ensures
        r == is_name_char(c),
{
    ('a' <= c && c <= 'z') || ('A' <= c && c <= 'Z') || ('0' <= c && c <= '9') || c == '-'
}

fn space_char(c: char) -> (r: bool)
    ensures
        r == is_space(c),
{
    c == ' ' || c == '\t' || c == '\n' || c == '\r'
}

fn scan_run(s: &Vec<char>, i: usize, end: usize, key: bool) -> (r: usize)
    requires
        i <= end <= s@.len(),
    ensures
        r == run_end(s@, i as int, end as int, key),
        i <= r <= end,
{
    let mut j = i;
    loop
        invariant
            i <= j <= end <= s@.len(),
            run_end(s@, j as int, end as int, key) == run_end(s@, i as int, end as int, key),
        decreases end - j,
    {
        if j >= end {
            return j;
        }
        let c = s[j];
        let ok = if key {
            name_char(c) || c == '_'
        } else {
            name_char(c)
        };
        if !ok {
            return j;
        }
        j += 1;
    }
}

fn scan_brackets(s: &Vec<char>, j: usize) -> (r: Option<usize>)
    requires
        j <= s@.len(),
    ensures
        match r {
            Some(k) => find_brackets(s@, j as int) == Some(k as int) && j <= k && k + 1 < s@.len(),
            None => find_brackets(s@, j as int) is None,
        },
{
    let mut k = j;
    loop
        invariant
            j <= k <= s@.len(),
            find_brackets(s@, k as int) == find_brackets(s@, j as int),
        decreases s@.len() - k,
    {
        if s.len() - k < 2 {
            return None;
        }
        if s[k] == ']' && s[k + 1] == ']' {
            return Some(k);
        }
        k += 1;
    }
}

fn scan_open_tag(s: &Vec<char>, p: usize) -> (r: Option<OpenTag>)
    requires
        p <= s@.len(),
    ensures
        r == open_tag(s@, p as int),
        r matches Some(t) ==> p == t.start && p + 2 <= t.name_start < t.name_end <= t.head_start
            <= t.head_end && t.end() <= s@.len(),
{
    if s.len() - p > 1 && s[p] == '[' && s[p + 1] == '[' {
        let star = s.len() - p > 2 && s[p + 2] == '*';
        let ns = if star {
            p + 3
        } else {
            p + 2
        };
        let ne = scan_run(s, ns, s.len(), false);
        if ne == ns {
            None
        } else {
            let score = ne < s.len() && s[ne] == '_';
            let hs = if score {
                ne + 1
            } else {
                ne
            };
            match scan_brackets(s, hs) {
                None => None,
                Some(k) => Some(
                    OpenTag {
                        start: p,
                        name_start: ns,
                        name_end: ne,
                        star,
                        score,
                        head_start: hs,
                        head_end: k,
                        newline: s.len() - k > 2 && s[k + 2] == '\n',
                    },
                ),
            }
        }
    } else {
        None
    }
}

fn scan_closer(s: &Vec<char>, q: usize, id: RuleId) -> (r: Option<usize>)
    requires
        q <= s@.len(),
    ensures
        match r {
            Some(e) => closer_at(s@, q as int, id) == Some(e as int) && q < e <= s@.len(),
            None => closer_at(s@, q as int, id) is None,
        },
{
    if s.len() - q > 2 && s[q] == '[' && s[q + 1] == '[' && s[q + 2] == '/' {
        let ne = scan_run(s, q + 3, s.len(), false);
        if s.len() - ne > 1 && s[ne] == ']' && s[ne + 1] == ']' {
            match lookup_rule(s, q + 3, ne) {
                Some(found) => if found == id {
                    Some(ne + 2)
                } else {
                    None
                },
                None => None,
            }
        } else {
            None
        }
    } else {
        None
    }
}

fn scan_find_closer(s: &Vec<char>, q: usize, id: RuleId) -> (r: Option<usize>)
    requires
        q <= s@.len(),
    ensures
        match r {
            Some(e) => find_closer(s@, q as int, id) == Some(e as int) && q <= e < s@.len()
                && closer_at(s@, e as int, id) is Some,
            None => find_closer(s@, q as int, id) is None,
        },
{
    let mut k = q;
    loop
        invariant
            q <= k <= s@.len(),
            find_closer(s@, k as int, id) == find_closer(s@, q as int, id),
        decreases s@.len() - k,
    {
        if k >= s.len() {
            return None;
        }
        if scan_closer(s, k, id).is_some() {
            return Some(k);
        }
        k += 1;
    }
}

fn scan_stops(s: &Vec<char>, q: usize, closer: Option<RuleId>) -> (r: bool)
    requires
        q <= s@.len(),
    ensures
        r == stops(s@, q as int, closer),
{
    if scan_open_tag(s, q).is_some() {
        return true;
    }
    match closer {
        Some(id) => scan_closer(s, q, id).is_some(),
        None => false,
    }
}

fn scan_text_end(s: &Vec<char>, q: usize, closer: Option<RuleId>) -> (r: usize)
    requires
        q <= s@.len(),
    ensures
        r == text_end(s@, q as int, closer),
        q <= r <= s@.len(),
{
    let mut k = q;
    loop
        invariant
            q <= k <= s@.len(),
            text_end(s@, k as int, closer) == text_end(s@, q as int, closer),
        decreases s@.len() - k,
    {
        if k >= s.len() || scan_stops(s, k, closer) {
            return k;
        }
        k += 1;
    }
}

fn scan_word_end(s: &Vec<char>, i: usize, end: usize) -> (r: usize)
    requires
        i <= end <= s@.len(),
    ensures
        r == word_end(s@, i as int, end as int),
        i <= r <= end,
{
    let mut k = i;
    loop
        invariant
            i <= k <= end <= s@.len(),
            word_end(s@, k as int, end as int) == word_end(s@, i as int, end as int),
        decreases end - k,
    {
        if k >= end || space_char(s[k]) {
            return k;
        }
        k += 1;
    }
}

fn scan_quote(s: &Vec<char>, i: usize, end: usize) -> (r: usize)
    requires
        i <= end <= s@.len(),
    ensures
        r == find_quote(s@, i as int, end as int),
        i <= r <= end,
{
    let mut k = i;
    loop
        invariant
            i <= k <= end <= s@.len(),
            find_quote(s@, k as int, end as int) == find_quote(s@, i as int, end as int),
        decreases end - k,
    {
        if k >= end || s[k] == '"' {
            return k;
        }
        k += 1;
    }
}

fn is_known_argument(kind: RuleKind, s: &Vec<char>, from: usize, to: usize) -> (r: bool)
    requires
        from <= to <= s@.len(),
    ensures
        r == known_argument(kind, s@.subrange(from as int, to as int)),
{
    match kind {
        RuleKind::Container(_) => same_text(s, from, to, "class") || same_text(s, from, to, "id")
            || same_text(s, from, to, "style") || same_text(s, from, to, "title") || same_text(
            s,
            from,
            to,
            "lang",
        ) || same_text(s, from, to, "dir"),
        RuleKind::Footnote => false,
        RuleKind::FootnoteBlock => same_text(s, from, to, "title"),
    }
}

fn contains_key(attrs: &Vec<(String, String)>, key: &String) -> (r: bool)
    ensures
        r == has_key(attrs_model(attrs@), key@),
{
    let mut j: usize = 0;
    while j < attrs.len()
        invariant
            j <= attrs@.len(),
            forall|m: int| 0 <= m < j ==> (#[trigger] attrs@[m]).0@ != key@,
        decreases attrs.len() - j,
    {
        if attrs[j].0 == *key {
            assert(attrs_model(attrs@)[j as int].0 == key@);
            return true;
        }
        j += 1;
    }
    assert forall|m: int| 0 <= m < attrs_model(attrs@).len() implies (#[trigger] attrs_model(
        attrs@,
    )[m]).0 != key@ by {
        assert(attrs@[m].0@ != key@);
    }
    false
}


proof fn lemma_attrs_push(attrs: Seq<(String, String)>, k: String, v: String)
    ensures
        attrs_model(attrs.push((k, v))) == attrs_model(attrs).push((k@, v@)),
{
    assert(attrs_model(attrs.push((k, v))) =~= attrs_model(attrs).push((k@, v@)));
}

fn parse_arguments(s: &Vec<char>, from: usize, end: usize, kind: RuleKind) -> (r: (
    Vec<(String, String)>,
    Vec<ParseException>,
))
    requires
        from <= end <= s@.len(),
    ensures
        (attrs_model(r.0@), r.1@) == parse_args(s@, from as int, end as int, kind, seq![], seq![]),
{
    let mut attrs: Vec<(String, String)> = Vec::new();
    let mut excs: Vec<ParseException> = Vec::new();
    let mut i = from;
    proof {
        assert(attrs_model(attrs@) =~= seq![]);
    }
    while i < end
        invariant
            from <= i <= end <= s@.len(),
            parse_args(s@, i as int, end as int, kind, attrs_model(attrs@), excs@) == parse_args(
                s@,
                from as int,
                end as int,
                kind,
                seq![],
                seq![],
            ),
        decreases end - i,
    {
        if space_char(s[i]) {
            i += 1;
        } else {
            let ke = scan_run(s, i, end, true);
            let q = if end - ke >= 2 {
                scan_quote(s, ke + 2, end)
            } else {
                end
            };
            if ke > i && end - ke >= 2 && s[ke] == '=' && s[ke + 1] == '"' && q < end {
                let key = string_of(s, i, ke);
                let value = string_of(s, ke + 2, q);
                if contains_key(&attrs, &key) {
                    excs.push(ParseException { kind: ExceptionKind::DuplicateArgument, start: i, end: q + 1 });
                } else {
                    if !is_known_argument(kind, s, i, ke) {
                        excs.push(ParseException { kind: ExceptionKind::UnknownArgument, start: i, end: q + 1 });
                    }
                    proof {
                        lemma_attrs_push(attrs@, key, value);
                    }
                    attrs.push((key, value));
                }
                i = q + 1;
            } else {
                let w = scan_word_end(s, i, end);
                let w = if w > i {
                    w
                } else {
                    end
                };
                excs.push(ParseException { kind: ExceptionKind::MalformedArgument, start: i, end: w });
                i = w;
            }
        }
    }
    (attrs, excs)
}

fn flag_exceptions_of(t: OpenTag, r: BlockRule) -> (v: Vec<ParseException>)
    requires
        t.end() <= usize::MAX,
    ensures
        v@ == flag_exceptions(t, r),
{
    let mut v: Vec<ParseException> = Vec::new();
    let end = t.head_end + 2;
    if t.star && !r.accepts_star {
        v.push(ParseException { kind: ExceptionKind::BlockDisallowsStar, start: t.start, end });
    }
    if t.score && !r.accepts_score {
        v.push(ParseException { kind: ExceptionKind::BlockDisallowsScore, start: t.start, end });
    }
    if t.newline && !r.accepts_newlines {
        v.push(ParseException { kind: ExceptionKind::BlockDisallowsNewlines, start: t.start, end });
    }
    assert(v@ =~= flag_exceptions(t, r));
    v
}

fn title_in(attrs: &Vec<(String, String)>) -> (r: Option<String>)
    ensures
        option_model(r) == title_of(attrs_model(attrs@)),
{
    let ghost m = attrs_model(attrs@);
    let mut j: usize = 0;
    assert(m.subrange(0, m.len() as int) =~= m);
    while j < attrs.len()
        invariant
            j <= attrs@.len(),
            m == attrs_model(attrs@),
            title_of(m.subrange(j as int, m.len() as int)) == title_of(m),
        decreases attrs.len() - j,
    {
        assert(m.subrange(j as int, m.len() as int).drop_first() =~= m.subrange(j + 1, m.len() as int));
        if same_str(attrs[j].0.as_str(), "title") {
            return Some(attrs[j].1.clone());
        }
        j += 1;
    }
    None
}


/// A parsed sequence of elements, with where it stopped.
struct SeqResult {
    elements: Vec<Element>,
    exceptions: Vec<ParseException>,
    safe: bool,
    end: usize,
    closed: bool,
}

spec fn seq_model(r: SeqResult) -> SeqOutcome {
    SeqOutcome {
        elements: models_of(r.elements@),
        exceptions: r.exceptions@,
        safe: r.safe,
        end: r.end as int,
        closed: r.closed,
    }
}

/// One parsed element, with where the next one starts.
struct StepResult {
    element: Element,
    exceptions: Vec<ParseException>,
    safe: bool,
    next: usize,
}

spec fn step_model(r: StepResult) -> StepOutcome {
    StepOutcome {
        element: model_of(r.element),
        exceptions: r.exceptions@,
        safe: r.safe,
        next: r.next as int,
    }
}

fn one_element(e: Element) -> (v: Vec<Element>)
    ensures
        models_of(v@) == seq![model_of(e)],
{
    let mut v: Vec<Element> = Vec::new();
    proof {
        lemma_models_push(v@, e);
        assert(models_of(v@) =~= seq![]);
    }
    v.push(e);
    proof {
        assert(models_of(v@) =~= seq![model_of(e)]);
    }
    v
}

fn parse_elements(s: &Vec<char>, pos: usize, depth: usize, closer: Option<RuleId>) -> (r: Option<
    SeqResult,
>)
    requires
        pos <= s@.len(),
        depth <= MAX_DEPTH,
    ensures
        match r {
            None => parse_seq(s@, pos as int, depth as int, closer) is None,
            Some(x) => parse_seq(s@, pos as int, depth as int, closer) == Some(seq_model(x)) && pos
                <= x.end <= s@.len(),
        },
    decreases MAX_DEPTH - depth, s@.len() - pos, 1int,
{
    let mut elements: Vec<Element> = Vec::new();
    let mut exceptions: Vec<ParseException> = Vec::new();
    let mut safe = true;
    let mut i = pos;
    proof {
        assert(models_of(elements@) =~= seq![]);
        assert(exceptions@ =~= seq![]);
        match parse_seq(s@, pos as int, depth as int, closer) {
            Some(rest) => {
                assert(models_of(elements@) + rest.elements =~= rest.elements);
                assert(exceptions@ + rest.exceptions =~= rest.exceptions);
            },
            None => {},
        }
    }
    loop
        invariant
            pos <= i <= s@.len(),
            depth <= MAX_DEPTH,
            match parse_seq(s@, i as int, depth as int, closer) {
                None => parse_seq(s@, pos as int, depth as int, closer) is None,
                Some(rest) => parse_seq(s@, pos as int, depth as int, closer) == Some(
                    SeqOutcome {
                        elements: models_of(elements@) + rest.elements,
                        exceptions: exceptions@ + rest.exceptions,
                        safe: safe && rest.safe,
                        end: rest.end,
                        closed: rest.closed,
                    },
                ),
            },
        decreases s@.len() - i,
    {
        if i >= s.len() {
            proof {
                assert(models_of(elements@) + seq![] =~= models_of(elements@));
                assert(exceptions@ + seq![] =~= exceptions@);
            }
            return Some(SeqResult { elements, exceptions, safe, end: s.len(), closed: false });
        }
        if let Some(id) = closer {
            if let Some(e) = scan_closer(s, i, id) {
                proof {
                    assert(models_of(elements@) + seq![] =~= models_of(elements@));
                    assert(exceptions@ + seq![] =~= exceptions@);
                }
                return Some(SeqResult { elements, exceptions, safe, end: e, closed: true });
            }
        }
        match parse_one(s, i, depth, closer) {
            None => {
                return None;
            },
            Some(st) => {
                let StepResult { element, exceptions: mut step_exceptions, safe: step_safe, next } =
                    st;
                proof {
                    lemma_models_push(elements@, element);
                    match parse_seq(s@, next as int, depth as int, closer) {
                        Some(rest) => {
                            assert(models_of(elements@).push(model_of(element)) + rest.elements
                                =~= models_of(elements@) + (seq![model_of(element)]
                                + rest.elements));
                            assert(exceptions@ + step_exceptions@ + rest.exceptions
                                =~= exceptions@ + (step_exceptions@ + rest.exceptions));
                        },
                        None => {},
                    }
                }
                elements.push(element);
                exceptions.append(&mut step_exceptions);
                safe = safe && step_safe;
                i = next;
            },
        }
    }
}

fn unclosed_block(s: &Vec<char>, t: OpenTag) -> (r: StepResult)
    requires
        t.start <= t.head_end,
        t.end() <= s@.len(),
    ensures
        step_model(r) == unclosed(s@, t),
{
    let len = s.len();
    assert(t.head_end + 2 <= len);
    let end = t.head_end + 2;
    let mut exceptions: Vec<ParseException> = Vec::new();
    exceptions.push(ParseException { kind: ExceptionKind::MissingCloseBlock, start: t.start, end });
    let r = StepResult { element: Element::Text(string_of(s, t.start, end)), exceptions, safe: true, next: end };
    assert(step_model(r).exceptions =~= unclosed(s@, t).exceptions);
    r
}

fn parse_one(s: &Vec<char>, pos: usize, depth: usize, closer: Option<RuleId>) -> (r: Option<
    StepResult,
>)
    requires
        pos < s@.len(),
        depth <= MAX_DEPTH,
    ensures
        match r {
            None => step(s@, pos as int, depth as int, closer) is None,
            Some(x) => step(s@, pos as int, depth as int, closer) == Some(step_model(x)) && pos
                < x.next <= s@.len(),
        },
    decreases MAX_DEPTH - depth, s@.len() - pos, 0int,
{
    let len = s.len();
    let t = match scan_open_tag(s, pos) {
        None => {
            let e = scan_text_end(s, pos + 1, closer);
            return Some(
                StepResult {
                    element: Element::Text(string_of(s, pos, e)),
                    exceptions: Vec::new(),
                    safe: true,
                    next: e,
                },
            );
        },
        Some(t) => t,
    };
    let tag_end = t.head_end + 2;
    let id = match lookup_rule(s, t.name_start, t.name_end) {
        None => {
            let mut exceptions: Vec<ParseException> = Vec::new();
            exceptions.push(ParseException { kind: ExceptionKind::NoSuchBlock, start: pos, end: tag_end });
            return Some(
                StepResult {
                    element: Element::Text(string_of(s, pos, tag_end)),
                    exceptions,
                    safe: true,
                    next: tag_end,
                },
            );
        },
        Some(id) => id,
    };
    if depth >= MAX_DEPTH {
        return None;
    }
    let r = id.rule();
    let (attrs, mut arg_exceptions) = parse_arguments(s, t.head_start, t.head_end, r.kind);
    let mut exceptions = flag_exceptions_of(t, r);
    exceptions.append(&mut arg_exceptions);
    proof {
        lemma_args_keys_unique(s@, t.head_start as int, t.head_end as int, r.kind, seq![], seq![]);
    }
    match r.kind {
        RuleKind::Container(ct) => {
            if scan_find_closer(s, tag_end, id).is_none() {
                return Some(unclosed_block(s, t));
            }
            let body = match parse_elements(s, tag_end, depth + 1, Some(id)) {
                None => {
                    return None;
                },
                Some(body) => body,
            };
            let SeqResult { elements, exceptions: mut body_exceptions, safe, end, closed } = body;
            if !closed {
                return Some(unclosed_block(s, t));
            }
            let ghost body_model = seq_model(SeqResult { elements, exceptions: body_exceptions, safe, end, closed });
            let wrap = r.paragraphs && !(t.score && r.accepts_score) && elements.len() > 0 && safe;
            let no_attrs: Vec<(String, String)> = Vec::new();
            proof {
                assert(attrs_model(no_attrs@) =~= seq![]);
            }
            let children = if wrap {
                one_element(Element::Container(Container::new(ContainerType::Paragraph, elements, no_attrs)))
            } else {
                elements
            };
            proof {
                assert(wrap == wraps(r, t.score, body_model));
            }
            exceptions.append(&mut body_exceptions);
            let element = Element::Container(Container::new(ct, children, attrs));
            Some(StepResult { element, exceptions, safe: r.paragraph_safe && safe, next: end })
        },
        RuleKind::Footnote => {
            match scan_find_closer(s, tag_end, id) {
                None => Some(unclosed_block(s, t)),
                Some(q) => {
                    let next = match scan_closer(s, q, id) {
                        Some(e) => e,
                        None => len,
                    };
                    let element = Element::Footnote(string_of(s, tag_end, q));
                    Some(StepResult { element, exceptions, safe: r.paragraph_safe, next })
                },
            }
        },
        RuleKind::FootnoteBlock => {
            let element = Element::FootnoteBlock(title_in(&attrs));
            Some(StepResult { element, exceptions, safe: r.paragraph_safe, next: tag_end })
        },
    }
}


/// The result of parsing a document: its elements, the recoverable
/// exceptions in document order, and whether the whole is paragraph-safe.
pub struct ParseOutcome {
    pub elements: Vec<Element>,
    pub exceptions: Vec<ParseException>,
    pub paragraph_safe: bool,
}

/// Parses a document.
///
/// Fails only with `RecursionLimitExceeded`, when blocks nest deeper than
/// `MAX_DEPTH`; every other problem is a recoverable exception.
pub fn parse(text: &str) -> (r: Result<ParseOutcome, ParseError>)
    ensures
        match parse_document(text@) {
            None => r == Err::<ParseOutcome, ParseError>(ParseError::RecursionLimitExceeded),
            Some(d) => r matches Ok(o) && models_of(o.elements@) == d.elements && o.exceptions@
                == d.exceptions && o.paragraph_safe == d.safe,
        },
        r matches Ok(o) ==> forest_keys_unique(models_of(o.elements@)),
{
    let s = chars_of(text);
    proof {
        lemma_parse_keys_unique(s@);
    }
    match parse_elements(&s, 0, 0, None) {
        None => Err(ParseError::RecursionLimitExceeded),
        Some(body) => Ok(
            ParseOutcome {
                elements: body.elements,
                exceptions: body.exceptions,
                paragraph_safe: body.safe,
            },
        ),
    }
}


/// The paragraph safety of each element parsed from `pos` on, in order.
pub open spec fn element_safeties(s: Seq<char>, pos: int, depth: int, closer: Option<RuleId>) -> Seq<bool>
    decreases s.len() - pos,
{
    if depth < 0 || depth > MAX_DEPTH || pos < 0 || pos >= s.len() {
        seq![]
    } else if closer is Some && closer_at(s, pos, closer->0) is Some {
        seq![]
    } else {
        match step(s, pos, depth, closer) {
            None => seq![],
            Some(st) => if st.next <= pos || st.next > s.len() {
                seq![]
            } else {
                seq![st.safe] + element_safeties(s, st.next, depth, closer)
            },
        }
    }
}

/// A sequence is paragraph-safe exactly when each of its elements is: a
/// single unsafe element makes the whole sequence unsafe.
pub proof fn lemma_sequence_safety(s: Seq<char>, pos: int, depth: int, closer: Option<RuleId>)
    requires
        parse_seq(s, pos, depth, closer) is Some,
    ensures
        element_safeties(s, pos, depth, closer).len() == parse_seq(s, pos, depth, closer)->0.elements.len(),
        parse_seq(s, pos, depth, closer)->0.safe <==> forall|i: int|
            0 <= i < element_safeties(s, pos, depth, closer).len() ==> #[trigger] element_safeties(
                s,
                pos,
                depth,
                closer,
            )[i],
    decreases s.len() - pos,
{
    let fs = element_safeties(s, pos, depth, closer);
    if depth < 0 || depth > MAX_DEPTH || pos < 0 || pos >= s.len() {
    } else if closer is Some && closer_at(s, pos, closer->0) is Some {
    } else {
        let st = step(s, pos, depth, closer)->0;
        lemma_sequence_safety(s, st.next, depth, closer);
        let rest = element_safeties(s, st.next, depth, closer);
        assert(fs == seq![st.safe] + rest);
        if parse_seq(s, pos, depth, closer)->0.safe {
            assert forall|i: int| 0 <= i < fs.len() implies #[trigger] fs[i] by {
                if i > 0 {
                    assert(fs[i] == rest[i - 1]);
                }
            }
        }
        if forall|i: int| 0 <= i < fs.len() ==> #[trigger] fs[i] {
            assert(fs[0] == st.safe);
            assert forall|i: int| 0 <= i < rest.len() implies #[trigger] rest[i] by {
                assert(fs[i + 1] == rest[i]);
            }
        }
    }
}

/// A container block is paragraph-safe exactly when its rule's default is
/// safe and every element of its body is: one unsafe child makes it unsafe.
pub proof fn lemma_container_safety(
    s: Seq<char>,
    pos: int,
    depth: int,
    closer: Option<RuleId>,
    t: OpenTag,
    id: RuleId,
    ct: ContainerType,
)
    requires
        0 <= pos,
        0 <= depth < MAX_DEPTH,
        open_tag(s, pos) == Some(t),
        lookup(s.subrange(t.name_start as int, t.name_end as int)) == Some(id),
        id.spec_rule().kind == RuleKind::Container(ct),
        parse_seq(s, t.end(), depth + 1, Some(id)) is Some,
        block_closes(s, t, id, depth),
    ensures
        step(s, pos, depth, closer) matches Some(st) && (st.safe <==> (id.spec_rule().paragraph_safe
            && forall|i: int|
            0 <= i < element_safeties(s, t.end(), depth + 1, Some(id)).len()
                ==> #[trigger] element_safeties(s, t.end(), depth + 1, Some(id))[i])),
{
    lemma_sequence_safety(s, t.end(), depth + 1, Some(id));
}

/// Whether the sequence parsed from `q` has an element that starts at `r`.
pub open spec fn reaches(s: Seq<char>, q: int, r: int, depth: int, closer: Option<RuleId>) -> bool
    decreases s.len() - q,
{
    if q == r {
        true
    } else if depth < 0 || depth > MAX_DEPTH || q < 0 || q >= s.len() || q > r {
        false
    } else if closer is Some && closer_at(s, q, closer->0) is Some {
        false
    } else {
        match step(s, q, depth, closer) {
            None => false,
            Some(st) => if st.next <= q || st.next > s.len() {
                false
            } else {
                reaches(s, st.next, r, depth, closer)
            },
        }
    }
}

/// Whether `n` container blocks nest from `p` on, each one followed by a
/// closing tag of its rule and starting an element somewhere in the body of
/// the one before; the first is parsed at `depth`.
pub open spec fn nests(s: Seq<char>, p: int, depth: int, n: nat) -> bool
    decreases n,
{
    n == 0 || match open_tag(s, p) {
        Some(t) => match lookup(s.subrange(t.name_start as int, t.name_end as int)) {
            Some(id) => id.spec_rule().kind is Container && find_closer(s, t.end(), id) is Some
                && exists|r: int|
                #[trigger] reaches(s, t.end(), r, depth + 1, Some(id)) && nests(
                    s,
                    r,
                    depth + 1,
                    (n - 1) as nat,
                ),
            None => false,
        },
        None => false,
    }
}

proof fn lemma_run_nonempty(s: Seq<char>, i: int, end: int, key: bool)
    requires
        run_end(s, i, end, key) != i,
    ensures
        0 <= i < end <= s.len(),
        key ==> is_key_char(s[i]),
        !key ==> is_name_char(s[i]),
{
}

proof fn lemma_reaches_forward(s: Seq<char>, q: int, r: int, depth: int, closer: Option<RuleId>)
    requires
        0 <= q,
        reaches(s, q, r, depth, closer),
    ensures
        q <= r,
    decreases s.len() - q,
{
    if q != r {
        let st = step(s, q, depth, closer)->0;
        lemma_reaches_forward(s, st.next, r, depth, closer);
    }
}

/// A sequence fails when one of its elements fails.
proof fn lemma_reaches_fails(s: Seq<char>, q: int, r: int, depth: int, closer: Option<RuleId>)
    requires
        reaches(s, q, r, depth, closer),
        parse_seq(s, r, depth, closer) is None,
    ensures
        parse_seq(s, q, depth, closer) is None,
    decreases s.len() - q,
{
    if q != r {
        let st = step(s, q, depth, closer)->0;
        lemma_reaches_fails(s, st.next, r, depth, closer);
    }
}

/// Container blocks nested deeper than the limit from `pos` on make the
/// parse from `pos` fail.
pub proof fn lemma_too_deep(s: Seq<char>, pos: int, depth: int, n: nat, closer: Option<RuleId>)
    requires
        0 <= pos,
        0 <= depth <= MAX_DEPTH,
        depth + n > MAX_DEPTH,
        nests(s, pos, depth, n),
    ensures
        parse_seq(s, pos, depth, closer) is None,
    decreases n,
{
    assert(n > 0);
    let t = open_tag(s, pos)->0;
    assert(pos + 1 < s.len());
    let star = pos + 2 < s.len() && s[pos + 2] == '*';
    let ns = if star {
        pos + 3
    } else {
        pos + 2
    };
    lemma_run_nonempty(s, ns, s.len() as int, false);
    assert(s[pos + 2] != '/');
    if let Some(c) = closer {
        assert(closer_at(s, pos, c) is None);
    }
    let id = lookup(s.subrange(t.name_start as int, t.name_end as int))->0;
    if depth < MAX_DEPTH {
        let r = choose|r: int|
            #[trigger] reaches(s, t.end(), r, depth + 1, Some(id)) && nests(
                s,
                r,
                depth + 1,
                (n - 1) as nat,
            );
        lemma_reaches_forward(s, t.end(), r, depth + 1, Some(id));
        lemma_too_deep(s, r, depth + 1, (n - 1) as nat, Some(id));
        lemma_reaches_fails(s, t.end(), r, depth + 1, Some(id));
    }
    assert(step(s, pos, depth, closer) is None);
}

/// Container blocks nested more than `MAX_DEPTH` deep anywhere in a
/// document make the whole parse fail with the fatal condition: no tree and
/// no exceptions come back.
pub proof fn lemma_recursion_limit(s: Seq<char>, r: int)
    requires
        reaches(s, 0, r, 0, None),
        nests(s, r, 0, (MAX_DEPTH + 1) as nat),
    ensures
        parse_document(s) is None,
{
    lemma_reaches_forward(s, 0, r, 0, None);
    lemma_too_deep(s, r, 0, (MAX_DEPTH + 1) as nat, None);
    lemma_reaches_fails(s, 0, r, 0, None);
}

/// Argument parsing only adds to what was gathered before.
pub proof fn lemma_args_grow(
    s: Seq<char>,
    i: int,
    end: int,
    kind: RuleKind,
    attrs: AttrsModel,
    excs: Seq<ParseException>,
)
    ensures
        parse_args(s, i, end, kind, attrs, excs).0.len() >= attrs.len(),
        parse_args(s, i, end, kind, attrs, excs).0.subrange(0, attrs.len() as int) == attrs,
        parse_args(s, i, end, kind, attrs, excs).1.len() >= excs.len(),
        parse_args(s, i, end, kind, attrs, excs).1.subrange(0, excs.len() as int) == excs,
    decreases end - i,
{
    let r = parse_args(s, i, end, kind, attrs, excs);
    if i < 0 || i >= end || end > s.len() {
        assert(r.0.subrange(0, attrs.len() as int) =~= attrs);
        assert(r.1.subrange(0, excs.len() as int) =~= excs);
    } else if is_space(s[i]) {
        lemma_args_grow(s, i + 1, end, kind, attrs, excs);
    } else {
        let ke = run_end(s, i, end, true);
        let q = find_quote(s, ke + 2, end);
        if ke > i && ke + 1 < end && s[ke] == '=' && s[ke + 1] == '"' && ke + 2 <= q < end {
            let key = s.subrange(i, ke);
            let value = s.subrange(ke + 2, q);
            if has_key(attrs, key) {
                let e2 = excs.push(exc(ExceptionKind::DuplicateArgument, i, q + 1));
                lemma_args_grow(s, q + 1, end, kind, attrs, e2);
                assert(r.1.subrange(0, excs.len() as int) =~= r.1.subrange(0, e2.len() as int).subrange(
                    0,
                    excs.len() as int,
                ));
            } else {
                let e2 = if known_argument(kind, key) {
                    excs
                } else {
                    excs.push(exc(ExceptionKind::UnknownArgument, i, q + 1))
                };
                let a2 = attrs.push((key, value));
                lemma_args_grow(s, q + 1, end, kind, a2, e2);
                assert(r.0.subrange(0, attrs.len() as int) =~= r.0.subrange(0, a2.len() as int).subrange(
                    0,
                    attrs.len() as int,
                ));
                assert(r.1.subrange(0, excs.len() as int) =~= r.1.subrange(0, e2.len() as int).subrange(
                    0,
                    excs.len() as int,
                ));
            }
        } else {
            let w = if i < word_end(s, i, end) <= end {
                word_end(s, i, end)
            } else {
                end
            };
            let e2 = excs.push(exc(ExceptionKind::MalformedArgument, i, w));
            lemma_args_grow(s, w, end, kind, attrs, e2);
            assert(r.1.subrange(0, excs.len() as int) =~= r.1.subrange(0, e2.len() as int).subrange(
                0,
                excs.len() as int,
            ));
        }
    }
}

/// An argument whose key the block does not know is kept, with its value,
/// and recorded as an `UnknownArgument` exception.
pub proof fn lemma_unknown_argument(
    s: Seq<char>,
    i: int,
    end: int,
    kind: RuleKind,
    attrs: AttrsModel,
    excs: Seq<ParseException>,
    ke: int,
    q: int,
)
    requires
        0 <= i < end <= s.len(),
        ke == run_end(s, i, end, true),
        q == find_quote(s, ke + 2, end),
        i < ke,
        ke + 2 <= q < end,
        s[ke] == '=',
        s[ke + 1] == '"',
        !has_key(attrs, s.subrange(i, ke)),
        !known_argument(kind, s.subrange(i, ke)),
    ensures
        parse_args(s, i, end, kind, attrs, excs).0.contains((s.subrange(i, ke), s.subrange(ke + 2, q))),
        parse_args(s, i, end, kind, attrs, excs).1.contains(
            exc(ExceptionKind::UnknownArgument, i, q + 1),
        ),
{
    lemma_run_nonempty(s, i, end, true);
    let a2 = attrs.push((s.subrange(i, ke), s.subrange(ke + 2, q)));
    let e2 = excs.push(exc(ExceptionKind::UnknownArgument, i, q + 1));
    lemma_args_grow(s, q + 1, end, kind, a2, e2);
    let r = parse_args(s, i, end, kind, attrs, excs);
    assert(r.0.subrange(0, a2.len() as int)[attrs.len() as int] == a2[attrs.len() as int]);
    assert(r.0[attrs.len() as int] == (s.subrange(i, ke), s.subrange(ke + 2, q)));
    assert(r.1.subrange(0, e2.len() as int)[excs.len() as int] == e2[excs.len() as int]);
    assert(r.1[excs.len() as int] == exc(ExceptionKind::UnknownArgument, i, q + 1));
}


/// What argument parsing from `i` has gathered when it reaches `j`, with
/// `attrs` and `excs` gathered before `i`; `None` when it passes `j` by.
pub open spec fn args_at(
    s: Seq<char>,
    i: int,
    j: int,
    end: int,
    kind: RuleKind,
    attrs: AttrsModel,
    excs: Seq<ParseException>,
) -> Option<(AttrsModel, Seq<ParseException>)>
    decreases end - i,
{
    if i == j {
        Some((attrs, excs))
    } else if i < 0 || i >= end || end > s.len() || i > j {
        None
    } else if is_space(s[i]) {
        args_at(s, i + 1, j, end, kind, attrs, excs)
    } else {
        let ke = run_end(s, i, end, true);
        let q = find_quote(s, ke + 2, end);
        if ke > i && ke + 1 < end && s[ke] == '=' && s[ke + 1] == '"' && ke + 2 <= q < end {
            let key = s.subrange(i, ke);
            let value = s.subrange(ke + 2, q);
            if has_key(attrs, key) {
                args_at(
                    s,
                    q + 1,
                    j,
                    end,
                    kind,
                    attrs,
                    excs.push(exc(ExceptionKind::DuplicateArgument, i, q + 1)),
                )
            } else {
                let excs2 = if known_argument(kind, key) {
                    excs
                } else {
                    excs.push(exc(ExceptionKind::UnknownArgument, i, q + 1))
                };
                args_at(s, q + 1, j, end, kind, attrs.push((key, value)), excs2)
            }
        } else {
            let w = if i < word_end(s, i, end) <= end {
                word_end(s, i, end)
            } else {
                end
            };
            args_at(s, w, j, end, kind, attrs, excs.push(exc(ExceptionKind::MalformedArgument, i, w)))
        }
    }
}

/// The attributes that argument parsing from `i` has gathered when it
/// reaches `j`.
pub open spec fn attrs_before(s: Seq<char>, i: int, j: int, end: int, kind: RuleKind) -> AttrsModel {
    match args_at(s, i, j, end, kind, seq![], seq![]) {
        Some(gathered) => gathered.0,
        None => seq![],
    }
}

proof fn lemma_args_at(
    s: Seq<char>,
    i: int,
    j: int,
    end: int,
    kind: RuleKind,
    attrs: AttrsModel,
    excs: Seq<ParseException>,
)
    requires
        args_at(s, i, j, end, kind, attrs, excs) is Some,
    ensures
        ({
            let (a, e) = args_at(s, i, j, end, kind, attrs, excs)->0;
            parse_args(s, i, end, kind, attrs, excs) == parse_args(s, j, end, kind, a, e)
        }),
    decreases end - i,
{
    if i == j {
    } else if is_space(s[i]) {
        lemma_args_at(s, i + 1, j, end, kind, attrs, excs);
    } else {
        let ke = run_end(s, i, end, true);
        let q = find_quote(s, ke + 2, end);
        if ke > i && ke + 1 < end && s[ke] == '=' && s[ke + 1] == '"' && ke + 2 <= q < end {
            let key = s.subrange(i, ke);
            let value = s.subrange(ke + 2, q);
            if has_key(attrs, key) {
                lemma_args_at(
                    s,
                    q + 1,
                    j,
                    end,
                    kind,
                    attrs,
                    excs.push(exc(ExceptionKind::DuplicateArgument, i, q + 1)),
                );
            } else {
                let excs2 = if known_argument(kind, key) {
                    excs
                } else {
                    excs.push(exc(ExceptionKind::UnknownArgument, i, q + 1))
                };
                lemma_args_at(s, q + 1, j, end, kind, attrs.push((key, value)), excs2);
            }
        } else {
            let w = if i < word_end(s, i, end) <= end {
                word_end(s, i, end)
            } else {
                end
            };
            lemma_args_at(s, w, j, end, kind, attrs, excs.push(exc(ExceptionKind::MalformedArgument, i, w)));
        }
    }
}

/// A container block with an argument, anywhere in its head, whose key the
/// block does not know and which no earlier argument gave, still parses to
/// a container of its rule's type: the argument is kept as an attribute,
/// and an `UnknownArgument` exception is recorded beside it.
pub proof fn lemma_unknown_argument_in_block(
    s: Seq<char>,
    pos: int,
    depth: int,
    closer: Option<RuleId>,
    t: OpenTag,
    id: RuleId,
    ct: ContainerType,
    i: int,
)
    requires
        0 <= pos,
        0 <= depth < MAX_DEPTH,
        open_tag(s, pos) == Some(t),
        lookup(s.subrange(t.name_start as int, t.name_end as int)) == Some(id),
        id.spec_rule().kind == RuleKind::Container(ct),
        step(s, pos, depth, closer) is Some,
        block_closes(s, t, id, depth),
        t.head_start <= i < t.head_end,
        args_at(s, t.head_start as int, i, t.head_end as int, id.spec_rule().kind, seq![], seq![]) is Some,
        run_end(s, i, t.head_end as int, true) > i,
        !has_key(
            attrs_before(s, t.head_start as int, i, t.head_end as int, id.spec_rule().kind),
            s.subrange(i, run_end(s, i, t.head_end as int, true)),
        ),
        !known_argument(id.spec_rule().kind, s.subrange(i, run_end(s, i, t.head_end as int, true))),
        run_end(s, i, t.head_end as int, true) + 1 < t.head_end,
        s[run_end(s, i, t.head_end as int, true)] == '=',
        s[run_end(s, i, t.head_end as int, true) + 1] == '"',
        find_quote(s, run_end(s, i, t.head_end as int, true) + 2, t.head_end as int) < t.head_end,
    ensures
        ({
            let ke = run_end(s, i, t.head_end as int, true);
            let q = find_quote(s, ke + 2, t.head_end as int);
            let st = step(s, pos, depth, closer)->0;
            &&& st.element matches ElementModel::Container(c, _, attrs) && c == ct && attrs.contains(
                (s.subrange(i, ke), s.subrange(ke + 2, q)),
            )
            &&& st.exceptions.contains(exc(ExceptionKind::UnknownArgument, i, q + 1))
        }),
{
    let ke = run_end(s, i, t.head_end as int, true);
    let q = find_quote(s, ke + 2, t.head_end as int);
    let kind = id.spec_rule().kind;
    let (a, e0) = args_at(s, t.head_start as int, i, t.head_end as int, kind, seq![], seq![])->0;
    lemma_quote_bounds(s, ke + 2, t.head_end as int);
    lemma_args_at(s, t.head_start as int, i, t.head_end as int, kind, seq![], seq![]);
    lemma_unknown_argument(s, i, t.head_end as int, kind, a, e0, ke, q);
    let args = parse_args(s, t.head_start as int, t.head_end as int, kind, seq![], seq![]);
    let e = exc(ExceptionKind::UnknownArgument, i, q + 1);
    let k = choose|k: int| 0 <= k < args.1.len() && args.1[k] == e;
    let st = step(s, pos, depth, closer)->0;
    let head = flag_exceptions(t, id.spec_rule()) + args.1;
    assert(head[flag_exceptions(t, id.spec_rule()).len() + k] == e);
    let body = parse_seq(s, t.end(), depth + 1, Some(id))->0;
    assert(st.exceptions == head + body.exceptions);
    assert(st.exceptions[flag_exceptions(t, id.spec_rule()).len() + k] == e);
}

proof fn lemma_quote_bounds(s: Seq<char>, i: int, end: int)
    requires
        0 <= i,
    ensures
        i <= find_quote(s, i, end),
    decreases end - i,
{
    if 0 <= i < end && end <= s.len() && s[i] != '"' {
        lemma_quote_bounds(s, i + 1, end);
    }
}


/// Every container in the element has attributes with unique keys.
pub open spec fn tree_keys_unique(e: ElementModel) -> bool
    decreases e,
{
    match e {
        ElementModel::Container(_, children, attrs) => keys_unique(attrs) && forest_keys_unique(children),
        _ => true,
    }
}

/// Every container in the elements has attributes with unique keys.
pub open spec fn forest_keys_unique(es: Seq<ElementModel>) -> bool
    decreases es,
{
    if es.len() == 0 {
        true
    } else {
        proof {
            vstd::seq::axiom_seq_index_decreases(es, 0);
            vstd::seq::axiom_seq_subrange_decreases(es, 1, es.len() as int);
        }
        tree_keys_unique(es[0]) && forest_keys_unique(es.drop_first())
    }
}

/// Argument parsing keeps keys unique.
pub proof fn lemma_args_keys_unique(
    s: Seq<char>,
    i: int,
    end: int,
    kind: RuleKind,
    attrs: AttrsModel,
    excs: Seq<ParseException>,
)
    requires
        keys_unique(attrs),
    ensures
        keys_unique(parse_args(s, i, end, kind, attrs, excs).0),
    decreases end - i,
{
    if i < 0 || i >= end || end > s.len() {
    } else if is_space(s[i]) {
        lemma_args_keys_unique(s, i + 1, end, kind, attrs, excs);
    } else {
        let ke = run_end(s, i, end, true);
        let q = find_quote(s, ke + 2, end);
        if ke > i && ke + 1 < end && s[ke] == '=' && s[ke + 1] == '"' && ke + 2 <= q < end {
            let key = s.subrange(i, ke);
            let value = s.subrange(ke + 2, q);
            if has_key(attrs, key) {
                lemma_args_keys_unique(
                    s,
                    q + 1,
                    end,
                    kind,
                    attrs,
                    excs.push(exc(ExceptionKind::DuplicateArgument, i, q + 1)),
                );
            } else {
                let e2 = if known_argument(kind, key) {
                    excs
                } else {
                    excs.push(exc(ExceptionKind::UnknownArgument, i, q + 1))
                };
                let a2 = attrs.push((key, value));
                assert forall|a: int, b: int| 0 <= a < b < a2.len() implies (#[trigger] a2[a]).0 != (
                #[trigger] a2[b]).0 by {
                    if b == attrs.len() {
                        assert(a2[a] == attrs[a]);
                    } else {
                        assert(a2[a] == attrs[a] && a2[b] == attrs[b]);
                    }
                }
                lemma_args_keys_unique(s, q + 1, end, kind, a2, e2);
            }
        } else {
            let w = if i < word_end(s, i, end) <= end {
                word_end(s, i, end)
            } else {
                end
            };
            lemma_args_keys_unique(
                s,
                w,
                end,
                kind,
                attrs,
                excs.push(exc(ExceptionKind::MalformedArgument, i, w)),
            );
        }
    }
}

proof fn lemma_seq_keys_unique(s: Seq<char>, pos: int, depth: int, closer: Option<RuleId>)
    ensures
        parse_seq(s, pos, depth, closer) matches Some(o) ==> forest_keys_unique(o.elements),
    decreases MAX_DEPTH - depth, s.len() - pos, 1int,
{
    if depth < 0 || depth > MAX_DEPTH || pos < 0 || pos >= s.len() {
    } else if closer is Some && closer_at(s, pos, closer->0) is Some {
    } else {
        lemma_step_keys_unique(s, pos, depth, closer);
        if let Some(st) = step(s, pos, depth, closer) {
            if pos < st.next <= s.len() {
                lemma_seq_keys_unique(s, st.next, depth, closer);
                if let Some(rest) = parse_seq(s, st.next, depth, closer) {
                    let es = seq![st.element] + rest.elements;
                    assert(es.drop_first() =~= rest.elements);
                    assert(es[0] == st.element);
                }
            }
        }
    }
}

proof fn lemma_step_keys_unique(s: Seq<char>, pos: int, depth: int, closer: Option<RuleId>)
    ensures
        step(s, pos, depth, closer) matches Some(st) ==> tree_keys_unique(st.element),
    decreases MAX_DEPTH - depth, s.len() - pos, 0int,
{
    if depth < 0 || depth > MAX_DEPTH || pos < 0 {
    } else if let Some(t) = open_tag(s, pos) {
        if let Some(id) = lookup(s.subrange(t.name_start as int, t.name_end as int)) {
            if depth < MAX_DEPTH {
                let r = id.spec_rule();
                lemma_args_keys_unique(s, t.head_start as int, t.head_end as int, r.kind, seq![], seq![]);
                if let RuleKind::Container(_) = r.kind {
                    lemma_seq_keys_unique(s, t.end(), depth + 1, Some(id));
                    if let Some(body) = parse_seq(s, t.end(), depth + 1, Some(id)) {
                        let p = ElementModel::Container(ContainerType::Paragraph, body.elements, seq![]);
                        assert(tree_keys_unique(p));
                        assert(seq![p].drop_first() =~= Seq::<ElementModel>::empty());
                        assert(forest_keys_unique(Seq::<ElementModel>::empty()));
                        assert(seq![p][0] == p);
                        assert(forest_keys_unique(seq![p]));
                    }
                }
            }
        }
    }
}

/// Every container of a parsed document has attributes with unique keys.
pub proof fn lemma_parse_keys_unique(s: Seq<char>)
    ensures
        parse_document(s) matches Some(d) ==> forest_keys_unique(d.elements),
{
    lemma_seq_keys_unique(s, 0, 0, None);
}

} // verus!
