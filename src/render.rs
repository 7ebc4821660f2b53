//! The HTML renderer: one walk over the element tree, with footnote bodies
//! gathered on the way and footnote lists filled in once the walk is over.

use vstd::prelude::*;
use crate::element::{AttrsModel, Element, ElementModel, attrs_model, lemma_models_push, models_of, model_of, option_model};
use crate::parse::known_argument;
use crate::rule::RuleKind;
use crate::element::ContainerType;
use crate::text::{chars_of, decimal, escape, push_decimal, push_escaped, same_str};

verus! {

/// A localized string: the text of `key` in `locale`.
pub struct Message {
    pub locale: String,
    pub key: String,
    pub value: String,
}

/// The localized strings that rendering looks up.
pub struct MessageCatalog {
    pub messages: Vec<Message>,
}

/// The text of `key` in `locale`: the first message that matches both.
pub open spec fn lookup_message(ms: Seq<Message>, locale: Seq<char>, key: Seq<char>) -> Option<
    Seq<char>,
>
    decreases ms.len(),
{
    if ms.len() == 0 {
        None
    } else if ms[0].locale@ == locale && ms[0].key@ == key {
        Some(ms[0].value@)
    } else {
        lookup_message(ms.drop_first(), locale, key)
    }
}

/// The text of `key` in `locale`, or `default` when the catalog has none.
pub open spec fn message_or(ms: Seq<Message>, locale: Seq<char>, key: Seq<char>, default: Seq<char>) -> Seq<char> {
    match lookup_message(ms, locale, key) {
        Some(v) => v,
        None => default,
    }
}

impl MessageCatalog {
    /// An empty catalog.
    pub fn new() -> (r: MessageCatalog)
        ensures
            r.messages@.len() == 0,
    {
        MessageCatalog { messages: Vec::new() }
    }

    /// Adds a message; an earlier one for the same locale and key wins.
    pub fn add(&mut self, locale: &str, key: &str, value: &str)
        ensures
            final(self).messages@.len() == old(self).messages@.len() + 1,
            final(self).messages@.drop_last() == old(self).messages@,
            final(self).messages@.last().locale@ == locale@,
            final(self).messages@.last().key@ == key@,
            final(self).messages@.last().value@ == value@,
    {
        self.messages.push(
            Message {
                locale: String::from_str(locale),
                key: String::from_str(key),
                value: String::from_str(value),
            },
        );
        assert(self.messages@.drop_last() =~= old(self).messages@);
    }

    /// The text of `key` in `locale`, if the catalog has it.
    pub fn get_message(&self, locale: &str, key: &str) -> (r: Option<String>)
        ensures
            option_model(r) == lookup_message(self.messages@, locale@, key@),
    {
        let ghost ms = self.messages@;
        let mut j: usize = 0;
        assert(ms.subrange(0, ms.len() as int) =~= ms);
        while j < self.messages.len()
            invariant
                j <= ms.len(),
                ms == self.messages@,
                lookup_message(ms.subrange(j as int, ms.len() as int), locale@, key@)
                    == lookup_message(ms, locale@, key@),
            decreases self.messages.len() - j,
        {
            assert(ms.subrange(j as int, ms.len() as int).drop_first() =~= ms.subrange(
                j + 1,
                ms.len() as int,
            ));
            let m = &self.messages[j];
            if same_str(m.locale.as_str(), locale) && same_str(m.key.as_str(), key) {
                return Some(m.value.clone());
            }
            j += 1;
        }
        None
    }

    /// The text of `key` in `locale`, or `default`.
    pub fn message_or(&self, locale: &str, key: &str, default: &str) -> (r: String)
        ensures
            r@ == message_or(self.messages@, locale@, key@, default@),
    {
        match self.get_message(locale, key) {
            Some(v) => v,
            None => String::from_str(default),
        }
    }
}


/// The message key of the word in a footnote marker's label.
pub const FOOTNOTE_KEY: &'static str = "footnote";
/// The message key of a footnote list's default title.
pub const FOOTNOTE_BLOCK_TITLE_KEY: &'static str = "footnote-block-title";

/// The word used when the catalog has no `footnote` message.
pub open spec fn default_footnote_word() -> Seq<char> {
    "Footnote"@
}

/// The title used when the catalog has no `footnote-block-title` message.
pub open spec fn default_footnote_title() -> Seq<char> {
    "Footnotes"@
}

/// Whether an attribute key is rendered under its own name; any other key
/// is rendered inert, under a `data-` prefix.
pub open spec fn is_plain_attribute(key: Seq<char>) -> bool {
    key == "class"@ || key == "id"@ || key == "style"@ || key == "title"@ || key == "lang"@ || key
        == "dir"@
}

/// A character allowed in an attribute name.
pub open spec fn is_attr_name_char(c: char) -> bool {
    ('a' <= c && c <= 'z') || ('A' <= c && c <= 'Z') || ('0' <= c && c <= '9') || c == '-' || c
        == '_'
}

/// `k` with each character that an attribute name cannot hold replaced by `-`.
pub open spec fn attr_name(k: Seq<char>) -> Seq<char>
    decreases k.len(),
{
    if k.len() == 0 {
        seq![]
    } else {
        attr_name(k.drop_last()).push(
            if is_attr_name_char(k.last()) {
                k.last()
            } else {
                '-'
            },
        )
    }
}

pub open spec fn attr_html(k: Seq<char>, v: Seq<char>) -> Seq<char> {
    (if is_plain_attribute(k) {
        " "@
    } else {
        " data-"@
    }) + attr_name(k) + "=\""@ + escape(v) + "\""@
}

pub open spec fn attrs_html(a: AttrsModel) -> Seq<char>
    decreases a.len(),
{
    if a.len() == 0 {
        seq![]
    } else {
        attrs_html(a.drop_last()) + attr_html(a.last().0, a.last().1)
    }
}

/// The label of footnote `i`: the localized word, the index and a period.
pub open spec fn footnote_label(word: Seq<char>, i: nat) -> Seq<char> {
    escape(word) + " "@ + decimal(i) + "."@
}

/// The inline marker of footnote `i`, with its tooltip.
pub open spec fn footnote_ref_html(i: nat, word: Seq<char>, body: Seq<char>) -> Seq<char> {
    "<span class=\"wj-footnote-ref\"><button is=\"wj-footnote-ref-marker\" class=\"wj-footnote-ref-marker\" type=\"button\" role=\"link\" aria-label=\""@
        + footnote_label(word, i) + "\" data-footnote-ref-id=\"wj-footnote-ref-"@ + decimal(i)
        + "\" data-footnote-content-id=\"wj-footnote-"@ + decimal(i) + "\">"@ + decimal(i)
        + "</button><span class=\"wj-footnote-ref-tooltip\" aria-hidden=\"true\"><span class=\"wj-footnote-ref-tooltip-label\">"@
        + footnote_label(word, i) + "</span><span class=\"wj-footnote-ref-contents\">"@ + escape(
        body,
    ) + "</span></span></span>"@
}

/// The list item of footnote `i`.
pub open spec fn footnote_item_html(i: nat, body: Seq<char>) -> Seq<char> {
    "<li class=\"wj-footnote\" id=\"wj-footnote-"@ + decimal(i)
        + "\"><a href=\"javascript:;\" onclick=\"WIKIJUMP.page.utils.scrollToFootnote('wj-footnote-ref-"@
        + decimal(i) + "')\">"@ + decimal(i)
        + "<span class=\"wj-footnote-sep\">.</span></a><div class=\"wj-footnote-contents\">"@
        + escape(body) + "</div></li>"@
}

/// The items of all footnotes, numbered from 1.
pub open spec fn footnote_items_html(fs: Seq<Seq<char>>) -> Seq<char>
    decreases fs.len(),
{
    if fs.len() == 0 {
        seq![]
    } else {
        footnote_items_html(fs.drop_last()) + footnote_item_html(fs.len(), fs.last())
    }
}

/// A footnote list with its title.
pub open spec fn footnote_list_html(title: Seq<char>, fs: Seq<Seq<char>>) -> Seq<char> {
    "<div is=\"wj-footnotes-list\" class=\"wj-footnotes-list\"><div class=\"wj-title\">"@ + escape(
        title,
    ) + "</div><ol>"@ + footnote_items_html(fs) + "</ol></div>"@
}

/// The state of a render pass.
pub struct RenderModel {
    /// For each footnote list met so far: the output before it, and its title.
    pub deferred: Seq<(Seq<char>, Seq<char>)>,
    /// The output since the last footnote list.
    pub current: Seq<char>,
    /// The footnote bodies met so far; footnote `i` is at `i - 1`.
    pub footnotes: Seq<Seq<char>>,
}

/// The mutable state of one render pass.
pub struct RenderContext<'a> {
    pub catalog: &'a MessageCatalog,
    pub locale: &'a str,
    pub deferred: Vec<(String, String)>,
    pub current: String,
    pub footnotes: Vec<String>,
}

impl<'a> RenderContext<'a> {
    pub open spec fn model(&self) -> RenderModel {
        RenderModel {
            deferred: self.deferred@.map_values(|p: (String, String)| (p.0@, p.1@)),
            current: self.current@,
            footnotes: self.footnotes@.map_values(|f: String| f@),
        }
    }

    /// A fresh context: no output, no footnotes.
    pub fn new(catalog: &'a MessageCatalog, locale: &'a str) -> (r: RenderContext<'a>)
        ensures
            r.catalog == catalog,
            r.locale == locale,
            r.model().deferred.len() == 0,
            r.model().current.len() == 0,
            r.model().footnotes.len() == 0,
    {
        RenderContext {
            catalog,
            locale,
            deferred: Vec::new(),
            current: String::new(),
            footnotes: Vec::new(),
        }
    }

    /// The index the next footnote reference receives.
    pub fn next_footnote_index(&self) -> (r: usize)
        requires
            self.footnotes@.len() < usize::MAX,
        ensures
            r == self.footnotes@.len() + 1,
    {
        self.footnotes.len() + 1
    }
}

/// What a footnote reference does to the render state.
pub open spec fn footnote_step(st: RenderModel, word: Seq<char>, body: Seq<char>) -> RenderModel {
    RenderModel {
        current: st.current + footnote_ref_html(st.footnotes.len() + 1, word, body),
        footnotes: st.footnotes.push(body),
        ..st
    }
}

/// What a footnote list does to the render state: the output so far is set
/// aside, to be followed by the list once all footnotes are known.
pub open spec fn footnote_block_step(st: RenderModel, title: Seq<char>) -> RenderModel {
    RenderModel { deferred: st.deferred.push((st.current, title)), current: seq![], ..st }
}

/// The final output of a render state.
pub open spec fn assembled(deferred: Seq<(Seq<char>, Seq<char>)>, fs: Seq<Seq<char>>) -> Seq<char>
    decreases deferred.len(),
{
    if deferred.len() == 0 {
        seq![]
    } else {
        assembled(deferred.drop_last(), fs) + deferred.last().0 + footnote_list_html(
            deferred.last().1,
            fs,
        )
    }
}

pub open spec fn output_of(st: RenderModel) -> Seq<char> {
    assembled(st.deferred, st.footnotes) + st.current
}

/// What rendering one element does to the state.
pub open spec fn render_element(e: ElementModel, st: RenderModel, ms: Seq<Message>, locale: Seq<char>) -> RenderModel
    decreases e,
{
    match e {
        ElementModel::Text(t) => RenderModel { current: st.current + escape(t), ..st },
        ElementModel::Container(ct, children, attrs) => {
            let opened = RenderModel {
                current: st.current + "<"@ + ct.spec_html_tag() + attrs_html(attrs) + ">"@,
                ..st
            };
            let inner = render_elements(children, opened, ms, locale);
            RenderModel { current: inner.current + "</"@ + ct.spec_html_tag() + ">"@, ..inner }
        },
        ElementModel::Footnote(body) => footnote_step(
            st,
            message_or(ms, locale, FOOTNOTE_KEY@, default_footnote_word()),
            body,
        ),
        ElementModel::FootnoteBlock(title) => footnote_block_step(
            st,
            match title {
                Some(t) => t,
                None => message_or(ms, locale, FOOTNOTE_BLOCK_TITLE_KEY@, default_footnote_title()),
            },
        ),
    }
}

/// What rendering a sequence of elements, in order, does to the state.
pub open spec fn render_elements(es: Seq<ElementModel>, st: RenderModel, ms: Seq<Message>, locale: Seq<char>) -> RenderModel
    decreases es,
{
    if es.len() == 0 {
        st
    } else {
        proof {
            vstd::seq::axiom_seq_index_decreases(es, es.len() - 1);
            vstd::seq::axiom_seq_subrange_decreases(es, 0, es.len() - 1);
        }
        render_element(es.last(), render_elements(es.drop_last(), st, ms, locale), ms, locale)
    }
}


fn plain_attribute(k: &str) -> (r: bool)
    ensures
        r == is_plain_attribute(k@),
{
    same_str(k, "class") || same_str(k, "id") || same_str(k, "style") || same_str(k, "title")
        || same_str(k, "lang") || same_str(k, "dir")
}

fn push_attr_name(out: &mut String, k: &str)
    ensures
        final(out)@ == old(out)@ + attr_name(k@),
{
    let v = chars_of(k);
    let mut i: usize = 0;
    while i < v.len()
        invariant
            i <= v@.len(),
            v@ == k@,
            out@ == old(out)@ + attr_name(v@.subrange(0, i as int)),
        decreases v.len() - i,
    {
        let c = v[i];
        if ('a' <= c && c <= 'z') || ('A' <= c && c <= 'Z') || ('0' <= c && c <= '9') || c == '-'
            || c == '_' {
            out.push(c);
        } else {
            out.push('-');
        }
        assert(v@.subrange(0, i + 1).drop_last() =~= v@.subrange(0, i as int));
        i += 1;
        assert(out@ =~= old(out)@ + attr_name(v@.subrange(0, i as int)));
    }
    assert(v@.subrange(0, i as int) =~= k@);
}

fn push_attrs(out: &mut String, attrs: &Vec<(String, String)>)
    ensures
        final(out)@ == old(out)@ + attrs_html(attrs_model(attrs@)),
{
    let ghost m = attrs_model(attrs@);
    let mut i: usize = 0;
    while i < attrs.len()
        invariant
            i <= attrs@.len(),
            m == attrs_model(attrs@),
            out@ == old(out)@ + attrs_html(m.subrange(0, i as int)),
        decreases attrs.len() - i,
    {
        let k = attrs[i].0.as_str();
        if plain_attribute(k) {
            out.append(" ");
        } else {
            out.append(" data-");
        }
        push_attr_name(out, k);
        out.append("=\"");
        push_escaped(out, attrs[i].1.as_str());
        out.append("\"");
        assert(m.subrange(0, i + 1).drop_last() =~= m.subrange(0, i as int));
        i += 1;
        assert(out@ =~= old(out)@ + attrs_html(m.subrange(0, i as int)));
    }
    assert(m.subrange(0, i as int) =~= m);
}

/// Renders a footnote reference: it takes the next index, records the body
/// under it, and writes the numbered marker.
pub fn render_footnote(ctx: &mut RenderContext, body: &str)
    ensures
        final(ctx).catalog == old(ctx).catalog,
        final(ctx).locale == old(ctx).locale,
        final(ctx).model() == footnote_step(
            old(ctx).model(),
            message_or(old(ctx).catalog.messages@, old(ctx).locale@, FOOTNOTE_KEY@, default_footnote_word()),
            body@,
        ),
{
    let word = ctx.catalog.message_or(ctx.locale, FOOTNOTE_KEY, "Footnote");
    ctx.footnotes.push(String::from_str(body));
    let index = ctx.footnotes.len();
    let out = &mut ctx.current;
    out.append(
        "<span class=\"wj-footnote-ref\"><button is=\"wj-footnote-ref-marker\" class=\"wj-footnote-ref-marker\" type=\"button\" role=\"link\" aria-label=\"",
    );
    push_escaped(out, word.as_str());
    out.append(" ");
    push_decimal(out, index);
    out.append(".");
    out.append("\" data-footnote-ref-id=\"wj-footnote-ref-");
    push_decimal(out, index);
    out.append("\" data-footnote-content-id=\"wj-footnote-");
    push_decimal(out, index);
    out.append("\">");
    push_decimal(out, index);
    out.append(
        "</button><span class=\"wj-footnote-ref-tooltip\" aria-hidden=\"true\"><span class=\"wj-footnote-ref-tooltip-label\">",
    );
    push_escaped(out, word.as_str());
    out.append(" ");
    push_decimal(out, index);
    out.append(".");
    out.append("</span><span class=\"wj-footnote-ref-contents\">");
    push_escaped(out, body);
    out.append("</span></span></span>");
    proof {
        let st = old(ctx).model();
        assert(ctx.footnotes@.map_values(|f: String| f@) =~= st.footnotes.push(body@));
        assert(ctx.current@ =~= st.current + footnote_ref_html(index as nat, word@, body@));
        assert(ctx.model() =~= footnote_step(st, word@, body@));
    }
}


/// Renders a footnote list where it stands: the output so far is set aside,
/// and the list, with every footnote of the pass, is filled in at the end.
/// Without a title the localized default is used. A document may hold
/// several lists; each of them holds every footnote.
pub fn render_footnote_block(ctx: &mut RenderContext, title: Option<&str>)
    ensures
        final(ctx).catalog == old(ctx).catalog,
        final(ctx).locale == old(ctx).locale,
        final(ctx).model() == footnote_block_step(
            old(ctx).model(),
            match title {
                Some(t) => t@,
                None => message_or(
                    old(ctx).catalog.messages@,
                    old(ctx).locale@,
                    FOOTNOTE_BLOCK_TITLE_KEY@,
                    default_footnote_title(),
                ),
            },
        ),
{
    let title = match title {
        Some(t) => String::from_str(t),
        None => ctx.catalog.message_or(ctx.locale, FOOTNOTE_BLOCK_TITLE_KEY, "Footnotes"),
    };
    let before = ctx.current.clone();
    ctx.deferred.push((before, title));
    ctx.current = String::new();
    proof {
        let st = old(ctx).model();
        assert(ctx.deferred@.map_values(|p: (String, String)| (p.0@, p.1@)) =~= st.deferred.push(
            (st.current, title@),
        ));
        assert(ctx.current@ =~= seq![]);
    }
}

fn render_one(e: &Element, ctx: &mut RenderContext)
    ensures
        final(ctx).catalog == old(ctx).catalog,
        final(ctx).locale == old(ctx).locale,
        final(ctx).model() == render_element(
            model_of(*e),
            old(ctx).model(),
            old(ctx).catalog.messages@,
            old(ctx).locale@,
        ),
    decreases e,
{
    match e {
        Element::Text(t) => {
            push_escaped(&mut ctx.current, t.as_str());
        },
        Element::Container(c) => {
            let tag = c.ctype.html_tag();
            ctx.current.append("<");
            ctx.current.append(tag);
            push_attrs(&mut ctx.current, &c.attributes);
            ctx.current.append(">");
            let ghost opened = ctx.model();
            render_into(&c.elements, ctx);
            ctx.current.append("</");
            ctx.current.append(tag);
            ctx.current.append(">");
            proof {
                let st = old(ctx).model();
                assert(opened =~= RenderModel {
                    current: st.current + "<"@ + c.ctype.spec_html_tag() + attrs_html(attrs_model(c.attributes@)) + ">"@,
                    ..st
                });
            }
        },
        Element::Footnote(body) => {
            render_footnote(ctx, body.as_str());
        },
        Element::FootnoteBlock(title) => {
            match title {
                Some(t) => render_footnote_block(ctx, Some(t.as_str())),
                None => render_footnote_block(ctx, None),
            }
        },
    }
}

/// Renders elements, in order, into an existing render pass.
pub fn render_into(es: &Vec<Element>, ctx: &mut RenderContext)
    ensures
        final(ctx).catalog == old(ctx).catalog,
        final(ctx).locale == old(ctx).locale,
        final(ctx).model() == render_elements(
            models_of(es@),
            old(ctx).model(),
            old(ctx).catalog.messages@,
            old(ctx).locale@,
        ),
    decreases es,
{
    let mut i: usize = 0;
    proof {
        assert(es@.subrange(0, 0) =~= seq![]);
    }
    while i < es.len()
        invariant
            i <= es@.len(),
            ctx.catalog == old(ctx).catalog,
            ctx.locale == old(ctx).locale,
            ctx.model() == render_elements(
                models_of(es@.subrange(0, i as int)),
                old(ctx).model(),
                old(ctx).catalog.messages@,
                old(ctx).locale@,
            ),
        decreases es.len() - i,
    {
        proof {
            vstd::std_specs::vec::axiom_vec_index_decreases(*es, i as int);
            assert(es@.subrange(0, i + 1) =~= es@.subrange(0, i as int).push(es@[i as int]));
            lemma_models_push(es@.subrange(0, i as int), es@[i as int]);
            assert(models_of(es@.subrange(0, i + 1)).drop_last() =~= models_of(es@.subrange(0, i as int)));
        }
        render_one(&es[i], ctx);
        i += 1;
    }
    assert(es@.subrange(0, i as int) =~= es@);
}

fn push_footnote_list(out: &mut String, title: &str, footnotes: &Vec<String>)
    ensures
        final(out)@ == old(out)@ + footnote_list_html(title@, footnotes@.map_values(|f: String| f@)),
{
    let ghost fs = footnotes@.map_values(|f: String| f@);
    out.append("<div is=\"wj-footnotes-list\" class=\"wj-footnotes-list\"><div class=\"wj-title\">");
    push_escaped(out, title);
    out.append("</div><ol>");
    let ghost start = out@;
    let mut i: usize = 0;
    assert(fs.subrange(0, 0) =~= seq![]);
    while i < footnotes.len()
        invariant
            i <= footnotes@.len(),
            fs == footnotes@.map_values(|f: String| f@),
            out@ == start + footnote_items_html(fs.subrange(0, i as int)),
        decreases footnotes.len() - i,
    {
        let index = i + 1;
        out.append("<li class=\"wj-footnote\" id=\"wj-footnote-");
        push_decimal(out, index);
        out.append("\"><a href=\"javascript:;\" onclick=\"WIKIJUMP.page.utils.scrollToFootnote('wj-footnote-ref-");
        push_decimal(out, index);
        out.append("')\">");
        push_decimal(out, index);
        out.append("<span class=\"wj-footnote-sep\">.</span></a><div class=\"wj-footnote-contents\">");
        push_escaped(out, footnotes[i].as_str());
        out.append("</div></li>");
        proof {
            assert(fs.subrange(0, i + 1).drop_last() =~= fs.subrange(0, i as int));
            assert(fs.subrange(0, i + 1).last() == footnotes@[i as int]@);
        }
        i += 1;
        assert(out@ =~= start + footnote_items_html(fs.subrange(0, i as int)));
    }
    assert(fs.subrange(0, i as int) =~= fs);
    out.append("</ol></div>");
    assert(out@ =~= old(out)@ + footnote_list_html(title@, fs));
}

/// The output of a finished render pass.
pub fn finish(ctx: &RenderContext) -> (r: String)
    ensures
        r@ == output_of(ctx.model()),
{
    let ghost m = ctx.model();
    let mut out = String::new();
    let mut k: usize = 0;
    assert(m.deferred.subrange(0, 0) =~= seq![]);
    while k < ctx.deferred.len()
        invariant
            k <= ctx.deferred@.len(),
            m == ctx.model(),
            out@ == assembled(m.deferred.subrange(0, k as int), m.footnotes),
        decreases ctx.deferred.len() - k,
    {
        out.append(ctx.deferred[k].0.as_str());
        push_footnote_list(&mut out, ctx.deferred[k].1.as_str(), &ctx.footnotes);
        proof {
            assert(m.deferred.subrange(0, k + 1).drop_last() =~= m.deferred.subrange(0, k as int));
        }
        k += 1;
        assert(out@ =~= assembled(m.deferred.subrange(0, k as int), m.footnotes));
    }
    assert(m.deferred.subrange(0, k as int) =~= m.deferred);
    out.append(ctx.current.as_str());
    out
}

/// The result of rendering: the HTML, and the footnote bodies in index order.
pub struct RenderOutput {
    pub html: String,
    pub footnotes: Vec<String>,
}

pub open spec fn initial_state() -> RenderModel {
    RenderModel { deferred: seq![], current: seq![], footnotes: seq![] }
}

/// Renders elements to HTML in one pass, looking localized strings up in
/// `catalog` for `locale`.
pub fn render(elements: &Vec<Element>, catalog: &MessageCatalog, locale: &str) -> (r: RenderOutput)
    ensures
        r.html@ == output_of(render_elements(models_of(elements@), initial_state(), catalog.messages@, locale@)),
        r.footnotes@.map_values(|f: String| f@) == render_elements(
            models_of(elements@),
            initial_state(),
            catalog.messages@,
            locale@,
        ).footnotes,
{
    let mut ctx = RenderContext::new(catalog, locale);
    proof {
        assert(ctx.model().deferred =~= initial_state().deferred);
        assert(ctx.model().current =~= initial_state().current);
        assert(ctx.model().footnotes =~= initial_state().footnotes);
    }
    render_into(elements, &mut ctx);
    let html = finish(&ctx);
    RenderOutput { html, footnotes: ctx.footnotes }
}


/// The footnote bodies of an element, in walk order.
pub open spec fn footnote_bodies(e: ElementModel) -> Seq<Seq<char>>
    decreases e,
{
    match e {
        ElementModel::Container(_, children, _) => footnote_bodies_of(children),
        ElementModel::Footnote(body) => seq![body],
        _ => seq![],
    }
}

/// The footnote bodies of a sequence of elements, in walk order.
pub open spec fn footnote_bodies_of(es: Seq<ElementModel>) -> Seq<Seq<char>>
    decreases es,
{
    if es.len() == 0 {
        seq![]
    } else {
        proof {
            vstd::seq::axiom_seq_index_decreases(es, es.len() - 1);
            vstd::seq::axiom_seq_subrange_decreases(es, 0, es.len() - 1);
        }
        footnote_bodies_of(es.drop_last()) + footnote_bodies(es.last())
    }
}

/// Whether an element holds a footnote list.
pub open spec fn has_footnote_block(e: ElementModel) -> bool
    decreases e,
{
    match e {
        ElementModel::Container(_, children, _) => any_footnote_block(children),
        ElementModel::FootnoteBlock(_) => true,
        _ => false,
    }
}

/// Whether a sequence of elements holds a footnote list.
pub open spec fn any_footnote_block(es: Seq<ElementModel>) -> bool
    decreases es,
{
    if es.len() == 0 {
        false
    } else {
        proof {
            vstd::seq::axiom_seq_index_decreases(es, es.len() - 1);
            vstd::seq::axiom_seq_subrange_decreases(es, 0, es.len() - 1);
        }
        any_footnote_block(es.drop_last()) || has_footnote_block(es.last())
    }
}

/// Rendering an element appends its footnote bodies, in walk order, to
/// those gathered before.
pub proof fn lemma_footnotes_appended(e: ElementModel, st: RenderModel, ms: Seq<Message>, locale: Seq<char>)
    ensures
        render_element(e, st, ms, locale).footnotes == st.footnotes + footnote_bodies(e),
    decreases e,
{
    match e {
        ElementModel::Container(ct, children, attrs) => {
            let opened = RenderModel {
                current: st.current + "<"@ + ct.spec_html_tag() + attrs_html(attrs) + ">"@,
                ..st
            };
            lemma_footnotes_appended_seq(children, opened, ms, locale);
        },
        ElementModel::Footnote(body) => {
            assert(st.footnotes.push(body) =~= st.footnotes + seq![body]);
        },
        _ => {
            assert(st.footnotes + seq![] =~= st.footnotes);
        },
    }
}

/// Rendering a sequence appends its footnote bodies, in walk order, to
/// those gathered before.
pub proof fn lemma_footnotes_appended_seq(es: Seq<ElementModel>, st: RenderModel, ms: Seq<Message>, locale: Seq<char>)
    ensures
        render_elements(es, st, ms, locale).footnotes == st.footnotes + footnote_bodies_of(es),
    decreases es,
{
    if es.len() == 0 {
        assert(st.footnotes + seq![] =~= st.footnotes);
    } else {
        vstd::seq::axiom_seq_index_decreases(es, es.len() - 1);
        vstd::seq::axiom_seq_subrange_decreases(es, 0, es.len() - 1);
        lemma_footnotes_appended_seq(es.drop_last(), st, ms, locale);
        let mid = render_elements(es.drop_last(), st, ms, locale);
        lemma_footnotes_appended(es.last(), mid, ms, locale);
        assert(st.footnotes + footnote_bodies_of(es.drop_last()) + footnote_bodies(es.last())
            =~= st.footnotes + footnote_bodies_of(es));
    }
}

/// Footnote indices are 1-based and follow walk order: after a render pass
/// the bodies stand in the order their references were met, and the
/// reference met when `k` footnotes have been gathered is numbered `k + 1`.
pub proof fn lemma_footnote_indices(
    es: Seq<ElementModel>,
    ms: Seq<Message>,
    locale: Seq<char>,
    st: RenderModel,
    word: Seq<char>,
    body: Seq<char>,
)
    ensures
        render_elements(es, initial_state(), ms, locale).footnotes == footnote_bodies_of(es),
        footnote_step(st, word, body).footnotes.len() == st.footnotes.len() + 1,
        footnote_step(st, word, body).footnotes.last() == body,
        footnote_step(st, word, body).current == st.current + footnote_ref_html(
            (st.footnotes.len() + 1) as nat,
            word,
            body,
        ),
{
    lemma_footnotes_appended_seq(es, initial_state(), ms, locale);
    assert(initial_state().footnotes + footnote_bodies_of(es) =~= footnote_bodies_of(es));
}

/// An element without a footnote list sets no output aside.
pub proof fn lemma_no_block_no_list(e: ElementModel, st: RenderModel, ms: Seq<Message>, locale: Seq<char>)
    requires
        !has_footnote_block(e),
    ensures
        render_element(e, st, ms, locale).deferred == st.deferred,
    decreases e,
{
    if let ElementModel::Container(ct, children, attrs) = e {
        let opened = RenderModel {
            current: st.current + "<"@ + ct.spec_html_tag() + attrs_html(attrs) + ">"@,
            ..st
        };
        lemma_no_block_no_list_seq(children, opened, ms, locale);
    }
}

/// A sequence without a footnote list sets no output aside.
pub proof fn lemma_no_block_no_list_seq(es: Seq<ElementModel>, st: RenderModel, ms: Seq<Message>, locale: Seq<char>)
    requires
        !any_footnote_block(es),
    ensures
        render_elements(es, st, ms, locale).deferred == st.deferred,
    decreases es,
{
    if es.len() > 0 {
        vstd::seq::axiom_seq_index_decreases(es, es.len() - 1);
        vstd::seq::axiom_seq_subrange_decreases(es, 0, es.len() - 1);
        lemma_no_block_no_list_seq(es.drop_last(), st, ms, locale);
        lemma_no_block_no_list(es.last(), render_elements(es.drop_last(), st, ms, locale), ms, locale);
    }
}

/// Without a footnote list in the tree the output is the inline output
/// alone: the gathered footnotes are dropped, and nothing fails.
pub proof fn lemma_footnote_list_omitted(es: Seq<ElementModel>, ms: Seq<Message>, locale: Seq<char>)
    requires
        !any_footnote_block(es),
    ensures
        output_of(render_elements(es, initial_state(), ms, locale)) == render_elements(
            es,
            initial_state(),
            ms,
            locale,
        ).current,
{
    lemma_no_block_no_list_seq(es, initial_state(), ms, locale);
    let fin = render_elements(es, initial_state(), ms, locale);
    assert(assembled(fin.deferred, fin.footnotes) =~= seq![]);
    assert(seq![] + fin.current =~= fin.current);
}

/// An attribute whose key a container does not know renders inert, under a
/// `data-` prefix, inside a container tag that is opened and closed.
pub proof fn lemma_unknown_attribute_inert(
    ct: ContainerType,
    children: Seq<ElementModel>,
    attrs: AttrsModel,
    st: RenderModel,
    ms: Seq<Message>,
    locale: Seq<char>,
    k: Seq<char>,
    v: Seq<char>,
)
    requires
        !known_argument(RuleKind::Container(ct), k),
    ensures
        attr_html(k, v) == " data-"@ + attr_name(k) + "=\""@ + escape(v) + "\""@,
        ({
            let opened = RenderModel {
                current: st.current + "<"@ + ct.spec_html_tag() + attrs_html(attrs) + ">"@,
                ..st
            };
            let inner = render_elements(children, opened, ms, locale);
            render_element(ElementModel::Container(ct, children, attrs), st, ms, locale).current
                == inner.current + "</"@ + ct.spec_html_tag() + ">"@
        }),
{
}


/// Footnote indices rise by one per reference, whatever stands between
/// them: after a reference numbered `i`, the next reference met after
/// elements `es` is numbered `i + 1 + k`, where `k` counts the references
/// inside `es`; with none inside, it is `i + 1`.
pub proof fn lemma_next_footnote_index(
    st: RenderModel,
    word: Seq<char>,
    body: Seq<char>,
    es: Seq<ElementModel>,
    ms: Seq<Message>,
    locale: Seq<char>,
)
    ensures
        ({
            let first = st.footnotes.len() + 1;
            let after = render_elements(es, footnote_step(st, word, body), ms, locale);
            &&& after.footnotes.len() + 1 == first + 1 + footnote_bodies_of(es).len()
            &&& footnote_bodies_of(es).len() == 0 ==> after.footnotes.len() + 1 == first + 1
        }),
{
    lemma_footnotes_appended_seq(es, footnote_step(st, word, body), ms, locale);
}

} // verus!
